//! The lexer: turns source text into tokens, proved to yield exactly the
//! tokens that `lexing::lex` defines (and to fail exactly where it yields
//! none).
use vstd::prelude::*;

use crate::lexing::{
    char_token, decimal_value, digit_value, eof_token, is_alpha, is_alphanumeric, is_digit,
    lemma_decimal_value_extend, lemma_scan_token_forward, lemma_skip_digits_digits,
    lemma_lex_at_end, lemma_skip_trivia_forward, lemma_skip_trivia_stops, lex_from,
    make_token, number_token, operator_token, peek, peek_next, scan_number, scan_string_body,
    scan_token, skip_digits, skip_trivia, skip_word, start_cursor, step, string_token, unescape,
    word_token, Cursor, TriviaMode,
};
use crate::token::{
    chars_of, keyword_of, tokens_model, LiteralModel, LiteralValue, LocationModel, SourceLocation,
    Token, TokenModel, TokenType,
};

verus! {

/// Appends `c` to `s` with `String::push`. Trusted: the contract claims that
/// afterwards the string holds the characters it held before, then `c`.
#[verifier::external_body]
fn push_char(s: &mut String, c: char)
    ensures
        final(s)@ == old(s)@.push(c),
{
    s.push(c);
}

/// The longest source text (in characters) whose lines and columns the
/// lexer's counters can hold.
pub open spec fn max_source_len() -> nat {
    (usize::MAX / 4) as nat
}

/// The tokens `prefix`, followed by the tokens of `rest` if there are any.
pub open spec fn after_prefix(prefix: Seq<TokenModel>, rest: Option<Seq<TokenModel>>) -> Option<Seq<TokenModel>> {
    match rest {
        Some(r) => Some(prefix + r),
        None => None,
    }
}

/// A lexer over one source text.
pub struct Lexer<'a> {
    source: &'a str,
    filename: &'a str,
    chars: Vec<char>,
    pos: usize,
    line: usize,
    column: usize,
    token_start: usize,
    token_start_line: usize,
    token_start_column: usize,
    tokens: Vec<Token<'a>>,
}

impl<'a> Lexer<'a> {
    /// The source text.
    pub closed spec fn text(&self) -> Seq<char> {
        self.source@
    }

    /// The name of the file the text comes from.
    pub closed spec fn file(&self) -> Seq<char> {
        self.filename@
    }

    /// Where the lexer stands in the text.
    pub closed spec fn cursor(&self) -> Cursor {
        Cursor { pos: self.pos as nat, line: self.line as nat, column: self.column as nat }
    }

    /// Where the token being scanned starts.
    pub closed spec fn token_start(&self) -> Cursor {
        self.start()
    }

    /// The tokens scanned so far and not yet handed out.
    pub closed spec fn pending(&self) -> Seq<TokenModel> {
        tokens_model(self.tokens@)
    }

    /// The lexer's invariant between calls.
    pub closed spec fn wf(&self) -> bool {
        &&& self.inv()
        &&& self.tokens@.len() == 0
    }

    spec fn inv(&self) -> bool {
        &&& self.chars@ == self.source@
        &&& self.chars@.len() <= max_source_len()
        &&& self.pos <= self.chars@.len()
        &&& self.line <= self.pos + 1
        &&& self.column <= 3 * self.pos + 1
        &&& self.token_start <= self.pos
        &&& self.token_start_line <= self.token_start + 1
        &&& self.token_start_column <= 3 * self.token_start + 1
    }

    spec fn cur(&self) -> Cursor {
        Cursor { pos: self.pos as nat, line: self.line as nat, column: self.column as nat }
    }

    spec fn start(&self) -> Cursor {
        Cursor {
            pos: self.token_start as nat,
            line: self.token_start_line as nat,
            column: self.token_start_column as nat,
        }
    }

    /// `self` and `other` differ at most in the cursor.
    spec fn same_but_cursor(&self, other: &Self) -> bool {
        &&& self.source == other.source
        &&& self.filename == other.filename
        &&& self.chars == other.chars
        &&& self.token_start == other.token_start
        &&& self.token_start_line == other.token_start_line
        &&& self.token_start_column == other.token_start_column
        &&& self.tokens == other.tokens
    }

    /// `self` and `other` differ at most in the cursor and the tokens.
    spec fn same_text(&self, other: &Self) -> bool {
        &&& self.source == other.source
        &&& self.filename == other.filename
        &&& self.chars == other.chars
        &&& self.token_start == other.token_start
        &&& self.token_start_line == other.token_start_line
        &&& self.token_start_column == other.token_start_column
    }

    pub fn new(source: &'a str, filename: &'a str) -> (r: Self)
        requires
            source@.len() <= max_source_len(),
        ensures
            r.wf(),
            r.text() == source@,
            r.file() == filename@,
            r.cursor() == start_cursor(),
            r.token_start() == start_cursor(),
            r.pending() == Seq::<TokenModel>::empty(),
    {
        let chars = chars_of(source);
        let r = Self {
            source,
            filename,
            chars,
            pos: 0,
            line: 1,
            column: 1,
            token_start: 0,
            token_start_line: 1,
            token_start_column: 1,
            tokens: Vec::new(),
        };
        assert(r.pending() =~= Seq::<TokenModel>::empty());
        r
    }

    fn is_at_end(&self) -> (r: bool)
        requires
            self.inv(),
        ensures
            r == (self.pos >= self.chars@.len()),
    {
        self.pos >= self.chars.len()
    }

    fn peek(&self) -> (r: char)
        requires
            self.inv(),
        ensures
            r == peek(self.chars@, self.pos as nat),
    {
        if self.is_at_end() {
            '\0'
        } else {
            self.chars[self.pos]
        }
    }

    fn peek_next(&self) -> (r: char)
        requires
            self.inv(),
        ensures
            r == peek_next(self.chars@, self.pos as nat),
    {
        if self.pos + 1 < self.chars.len() {
            self.chars[self.pos + 1]
        } else {
            '\0'
        }
    }

    fn advance(&mut self) -> (r: char)
        requires
            old(self).inv(),
            old(self).pos < old(self).chars@.len(),
        ensures
            final(self).inv(),
            final(self).same_but_cursor(old(self)),
            final(self).cur() == step(old(self).chars@, old(self).cur()),
            r == old(self).chars@[old(self).pos as int],
    {
        let c = self.chars[self.pos];
        self.pos = self.pos + 1;
        if c == '\n' {
            self.line = self.line + 1;
            self.column = 1;
        } else {
            self.column = self.column + 1;
        }
        c
    }

    fn concord(&mut self, expected: char) -> (r: bool)
        requires
            old(self).inv(),
        ensures
            final(self).inv(),
            final(self).same_but_cursor(old(self)),
            r == (old(self).pos < old(self).chars@.len() && old(self).chars@[old(self).pos as int]
                == expected),
            final(self).cur() == if r {
                step(old(self).chars@, old(self).cur())
            } else {
                old(self).cur()
            },
    {
        if self.is_at_end() || self.peek() != expected {
            return false;
        }
        self.advance();
        true
    }

    fn make_token(&mut self, token_type: TokenType, lexeme: &'a str, value: LiteralValue)
        requires
            old(self).inv(),
        ensures
            final(self).inv(),
            final(self).same_text(old(self)),
            final(self).cur() == old(self).cur(),
            tokens_model(final(self).tokens@) == tokens_model(old(self).tokens@).push(
                TokenModel {
                    kind: token_type,
                    lexeme: lexeme@,
                    value: value@,
                    location: LocationModel {
                        filename: old(self).filename@,
                        line: old(self).token_start_line as nat,
                        column: old(self).token_start_column as nat,
                    },
                },
            ),
    {
        let location = SourceLocation::new(
            self.filename,
            self.token_start_line,
            self.token_start_column,
        );
        let token = Token { token_type, lexeme, location, value };
        let ghost old_tokens = self.tokens@;
        self.tokens.push(token);
        assert(tokens_model(self.tokens@) =~= tokens_model(old_tokens).push(token@));
    }

    fn make_token_auto(&mut self, token_type: TokenType, value: LiteralValue)
        requires
            old(self).inv(),
        ensures
            final(self).inv(),
            final(self).same_text(old(self)),
            final(self).cur() == old(self).cur(),
            tokens_model(final(self).tokens@) == tokens_model(old(self).tokens@).push(
                make_token(
                    old(self).chars@,
                    old(self).filename@,
                    old(self).start(),
                    token_type,
                    value@,
                    old(self).cur(),
                ),
            ),
    {
        let lexeme = self.source.substring_char(self.token_start, self.pos);
        self.make_token(token_type, lexeme, value)
    }

    fn skip_whitespace_and_comments(&mut self)
        requires
            old(self).inv(),
        ensures
            final(self).inv(),
            final(self).same_but_cursor(old(self)),
            final(self).cur() == skip_trivia(old(self).chars@, old(self).cur(), TriviaMode::Code),
    {
        let ghost s = self.chars@;
        let ghost target = skip_trivia(s, self.cur(), TriviaMode::Code);
        let ghost first = *self;
        while !self.is_at_end()
            invariant
                self.inv(),
                self.same_but_cursor(&first),
                self.chars@ == s,
                skip_trivia(s, self.cur(), TriviaMode::Code) == target,
            ensures
                self.inv(),
                self.same_but_cursor(&first),
                self.cur() == target,
            decreases s.len() - self.pos,
        {
            let ghost p0 = self.pos;
            let c = self.peek();
            if c == ' ' || c == '\t' || c == '\r' || c == '\n' {
                self.advance();
                continue;
            }
            if c == '/' {
                if self.peek_next() == '/' {
                    // Line comment: everything up to the end of the line.
                    self.advance();
                    while self.peek() != '\n' && !self.is_at_end()
                        invariant
                            self.inv(),
                            self.same_but_cursor(&first),
                            self.chars@ == s,
                            skip_trivia(s, self.cur(), TriviaMode::LineComment) == target,
                            self.pos > p0,
                        decreases s.len() - self.pos,
                    {
                        self.advance();
                    }
                } else if self.peek_next() == '*' {
                    // Block comment: everything up to the first `*/`.
                    self.advance();
                    self.advance();
                    while !self.is_at_end()
                        invariant_except_break
                            self.inv(),
                            self.same_but_cursor(&first),
                            self.chars@ == s,
                            skip_trivia(s, self.cur(), TriviaMode::BlockComment) == target,
                            self.pos > p0,
                        ensures
                            self.inv(),
                            self.same_but_cursor(&first),
                            self.chars@ == s,
                            skip_trivia(s, self.cur(), TriviaMode::Code) == target,
                            self.pos > p0,
                        decreases s.len() - self.pos,
                    {
                        if self.peek() == '*' && self.peek_next() == '/' {
                            self.advance();
                            self.advance();
                            break;
                        }
                        self.advance();
                    }
                } else {
                    break;
                }
            } else {
                break;
            }
        }
    }

    fn skip_digits(&mut self)
        requires
            old(self).inv(),
        ensures
            final(self).inv(),
            final(self).same_but_cursor(old(self)),
            final(self).cur() == skip_digits(old(self).chars@, old(self).cur()),
    {
        let ghost s = self.chars@;
        let ghost target = skip_digits(s, self.cur());
        let ghost first = *self;
        while Self::is_digit(self.peek())
            invariant
                self.inv(),
                self.same_but_cursor(&first),
                self.chars@ == s,
                skip_digits(s, self.cur()) == target,
            decreases s.len() - self.pos,
        {
            self.advance();
        }
    }

    fn scan_identifier(&mut self)
        requires
            old(self).inv(),
            old(self).token_start < old(self).pos,
        ensures
            final(self).inv(),
            final(self).same_text(old(self)),
            final(self).scanned(old(self), true, word_token(old(self).chars@, old(self).start(), old(self).cur())),
    {
        let ghost s = self.chars@;
        let ghost target = skip_word(s, self.cur());
        let ghost first = *self;
        while Self::is_alphanumeric(self.peek())
            invariant
                self.inv(),
                self.same_but_cursor(&first),
                self.chars@ == s,
                skip_word(s, self.cur()) == target,
            decreases s.len() - self.pos,
        {
            self.advance();
        }
        if let Some(t_type) = keyword_of(&self.chars, self.token_start, self.pos) {
            return self.make_token_auto(t_type, LiteralValue::Empty);
        }
        self.make_token_auto(TokenType::IDENTIFIER, LiteralValue::Empty)
    }

    /// After a token scan that started from `old`, whose outcome the spec
    /// gives as `res`: on success the token was appended and the cursor
    /// stands after it; on failure the result is `false`.
    spec fn scanned(&self, old: &Self, r: bool, res: Option<(TokenType, LiteralModel, Cursor)>) -> bool {
        match res {
            Some((kind, value, e)) => {
                &&& r
                &&& self.cur() == e
                &&& tokens_model(self.tokens@) == tokens_model(old.tokens@).push(
                    make_token(old.chars@, old.filename@, old.start(), kind, value, e),
                )
            },
            None => !r,
        }
    }

    fn try_scan_number(&mut self) -> (r: bool)
        requires
            old(self).inv(),
            old(self).pos == old(self).token_start + 1,
            is_digit(old(self).chars@[old(self).token_start as int]),
        ensures
            final(self).inv(),
            final(self).same_text(old(self)),
            final(self).scanned(old(self), r, number_token(old(self).chars@, old(self).start(), old(self).cur())),
    {
        let ghost s = self.chars@;
        let ghost c0 = self.cur();
        let mut is_float = false;

        // Integer part
        self.skip_digits();
        let ghost int_end = self.cur();
        proof { lemma_skip_digits_digits(s, c0); }

        // Fractional part
        if self.peek() == '.' && Self::is_digit(self.peek_next()) {
            is_float = true;
            self.advance();
            self.skip_digits();
        }
        let ghost frac_end = self.cur();

        // Exponent
        let mut well_formed = true;
        if self.peek() == 'e' || self.peek() == 'E' {
            let next = self.peek_next();
            if Self::is_digit(next) || next == '+' || next == '-' {
                is_float = true;
                self.advance();
                if self.peek() == '+' || self.peek() == '-' {
                    self.advance();
                }
                let digits_start = self.pos;
                self.skip_digits();
                well_formed = self.pos > digits_start;
            }
        }
        assert(scan_number(s, c0) == (self.cur(), is_float, well_formed));

        let text = self.source.substring_char(self.token_start, self.pos);
        if is_float {
            if !well_formed {
                // an exponent sign without digits is not a number
                return false;
            }
            self.make_token(TokenType::FLOAT, text, LiteralValue::Float(text.to_owned()));
            true
        } else {
            assert forall|i: int| self.token_start <= i < self.pos implies is_digit(#[trigger] s[i]) by {
                if i > self.token_start {
                    assert(c0.pos <= i < skip_digits(s, c0).pos);
                }
            }
            match decimal_of(&self.chars, self.token_start, self.pos) {
                Some(value) => {
                    self.make_token(TokenType::INTEGER, text, LiteralValue::Integer(value));
                    true
                },
                // the literal does not fit in an i64
                None => false,
            }
        }
    }

    fn try_scan_string(&mut self) -> (r: bool)
        requires
            old(self).inv(),
            old(self).token_start < old(self).pos,
        ensures
            final(self).inv(),
            final(self).same_text(old(self)),
            final(self).scanned(old(self), r, string_token(old(self).chars@, old(self).cur())),
    {
        let ghost s = self.chars@;
        let ghost target = scan_string_body(s, self.cur(), Seq::empty());
        let ghost first = *self;
        let mut value = String::new();
        while self.peek() != '"' && !self.is_at_end()
            invariant
                self.inv(),
                self.same_but_cursor(&first),
                first == *old(self),
                self.chars@ == s,
                target == scan_string_body(s, old(self).cur(), Seq::empty()),
                scan_string_body(s, self.cur(), value@) == target,
            ensures
                self.inv(),
                self.same_but_cursor(&first),
                self.chars@ == s,
                scan_string_body(s, self.cur(), value@) == target,
                self.pos >= s.len() || s[self.pos as int] == '"',
            decreases s.len() - self.pos,
        {
            if self.peek() == '\n' {
                // a string may not span lines
                return false;
            }
            if self.peek() == '\\' {
                self.advance();
                if self.is_at_end() {
                    break;
                }
                let escaped = self.advance();
                push_char(&mut value, Self::unescape(escaped));
            } else {
                let c = self.advance();
                push_char(&mut value, c);
            }
        }
        if self.is_at_end() {
            // unterminated string
            return false;
        }
        self.advance();
        self.make_token_auto(TokenType::STRING, LiteralValue::String(value));
        true
    }

    fn try_scan_char(&mut self) -> (r: bool)
        requires
            old(self).inv(),
            old(self).token_start < old(self).pos,
        ensures
            final(self).inv(),
            final(self).same_text(old(self)),
            final(self).scanned(old(self), r, char_token(old(self).chars@, old(self).cur())),
    {
        if self.is_at_end() {
            return false;
        }
        let value = if self.peek() == '\\' {
            self.advance();
            if self.is_at_end() {
                return false;
            }
            let escaped = self.advance();
            Self::unescape(escaped)
        } else {
            self.advance()
        };
        if self.peek() != '\'' {
            // unterminated character literal
            return false;
        }
        self.advance();
        self.make_token_auto(TokenType::CHAR_LIT, LiteralValue::Char(value));
        true
    }

    fn unescape(c: char) -> (r: char)
        ensures
            r == unescape(c),
    {
        if c == 'n' {
            '\n'
        } else if c == 't' {
            '\t'
        } else if c == 'r' {
            '\r'
        } else if c == '0' {
            '\0'
        } else {
            c
        }
    }

    fn try_scan_operator(&mut self, c: char) -> (r: bool)
        requires
            old(self).inv(),
            old(self).pos == old(self).token_start + 1,
            old(self).line == old(self).token_start_line,
            old(self).column == old(self).token_start_column + 1,
            c != '\n',
        ensures
            final(self).inv(),
            final(self).same_text(old(self)),
            final(self).scanned(old(self), r, operator_token(old(self).chars@, c, old(self).cur())),
    {
        if c == '(' {
            self.make_token_auto(TokenType::LPAREN, LiteralValue::Empty);
        } else if c == ')' {
            self.make_token_auto(TokenType::RPAREN, LiteralValue::Empty);
        } else if c == '{' {
            self.make_token_auto(TokenType::LBRACE, LiteralValue::Empty);
        } else if c == '}' {
            self.make_token_auto(TokenType::RBRACE, LiteralValue::Empty);
        } else if c == '[' {
            self.make_token_auto(TokenType::LBRACKET, LiteralValue::Empty);
        } else if c == ']' {
            self.make_token_auto(TokenType::RBRACKET, LiteralValue::Empty);
        } else if c == ';' {
            self.make_token_auto(TokenType::SEMICOLON, LiteralValue::Empty);
        } else if c == ',' {
            self.make_token_auto(TokenType::COMMA, LiteralValue::Empty);
        } else if c == '.' {
            self.make_token_auto(TokenType::DOT, LiteralValue::Empty);
        } else if c == '+' {
            self.make_token_auto(TokenType::PLUS, LiteralValue::Empty);
        } else if c == '%' {
            self.make_token_auto(TokenType::PERCENT, LiteralValue::Empty);
        } else if c == '*' {
            self.make_token_auto(TokenType::STAR, LiteralValue::Empty);
        } else if c == '-' {
            if self.concord('>') {
                self.make_token_auto(TokenType::ARROW, LiteralValue::Empty);
            } else {
                self.make_token_auto(TokenType::MINUS, LiteralValue::Empty);
            }
        } else if c == '!' {
            if self.concord('=') {
                self.make_token_auto(TokenType::BANG_EQ, LiteralValue::Empty);
            } else {
                self.make_token_auto(TokenType::BANG, LiteralValue::Empty);
            }
        } else if c == '=' {
            if self.concord('=') {
                self.make_token_auto(TokenType::EQ_EQ, LiteralValue::Empty);
            } else {
                self.make_token_auto(TokenType::EQ, LiteralValue::Empty);
            }
        } else if c == '<' {
            if self.concord('=') {
                self.make_token_auto(TokenType::LT_EQ, LiteralValue::Empty);
            } else {
                self.make_token_auto(TokenType::LT, LiteralValue::Empty);
            }
        } else if c == '>' {
            if self.concord('=') {
                self.make_token_auto(TokenType::GT_EQ, LiteralValue::Empty);
            } else {
                self.make_token_auto(TokenType::GT, LiteralValue::Empty);
            }
        } else if c == '&' {
            if self.concord('&') {
                self.make_token_auto(TokenType::AND_AND, LiteralValue::Empty);
            } else {
                // `&mut`
                if self.peek() == 'm' && self.peek_next() == 'u' {
                    let saved_pos = self.pos;
                    self.advance();
                    self.advance();
                    if self.peek() == 't' && !Self::is_alphanumeric(self.peek_next()) {
                        self.advance();
                        self.make_token_auto(TokenType::AMP_MUT, LiteralValue::Empty);
                        return true;
                    }
                    // go back to just after `&`; line and column are not restored
                    self.pos = saved_pos;
                }
                self.make_token_auto(TokenType::AMP, LiteralValue::Empty);
            }
        } else if c == '|' {
            if self.concord('|') {
                self.make_token_auto(TokenType::OR_OR, LiteralValue::Empty);
            } else {
                // a single `|` is not a token
                return false;
            }
        } else if c == ':' {
            if self.concord(':') {
                self.make_token_auto(TokenType::COLON_COLON, LiteralValue::Empty);
            } else {
                self.make_token_auto(TokenType::COLON, LiteralValue::Empty);
            }
        } else if c == '/' {
            // comments were skipped before the token
            self.make_token_auto(TokenType::SLASH, LiteralValue::Empty);
        } else {
            // unexpected character
            return false;
        }
        true
    }

    fn scan_token(&mut self)
        requires
            old(self).inv(),
            old(self).pos < old(self).chars@.len(),
            old(self).token_start == old(self).pos,
            old(self).token_start_line == old(self).line,
            old(self).token_start_column == old(self).column,
            scan_token(old(self).chars@, old(self).cur()) is Some,
        ensures
            final(self).inv(),
            final(self).same_text(old(self)),
            final(self).scanned(old(self), true, scan_token(old(self).chars@, old(self).cur())),
    {
        let c = self.advance();

        // Identifiers and keywords
        if Self::is_alpha(c) {
            return self.scan_identifier();
        }
        // Numbers
        if Self::is_digit(c) {
            return self.scan_number();
        }
        // Strings
        if c == '"' {
            return self.scan_string();
        }
        // Characters
        if c == '\'' {
            return self.scan_char();
        }
        // Operators and delimiters
        self.scan_operator(c)
    }

    fn scan_number(&mut self)
        requires
            old(self).inv(),
            old(self).pos == old(self).token_start + 1,
            is_digit(old(self).chars@[old(self).token_start as int]),
            number_token(old(self).chars@, old(self).start(), old(self).cur()) is Some,
        ensures
            final(self).inv(),
            final(self).same_text(old(self)),
            final(self).scanned(old(self), true, number_token(old(self).chars@, old(self).start(), old(self).cur())),
    {
        self.try_scan_number();
    }

    fn scan_string(&mut self)
        requires
            old(self).inv(),
            old(self).token_start < old(self).pos,
            string_token(old(self).chars@, old(self).cur()) is Some,
        ensures
            final(self).inv(),
            final(self).same_text(old(self)),
            final(self).scanned(old(self), true, string_token(old(self).chars@, old(self).cur())),
    {
        self.try_scan_string();
    }

    fn scan_char(&mut self)
        requires
            old(self).inv(),
            old(self).token_start < old(self).pos,
            char_token(old(self).chars@, old(self).cur()) is Some,
        ensures
            final(self).inv(),
            final(self).same_text(old(self)),
            final(self).scanned(old(self), true, char_token(old(self).chars@, old(self).cur())),
    {
        self.try_scan_char();
    }

    fn scan_operator(&mut self, c: char)
        requires
            old(self).inv(),
            old(self).pos == old(self).token_start + 1,
            old(self).line == old(self).token_start_line,
            old(self).column == old(self).token_start_column + 1,
            operator_token(old(self).chars@, c, old(self).cur()) is Some,
        ensures
            final(self).inv(),
            final(self).same_text(old(self)),
            final(self).scanned(old(self), true, operator_token(old(self).chars@, c, old(self).cur())),
    {
        self.try_scan_operator(c);
    }

    fn try_scan_token(&mut self) -> (r: bool)
        requires
            old(self).inv(),
            old(self).pos < old(self).chars@.len(),
            old(self).token_start == old(self).pos,
            old(self).token_start_line == old(self).line,
            old(self).token_start_column == old(self).column,
        ensures
            final(self).inv(),
            final(self).same_text(old(self)),
            final(self).scanned(old(self), r, scan_token(old(self).chars@, old(self).cur())),
    {
        let c = self.advance();

        // Identifiers and keywords
        if Self::is_alpha(c) {
            self.scan_identifier();
            return true;
        }
        // Numbers
        if Self::is_digit(c) {
            return self.try_scan_number();
        }
        // Strings
        if c == '"' {
            return self.try_scan_string();
        }
        // Characters
        if c == '\'' {
            return self.try_scan_char();
        }
        // Operators and delimiters
        if c == '\n' {
            return false;
        }
        self.try_scan_operator(c)
    }

    /// Appends the end-of-input token at the cursor and hands out all the
    /// tokens scanned.
    fn take_tokens_with_end(&mut self) -> (r: Vec<Token<'a>>)
        requires
            old(self).inv(),
        ensures
            final(self).inv(),
            final(self).same_text(old(self)),
            final(self).cur() == old(self).cur(),
            final(self).pending() == Seq::<TokenModel>::empty(),
            tokens_model(r@) == tokens_model(old(self).tokens@) + seq![eof_token(old(self).filename@, old(self).cur())],
    {
        let ghost f = self.filename@;
        proof {
            reveal_strlit("");
        }
        let ghost prefix = tokens_model(self.tokens@);
        let location = SourceLocation::new(self.filename, self.line, self.column);
        let eof = Token {
            token_type: TokenType::END_OF_FILE,
            lexeme: "",
            value: LiteralValue::Empty,
            location,
        };
        assert(eof.lexeme@ =~= Seq::<char>::empty());
        assert(eof@ == eof_token(f, self.cur()));
        let ghost old_tokens = self.tokens@;
        self.tokens.push(eof);
        assert(tokens_model(self.tokens@) =~= prefix.push(eof_token(f, self.cur())));
        assert(prefix + seq![eof_token(f, self.cur())] =~= prefix.push(eof_token(f, self.cur())));
        let mut tokens: Vec<Token<'a>> = Vec::new();
        std::mem::swap(&mut tokens, &mut self.tokens);
        assert(self.pending() =~= Seq::<TokenModel>::empty());
        tokens
    }

    /// Lexes the rest of the text: the tokens, ending with the end-of-input
    /// token, or `None` where the text has no token to scan (an unexpected
    /// character, an unterminated string or character literal, an integer
    /// above `i64::MAX`, an exponent without digits).
    pub fn try_tokenize(&mut self) -> (r: Option<Vec<Token<'a>>>)
        requires
            old(self).wf(),
        ensures
            final(self).wf(),
            final(self).text() == old(self).text(),
            final(self).file() == old(self).file(),
            lex_from(old(self).text(), old(self).file(), old(self).cursor()) == match r {
                Some(tokens) => Some(tokens_model(tokens@)),
                None => None,
            },
            r is Some ==> final(self).cursor().pos == final(self).text().len(),
            r matches Some(tokens) ==> final(self).cursor().line == tokens@.last()@.location.line
                && final(self).cursor().column == tokens@.last()@.location.column,
            final(self).pending() == Seq::<TokenModel>::empty(),
            r is Some ==> lex_from(final(self).text(), final(self).file(), final(self).cursor())
                == Some(seq![eof_token(final(self).file(), final(self).cursor())]),
    {
        let ghost s = self.chars@;
        let ghost f = self.filename@;
        let ghost goal = lex_from(s, f, self.cur());
        assert(tokens_model(self.tokens@) =~= Seq::<TokenModel>::empty());
        assert(after_prefix(tokens_model(self.tokens@), goal) == goal) by {
            if let Some(g) = goal {
                assert(tokens_model(self.tokens@) + g =~= g);
            }
        }
        while !self.is_at_end()
            invariant_except_break
                self.inv(),
                self.chars@ == s,
                self.filename@ == f,
                self.source@ == old(self).source@,
                self.filename == old(self).filename,
                goal == lex_from(s, f, old(self).cur()),
                goal == after_prefix(tokens_model(self.tokens@), lex_from(s, f, self.cur())),
            ensures
                self.inv(),
                self.chars@ == s,
                self.filename@ == f,
                self.source@ == old(self).source@,
                self.filename == old(self).filename,
                goal == lex_from(s, f, old(self).cur()),
                goal == after_prefix(tokens_model(self.tokens@), lex_from(s, f, self.cur())),
                self.pos >= s.len(),
                skip_trivia(s, self.cur(), TriviaMode::Code) == self.cur(),
            decreases s.len() - self.pos,
        {
            let ghost before = self.cur();
            self.skip_whitespace_and_comments();
            proof {
                lemma_skip_trivia_stops(s, before, TriviaMode::Code);
                lemma_skip_trivia_forward(s, before, TriviaMode::Code);
            }
            assert(lex_from(s, f, self.cur()) == lex_from(s, f, before));
            if self.is_at_end() {
                break;
            }
            self.token_start = self.pos;
            self.token_start_line = self.line;
            self.token_start_column = self.column;
            let ghost prefix = tokens_model(self.tokens@);
            let ghost t = self.cur();
            proof {
                lemma_scan_token_forward(s, t);
            }
            if !self.try_scan_token() {
                self.tokens = Vec::new();
                assert(self.pending() =~= Seq::<TokenModel>::empty());
                return None;
            }
            proof {
                let rest = lex_from(s, f, self.cur());
                let tok = tokens_model(self.tokens@).last();
                if let Some(r) = rest {
                    assert(prefix.push(tok) + r =~= prefix + (seq![tok] + r));
                }
            }
        }
        let tokens = self.take_tokens_with_end();
        proof {
            lemma_lex_at_end(s, f, self.cur());
            let m = tokens_model(tokens@);
            assert(m[m.len() - 1] == eof_token(f, self.cur()));
            assert(tokens@.last()@ == m[m.len() - 1]);
        }
        Some(tokens)
    }

    /// Lexes the rest of the text into tokens ending with the end-of-input
    /// token.
    pub fn tokenize(&mut self) -> (r: Vec<Token<'a>>)
        requires
            old(self).wf(),
            lex_from(old(self).text(), old(self).file(), old(self).cursor()) is Some,
        ensures
            final(self).wf(),
            final(self).text() == old(self).text(),
            final(self).file() == old(self).file(),
            lex_from(old(self).text(), old(self).file(), old(self).cursor()) == Some(tokens_model(r@)),
            final(self).cursor().pos == final(self).text().len(),
            final(self).cursor().line == r@.last()@.location.line,
            final(self).cursor().column == r@.last()@.location.column,
            final(self).pending() == Seq::<TokenModel>::empty(),
            lex_from(final(self).text(), final(self).file(), final(self).cursor()) == Some(
                seq![eof_token(final(self).file(), final(self).cursor())],
            ),
    {
        let ghost s = self.chars@;
        let ghost f = self.filename@;
        let ghost goal = lex_from(s, f, self.cur());
        assert(tokens_model(self.tokens@) =~= Seq::<TokenModel>::empty());
        assert(after_prefix(tokens_model(self.tokens@), goal) == goal) by {
            if let Some(g) = goal {
                assert(tokens_model(self.tokens@) + g =~= g);
            }
        }
        while !self.is_at_end()
            invariant_except_break
                self.inv(),
                self.chars@ == s,
                self.filename@ == f,
                self.source@ == old(self).source@,
                self.filename == old(self).filename,
                goal == lex_from(s, f, old(self).cur()),
                goal is Some,
                goal == after_prefix(tokens_model(self.tokens@), lex_from(s, f, self.cur())),
            ensures
                self.inv(),
                self.chars@ == s,
                self.filename@ == f,
                self.source@ == old(self).source@,
                self.filename == old(self).filename,
                goal == lex_from(s, f, old(self).cur()),
                goal == after_prefix(tokens_model(self.tokens@), lex_from(s, f, self.cur())),
                self.pos >= s.len(),
                skip_trivia(s, self.cur(), TriviaMode::Code) == self.cur(),
            decreases s.len() - self.pos,
        {
            let ghost before = self.cur();
            self.skip_whitespace_and_comments();
            proof {
                lemma_skip_trivia_stops(s, before, TriviaMode::Code);
                lemma_skip_trivia_forward(s, before, TriviaMode::Code);
            }
            assert(lex_from(s, f, self.cur()) == lex_from(s, f, before));
            if self.is_at_end() {
                break;
            }
            self.token_start = self.pos;
            self.token_start_line = self.line;
            self.token_start_column = self.column;
            let ghost prefix = tokens_model(self.tokens@);
            let ghost t = self.cur();
            proof {
                lemma_scan_token_forward(s, t);
            }
            self.scan_token();
            proof {
                let rest = lex_from(s, f, self.cur());
                let tok = tokens_model(self.tokens@).last();
                if let Some(r) = rest {
                    assert(prefix.push(tok) + r =~= prefix + (seq![tok] + r));
                }
            }
        }
        let tokens = self.take_tokens_with_end();
        proof {
            lemma_lex_at_end(s, f, self.cur());
            let m = tokens_model(tokens@);
            assert(m[m.len() - 1] == eof_token(f, self.cur()));
            assert(tokens@.last()@ == m[m.len() - 1]);
        }
        tokens
    }

    fn is_digit(c: char) -> (r: bool)
        ensures
            r == is_digit(c),
    {
        c >= '0' && c <= '9'
    }

    fn is_alpha(c: char) -> (r: bool)
        ensures
            r == is_alpha(c),
    {
        (c >= 'a' && c <= 'z') || (c >= 'A' && c <= 'Z') || c == '_'
    }

    fn is_alphanumeric(c: char) -> (r: bool)
        ensures
            r == is_alphanumeric(c),
    {
        Self::is_alpha(c) || Self::is_digit(c)
    }
}

/// The value of the decimal digits `chars[start..end]`, or `None` when it
/// exceeds `i64::MAX`.
fn decimal_of(chars: &Vec<char>, start: usize, end: usize) -> (r: Option<i64>)
    requires
        start <= end <= chars@.len(),
        forall|i: int| start <= i < end ==> is_digit(#[trigger] chars@[i]),
    ensures
        r == (if decimal_value(chars@.subrange(start as int, end as int)) <= i64::MAX {
            Some(decimal_value(chars@.subrange(start as int, end as int)) as i64)
        } else {
            None
        }),
{
    let ghost s = chars@;
    let mut v: i64 = 0;
    let mut i = start;
    assert(s.subrange(start as int, start as int) =~= Seq::<char>::empty());
    while i < end
        invariant
            start <= i <= end <= s.len(),
            chars@ == s,
            forall|j: int| start <= j < end ==> is_digit(#[trigger] s[j]),
            v as int == decimal_value(s.subrange(start as int, i as int)),
            0 <= v,
        decreases end - i,
    {
        let c = chars[i];
        let d = (c as u32 - '0' as u32) as i64;
        assert(d == digit_value(c));
        assert(s.subrange(start as int, i + 1).drop_last() =~= s.subrange(start as int, i as int));
        if v > (i64::MAX - d) / 10 {
            assert(v * 10 + d > i64::MAX) by (nonlinear_arith)
                requires
                    v > (i64::MAX - d) / 10,
                    0 <= d <= 9,
            ;
            proof {
                let pre = s.subrange(start as int, i + 1);
                let more = s.subrange(i + 1, end as int);
                lemma_decimal_value_extend(pre, more);
                assert(pre + more =~= s.subrange(start as int, end as int));
            }
            return None;
        }
        assert(v * 10 + d <= i64::MAX) by (nonlinear_arith)
            requires
                v <= (i64::MAX - d) / 10,
                0 <= d <= 9,
        ;
        v = v * 10 + d;
        i = i + 1;
    }
    Some(v)
}

} // verus!
