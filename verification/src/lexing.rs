//! The mathematical definition of lexing: which tokens a source text
//! yields, and on which texts lexing fails.
use vstd::prelude::*;

use crate::token::{keyword, LiteralModel, LocationModel, TokenModel, TokenType};

verus! {

/// A place in the source: the index of the next character (counted in
/// characters) and the line and column the lexer reports there.
pub struct Cursor {
    pub pos: nat,
    pub line: nat,
    pub column: nat,
}

/// Where the cursor stands at the start of lexing.
pub open spec fn start_cursor() -> Cursor {
    Cursor { pos: 0, line: 1, column: 1 }
}

pub open spec fn is_digit(c: char) -> bool {
    '0' <= c && c <= '9'
}

pub open spec fn is_alpha(c: char) -> bool {
    ('a' <= c && c <= 'z') || ('A' <= c && c <= 'Z') || c == '_'
}

pub open spec fn is_alphanumeric(c: char) -> bool {
    is_alpha(c) || is_digit(c)
}

pub open spec fn is_blank(c: char) -> bool {
    c == ' ' || c == '\t' || c == '\r' || c == '\n'
}

/// The character at `p`, or `'\0'` past the end.
pub open spec fn peek(s: Seq<char>, p: nat) -> char {
    if p < s.len() {
        s[p as int]
    } else {
        '\0'
    }
}

/// The character after the one at `p`, or `'\0'` past the end.
pub open spec fn peek_next(s: Seq<char>, p: nat) -> char {
    if p + 1 < s.len() {
        s[p + 1int]
    } else {
        '\0'
    }
}

/// The cursor after consuming the character under it: a newline starts a
/// new line at column 1, any other character moves one column right.
pub open spec fn step(s: Seq<char>, c: Cursor) -> Cursor {
    if peek(s, c.pos) == '\n' {
        Cursor { pos: c.pos + 1, line: c.line + 1, column: 1 }
    } else {
        Cursor { pos: c.pos + 1, line: c.line, column: c.column + 1 }
    }
}

/// The number of newlines in `t`.
pub open spec fn newlines(t: Seq<char>) -> nat
    decreases t.len(),
{
    if t.len() == 0 {
        0
    } else {
        newlines(t.drop_last()) + if t.last() == '\n' {
            1nat
        } else {
            0nat
        }
    }
}

/// The number of characters after the last newline of `t` (all of them when
/// there is none).
pub open spec fn since_newline(t: Seq<char>) -> nat
    decreases t.len(),
{
    if t.len() == 0 {
        0
    } else if t.last() == '\n' {
        0
    } else {
        since_newline(t.drop_last()) + 1
    }
}

/// The cursor's line and column are those of its position: one more than
/// the newlines before it, and one more than the characters since the last
/// of them.
pub open spec fn tracks_lines(s: Seq<char>, c: Cursor) -> bool {
    &&& c.pos <= s.len()
    &&& c.line == 1 + newlines(s.take(c.pos as int))
    &&& c.column == 1 + since_newline(s.take(c.pos as int))
}

/// Position law: the start cursor counts lines and columns from the text,
/// and consuming a character keeps them counted from the text.
pub proof fn lemma_step_tracks_lines(s: Seq<char>, c: Cursor)
    ensures
        tracks_lines(s, start_cursor()),
        c.pos < s.len() && tracks_lines(s, c) ==> tracks_lines(s, step(s, c)),
{
    assert(s.take(0) =~= Seq::<char>::empty());
    if c.pos < s.len() {
        let t = s.take(c.pos + 1int);
        assert(t.drop_last() =~= s.take(c.pos as int));
        assert(t.last() == s[c.pos as int]);
    }
}

/// Whether the lexer is between tokens, inside a `//` comment or inside a
/// `/* */` comment.
pub enum TriviaMode {
    Code,
    LineComment,
    BlockComment,
}

pub open spec fn mode_rank(m: TriviaMode) -> int {
    match m {
        TriviaMode::Code => 0,
        _ => 1,
    }
}

/// Where skipping blanks and comments from `c` ends. A `//` comment runs to
/// the end of its line (the newline is left for the blank rule); a `/*`
/// comment runs to the first `*/`, or to the end of the input.
pub open spec fn skip_trivia(s: Seq<char>, c: Cursor, mode: TriviaMode) -> Cursor
    decreases s.len() - c.pos, mode_rank(mode),
{
    if c.pos >= s.len() {
        c
    } else {
        let ch = s[c.pos as int];
        match mode {
            TriviaMode::Code => {
                if is_blank(ch) {
                    skip_trivia(s, step(s, c), TriviaMode::Code)
                } else if ch == '/' && peek_next(s, c.pos) == '/' {
                    skip_trivia(s, step(s, c), TriviaMode::LineComment)
                } else if ch == '/' && peek_next(s, c.pos) == '*' {
                    skip_trivia(s, step(s, step(s, c)), TriviaMode::BlockComment)
                } else {
                    c
                }
            },
            TriviaMode::LineComment => {
                if ch != '\n' {
                    skip_trivia(s, step(s, c), TriviaMode::LineComment)
                } else {
                    skip_trivia(s, c, TriviaMode::Code)
                }
            },
            TriviaMode::BlockComment => {
                if ch == '*' && peek_next(s, c.pos) == '/' {
                    skip_trivia(s, step(s, step(s, c)), TriviaMode::Code)
                } else {
                    skip_trivia(s, step(s, c), TriviaMode::BlockComment)
                }
            },
        }
    }
}

/// Where a run of digits starting at `c` ends.
pub open spec fn skip_digits(s: Seq<char>, c: Cursor) -> Cursor
    decreases s.len() - c.pos,
{
    if c.pos < s.len() && is_digit(s[c.pos as int]) {
        skip_digits(s, step(s, c))
    } else {
        c
    }
}

/// Where a run of letters, digits and underscores starting at `c` ends.
pub open spec fn skip_word(s: Seq<char>, c: Cursor) -> Cursor
    decreases s.len() - c.pos,
{
    if c.pos < s.len() && is_alphanumeric(s[c.pos as int]) {
        skip_word(s, step(s, c))
    } else {
        c
    }
}

/// The value of a digit character.
pub open spec fn digit_value(c: char) -> int {
    (c as int) - ('0' as int)
}

/// The value of a string of decimal digits.
pub open spec fn decimal_value(ds: Seq<char>) -> int
    decreases ds.len(),
{
    if ds.len() == 0 {
        0
    } else {
        decimal_value(ds.drop_last()) * 10 + digit_value(ds.last())
    }
}

/// How a number literal is scanned from `c`, the cursor just after its first
/// digit: where it ends, whether it is a floating-point literal (a fraction
/// or an exponent), and whether its text is a well-formed number (an
/// exponent has at least one digit).
pub open spec fn scan_number(s: Seq<char>, c: Cursor) -> (Cursor, bool, bool) {
    let int_end = skip_digits(s, c);
    let has_fraction = peek(s, int_end.pos) == '.' && is_digit(peek_next(s, int_end.pos));
    let frac_end = if has_fraction {
        skip_digits(s, step(s, int_end))
    } else {
        int_end
    };
    let e = peek(s, frac_end.pos);
    let after = peek_next(s, frac_end.pos);
    if (e == 'e' || e == 'E') && (is_digit(after) || after == '+' || after == '-') {
        let after_e = step(s, frac_end);
        let sign = peek(s, after_e.pos);
        let after_sign = if sign == '+' || sign == '-' {
            step(s, after_e)
        } else {
            after_e
        };
        let exp_end = skip_digits(s, after_sign);
        (exp_end, true, exp_end.pos > after_sign.pos)
    } else {
        (frac_end, has_fraction, true)
    }
}

/// The character an escape sequence `\c` stands for.
pub open spec fn unescape(c: char) -> char {
    if c == 'n' {
        '\n'
    } else if c == 't' {
        '\t'
    } else if c == 'r' {
        '\r'
    } else if c == '0' {
        '\0'
    } else {
        c
    }
}

/// Scans the rest of a string literal from `c`, having read `acc` so far:
/// the cursor after the closing quote and the literal's value, or `None`
/// when the literal meets a raw newline or the end of the input.
pub open spec fn scan_string_body(s: Seq<char>, c: Cursor, acc: Seq<char>) -> Option<(Cursor, Seq<char>)>
    decreases s.len() - c.pos,
{
    if c.pos >= s.len() {
        None
    } else {
        let ch = s[c.pos as int];
        if ch == '"' {
            Some((step(s, c), acc))
        } else if ch == '\n' {
            None
        } else if ch == '\\' {
            let c1 = step(s, c);
            if c1.pos >= s.len() {
                None
            } else {
                scan_string_body(s, step(s, c1), acc.push(unescape(s[c1.pos as int])))
            }
        } else {
            scan_string_body(s, step(s, c), acc.push(ch))
        }
    }
}

/// After the character of a character literal: the closing quote must follow.
pub open spec fn close_char(s: Seq<char>, c: Cursor, v: char) -> Option<(Cursor, char)> {
    if peek(s, c.pos) == '\'' {
        Some((step(s, c), v))
    } else {
        None
    }
}

/// Scans the rest of a character literal from `c`, just after the opening
/// quote.
pub open spec fn scan_char_body(s: Seq<char>, c: Cursor) -> Option<(Cursor, char)> {
    if c.pos >= s.len() {
        None
    } else if s[c.pos as int] == '\\' {
        let c1 = step(s, c);
        if c1.pos >= s.len() {
            None
        } else {
            close_char(s, step(s, c1), unescape(s[c1.pos as int]))
        }
    } else {
        close_char(s, step(s, c), s[c.pos as int])
    }
}

/// Scans an operator or delimiter whose first character `ch` has been
/// consumed (`c1` is the cursor after it).
///
/// After `&` followed by `mu`, the lexer looks for `&mut`; when the word is
/// not exactly `mut` it goes back to just after `&`, but the line and column
/// stay where the look-ahead left them.
pub open spec fn scan_operator(s: Seq<char>, ch: char, c1: Cursor) -> Option<(TokenType, Cursor)> {
    let next = peek(s, c1.pos);
    if ch == '(' {
        Some((TokenType::LPAREN, c1))
    } else if ch == ')' {
        Some((TokenType::RPAREN, c1))
    } else if ch == '{' {
        Some((TokenType::LBRACE, c1))
    } else if ch == '}' {
        Some((TokenType::RBRACE, c1))
    } else if ch == '[' {
        Some((TokenType::LBRACKET, c1))
    } else if ch == ']' {
        Some((TokenType::RBRACKET, c1))
    } else if ch == ';' {
        Some((TokenType::SEMICOLON, c1))
    } else if ch == ',' {
        Some((TokenType::COMMA, c1))
    } else if ch == '.' {
        Some((TokenType::DOT, c1))
    } else if ch == '+' {
        Some((TokenType::PLUS, c1))
    } else if ch == '%' {
        Some((TokenType::PERCENT, c1))
    } else if ch == '*' {
        Some((TokenType::STAR, c1))
    } else if ch == '-' {
        if next == '>' {
            Some((TokenType::ARROW, step(s, c1)))
        } else {
            Some((TokenType::MINUS, c1))
        }
    } else if ch == '!' {
        if next == '=' {
            Some((TokenType::BANG_EQ, step(s, c1)))
        } else {
            Some((TokenType::BANG, c1))
        }
    } else if ch == '=' {
        if next == '=' {
            Some((TokenType::EQ_EQ, step(s, c1)))
        } else {
            Some((TokenType::EQ, c1))
        }
    } else if ch == '<' {
        if next == '=' {
            Some((TokenType::LT_EQ, step(s, c1)))
        } else {
            Some((TokenType::LT, c1))
        }
    } else if ch == '>' {
        if next == '=' {
            Some((TokenType::GT_EQ, step(s, c1)))
        } else {
            Some((TokenType::GT, c1))
        }
    } else if ch == '&' {
        if next == '&' {
            Some((TokenType::AND_AND, step(s, c1)))
        } else if next == 'm' && peek_next(s, c1.pos) == 'u' {
            let c3 = step(s, step(s, c1));
            if peek(s, c3.pos) == 't' && !is_alphanumeric(peek_next(s, c3.pos)) {
                Some((TokenType::AMP_MUT, step(s, c3)))
            } else {
                Some((TokenType::AMP, Cursor { pos: c1.pos, line: c3.line, column: c3.column }))
            }
        } else {
            Some((TokenType::AMP, c1))
        }
    } else if ch == '|' {
        if next == '|' {
            Some((TokenType::OR_OR, step(s, c1)))
        } else {
            None
        }
    } else if ch == ':' {
        if next == ':' {
            Some((TokenType::COLON_COLON, step(s, c1)))
        } else {
            Some((TokenType::COLON, c1))
        }
    } else if ch == '/' {
        Some((TokenType::SLASH, c1))
    } else {
        None
    }
}

/// The number token whose first digit was consumed from `start`, `c` being
/// the cursor after that digit.
pub open spec fn number_token(s: Seq<char>, start: Cursor, c: Cursor) -> Option<(TokenType, LiteralModel, Cursor)> {
    let (e, is_float, well_formed) = scan_number(s, c);
    let text = s.subrange(start.pos as int, e.pos as int);
    if is_float {
        if well_formed {
            Some((TokenType::FLOAT, LiteralModel::Float(text), e))
        } else {
            None
        }
    } else if decimal_value(text) <= i64::MAX {
        Some((TokenType::INTEGER, LiteralModel::Integer(decimal_value(text) as i64), e))
    } else {
        None
    }
}

/// The string token whose opening quote was consumed (`c` is after it).
pub open spec fn string_token(s: Seq<char>, c: Cursor) -> Option<(TokenType, LiteralModel, Cursor)> {
    match scan_string_body(s, c, Seq::empty()) {
        Some((e, v)) => Some((TokenType::STRING, LiteralModel::Text(v), e)),
        None => None,
    }
}

/// The character token whose opening quote was consumed (`c` is after it).
pub open spec fn char_token(s: Seq<char>, c: Cursor) -> Option<(TokenType, LiteralModel, Cursor)> {
    match scan_char_body(s, c) {
        Some((e, v)) => Some((TokenType::CHAR_LIT, LiteralModel::Char(v), e)),
        None => None,
    }
}

/// The operator or delimiter token whose first character `ch` was consumed.
pub open spec fn operator_token(s: Seq<char>, ch: char, c1: Cursor) -> Option<(TokenType, LiteralModel, Cursor)> {
    match scan_operator(s, ch, c1) {
        Some((k, e)) => Some((k, LiteralModel::Empty, e)),
        None => None,
    }
}

/// The identifier or keyword token whose first letter was consumed from
/// `start`, `c` being the cursor after it.
pub open spec fn word_token(s: Seq<char>, start: Cursor, c: Cursor) -> Option<(TokenType, LiteralModel, Cursor)> {
    let e = skip_word(s, c);
    let kind = match keyword(s.subrange(start.pos as int, e.pos as int)) {
        Some(k) => k,
        None => TokenType::IDENTIFIER,
    };
    Some((kind, LiteralModel::Empty, e))
}

/// Scans one token starting at `c` (which is before the end of the input):
/// its kind, its value and the cursor after it, or `None` where the input
/// has no token there (an unexpected character, an unterminated literal, an
/// integer above `i64::MAX`, or an exponent without digits).
pub open spec fn scan_token(s: Seq<char>, c: Cursor) -> Option<(TokenType, LiteralModel, Cursor)> {
    let ch = s[c.pos as int];
    let c1 = step(s, c);
    if is_alpha(ch) {
        word_token(s, c, c1)
    } else if is_digit(ch) {
        number_token(s, c, c1)
    } else if ch == '"' {
        string_token(s, c1)
    } else if ch == '\'' {
        char_token(s, c1)
    } else {
        operator_token(s, ch, c1)
    }
}

/// The token made from a scan that started at `start` and ended at `end`.
pub open spec fn make_token(
    s: Seq<char>,
    file: Seq<char>,
    start: Cursor,
    kind: TokenType,
    value: LiteralModel,
    end: Cursor,
) -> TokenModel {
    TokenModel {
        kind,
        lexeme: s.subrange(start.pos as int, end.pos as int),
        value,
        location: LocationModel { filename: file, line: start.line, column: start.column },
    }
}

/// The end-of-input token, placed at cursor `c`.
pub open spec fn eof_token(file: Seq<char>, c: Cursor) -> TokenModel {
    TokenModel {
        kind: TokenType::END_OF_FILE,
        lexeme: Seq::empty(),
        value: LiteralModel::Empty,
        location: LocationModel { filename: file, line: c.line, column: c.column },
    }
}

/// The tokens of `s` from cursor `c` on, ending with the end-of-input token,
/// or `None` when some token cannot be scanned.
pub open spec fn lex_from(s: Seq<char>, file: Seq<char>, c: Cursor) -> Option<Seq<TokenModel>>
    decreases s.len() - c.pos,
{
    let t = skip_trivia(s, c, TriviaMode::Code);
    if t.pos >= s.len() {
        Some(seq![eof_token(file, t)])
    } else {
        match scan_token(s, t) {
            None => None,
            Some((kind, value, e)) => {
                proof {
                    lemma_skip_trivia_forward(s, c, TriviaMode::Code);
                    lemma_scan_token_forward(s, t);
                }
                match lex_from(s, file, e) {
                    None => None,
                    Some(rest) => Some(seq![make_token(s, file, t, kind, value, e)] + rest),
                }
            },
        }
    }
}

/// The tokens of the whole text `s` read from the file named `file`.
pub open spec fn lex(s: Seq<char>, file: Seq<char>) -> Option<Seq<TokenModel>> {
    lex_from(s, file, start_cursor())
}

pub proof fn lemma_skip_trivia_forward(s: Seq<char>, c: Cursor, mode: TriviaMode)
    ensures
        skip_trivia(s, c, mode).pos >= c.pos,
        c.pos <= s.len() ==> skip_trivia(s, c, mode).pos <= s.len(),
    decreases s.len() - c.pos, mode_rank(mode),
{
    if c.pos < s.len() {
        let ch = s[c.pos as int];
        match mode {
            TriviaMode::Code => {
                if is_blank(ch) {
                    lemma_skip_trivia_forward(s, step(s, c), TriviaMode::Code);
                } else if ch == '/' && peek_next(s, c.pos) == '/' {
                    lemma_skip_trivia_forward(s, step(s, c), TriviaMode::LineComment);
                } else if ch == '/' && peek_next(s, c.pos) == '*' {
                    lemma_skip_trivia_forward(s, step(s, step(s, c)), TriviaMode::BlockComment);
                }
            },
            TriviaMode::LineComment => {
                if ch != '\n' {
                    lemma_skip_trivia_forward(s, step(s, c), TriviaMode::LineComment);
                } else {
                    lemma_skip_trivia_forward(s, c, TriviaMode::Code);
                }
            },
            TriviaMode::BlockComment => {
                if ch == '*' && peek_next(s, c.pos) == '/' {
                    lemma_skip_trivia_forward(s, step(s, step(s, c)), TriviaMode::Code);
                } else {
                    lemma_skip_trivia_forward(s, step(s, c), TriviaMode::BlockComment);
                }
            },
        }
    }
}

pub proof fn lemma_skip_digits_forward(s: Seq<char>, c: Cursor)
    requires
        c.pos <= s.len(),
    ensures
        c.pos <= skip_digits(s, c).pos <= s.len(),
    decreases s.len() - c.pos,
{
    if c.pos < s.len() && is_digit(s[c.pos as int]) {
        lemma_skip_digits_forward(s, step(s, c));
    }
}

pub proof fn lemma_skip_word_forward(s: Seq<char>, c: Cursor)
    requires
        c.pos <= s.len(),
    ensures
        c.pos <= skip_word(s, c).pos <= s.len(),
    decreases s.len() - c.pos,
{
    if c.pos < s.len() && is_alphanumeric(s[c.pos as int]) {
        lemma_skip_word_forward(s, step(s, c));
    }
}

pub proof fn lemma_scan_number_forward(s: Seq<char>, c: Cursor)
    requires
        c.pos <= s.len(),
    ensures
        c.pos <= scan_number(s, c).0.pos <= s.len(),
{
    let int_end = skip_digits(s, c);
    lemma_skip_digits_forward(s, c);
    if peek(s, int_end.pos) == '.' && is_digit(peek_next(s, int_end.pos)) {
        lemma_skip_digits_forward(s, step(s, int_end));
    }
    let frac_end = if peek(s, int_end.pos) == '.' && is_digit(peek_next(s, int_end.pos)) {
        skip_digits(s, step(s, int_end))
    } else {
        int_end
    };
    let e = peek(s, frac_end.pos);
    let after = peek_next(s, frac_end.pos);
    if (e == 'e' || e == 'E') && (is_digit(after) || after == '+' || after == '-') {
        let after_e = step(s, frac_end);
        let sign = peek(s, after_e.pos);
        let after_sign = if sign == '+' || sign == '-' {
            step(s, after_e)
        } else {
            after_e
        };
        lemma_skip_digits_forward(s, after_sign);
    }
}

pub proof fn lemma_scan_string_forward(s: Seq<char>, c: Cursor, acc: Seq<char>)
    requires
        c.pos <= s.len(),
    ensures
        scan_string_body(s, c, acc) matches Some((e, _)) ==> c.pos < e.pos <= s.len(),
    decreases s.len() - c.pos,
{
    if c.pos < s.len() {
        let ch = s[c.pos as int];
        if ch == '"' {
        } else if ch == '\n' {
        } else if ch == '\\' {
            let c1 = step(s, c);
            if c1.pos < s.len() {
                lemma_scan_string_forward(s, step(s, c1), acc.push(unescape(s[c1.pos as int])));
            }
        } else {
            lemma_scan_string_forward(s, step(s, c), acc.push(ch));
        }
    }
}

/// Every token scan consumes at least one character and stays inside the
/// input.
pub proof fn lemma_scan_token_forward(s: Seq<char>, c: Cursor)
    requires
        c.pos < s.len(),
    ensures
        scan_token(s, c) matches Some((_, _, e)) ==> c.pos < e.pos <= s.len(),
{
    let ch = s[c.pos as int];
    let c1 = step(s, c);
    if is_alpha(ch) {
        lemma_skip_word_forward(s, c1);
    } else if is_digit(ch) {
        lemma_scan_number_forward(s, c1);
    } else if ch == '"' {
        lemma_scan_string_forward(s, c1, Seq::empty());
    }
}

/// Skipping blanks and comments stops where there is nothing more to skip.
pub proof fn lemma_skip_trivia_stops(s: Seq<char>, c: Cursor, mode: TriviaMode)
    ensures
        skip_trivia(s, skip_trivia(s, c, mode), TriviaMode::Code) == skip_trivia(s, c, mode),
    decreases s.len() - c.pos, mode_rank(mode),
{
    if c.pos < s.len() {
        let ch = s[c.pos as int];
        match mode {
            TriviaMode::Code => {
                if is_blank(ch) {
                    lemma_skip_trivia_stops(s, step(s, c), TriviaMode::Code);
                } else if ch == '/' && peek_next(s, c.pos) == '/' {
                    lemma_skip_trivia_stops(s, step(s, c), TriviaMode::LineComment);
                } else if ch == '/' && peek_next(s, c.pos) == '*' {
                    lemma_skip_trivia_stops(s, step(s, step(s, c)), TriviaMode::BlockComment);
                }
            },
            TriviaMode::LineComment => {
                if ch != '\n' {
                    lemma_skip_trivia_stops(s, step(s, c), TriviaMode::LineComment);
                } else {
                    lemma_skip_trivia_stops(s, c, TriviaMode::Code);
                }
            },
            TriviaMode::BlockComment => {
                if ch == '*' && peek_next(s, c.pos) == '/' {
                    lemma_skip_trivia_stops(s, step(s, step(s, c)), TriviaMode::Code);
                } else {
                    lemma_skip_trivia_stops(s, step(s, c), TriviaMode::BlockComment);
                }
            },
        }
    }
}

/// Every character that a run of digits skips is a digit.
pub proof fn lemma_skip_digits_digits(s: Seq<char>, c: Cursor)
    requires
        c.pos <= s.len(),
    ensures
        forall|i: int| c.pos <= i < skip_digits(s, c).pos ==> is_digit(#[trigger] s[i]),
    decreases s.len() - c.pos,
{
    if c.pos < s.len() && is_digit(s[c.pos as int]) {
        lemma_skip_digits_digits(s, step(s, c));
    }
}

pub proof fn lemma_decimal_value_nonneg(ds: Seq<char>)
    requires
        forall|i: int| 0 <= i < ds.len() ==> is_digit(#[trigger] ds[i]),
    ensures
        decimal_value(ds) >= 0,
    decreases ds.len(),
{
    if ds.len() > 0 {
        lemma_decimal_value_nonneg(ds.drop_last());
    }
}

/// Appending digits never makes a decimal number smaller.
pub proof fn lemma_decimal_value_extend(ds: Seq<char>, more: Seq<char>)
    requires
        forall|i: int| 0 <= i < ds.len() ==> is_digit(#[trigger] ds[i]),
        forall|i: int| 0 <= i < more.len() ==> is_digit(#[trigger] more[i]),
    ensures
        decimal_value(ds + more) >= decimal_value(ds),
    decreases more.len(),
{
    lemma_decimal_value_nonneg(ds);
    if more.len() > 0 {
        lemma_decimal_value_extend(ds, more.drop_last());
        assert((ds + more).drop_last() =~= ds + more.drop_last());
        assert((ds + more).last() == more.last());
    } else {
        assert(ds + more =~= ds);
    }
}

/// Lexing law: once the cursor has reached the end of the text, lexing yields
/// only the end-of-input token, placed at the cursor. (So a lexer that has
/// tokenized its text gives just that token when asked again.)
pub proof fn lemma_lex_at_end(s: Seq<char>, file: Seq<char>, c: Cursor)
    requires
        c.pos >= s.len(),
    ensures
        lex_from(s, file, c) == Some(seq![eof_token(file, c)]),
{
}

/// What every scanned token carries: it is never the end-of-input token, an
/// identifier is never spelt like a keyword, an integer token carries the
/// decimal value of its text and a floating-point token carries its text.
pub open spec fn token_is_sound(t: TokenModel) -> bool {
    &&& t.kind == TokenType::IDENTIFIER ==> keyword(t.lexeme) is None
    &&& t.kind == TokenType::INTEGER ==> decimal_value(t.lexeme) <= i64::MAX && t.value
        == LiteralModel::Integer(decimal_value(t.lexeme) as i64)
    &&& t.kind == TokenType::FLOAT ==> t.value == LiteralModel::Float(t.lexeme)
}

pub proof fn lemma_scan_token_sound(s: Seq<char>, file: Seq<char>, c: Cursor)
    requires
        c.pos < s.len(),
    ensures
        scan_token(s, c) matches Some((kind, value, e)) ==> {
            &&& kind != TokenType::END_OF_FILE
            &&& token_is_sound(make_token(s, file, c, kind, value, e))
        },
{
}

/// Lexing laws. Whenever lexing succeeds:
/// - the tokens end with the end-of-input token, and only the last token is
///   one;
/// - every token records the file name it was read from;
/// - no identifier is spelt like a keyword, every integer token carries the
///   value of its decimal text, and every floating-point token carries its
///   text.
pub proof fn lemma_lex_tokens(s: Seq<char>, file: Seq<char>, c: Cursor)
    ensures
        lex_from(s, file, c) matches Some(ts) ==> {
            &&& ts.len() >= 1
            &&& ts.last().kind == TokenType::END_OF_FILE
            &&& forall|i: int| 0 <= i < ts.len() - 1 ==> #[trigger] ts[i].kind != TokenType::END_OF_FILE
            &&& forall|i: int| 0 <= i < ts.len() ==> #[trigger] ts[i].location.filename == file
            &&& forall|i: int| 0 <= i < ts.len() ==> token_is_sound(#[trigger] ts[i])
        },
    decreases s.len() - c.pos,
{
    let t = skip_trivia(s, c, TriviaMode::Code);
    lemma_skip_trivia_forward(s, c, TriviaMode::Code);
    if t.pos < s.len() {
        lemma_scan_token_forward(s, t);
        lemma_scan_token_sound(s, file, t);
        if let Some((kind, value, e)) = scan_token(s, t) {
            lemma_lex_tokens(s, file, e);
            if let Some(rest) = lex_from(s, file, e) {
                let tok = make_token(s, file, t, kind, value, e);
                let ts = seq![tok] + rest;
                assert forall|i: int| 0 <= i < ts.len() - 1 implies #[trigger] ts[i].kind
                    != TokenType::END_OF_FILE by {
                    if i > 0 {
                        assert(ts[i] == rest[i - 1]);
                    }
                }
                assert forall|i: int| 0 <= i < ts.len() implies #[trigger] ts[i].location.filename
                    == file by {
                    if i > 0 {
                        assert(ts[i] == rest[i - 1]);
                    }
                }
                assert forall|i: int| 0 <= i < ts.len() implies token_is_sound(#[trigger] ts[i]) by {
                    if i > 0 {
                        assert(ts[i] == rest[i - 1]);
                    }
                }
                assert(ts.last() == rest.last());
            }
        }
    }
}

} // verus!
