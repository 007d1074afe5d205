//! Laws of lexing stated on the characters of the text: what a comment, a
//! word, a number literal and an escape sequence lex to, written with the
//! ASCII ranges and code points themselves.
use vstd::prelude::*;

use crate::lexing::{
    is_alpha, is_alphanumeric, is_blank, is_digit, lex_from, make_token, peek, peek_next, scan_char_body,
    scan_number, scan_string_body, scan_token, skip_digits, skip_trivia, skip_word, step, unescape, Cursor,
    TriviaMode,
};
use crate::printing::{decimal_text, lemma_decimal_text};
use crate::token::{keyword, LiteralModel, LocationModel, TokenModel, TokenType};

verus! {

/// An ASCII letter, either case.
pub open spec fn ascii_letter(ch: char) -> bool {
    ('a' <= ch && ch <= 'z') || ('A' <= ch && ch <= 'Z')
}

/// An ASCII decimal digit.
pub open spec fn ascii_digit(ch: char) -> bool {
    '0' <= ch && ch <= '9'
}

/// The cursor after consuming `n` characters from `c`.
pub open spec fn advance(s: Seq<char>, c: Cursor, n: nat) -> Cursor
    decreases n,
{
    if n == 0 {
        c
    } else {
        advance(s, step(s, c), (n - 1) as nat)
    }
}

/// The token `t` in front of `rest`, where `rest` could be lexed.
pub open spec fn token_then(t: TokenModel, rest: Option<Seq<TokenModel>>) -> Option<Seq<TokenModel>> {
    match rest {
        Some(r) => Some(seq![t] + r),
        None => None,
    }
}

/// The token of kind `kind` and value `value` whose text runs from the
/// cursor `c` to position `end`, read from the file named `file`.
pub open spec fn token_from(
    s: Seq<char>,
    file: Seq<char>,
    c: Cursor,
    end: nat,
    kind: TokenType,
    value: LiteralModel,
) -> TokenModel {
    TokenModel {
        kind,
        lexeme: s.subrange(c.pos as int, end as int),
        value,
        location: LocationModel { filename: file, line: c.line, column: c.column },
    }
}

/// The character that the escape sequence `\x` stands for, by code point:
/// `\n` is U+000A, `\t` is U+0009, `\r` is U+000D, `\0` is U+0000, and any
/// other escaped character stands for itself.
pub open spec fn escape_value(x: char) -> char {
    if x == 'n' {
        0x0Au8 as char
    } else if x == 't' {
        0x09u8 as char
    } else if x == 'r' {
        0x0Du8 as char
    } else if x == '0' {
        0x00u8 as char
    } else {
        x
    }
}

proof fn lemma_advance_pos(s: Seq<char>, c: Cursor, n: nat)
    ensures
        advance(s, c, n).pos == c.pos + n,
    decreases n,
{
    if n > 0 {
        lemma_advance_pos(s, step(s, c), (n - 1) as nat);
    }
}

proof fn lemma_advance_add(s: Seq<char>, c: Cursor, a: nat, b: nat)
    ensures
        advance(s, advance(s, c, a), b) == advance(s, c, a + b),
    decreases a,
{
    if a > 0 {
        lemma_advance_add(s, step(s, c), (a - 1) as nat, b);
        assert((a + b - 1) as nat == (a - 1) as nat + b);
    }
}

proof fn lemma_advance_one(s: Seq<char>, c: Cursor)
    ensures
        advance(s, c, 1) == step(s, c),
        advance(s, c, 2) == step(s, step(s, c)),
{
    assert(advance(s, step(s, c), 0) == step(s, c));
    assert(advance(s, step(s, step(s, c)), 0) == step(s, step(s, c)));
    assert(advance(s, step(s, c), 1) == step(s, step(s, c)));
}

/// Lexing at a cursor where no blank or comment starts scans one token there.
proof fn lemma_lex_first(s: Seq<char>, file: Seq<char>, c: Cursor)
    requires
        c.pos < s.len(),
        !is_blank(s[c.pos as int]),
        s[c.pos as int] != '/',
    ensures
        skip_trivia(s, c, TriviaMode::Code) == c,
        lex_from(s, file, c) == match scan_token(s, c) {
            None => None,
            Some((kind, value, e)) => token_then(make_token(s, file, c, kind, value, e), lex_from(s, file, e)),
        },
{
    assert(skip_trivia(s, c, TriviaMode::Code) == c);
}

proof fn lemma_skip_digits_advance(s: Seq<char>, c: Cursor, k: nat)
    requires
        c.pos + k <= s.len(),
        forall|i: int| c.pos <= i < c.pos + k ==> is_digit(#[trigger] s[i]),
        c.pos + k == s.len() || !is_digit(s[(c.pos + k) as int]),
    ensures
        skip_digits(s, c) == advance(s, c, k),
    decreases k,
{
    if k > 0 {
        assert(is_digit(s[c.pos as int]));
        lemma_skip_digits_advance(s, step(s, c), (k - 1) as nat);
    }
}

proof fn lemma_skip_word_advance(s: Seq<char>, c: Cursor, k: nat)
    requires
        c.pos + k <= s.len(),
        forall|i: int| c.pos <= i < c.pos + k ==> is_alphanumeric(#[trigger] s[i]),
        c.pos + k == s.len() || !is_alphanumeric(s[(c.pos + k) as int]),
    ensures
        skip_word(s, c) == advance(s, c, k),
    decreases k,
{
    if k > 0 {
        assert(is_alphanumeric(s[c.pos as int]));
        lemma_skip_word_advance(s, step(s, c), (k - 1) as nat);
    }
}

proof fn lemma_block_comment_body(s: Seq<char>, c: Cursor, k: nat)
    requires
        c.pos <= k,
        k + 1 < s.len(),
        s[k as int] == '*',
        s[k + 1int] == '/',
        forall|j: int| c.pos <= j < k ==> !(#[trigger] s[j] == '*' && s[j + 1] == '/'),
    ensures
        skip_trivia(s, c, TriviaMode::BlockComment) == skip_trivia(
            s,
            advance(s, c, (k + 2 - c.pos) as nat),
            TriviaMode::Code,
        ),
    decreases k - c.pos,
{
    lemma_advance_one(s, c);
    if c.pos == k {
        assert(peek_next(s, c.pos) == '/');
    } else {
        assert(!(s[c.pos as int] == '*' && s[c.pos + 1int] == '/'));
        lemma_block_comment_body(s, step(s, c), k);
        assert((k + 2 - c.pos) as nat - 1 == (k + 2 - (c.pos + 1)) as nat);
    }
}

/// Comment law: a block comment that starts at the cursor, `/*` followed by
/// text in which `*/` does not occur and then `*/`, produces no token: the
/// text lexes from the cursor exactly as it lexes from just after the `*/`.
pub proof fn lemma_lex_block_comment(s: Seq<char>, file: Seq<char>, c: Cursor, k: nat)
    requires
        c.pos + 2 <= k,
        k + 1 < s.len(),
        s[c.pos as int] == '/',
        s[c.pos + 1int] == '*',
        s[k as int] == '*',
        s[k + 1int] == '/',
        forall|j: int| c.pos + 2 <= j < k ==> !(#[trigger] s[j] == '*' && s[j + 1] == '/'),
    ensures
        lex_from(s, file, c) == lex_from(s, file, advance(s, c, (k + 2 - c.pos) as nat)),
{
    let c2 = step(s, step(s, c));
    lemma_advance_one(s, c);
    lemma_advance_pos(s, c, 2);
    assert(peek_next(s, c.pos) == '*');
    assert(skip_trivia(s, c, TriviaMode::Code) == skip_trivia(s, c2, TriviaMode::BlockComment));
    lemma_block_comment_body(s, c2, k);
    lemma_advance_add(s, c, 2, (k + 2 - c2.pos) as nat);
    assert(2 + (k + 2 - c2.pos) as nat == (k + 2 - c.pos) as nat);
    let d = advance(s, c, (k + 2 - c.pos) as nat);
    assert(skip_trivia(s, c, TriviaMode::Code) == skip_trivia(s, d, TriviaMode::Code));
}

/// Blank law: a space, tab, carriage return or newline at the cursor
/// produces no token: the text lexes from the cursor as it lexes from just
/// after that character.
pub proof fn lemma_lex_blank(s: Seq<char>, file: Seq<char>, c: Cursor)
    requires
        c.pos < s.len(),
        s[c.pos as int] == ' ' || s[c.pos as int] == '\t' || s[c.pos as int] == '\r' || s[c.pos as int] == '\n',
    ensures
        lex_from(s, file, c) == lex_from(s, file, step(s, c)),
{
    assert(skip_trivia(s, c, TriviaMode::Code) == skip_trivia(s, step(s, c), TriviaMode::Code));
}

proof fn lemma_line_comment_body(s: Seq<char>, c: Cursor, k: nat)
    requires
        c.pos <= k <= s.len(),
        forall|j: int| c.pos <= j < k ==> #[trigger] s[j] != '\n',
        k < s.len() ==> s[k as int] == '\n',
    ensures
        skip_trivia(s, c, TriviaMode::LineComment) == skip_trivia(
            s,
            advance(s, c, (k - c.pos) as nat),
            TriviaMode::Code,
        ),
    decreases k - c.pos,
{
    if c.pos < k {
        assert(s[c.pos as int] != '\n');
        lemma_line_comment_body(s, step(s, c), k);
        assert((k - c.pos) as nat - 1 == (k - (c.pos + 1)) as nat);
    }
}

/// Comment law for line comments: `//` at the cursor, and the text after it
/// up to the end of its line, produce no token: the text lexes from the
/// cursor as it lexes from the newline that ends the comment (or from the
/// end of the text).
pub proof fn lemma_lex_line_comment(s: Seq<char>, file: Seq<char>, c: Cursor, k: nat)
    requires
        c.pos + 2 <= k <= s.len(),
        s[c.pos as int] == '/',
        s[c.pos + 1int] == '/',
        forall|j: int| c.pos + 2 <= j < k ==> #[trigger] s[j] != '\n',
        k < s.len() ==> s[k as int] == '\n',
    ensures
        lex_from(s, file, c) == lex_from(s, file, advance(s, c, (k - c.pos) as nat)),
{
    let c1 = step(s, c);
    assert(peek_next(s, c.pos) == '/');
    assert(skip_trivia(s, c, TriviaMode::Code) == skip_trivia(s, c1, TriviaMode::LineComment));
    lemma_line_comment_body(s, c1, k);
    lemma_advance_add(s, c, 1, (k - c1.pos) as nat);
    lemma_advance_one(s, c);
    assert(1 + (k - c1.pos) as nat == (k - c.pos) as nat);
    let d = advance(s, c, (k - c.pos) as nat);
    assert(skip_trivia(s, c, TriviaMode::Code) == skip_trivia(s, d, TriviaMode::Code));
}

/// The one-character operators and delimiters that never begin a longer
/// token, with their kinds.
pub open spec fn single_char_token(x: char, k: TokenType) -> bool {
    ||| x == '(' && k == TokenType::LPAREN
    ||| x == ')' && k == TokenType::RPAREN
    ||| x == '{' && k == TokenType::LBRACE
    ||| x == '}' && k == TokenType::RBRACE
    ||| x == '[' && k == TokenType::LBRACKET
    ||| x == ']' && k == TokenType::RBRACKET
    ||| x == ';' && k == TokenType::SEMICOLON
    ||| x == ',' && k == TokenType::COMMA
    ||| x == '.' && k == TokenType::DOT
    ||| x == '+' && k == TokenType::PLUS
    ||| x == '%' && k == TokenType::PERCENT
    ||| x == '*' && k == TokenType::STAR
}

/// The two-character operators, with their kinds.
pub open spec fn two_char_token(x: char, y: char, k: TokenType) -> bool {
    ||| x == '-' && y == '>' && k == TokenType::ARROW
    ||| x == '!' && y == '=' && k == TokenType::BANG_EQ
    ||| x == '=' && y == '=' && k == TokenType::EQ_EQ
    ||| x == '<' && y == '=' && k == TokenType::LT_EQ
    ||| x == '>' && y == '=' && k == TokenType::GT_EQ
    ||| x == '&' && y == '&' && k == TokenType::AND_AND
    ||| x == '|' && y == '|' && k == TokenType::OR_OR
    ||| x == ':' && y == ':' && k == TokenType::COLON_COLON
}

/// The one-character operators that begin a two-character one, with their
/// kinds when the next character does not complete it.
pub open spec fn prefix_char_token(x: char, k: TokenType) -> bool {
    ||| x == '-' && k == TokenType::MINUS
    ||| x == '!' && k == TokenType::BANG
    ||| x == '=' && k == TokenType::EQ
    ||| x == '<' && k == TokenType::LT
    ||| x == '>' && k == TokenType::GT
    ||| x == ':' && k == TokenType::COLON
}

/// Operator law: a two-character operator at the cursor is read as one
/// token of its kind; a one-character operator or delimiter is read as one
/// token of its kind when the next character does not make it part of a
/// two-character operator. Lexing then goes on after the operator.
pub proof fn lemma_lex_operator(s: Seq<char>, file: Seq<char>, c: Cursor, k: TokenType)
    requires
        c.pos < s.len(),
    ensures
        c.pos + 1 < s.len() && two_char_token(s[c.pos as int], s[c.pos + 1int], k) ==> lex_from(s, file, c)
            == token_then(token_from(s, file, c, c.pos + 2, k, LiteralModel::Empty), lex_from(s, file, advance(s, c, 2))),
        single_char_token(s[c.pos as int], k) ==> lex_from(s, file, c) == token_then(
            token_from(s, file, c, c.pos + 1, k, LiteralModel::Empty),
            lex_from(s, file, advance(s, c, 1)),
        ),
        prefix_char_token(s[c.pos as int], k) && !(c.pos + 1 < s.len() && exists|j: TokenType|
            #[trigger] two_char_token(s[c.pos as int], s[c.pos + 1int], j)) ==> lex_from(s, file, c) == token_then(
            token_from(s, file, c, c.pos + 1, k, LiteralModel::Empty),
            lex_from(s, file, advance(s, c, 1)),
        ),
{
    let x = s[c.pos as int];
    lemma_advance_one(s, c);
    if x != '/' && !is_blank(x) {
        lemma_lex_first(s, file, c);
    }
    if c.pos + 1 < s.len() {
        let y = s[c.pos + 1int];
        if prefix_char_token(x, k) {
            if x == '-' { assert(!two_char_token(x, y, TokenType::ARROW) ==> y != '>'); }
            if x == '!' { assert(!two_char_token(x, y, TokenType::BANG_EQ) ==> y != '='); }
            if x == '=' { assert(!two_char_token(x, y, TokenType::EQ_EQ) ==> y != '='); }
            if x == '<' { assert(!two_char_token(x, y, TokenType::LT_EQ) ==> y != '='); }
            if x == '>' { assert(!two_char_token(x, y, TokenType::GT_EQ) ==> y != '='); }
            if x == ':' { assert(!two_char_token(x, y, TokenType::COLON_COLON) ==> y != ':'); }
        }
    }
}

/// Identifier law: a word that starts at the cursor with an ASCII letter of
/// either case or `_`, goes on with letters, digits or `_`, and is followed
/// by the end of the text or by another character, lexes to one token
/// spelt as the word: its keyword kind if it is a reserved word, else an
/// identifier. Lexing then goes on just after the word.
pub proof fn lemma_lex_word(s: Seq<char>, file: Seq<char>, c: Cursor, n: nat)
    requires
        1 <= n,
        c.pos + n <= s.len(),
        ascii_letter(s[c.pos as int]) || s[c.pos as int] == '_',
        forall|i: int| c.pos < i < c.pos + n ==> ascii_letter(#[trigger] s[i]) || ascii_digit(s[i]) || s[i] == '_',
        c.pos + n < s.len() ==> !(ascii_letter(s[(c.pos + n) as int]) || ascii_digit(s[(c.pos + n) as int]) || s[(c.pos + n) as int] == '_'),
    ensures
        lex_from(s, file, c) == token_then(
            token_from(
                s,
                file,
                c,
                c.pos + n,
                match keyword(s.subrange(c.pos as int, (c.pos + n) as int)) {
                    Some(k) => k,
                    None => TokenType::IDENTIFIER,
                },
                LiteralModel::Empty,
            ),
            lex_from(s, file, advance(s, c, n)),
        ),
{
    lemma_lex_first(s, file, c);
    assert(is_alpha(s[c.pos as int]));
    let c1 = step(s, c);
    assert forall|i: int| c1.pos <= i < c1.pos + (n - 1) as nat implies is_alphanumeric(#[trigger] s[i]) by {
        assert(ascii_letter(s[i]) || ascii_digit(s[i]) || s[i] == '_');
    }
    lemma_skip_word_advance(s, c1, (n - 1) as nat);
    lemma_advance_pos(s, c, n);
}

/// Number law: a floating-point literal at the cursor (a run of ASCII
/// digits, then a fraction `.` and digits, or an exponent `e` or `E` with an
/// optional `+` or `-` sign and digits, or both) that is followed by the end
/// of the text or by a character other than a letter or digit lexes to one
/// floating-point token whose text and value are the whole literal. Lexing
/// then goes on just after it.
///
/// The literal's integer part ends at `int_end`, its fraction at `frac_end`
/// (`int_end` when there is none), the digits of its exponent start at
/// `exp_digits`, and the literal ends at `end` (`frac_end` when there is no
/// exponent).
pub proof fn lemma_lex_float(
    s: Seq<char>,
    file: Seq<char>,
    c: Cursor,
    int_end: nat,
    frac_end: nat,
    exp_digits: nat,
    end: nat,
    fraction: bool,
    exponent: bool,
)
    requires
        c.pos < int_end,
        end <= s.len(),
        forall|j: int| c.pos <= j < int_end ==> ascii_digit(#[trigger] s[j]),
        fraction ==> int_end + 1 < frac_end && s[int_end as int] == '.',
        fraction ==> forall|j: int| int_end + 1 <= j < frac_end ==> ascii_digit(#[trigger] s[j]),
        !fraction ==> frac_end == int_end,
        exponent ==> frac_end < exp_digits < end && (s[frac_end as int] == 'e' || s[frac_end as int] == 'E'),
        exponent ==> exp_digits == frac_end + 1 || (exp_digits == frac_end + 2 && (s[frac_end + 1int] == '+'
            || s[frac_end + 1int] == '-')),
        exponent ==> forall|j: int| exp_digits <= j < end ==> ascii_digit(#[trigger] s[j]),
        !exponent ==> end == frac_end,
        fraction || exponent,
        end < s.len() ==> !ascii_letter(s[end as int]) && !ascii_digit(s[end as int]),
    ensures
        lex_from(s, file, c) == token_then(
            token_from(
                s,
                file,
                c,
                end,
                TokenType::FLOAT,
                LiteralModel::Float(s.subrange(c.pos as int, end as int)),
            ),
            lex_from(s, file, advance(s, c, (end - c.pos) as nat)),
        ),
{
    assert(ascii_digit(s[c.pos as int]));
    lemma_lex_first(s, file, c);
    let c1 = step(s, c);
    assert(int_end < s.len());
    assert(!is_digit(s[int_end as int]));
    assert forall|j: int| c1.pos <= j < c1.pos + (int_end - c1.pos) as nat implies is_digit(#[trigger] s[j]) by {
        assert(ascii_digit(s[j]));
    }
    lemma_skip_digits_advance(s, c1, (int_end - c1.pos) as nat);
    lemma_advance_add(s, c, 1, (int_end - c1.pos) as nat);
    lemma_advance_one(s, c);
    assert(1 + (int_end - c1.pos) as nat == (int_end - c.pos) as nat);
    let ci = advance(s, c, (int_end - c.pos) as nat);
    lemma_advance_pos(s, c, (int_end - c.pos) as nat);
    assert(skip_digits(s, c1) == ci);
    assert(ci.pos == int_end);
    let has_fraction = peek(s, ci.pos) == '.' && is_digit(peek_next(s, ci.pos));
    if fraction {
        assert(ascii_digit(s[int_end + 1int]));
        assert(has_fraction);
        let cs = step(s, ci);
        assert(frac_end == s.len() || !is_digit(s[frac_end as int])) by {
            if exponent {
            } else {
                assert(end == frac_end);
            }
        }
        assert forall|j: int| cs.pos <= j < cs.pos + (frac_end - cs.pos) as nat implies is_digit(#[trigger] s[j]) by {
            assert(ascii_digit(s[j]));
        }
        lemma_skip_digits_advance(s, cs, (frac_end - cs.pos) as nat);
        lemma_advance_one(s, ci);
        lemma_advance_add(s, ci, 1, (frac_end - cs.pos) as nat);
        lemma_advance_add(s, c, (int_end - c.pos) as nat, (frac_end - int_end) as nat);
        assert(1 + (frac_end - cs.pos) as nat == (frac_end - int_end) as nat);
        assert((int_end - c.pos) as nat + (frac_end - int_end) as nat == (frac_end - c.pos) as nat);
    } else {
        assert(!has_fraction);
        assert(frac_end == int_end);
    }
    let cf = advance(s, c, (frac_end - c.pos) as nat);
    lemma_advance_pos(s, c, (frac_end - c.pos) as nat);
    let frac_cursor = if has_fraction {
        skip_digits(s, step(s, ci))
    } else {
        ci
    };
    assert(frac_cursor == cf);
    let e = peek(s, frac_end);
    let after = peek_next(s, frac_end);
    if exponent {
        assert(ascii_digit(s[exp_digits as int]));
        assert((e == 'e' || e == 'E') && (is_digit(after) || after == '+' || after == '-'));
        let after_e = step(s, cf);
        let sign = peek(s, after_e.pos);
        let after_sign = if sign == '+' || sign == '-' {
            step(s, after_e)
        } else {
            after_e
        };
        lemma_advance_one(s, cf);
        lemma_advance_add(s, c, (frac_end - c.pos) as nat, (exp_digits - frac_end) as nat);
        assert((frac_end - c.pos) as nat + (exp_digits - frac_end) as nat == (exp_digits - c.pos) as nat);
        let cg = advance(s, c, (exp_digits - c.pos) as nat);
        assert(after_sign == cg);
        lemma_advance_pos(s, c, (exp_digits - c.pos) as nat);
        assert forall|j: int| cg.pos <= j < cg.pos + (end - exp_digits) as nat implies is_digit(#[trigger] s[j]) by {
            assert(ascii_digit(s[j]));
        }
        lemma_skip_digits_advance(s, cg, (end - exp_digits) as nat);
        lemma_advance_add(s, c, (exp_digits - c.pos) as nat, (end - exp_digits) as nat);
        assert((exp_digits - c.pos) as nat + (end - exp_digits) as nat == (end - c.pos) as nat);
        let ce = advance(s, c, (end - c.pos) as nat);
        lemma_advance_pos(s, c, (end - c.pos) as nat);
        assert(skip_digits(s, after_sign) == ce);
        assert(ce.pos > after_sign.pos);
        assert(skip_digits(s, c1) == ci);
        assert(scan_number(s, c1).0 == ce);
        assert(scan_number(s, c1) == (ce, true, true));
    } else {
        assert(!(e == 'e' || e == 'E'));
        assert(scan_number(s, c1) == (cf, true, true));
    }
    lemma_advance_pos(s, c, (end - c.pos) as nat);
}

proof fn lemma_escape_value(x: char)
    ensures
        unescape(x) == escape_value(x),
{
}

/// Escape law for character literals: `'\x'` at the cursor lexes to one
/// character token whose value is the character that `\x` stands for
/// (`escape_value`), and `'x'` with `x` other than a backslash lexes to one
/// whose value is `x`. Lexing then goes on just after the closing quote.
pub proof fn lemma_lex_char_literal(s: Seq<char>, file: Seq<char>, c: Cursor)
    requires
        c.pos + 2 < s.len(),
        s[c.pos as int] == '\'',
    ensures
        s[c.pos + 1int] == '\\' && c.pos + 3 < s.len() && s[c.pos + 3int] == '\'' ==> lex_from(s, file, c)
            == token_then(
            token_from(s, file, c, c.pos + 4, TokenType::CHAR_LIT, LiteralModel::Char(escape_value(s[c.pos + 2int]))),
            lex_from(s, file, advance(s, c, 4)),
        ),
        s[c.pos + 1int] != '\\' && s[c.pos + 2int] == '\'' ==> lex_from(s, file, c) == token_then(
            token_from(s, file, c, c.pos + 3, TokenType::CHAR_LIT, LiteralModel::Char(s[c.pos + 1int])),
            lex_from(s, file, advance(s, c, 3)),
        ),
{
    lemma_lex_first(s, file, c);
    lemma_escape_value(s[c.pos + 2int]);
    let c1 = step(s, c);
    lemma_advance_one(s, c);
    lemma_advance_one(s, step(s, c1));
    lemma_advance_add(s, c, 2, 2);
    lemma_advance_add(s, c, 2, 1);
    lemma_advance_pos(s, c, 3);
    lemma_advance_pos(s, c, 4);
    assert(!is_alpha(s[c.pos as int]) && !is_digit(s[c.pos as int]));
    assert(scan_token(s, c) == match scan_char_body(s, c1) {
        Some((e, v)) => Some((TokenType::CHAR_LIT, LiteralModel::Char(v), e)),
        None => None,
    });
}

proof fn lemma_string_raw(s: Seq<char>, c: Cursor, acc: Seq<char>, n: nat)
    requires
        c.pos + n <= s.len(),
        forall|i: int| c.pos <= i < c.pos + n ==> #[trigger] s[i] != '"' && s[i] != '\\' && s[i] != '\n',
    ensures
        scan_string_body(s, c, acc) == scan_string_body(
            s,
            advance(s, c, n),
            acc + s.subrange(c.pos as int, (c.pos + n) as int),
        ),
    decreases n,
{
    if n > 0 {
        let ch = s[c.pos as int];
        assert(ch != '"' && ch != '\\' && ch != '\n');
        lemma_string_raw(s, step(s, c), acc.push(ch), (n - 1) as nat);
        assert(acc.push(ch) + s.subrange(c.pos + 1int, (c.pos + n) as int) =~= acc + s.subrange(
            c.pos as int,
            (c.pos + n) as int,
        ));
    } else {
        assert(acc + s.subrange(c.pos as int, c.pos as int) =~= acc);
    }
}

/// Escape law for string literals: a string literal at the cursor made of
/// plain characters (no quote, backslash or newline) around one escape
/// sequence `\x` lexes to one string token whose value is the plain
/// characters with `\x` replaced by the character it stands for
/// (`escape_value`). Lexing then goes on just after the closing quote.
///
/// The escape's backslash stands at `a` and the closing quote at `b`.
pub proof fn lemma_lex_string_escape(s: Seq<char>, file: Seq<char>, c: Cursor, a: nat, b: nat)
    requires
        c.pos < a,
        a + 2 <= b,
        b < s.len(),
        s[c.pos as int] == '"',
        s[a as int] == '\\',
        s[b as int] == '"',
        forall|i: int| c.pos < i < a ==> #[trigger] s[i] != '"' && s[i] != '\\' && s[i] != '\n',
        forall|i: int| a + 2 <= i < b ==> #[trigger] s[i] != '"' && s[i] != '\\' && s[i] != '\n',
    ensures
        lex_from(s, file, c) == token_then(
            token_from(
                s,
                file,
                c,
                b + 1,
                TokenType::STRING,
                LiteralModel::Text(
                    s.subrange(c.pos + 1int, a as int).push(escape_value(s[a + 1int])) + s.subrange(a + 2int, b as int),
                ),
            ),
            lex_from(s, file, advance(s, c, (b + 1 - c.pos) as nat)),
        ),
{
    lemma_lex_first(s, file, c);
    lemma_escape_value(s[a + 1int]);
    assert(!is_alpha(s[c.pos as int]) && !is_digit(s[c.pos as int]));
    let c1 = step(s, c);
    let n1 = (a - c1.pos) as nat;
    lemma_string_raw(s, c1, Seq::empty(), n1);
    lemma_advance_one(s, c);
    lemma_advance_add(s, c, 1, n1);
    let ca = advance(s, c, (a - c.pos) as nat);
    assert(1 + n1 == (a - c.pos) as nat);
    lemma_advance_pos(s, c, (a - c.pos) as nat);
    let acc1 = Seq::<char>::empty() + s.subrange(c.pos + 1int, a as int);
    assert(acc1 =~= s.subrange(c.pos + 1int, a as int));
    let acc2 = acc1.push(unescape(s[a + 1int]));
    let cx = step(s, step(s, ca));
    lemma_advance_one(s, ca);
    assert(scan_string_body(s, ca, acc1) == scan_string_body(s, cx, acc2));
    let n2 = (b - (a + 2)) as nat;
    lemma_advance_add(s, c, (a - c.pos) as nat, 2);
    lemma_advance_pos(s, c, (a - c.pos) as nat + 2);
    lemma_string_raw(s, cx, acc2, n2);
    lemma_advance_add(s, c, (a - c.pos) as nat + 2, n2);
    let cb = advance(s, c, (b - c.pos) as nat);
    assert((a - c.pos) as nat + 2 + n2 == (b - c.pos) as nat);
    lemma_advance_pos(s, c, (b - c.pos) as nat);
    let acc3 = acc2 + s.subrange(a + 2int, b as int);
    assert(scan_string_body(s, cb, acc3) == Some((step(s, cb), acc3)));
    lemma_advance_one(s, cb);
    lemma_advance_add(s, c, (b - c.pos) as nat, 1);
    assert((b - c.pos) as nat + 1 == (b + 1 - c.pos) as nat);
    lemma_advance_pos(s, c, (b + 1 - c.pos) as nat);
}

/// Integer law: the decimal digits of `n` at the cursor, followed by the end
/// of the text or by a character other than a letter, a digit or `.`, lex
/// to one integer token of value `n` when `n` fits in an `i64`, and lexing
/// fails when it does not. Lexing then goes on just after the digits.
pub proof fn lemma_lex_integer(s: Seq<char>, file: Seq<char>, c: Cursor, n: nat)
    requires
        c.pos + decimal_text(n).len() <= s.len(),
        s.subrange(c.pos as int, (c.pos + decimal_text(n).len()) as int) == decimal_text(n),
        c.pos + decimal_text(n).len() < s.len() ==> !({
            let ch = s[(c.pos + decimal_text(n).len()) as int];
            ascii_letter(ch) || ascii_digit(ch) || ch == '.'
        }),
    ensures
        lex_from(s, file, c) == if n <= i64::MAX {
            token_then(
                token_from(s, file, c, c.pos + decimal_text(n).len(), TokenType::INTEGER, LiteralModel::Integer(n as i64)),
                lex_from(s, file, advance(s, c, decimal_text(n).len())),
            )
        } else {
            None
        },
{
    let t = decimal_text(n);
    let k = t.len();
    let a = c.pos as int;
    lemma_decimal_text(n);
    assert forall|i: int| a <= i < a + k implies is_digit(#[trigger] s[i]) by {
        assert(s.subrange(a, a + k)[i - a] == s[i]);
        assert(t[i - a] == s[i]);
    }
    assert(is_digit(s[a]));
    lemma_lex_first(s, file, c);
    let c1 = step(s, c);
    lemma_skip_digits_advance(s, c1, (k - 1) as nat);
    lemma_advance_one(s, c);
    lemma_advance_add(s, c, 1, (k - 1) as nat);
    assert(1 + (k - 1) as nat == k);
    let ce = advance(s, c, k);
    lemma_advance_pos(s, c, k);
    assert(skip_digits(s, c1) == ce);
    assert(scan_number(s, c1) == (ce, false, true));
}

/// Failure law for string literals: a string literal at the cursor whose
/// plain characters (no quote or backslash) run into a newline or the end
/// of the text before any closing quote does not lex.
pub proof fn lemma_lex_unterminated_string(s: Seq<char>, file: Seq<char>, c: Cursor, k: nat)
    requires
        c.pos < k <= s.len(),
        s[c.pos as int] == '"',
        forall|i: int| c.pos < i < k ==> #[trigger] s[i] != '"' && s[i] != '\\' && s[i] != '\n',
        k < s.len() ==> s[k as int] == '\n',
    ensures
        lex_from(s, file, c) is None,
{
    lemma_lex_first(s, file, c);
    assert(!is_alpha(s[c.pos as int]) && !is_digit(s[c.pos as int]));
    let c1 = step(s, c);
    lemma_string_raw(s, c1, Seq::empty(), (k - c1.pos) as nat);
    lemma_advance_pos(s, c1, (k - c1.pos) as nat);
    let ck = advance(s, c1, (k - c1.pos) as nat);
    assert(scan_string_body(s, ck, Seq::empty() + s.subrange(c1.pos as int, k as int)) is None);
}

/// Failure law for character literals: a character literal at the cursor
/// whose character (or escape sequence) is not followed by a closing quote
/// does not lex.
pub proof fn lemma_lex_unterminated_char(s: Seq<char>, file: Seq<char>, c: Cursor)
    requires
        c.pos < s.len(),
        s[c.pos as int] == '\'',
    ensures
        (c.pos + 1 >= s.len()) ==> lex_from(s, file, c) is None,
        (c.pos + 1 < s.len() && s[c.pos + 1int] != '\\' && !(c.pos + 2 < s.len() && s[c.pos + 2int] == '\''))
            ==> lex_from(s, file, c) is None,
        (c.pos + 1 < s.len() && s[c.pos + 1int] == '\\' && !(c.pos + 3 < s.len() && s[c.pos + 3int] == '\''))
            ==> lex_from(s, file, c) is None,
{
    lemma_lex_first(s, file, c);
    assert(!is_alpha(s[c.pos as int]) && !is_digit(s[c.pos as int]));
}

/// Failure law for stray characters: a character that begins no token
/// (`#`, `@`, `$`, `?`, `^`, `~`, a backquote, a backslash, or a single `|`
/// not followed by another) makes lexing fail.
pub proof fn lemma_lex_unexpected(s: Seq<char>, file: Seq<char>, c: Cursor)
    requires
        c.pos < s.len(),
        ({
            let x = s[c.pos as int];
            ||| x == '#' || x == '@' || x == '$' || x == '?' || x == '^' || x == '~' || x == '`' || x == '\\'
            ||| x == '|' && !(c.pos + 1 < s.len() && s[c.pos + 1int] == '|')
        }),
    ensures
        lex_from(s, file, c) is None,
{
    lemma_lex_first(s, file, c);
}

/// Failure law for exponents: digits followed by `e` or `E` and a sign
/// that no digit follows do not lex.
pub proof fn lemma_lex_exponent_without_digits(s: Seq<char>, file: Seq<char>, c: Cursor, int_end: nat)
    requires
        c.pos < int_end,
        int_end + 1 < s.len(),
        forall|j: int| c.pos <= j < int_end ==> ascii_digit(#[trigger] s[j]),
        s[int_end as int] == 'e' || s[int_end as int] == 'E',
        s[int_end + 1int] == '+' || s[int_end + 1int] == '-',
        int_end + 2 < s.len() ==> !ascii_digit(s[int_end + 2int]),
    ensures
        lex_from(s, file, c) is None,
{
    assert(ascii_digit(s[c.pos as int]));
    lemma_lex_first(s, file, c);
    let c1 = step(s, c);
    assert forall|j: int| c1.pos <= j < c1.pos + (int_end - c1.pos) as nat implies is_digit(#[trigger] s[j]) by {
        assert(ascii_digit(s[j]));
    }
    lemma_skip_digits_advance(s, c1, (int_end - c1.pos) as nat);
    lemma_advance_add(s, c, 1, (int_end - c1.pos) as nat);
    lemma_advance_one(s, c);
    assert(1 + (int_end - c1.pos) as nat == (int_end - c.pos) as nat);
    let ci = advance(s, c, (int_end - c.pos) as nat);
    lemma_advance_pos(s, c, (int_end - c.pos) as nat);
    lemma_advance_one(s, ci);
    let c3 = step(s, step(s, ci));
    assert(skip_digits(s, c3) == c3);
    assert(scan_number(s, c1) == (c3, true, false));
}

} // verus!
