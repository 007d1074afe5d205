//! Writing expressions out as text, and the law that the lexer and the
//! parser read such text back into the same expression.
use vstd::prelude::*;

use crate::lexing::{
    decimal_value, digit_value, is_blank, is_digit, lemma_lex_at_end, lex, lex_from, scan_token,
    skip_digits, skip_trivia, start_cursor, step, Cursor, TriviaMode,
};
use crate::parser::{
    is_additive, is_multiplicative, lemma_parse_printed, parse_expr, print_tokens, printable, spells,
    ExprModel,
};
use crate::token::{LiteralModel, TokenModel, TokenType};

verus! {

/// The character of a decimal digit `d < 10`.
pub open spec fn digit_char(d: nat) -> char {
    if d == 0 {
        '0'
    } else if d == 1 {
        '1'
    } else if d == 2 {
        '2'
    } else if d == 3 {
        '3'
    } else if d == 4 {
        '4'
    } else if d == 5 {
        '5'
    } else if d == 6 {
        '6'
    } else if d == 7 {
        '7'
    } else if d == 8 {
        '8'
    } else {
        '9'
    }
}

/// The decimal digits of `n`, without leading zeros.
pub open spec fn decimal_text(n: nat) -> Seq<char>
    decreases n,
{
    if n < 10 {
        seq![digit_char(n)]
    } else {
        decimal_text(n / 10).push(digit_char(n % 10))
    }
}

/// Expressions that can be written out as text: non-negative integer
/// literals, unary minus and the five binary operators.
pub open spec fn text_printable(e: ExprModel) -> bool
    decreases e,
{
    match e {
        ExprModel::Integer(i) => i >= 0,
        ExprModel::Float(_) => false,
        ExprModel::Unary(op, x) => op == TokenType::MINUS && text_printable(*x),
        ExprModel::Binary(l, op, r) => (is_additive(op) || is_multiplicative(op)) && text_printable(*l)
            && text_printable(*r),
    }
}

/// The character of a binary operator.
pub open spec fn operator_char(op: TokenType) -> char {
    if op == TokenType::PLUS {
        '+'
    } else if op == TokenType::MINUS {
        '-'
    } else if op == TokenType::STAR {
        '*'
    } else if op == TokenType::SLASH {
        '/'
    } else {
        '%'
    }
}

/// The text of `e`, with every binary operation in parentheses and no
/// blanks.
pub open spec fn expr_text(e: ExprModel) -> Seq<char>
    decreases e,
{
    match e {
        ExprModel::Integer(i) => decimal_text(i as nat),
        ExprModel::Float(f) => f,
        ExprModel::Unary(_, x) => seq!['-'] + expr_text(*x),
        ExprModel::Binary(l, op, r) => seq!['('] + expr_text(*l) + seq![operator_char(op)] + expr_text(*r)
            + seq![')'],
    }
}

/// The kinds and values of a sequence of tokens.
pub open spec fn kinds_values(ts: Seq<TokenModel>) -> Seq<(TokenType, LiteralModel)> {
    ts.map_values(|t: TokenModel| (t.kind, t.value))
}

/// The kinds and values of the tokens lexed from cursor `c`.
pub open spec fn lexed_kinds(s: Seq<char>, file: Seq<char>, c: Cursor) -> Option<Seq<(TokenType, LiteralModel)>> {
    match lex_from(s, file, c) {
        Some(ts) => Some(kinds_values(ts)),
        None => None,
    }
}

pub open spec fn prepend(ps: Seq<(TokenType, LiteralModel)>, rest: Option<Seq<(TokenType, LiteralModel)>>) -> Option<Seq<(TokenType, LiteralModel)>> {
    match rest {
        Some(r) => Some(ps + r),
        None => None,
    }
}

/// The cursor `n` characters further on the same line.
pub open spec fn move_right(c: Cursor, n: nat) -> Cursor {
    Cursor { pos: c.pos + n, line: c.line, column: c.column + n }
}

/// The text of an expression may be followed, without a blank, by the end
/// of the input, a closing parenthesis or a binary operator.
pub open spec fn may_follow(s: Seq<char>, p: int) -> bool {
    p >= s.len() || s[p] == ')' || s[p] == '+' || s[p] == '-' || s[p] == '*' || s[p] == '/' || s[p]
        == '%'
}

proof fn lemma_digit_char(d: nat)
    requires
        d < 10,
    ensures
        is_digit(digit_char(d)),
        digit_value(digit_char(d)) == d,
{
}

pub(crate) proof fn lemma_decimal_text(n: nat)
    ensures
        decimal_text(n).len() >= 1,
        forall|i: int| 0 <= i < decimal_text(n).len() ==> is_digit(#[trigger] decimal_text(n)[i]),
        decimal_value(decimal_text(n)) == n,
    decreases n,
{
    if n < 10 {
        lemma_digit_char(n);
        let t = decimal_text(n);
        assert(t.drop_last() =~= Seq::<char>::empty());
        assert(decimal_value(t) == decimal_value(Seq::<char>::empty()) * 10 + digit_value(digit_char(n)));
        assert forall|i: int| 0 <= i < t.len() implies is_digit(#[trigger] t[i]) by {
            assert(t[i] == digit_char(n));
        }
    } else {
        let prev = decimal_text(n / 10);
        lemma_decimal_text(n / 10);
        lemma_digit_char(n % 10);
        let t = decimal_text(n);
        assert(t.drop_last() =~= prev);
        assert forall|i: int| 0 <= i < t.len() implies is_digit(#[trigger] t[i]) by {
            if i < prev.len() {
                assert(t[i] == prev[i]);
            }
        }
        assert(t.last() == digit_char(n % 10));
        assert(decimal_value(t) == decimal_value(prev) * 10 + digit_value(digit_char(n % 10)));
        assert(n == (n / 10) * 10 + n % 10);
    }
}

/// The text of an expression starts with a digit, a minus sign or an
/// opening parenthesis.
proof fn lemma_text_start(e: ExprModel)
    requires
        text_printable(e),
    ensures
        expr_text(e).len() >= 1,
        is_digit(expr_text(e)[0]) || expr_text(e)[0] == '-' || expr_text(e)[0] == '(',
    decreases e,
{
    match e {
        ExprModel::Integer(i) => {
            lemma_decimal_text(i as nat);
        },
        ExprModel::Float(_) => {},
        ExprModel::Unary(_, x) => {
            lemma_text_start(*x);
        },
        ExprModel::Binary(l, _, r) => {
            lemma_text_start(*l);
        },
    }
}

proof fn lemma_text_printable_printable(e: ExprModel)
    requires
        text_printable(e),
    ensures
        printable(e),
    decreases e,
{
    match e {
        ExprModel::Unary(_, x) => {
            lemma_text_printable_printable(*x);
        },
        ExprModel::Binary(l, _, r) => {
            lemma_text_printable_printable(*l);
            lemma_text_printable_printable(*r);
        },
        _ => {},
    }
}

/// A part of a text laid out at `a` is laid out at `a + i`.
proof fn lemma_text_part(s: Seq<char>, a: int, t: Seq<char>, i: int, j: int)
    requires
        0 <= a,
        a + t.len() <= s.len(),
        s.subrange(a, a + t.len()) == t,
        0 <= i <= j <= t.len(),
    ensures
        s.subrange(a + i, a + j) == t.subrange(i, j),
{
    assert(s.subrange(a + i, a + j) =~= t.subrange(i, j)) by {
        assert forall|k: int| 0 <= k < j - i implies s.subrange(a + i, a + j)[k] == t.subrange(i, j)[k] by {
            assert(s.subrange(a, a + t.len())[i + k] == s[a + i + k]);
        }
    }
}

proof fn lemma_skip_digits_run(s: Seq<char>, c: Cursor, k: nat)
    requires
        c.pos + k <= s.len(),
        forall|i: int| c.pos <= i < c.pos + k ==> is_digit(#[trigger] s[i]),
        c.pos + k == s.len() || !is_digit(s[(c.pos + k) as int]),
    ensures
        skip_digits(s, c) == move_right(c, k),
    decreases k,
{
    if k > 0 {
        assert(is_digit(s[c.pos as int]));
        lemma_skip_digits_run(s, step(s, c), (k - 1) as nat);
        assert(move_right(step(s, c), (k - 1) as nat) == move_right(c, k));
    } else {
        assert(move_right(c, 0) == c);
    }
}

/// Lexing one more token in front of the rest.
proof fn lemma_lexed_one(s: Seq<char>, file: Seq<char>, c: Cursor, kind: TokenType, value: LiteralModel, e: Cursor)
    requires
        c.pos < s.len(),
        skip_trivia(s, c, TriviaMode::Code) == c,
        scan_token(s, c) == Some((kind, value, e)),
    ensures
        lexed_kinds(s, file, c) == prepend(seq![(kind, value)], lexed_kinds(s, file, e)),
{
    if let Some(rest) = lex_from(s, file, e) {
        let ts = lex_from(s, file, c).unwrap();
        assert(kinds_values(ts) =~= seq![(kind, value)] + kinds_values(rest));
    }
}

/// A one-character token.
proof fn lemma_lexed_single(s: Seq<char>, file: Seq<char>, c: Cursor, kind: TokenType)
    requires
        c.pos < s.len(),
        ({
            let ch = s[c.pos as int];
            let next = if c.pos + 1 < s.len() { s[c.pos + 1int] } else { '\0' };
            ||| ch == '(' && kind == TokenType::LPAREN
            ||| ch == ')' && kind == TokenType::RPAREN
            ||| ch == '+' && kind == TokenType::PLUS
            ||| ch == '*' && kind == TokenType::STAR
            ||| ch == '%' && kind == TokenType::PERCENT
            ||| ch == '-' && kind == TokenType::MINUS && next != '>'
            ||| ch == '/' && kind == TokenType::SLASH && next != '/' && next != '*'
        }),
    ensures
        lexed_kinds(s, file, c) == prepend(seq![(kind, LiteralModel::Empty)], lexed_kinds(s, file, move_right(c, 1))),
{
    assert(step(s, c) == move_right(c, 1));
    lemma_lexed_one(s, file, c, kind, LiteralModel::Empty, move_right(c, 1));
}

/// An integer literal written in decimal.
proof fn lemma_lexed_integer(s: Seq<char>, file: Seq<char>, c: Cursor, n: i64)
    requires
        n >= 0,
        c.pos + decimal_text(n as nat).len() <= s.len(),
        s.subrange(c.pos as int, (c.pos + decimal_text(n as nat).len()) as int) == decimal_text(n as nat),
        may_follow(s, (c.pos + decimal_text(n as nat).len()) as int),
    ensures
        lexed_kinds(s, file, c) == prepend(
            seq![(TokenType::INTEGER, LiteralModel::Integer(n))],
            lexed_kinds(s, file, move_right(c, decimal_text(n as nat).len())),
        ),
{
    let t = decimal_text(n as nat);
    let k = t.len();
    let a: int = c.pos as int;
    lemma_decimal_text(n as nat);
    assert forall|i: int| a <= i < a + k implies is_digit(#[trigger] s[i]) by {
        assert(s.subrange(a, a + k)[i - a] == s[i]);
        assert(t[i - a] == s[i]);
    }
    assert(is_digit(s[a]));
    let c1 = step(s, c);
    assert(c1 == move_right(c, 1));
    lemma_skip_digits_run(s, c1, (k - 1) as nat);
    assert(move_right(c1, (k - 1) as nat) == move_right(c, k));
    assert(s.subrange(a, a + k) == t);
    lemma_lexed_one(s, file, c, TokenType::INTEGER, LiteralModel::Integer(n), move_right(c, k));
}

/// Lexing the text of an expression yields the tokens that write it out,
/// followed by whatever the rest of the input yields.
proof fn lemma_lex_expr_text(s: Seq<char>, file: Seq<char>, c: Cursor, e: ExprModel)
    requires
        text_printable(e),
        c.pos + expr_text(e).len() <= s.len(),
        s.subrange(c.pos as int, (c.pos + expr_text(e).len()) as int) == expr_text(e),
        may_follow(s, (c.pos + expr_text(e).len()) as int),
    ensures
        lexed_kinds(s, file, c) == prepend(
            print_tokens(e),
            lexed_kinds(s, file, move_right(c, expr_text(e).len())),
        ),
    decreases e,
{
    let t = expr_text(e);
    let n: int = t.len() as int;
    let a: int = c.pos as int;
    match e {
        ExprModel::Integer(i) => {
            lemma_lexed_integer(s, file, c, i);
        },
        ExprModel::Float(_) => {},
        ExprModel::Unary(_, x) => {
            let tx = expr_text(*x);
            lemma_text_start(*x);
            lemma_text_part(s, a, t, 0, 1);
            lemma_text_part(s, a, t, 1, n);
            assert(t.subrange(1, n) =~= tx);
            assert(s.subrange(a, a + 1)[0] == s[a]);
            assert(s.subrange(a + 1, a + n)[0] == s[a + 1]);
            lemma_lexed_single(s, file, c, TokenType::MINUS);
            lemma_lex_expr_text(s, file, move_right(c, 1), *x);
            assert(move_right(move_right(c, 1), tx.len()) == move_right(c, t.len()));
            if let Some(r) = lexed_kinds(s, file, move_right(c, t.len())) {
                assert(seq![(TokenType::MINUS, LiteralModel::Empty)] + (print_tokens(*x) + r)
                    =~= print_tokens(e) + r);
            }
        },
        ExprModel::Binary(l, op, r) => {
            let tl = expr_text(*l);
            let tr = expr_text(*r);
            let nl = tl.len();
            let nr = tr.len();
            lemma_binary_layout(s, a, *l, op, *r);
            lemma_text_start(*r);
            let c1 = move_right(c, 1);
            let c2 = move_right(c1, nl);
            let c3 = move_right(c2, 1);
            let c4 = move_right(c3, nr);
            let c5 = move_right(c4, 1);
            assert(c5 == move_right(c, t.len()));
            assert(s[c3.pos as int] == tr[0]);
            lemma_lexed_single(s, file, c, TokenType::LPAREN);
            lemma_lex_expr_text(s, file, c1, *l);
            lemma_lexed_single(s, file, c2, op);
            lemma_lex_expr_text(s, file, c3, *r);
            lemma_lexed_single(s, file, c4, TokenType::RPAREN);
            lemma_compose_binary(
                print_tokens(*l),
                op,
                print_tokens(*r),
                lexed_kinds(s, file, c1),
                lexed_kinds(s, file, c2),
                lexed_kinds(s, file, c3),
                lexed_kinds(s, file, c4),
                lexed_kinds(s, file, c5),
                lexed_kinds(s, file, c),
            );
        },
    }
}

/// Where the parts of a parenthesised binary operation lie in the text.
proof fn lemma_binary_layout(s: Seq<char>, a: int, l: ExprModel, op: TokenType, r: ExprModel)
    requires
        0 <= a,
        a + expr_text(ExprModel::Binary(Box::new(l), op, Box::new(r))).len() <= s.len(),
        s.subrange(a, a + expr_text(ExprModel::Binary(Box::new(l), op, Box::new(r))).len())
            == expr_text(ExprModel::Binary(Box::new(l), op, Box::new(r))),
    ensures
        ({
            let nl = expr_text(l).len() as int;
            let nr = expr_text(r).len() as int;
            &&& s[a] == '('
            &&& s.subrange(a + 1, a + 1 + nl) == expr_text(l)
            &&& s[a + 1 + nl] == operator_char(op)
            &&& s.subrange(a + 2 + nl, a + 2 + nl + nr) == expr_text(r)
            &&& s[a + 2 + nl + nr] == ')'
            &&& expr_text(ExprModel::Binary(Box::new(l), op, Box::new(r))).len() == 3 + nl + nr
        }),
{
    let t = expr_text(ExprModel::Binary(Box::new(l), op, Box::new(r)));
    let tl = expr_text(l);
    let tr = expr_text(r);
    let nl = tl.len() as int;
    let nr = tr.len() as int;
    let n = t.len() as int;
    lemma_text_part(s, a, t, 0, 1);
    lemma_text_part(s, a, t, 1, 1 + nl);
    lemma_text_part(s, a, t, 1 + nl, 2 + nl);
    lemma_text_part(s, a, t, 2 + nl, 2 + nl + nr);
    lemma_text_part(s, a, t, 2 + nl + nr, n);
    assert(t.subrange(1, 1 + nl) =~= tl);
    assert(t.subrange(2 + nl, 2 + nl + nr) =~= tr);
    assert(s.subrange(a, a + 1)[0] == s[a]);
    assert(s.subrange(a + 1 + nl, a + 2 + nl)[0] == s[a + 1 + nl]);
    assert(s.subrange(a + 2 + nl + nr, a + n)[0] == s[a + 2 + nl + nr]);
}

proof fn lemma_compose_binary(
    pl: Seq<(TokenType, LiteralModel)>,
    op: TokenType,
    pr: Seq<(TokenType, LiteralModel)>,
    k1: Option<Seq<(TokenType, LiteralModel)>>,
    k2: Option<Seq<(TokenType, LiteralModel)>>,
    k3: Option<Seq<(TokenType, LiteralModel)>>,
    k4: Option<Seq<(TokenType, LiteralModel)>>,
    k5: Option<Seq<(TokenType, LiteralModel)>>,
    k0: Option<Seq<(TokenType, LiteralModel)>>,
)
    requires
        k0 == prepend(seq![(TokenType::LPAREN, LiteralModel::Empty)], k1),
        k1 == prepend(pl, k2),
        k2 == prepend(seq![(op, LiteralModel::Empty)], k3),
        k3 == prepend(pr, k4),
        k4 == prepend(seq![(TokenType::RPAREN, LiteralModel::Empty)], k5),
    ensures
        k0 == prepend(
            seq![(TokenType::LPAREN, LiteralModel::Empty)] + pl + seq![(op, LiteralModel::Empty)] + pr
                + seq![(TokenType::RPAREN, LiteralModel::Empty)],
            k5,
        ),
{
    if let Some(rest) = k5 {
        assert(seq![(TokenType::LPAREN, LiteralModel::Empty)] + (pl + (seq![(op, LiteralModel::Empty)] + (pr
            + (seq![(TokenType::RPAREN, LiteralModel::Empty)] + rest)))) =~= seq![(
            TokenType::LPAREN,
            LiteralModel::Empty,
        )] + pl + seq![(op, LiteralModel::Empty)] + pr + seq![(TokenType::RPAREN, LiteralModel::Empty)]
            + rest);
    }
}

/// Reading law: writing an expression out as text (every binary operation
/// in parentheses, integer literals in decimal) and reading the text back,
/// by lexing then parsing, gives the same expression, and the parse ends
/// just before the end-of-input token.
pub proof fn lemma_read_back_text(e: ExprModel, file: Seq<char>)
    requires
        text_printable(e),
    ensures
        lex(expr_text(e), file) matches Some(ts) && parse_expr(ts, 0) == Some((e, ts.len() - 1)),
{
    let s = expr_text(e);
    let c = start_cursor();
    assert(s.subrange(0, s.len() as int) =~= s);
    lemma_lex_expr_text(s, file, c, e);
    let end = move_right(c, s.len());
    lemma_lex_at_end(s, file, end);
    let ps = print_tokens(e);
    let ts = lex_from(s, file, c).unwrap();
    assert(kinds_values(ts) == ps + seq![(TokenType::END_OF_FILE, LiteralModel::Empty)]);
    assert(ts.len() == ps.len() + 1);
    assert forall|i: int| 0 <= i < ps.len() implies #[trigger] ts[0 + i].kind == ps[i].0 && ts[0
        + i].value == ps[i].1 by {
        assert(kinds_values(ts)[i] == ps[i]);
    }
    assert(kinds_values(ts)[ps.len() as int] == (TokenType::END_OF_FILE, LiteralModel::Empty));
    assert(ts[ps.len() as int].kind == TokenType::END_OF_FILE);
    lemma_text_printable_printable(e);
    lemma_parse_printed(ts, 0, e);
}

} // verus!
