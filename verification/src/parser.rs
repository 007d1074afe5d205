//! The parser: turns tokens into an expression tree, proved to build exactly
//! the tree that the grammar below defines.
//!
//! ```text
//! expr    ::= term (('+' | '-') term)*
//! term    ::= unary (('*' | '/' | '%') unary)*
//! unary   ::= '-' unary | primary
//! primary ::= INTEGER | FLOAT | '(' expr ')'
//! ```
//! Binary operators associate to the left. Parsing reads one expression from
//! the current position and leaves any tokens after it unread.
use vstd::prelude::*;

use crate::token::{tokens_model, LiteralModel, LiteralValue, Token, TokenModel, TokenType};

verus! {

/// An arithmetic expression.
///
/// A floating-point literal is kept as its decimal text.
#[derive(Debug, PartialEq)]
pub enum Expr {
    Integer(i64),
    Float(String),
    Unary(TokenType, Box<Expr>),
    Binary(Box<Expr>, TokenType, Box<Expr>),
}

/// The mathematical value of an `Expr`.
pub enum ExprModel {
    Integer(i64),
    Float(Seq<char>),
    Unary(TokenType, Box<ExprModel>),
    Binary(Box<ExprModel>, TokenType, Box<ExprModel>),
}

pub open spec fn expr_model(e: Expr) -> ExprModel
    decreases e,
{
    match e {
        Expr::Integer(i) => ExprModel::Integer(i),
        Expr::Float(s) => ExprModel::Float(s@),
        Expr::Unary(op, inner) => ExprModel::Unary(op, Box::new(expr_model(*inner))),
        Expr::Binary(l, op, r) => ExprModel::Binary(
            Box::new(expr_model(*l)),
            op,
            Box::new(expr_model(*r)),
        ),
    }
}

impl View for Expr {
    type V = ExprModel;

    open spec fn view(&self) -> ExprModel {
        expr_model(*self)
    }
}

/// The operators of `expr`: addition and subtraction.
pub open spec fn is_additive(k: TokenType) -> bool {
    k == TokenType::PLUS || k == TokenType::MINUS
}

/// The operators of `term`: multiplication, division and remainder.
pub open spec fn is_multiplicative(k: TokenType) -> bool {
    k == TokenType::STAR || k == TokenType::SLASH || k == TokenType::PERCENT
}

/// `primary` at position `p` of `toks`: the expression and the position after
/// it, or `None` where the tokens do not form one.
pub open spec fn parse_primary(toks: Seq<TokenModel>, p: int) -> Option<(ExprModel, int)>
    decreases toks.len() - p, 0int,
{
    if !(0 <= p < toks.len()) {
        None
    } else {
        let t = toks[p];
        if t.kind == TokenType::INTEGER {
            match t.value {
                LiteralModel::Integer(i) => Some((ExprModel::Integer(i), p + 1)),
                _ => None,
            }
        } else if t.kind == TokenType::FLOAT {
            match t.value {
                LiteralModel::Float(f) => Some((ExprModel::Float(f), p + 1)),
                _ => None,
            }
        } else if t.kind == TokenType::LPAREN {
            match parse_expr(toks, p + 1) {
                Some((e, q)) => if 0 <= q < toks.len() && toks[q].kind == TokenType::RPAREN {
                    Some((e, q + 1))
                } else {
                    None
                },
                None => None,
            }
        } else {
            None
        }
    }
}

/// `unary` at position `p`.
pub open spec fn parse_unary(toks: Seq<TokenModel>, p: int) -> Option<(ExprModel, int)>
    decreases toks.len() - p, 1int,
{
    if !(0 <= p < toks.len()) {
        None
    } else if toks[p].kind == TokenType::MINUS {
        match parse_unary(toks, p + 1) {
            Some((e, q)) => Some((ExprModel::Unary(TokenType::MINUS, Box::new(e)), q)),
            None => None,
        }
    } else {
        parse_primary(toks, p)
    }
}

/// The rest of a `term` after its operands so far, `left`, at position `p`.
pub open spec fn parse_term_rest(toks: Seq<TokenModel>, left: ExprModel, p: int) -> Option<(ExprModel, int)>
    decreases toks.len() - p, 2int,
{
    if !(0 <= p < toks.len()) {
        None
    } else if is_multiplicative(toks[p].kind) {
        match parse_unary(toks, p + 1) {
            Some((right, q)) => if p < q <= toks.len() {
                parse_term_rest(toks, ExprModel::Binary(Box::new(left), toks[p].kind, Box::new(right)), q)
            } else {
                None
            },
            None => None,
        }
    } else {
        Some((left, p))
    }
}

/// `term` at position `p`.
pub open spec fn parse_term(toks: Seq<TokenModel>, p: int) -> Option<(ExprModel, int)>
    decreases toks.len() - p, 3int,
{
    match parse_unary(toks, p) {
        Some((left, q)) => if p <= q <= toks.len() {
            parse_term_rest(toks, left, q)
        } else {
            None
        },
        None => None,
    }
}

/// The rest of an `expr` after its terms so far, `left`, at position `p`.
pub open spec fn parse_expr_rest(toks: Seq<TokenModel>, left: ExprModel, p: int) -> Option<(ExprModel, int)>
    decreases toks.len() - p, 4int,
{
    if !(0 <= p < toks.len()) {
        None
    } else if is_additive(toks[p].kind) {
        match parse_term(toks, p + 1) {
            Some((right, q)) => if p < q <= toks.len() {
                parse_expr_rest(toks, ExprModel::Binary(Box::new(left), toks[p].kind, Box::new(right)), q)
            } else {
                None
            },
            None => None,
        }
    } else {
        Some((left, p))
    }
}

/// `expr` at position `p`.
pub open spec fn parse_expr(toks: Seq<TokenModel>, p: int) -> Option<(ExprModel, int)>
    decreases toks.len() - p, 5int,
{
    match parse_term(toks, p) {
        Some((left, q)) => if p <= q <= toks.len() {
            parse_expr_rest(toks, left, q)
        } else {
            None
        },
        None => None,
    }
}

/// The token sequence ends with the end-of-input token.
pub open spec fn ends_with_eof(toks: Seq<TokenModel>) -> bool {
    toks.len() > 0 && toks.last().kind == TokenType::END_OF_FILE
}

/// What a parse from `p` that ends at `q` reads: at least one token, never
/// past the end, and never the end-of-input token of a sequence that ends
/// with one.
pub open spec fn reads_forward(toks: Seq<TokenModel>, p: int, q: int) -> bool {
    &&& p < q <= toks.len()
    &&& ends_with_eof(toks) ==> q < toks.len()
}

/// What the rest of a `term` or `expr` from `p` reads: possibly nothing.
pub open spec fn rest_reads_forward(toks: Seq<TokenModel>, p: int, q: int) -> bool {
    &&& p <= q <= toks.len()
    &&& ends_with_eof(toks) ==> q < toks.len()
}

proof fn lemma_primary_reads(toks: Seq<TokenModel>, p: int)
    ensures
        parse_primary(toks, p) matches Some((_, q)) ==> reads_forward(toks, p, q),
    decreases toks.len() - p, 0int,
{
    if 0 <= p < toks.len() && toks[p].kind == TokenType::LPAREN {
        lemma_expr_reads(toks, p + 1);
    }
}

proof fn lemma_unary_reads(toks: Seq<TokenModel>, p: int)
    ensures
        parse_unary(toks, p) matches Some((_, q)) ==> reads_forward(toks, p, q),
    decreases toks.len() - p, 1int,
{
    if 0 <= p < toks.len() {
        if toks[p].kind == TokenType::MINUS {
            lemma_unary_reads(toks, p + 1);
        } else {
            lemma_primary_reads(toks, p);
        }
    }
}

proof fn lemma_term_rest_reads(toks: Seq<TokenModel>, left: ExprModel, p: int)
    ensures
        parse_term_rest(toks, left, p) matches Some((_, q)) ==> rest_reads_forward(toks, p, q),
    decreases toks.len() - p, 2int,
{
    if 0 <= p < toks.len() && is_multiplicative(toks[p].kind) {
        lemma_unary_reads(toks, p + 1);
        if let Some((right, q)) = parse_unary(toks, p + 1) {
            if p < q <= toks.len() {
                lemma_term_rest_reads(toks, ExprModel::Binary(Box::new(left), toks[p].kind, Box::new(right)), q);
            }
        }
    }
}

proof fn lemma_term_reads(toks: Seq<TokenModel>, p: int)
    ensures
        parse_term(toks, p) matches Some((_, q)) ==> reads_forward(toks, p, q),
    decreases toks.len() - p, 3int,
{
    lemma_unary_reads(toks, p);
    if let Some((left, q)) = parse_unary(toks, p) {
        if p <= q <= toks.len() {
            lemma_term_rest_reads(toks, left, q);
        }
    }
}

proof fn lemma_expr_rest_reads(toks: Seq<TokenModel>, left: ExprModel, p: int)
    ensures
        parse_expr_rest(toks, left, p) matches Some((_, q)) ==> rest_reads_forward(toks, p, q),
    decreases toks.len() - p, 4int,
{
    if 0 <= p < toks.len() && is_additive(toks[p].kind) {
        lemma_term_reads(toks, p + 1);
        if let Some((right, q)) = parse_term(toks, p + 1) {
            if p < q <= toks.len() {
                lemma_expr_rest_reads(toks, ExprModel::Binary(Box::new(left), toks[p].kind, Box::new(right)), q);
            }
        }
    }
}

proof fn lemma_expr_reads(toks: Seq<TokenModel>, p: int)
    ensures
        parse_expr(toks, p) matches Some((_, q)) ==> reads_forward(toks, p, q),
    decreases toks.len() - p, 5int,
{
    lemma_term_reads(toks, p);
    if let Some((left, q)) = parse_term(toks, p) {
        if p <= q <= toks.len() {
            lemma_expr_rest_reads(toks, left, q);
        }
    }
}

/// Parsing law: an expression read from position `p` takes at least one
/// token, and it never reads the end-of-input token of a sequence that ends
/// with one (the parser does not move past that token).
pub proof fn lemma_parse_reads_forward(toks: Seq<TokenModel>, p: int)
    ensures
        parse_expr(toks, p) matches Some((_, q)) ==> reads_forward(toks, p, q),
{
    lemma_expr_reads(toks, p);
}

/// Expressions that the parser can build: unary minus, the five binary
/// operators, and literals.
pub open spec fn printable(e: ExprModel) -> bool
    decreases e,
{
    match e {
        ExprModel::Integer(_) => true,
        ExprModel::Float(_) => true,
        ExprModel::Unary(op, x) => op == TokenType::MINUS && printable(*x),
        ExprModel::Binary(l, op, r) => (is_additive(op) || is_multiplicative(op)) && printable(*l)
            && printable(*r),
    }
}

/// The kinds and values of the tokens that write `e` out with every binary
/// operation in parentheses.
pub open spec fn print_tokens(e: ExprModel) -> Seq<(TokenType, LiteralModel)>
    decreases e,
{
    match e {
        ExprModel::Integer(i) => seq![(TokenType::INTEGER, LiteralModel::Integer(i))],
        ExprModel::Float(f) => seq![(TokenType::FLOAT, LiteralModel::Float(f))],
        ExprModel::Unary(op, x) => seq![(op, LiteralModel::Empty)] + print_tokens(*x),
        ExprModel::Binary(l, op, r) => seq![(TokenType::LPAREN, LiteralModel::Empty)] + print_tokens(*l)
            + seq![(op, LiteralModel::Empty)] + print_tokens(*r) + seq![(TokenType::RPAREN, LiteralModel::Empty)],
    }
}

/// The tokens of `toks` from position `p` on have the kinds and values `ps`.
pub open spec fn spells(toks: Seq<TokenModel>, p: int, ps: Seq<(TokenType, LiteralModel)>) -> bool {
    &&& 0 <= p
    &&& p + ps.len() <= toks.len()
    &&& forall|i: int| 0 <= i < ps.len() ==> #[trigger] toks[p + i].kind == ps[i].0 && toks[p + i].value == ps[i].1
}

proof fn lemma_spells_part(
    toks: Seq<TokenModel>,
    p: int,
    ps: Seq<(TokenType, LiteralModel)>,
    k: int,
    part: Seq<(TokenType, LiteralModel)>,
)
    requires
        spells(toks, p, ps),
        0 <= k,
        k + part.len() <= ps.len(),
        forall|i: int| 0 <= i < part.len() ==> #[trigger] part[i] == ps[k + i],
    ensures
        spells(toks, p + k, part),
{
    assert forall|i: int| 0 <= i < part.len() implies #[trigger] toks[p + k + i].kind == part[i].0
        && toks[p + k + i].value == part[i].1 by {
        assert(part[i] == ps[k + i]);
        assert(toks[p + (k + i)] == toks[p + k + i]);
    }
}

/// A printed expression read as a `unary` gives back the expression.
proof fn lemma_unary_reads_printed(toks: Seq<TokenModel>, p: int, e: ExprModel)
    requires
        printable(e),
        spells(toks, p, print_tokens(e)),
    ensures
        parse_unary(toks, p) == Some((e, p + print_tokens(e).len())),
    decreases e,
{
    let ps = print_tokens(e);
    assert(toks[p + 0].kind == ps[0].0 && toks[p + 0].value == ps[0].1);
    match e {
        ExprModel::Integer(i) => {
            assert(toks[p].kind == TokenType::INTEGER && toks[p].value == LiteralModel::Integer(i));
            assert(parse_primary(toks, p) == Some((e, p + 1)));
        },
        ExprModel::Float(f) => {
            assert(toks[p].kind == TokenType::FLOAT && toks[p].value == LiteralModel::Float(f));
            assert(parse_primary(toks, p) == Some((e, p + 1)));
        },
        ExprModel::Unary(op, x) => {
            let px = print_tokens(*x);
            lemma_spells_part(toks, p, ps, 1int, px);
            lemma_unary_reads_printed(toks, p + 1, *x);
        },
        ExprModel::Binary(l, op, r) => {
            let pl = print_tokens(*l);
            let pr = print_tokens(*r);
            let nl: int = pl.len() as int;
            let nr: int = pr.len() as int;
            let p1 = p + 1 + nl;
            let p2 = p1 + 1 + nr;
            lemma_spells_part(toks, p, ps, 1int, pl);
            lemma_spells_part(toks, p, ps, 2 + nl, pr);
            assert(toks[p + (1 + nl)].kind == ps[1 + nl].0);
            assert(toks[p + (2 + nl + nr)].kind == ps[2 + nl + nr].0);
            assert(toks[p1].kind == op);
            assert(toks[p2].kind == TokenType::RPAREN);
            lemma_unary_reads_printed(toks, p + 1, *l);
            lemma_unary_reads_printed(toks, p1 + 1, *r);
            let whole = ExprModel::Binary(Box::new(*l), op, Box::new(*r));
            assert(whole == e);
            if is_multiplicative(op) {
                assert(parse_term_rest(toks, whole, p2) == Some((whole, p2)));
                assert(parse_term_rest(toks, *l, p1) == Some((whole, p2)));
                assert(parse_term(toks, p + 1) == Some((whole, p2)));
                assert(parse_expr_rest(toks, whole, p2) == Some((whole, p2)));
                assert(parse_expr(toks, p + 1) == Some((whole, p2)));
            } else {
                assert(parse_term_rest(toks, *r, p2) == Some((*r, p2)));
                assert(parse_term(toks, p1 + 1) == Some((*r, p2)));
                assert(parse_term_rest(toks, *l, p1) == Some((*l, p1)));
                assert(parse_term(toks, p + 1) == Some((*l, p1)));
                assert(parse_expr_rest(toks, whole, p2) == Some((whole, p2)));
                assert(parse_expr_rest(toks, *l, p1) == Some((whole, p2)));
                assert(parse_expr(toks, p + 1) == Some((whole, p2)));
            }
        },
    }
}

/// Parsing law: writing an expression out (every binary operation in
/// parentheses) and parsing it back gives the same expression, whatever
/// token follows, as long as it is not a binary operator.
pub proof fn lemma_parse_printed(toks: Seq<TokenModel>, p: int, e: ExprModel)
    requires
        printable(e),
        spells(toks, p, print_tokens(e)),
        p + print_tokens(e).len() < toks.len(),
        !is_additive(toks[p + print_tokens(e).len()].kind),
        !is_multiplicative(toks[p + print_tokens(e).len()].kind),
    ensures
        parse_expr(toks, p) == Some((e, p + print_tokens(e).len())),
{
    lemma_unary_reads_printed(toks, p, e);
}

/// Precedence law: for operands `e1`, `e2`, `e3` written out one after the
/// other with binary operators `o1` and `o2` between them, and followed by a
/// token that is not a binary operator, `*`, `/` and `%` bind tighter than
/// `+` and `-`, and operators of the same level associate to the left: the
/// tree is `e1 o1 (e2 o2 e3)` exactly when `o2` is one of `*`, `/`, `%` and
/// `o1` is `+` or `-`, and `(e1 o1 e2) o2 e3` otherwise. After an operator of
/// either level exactly one operand of the next level down is read.
pub proof fn lemma_precedence(
    toks: Seq<TokenModel>,
    p: int,
    e1: ExprModel,
    o1: TokenType,
    e2: ExprModel,
    o2: TokenType,
    e3: ExprModel,
)
    requires
        printable(e1),
        printable(e2),
        printable(e3),
        o1 == TokenType::PLUS || o1 == TokenType::MINUS || o1 == TokenType::STAR || o1
            == TokenType::SLASH || o1 == TokenType::PERCENT,
        o2 == TokenType::PLUS || o2 == TokenType::MINUS || o2 == TokenType::STAR || o2
            == TokenType::SLASH || o2 == TokenType::PERCENT,
        spells(toks, p, print_tokens(e1)),
        toks[p + print_tokens(e1).len()].kind == o1,
        spells(toks, p + print_tokens(e1).len() + 1, print_tokens(e2)),
        toks[p + print_tokens(e1).len() + 1 + print_tokens(e2).len()].kind == o2,
        spells(toks, p + print_tokens(e1).len() + 1 + print_tokens(e2).len() + 1, print_tokens(e3)),
        p + print_tokens(e1).len() + print_tokens(e2).len() + print_tokens(e3).len() + 2 < toks.len(),
        ({
            let k = toks[p + print_tokens(e1).len() + print_tokens(e2).len() + print_tokens(e3).len() + 2].kind;
            k != TokenType::PLUS && k != TokenType::MINUS && k != TokenType::STAR && k != TokenType::SLASH
                && k != TokenType::PERCENT
        }),
    ensures
        parse_expr(toks, p) == Some((
            if (o2 == TokenType::STAR || o2 == TokenType::SLASH || o2 == TokenType::PERCENT) && (o1
                == TokenType::PLUS || o1 == TokenType::MINUS) {
                ExprModel::Binary(Box::new(e1), o1, Box::new(ExprModel::Binary(Box::new(e2), o2, Box::new(e3))))
            } else {
                ExprModel::Binary(Box::new(ExprModel::Binary(Box::new(e1), o1, Box::new(e2))), o2, Box::new(e3))
            },
            p + print_tokens(e1).len() + print_tokens(e2).len() + print_tokens(e3).len() + 2,
        )),
{
    let a1 = p + print_tokens(e1).len();
    let a2 = a1 + 1 + print_tokens(e2).len();
    let a3 = a2 + 1 + print_tokens(e3).len();
    lemma_unary_reads_printed(toks, p, e1);
    lemma_unary_reads_printed(toks, a1 + 1, e2);
    lemma_unary_reads_printed(toks, a2 + 1, e3);
    assert(!is_additive(toks[a3].kind) && !is_multiplicative(toks[a3].kind));
    let l12 = ExprModel::Binary(Box::new(e1), o1, Box::new(e2));
    let r23 = ExprModel::Binary(Box::new(e2), o2, Box::new(e3));
    if is_multiplicative(o1) {
        if is_multiplicative(o2) {
            let all = ExprModel::Binary(Box::new(l12), o2, Box::new(e3));
            assert(parse_term_rest(toks, all, a3) == Some((all, a3)));
            assert(parse_term_rest(toks, l12, a2) == Some((all, a3)));
            assert(parse_term_rest(toks, e1, a1) == Some((all, a3)));
            assert(parse_term(toks, p) == Some((all, a3)));
            assert(parse_expr_rest(toks, all, a3) == Some((all, a3)));
        } else {
            let all = ExprModel::Binary(Box::new(l12), o2, Box::new(e3));
            assert(parse_term_rest(toks, l12, a2) == Some((l12, a2)));
            assert(parse_term_rest(toks, e1, a1) == Some((l12, a2)));
            assert(parse_term(toks, p) == Some((l12, a2)));
            assert(parse_term_rest(toks, e3, a3) == Some((e3, a3)));
            assert(parse_term(toks, a2 + 1) == Some((e3, a3)));
            assert(parse_expr_rest(toks, all, a3) == Some((all, a3)));
            assert(parse_expr_rest(toks, l12, a2) == Some((all, a3)));
        }
    } else {
        assert(parse_term_rest(toks, e1, a1) == Some((e1, a1)));
        assert(parse_term(toks, p) == Some((e1, a1)));
        if is_multiplicative(o2) {
            let all = ExprModel::Binary(Box::new(e1), o1, Box::new(r23));
            assert(parse_term_rest(toks, r23, a3) == Some((r23, a3)));
            assert(parse_term_rest(toks, e2, a2) == Some((r23, a3)));
            assert(parse_term(toks, a1 + 1) == Some((r23, a3)));
            assert(parse_expr_rest(toks, all, a3) == Some((all, a3)));
            assert(parse_expr_rest(toks, e1, a1) == Some((all, a3)));
        } else {
            let all = ExprModel::Binary(Box::new(l12), o2, Box::new(e3));
            assert(parse_term_rest(toks, e2, a2) == Some((e2, a2)));
            assert(parse_term(toks, a1 + 1) == Some((e2, a2)));
            assert(parse_term_rest(toks, e3, a3) == Some((e3, a3)));
            assert(parse_term(toks, a2 + 1) == Some((e3, a3)));
            assert(parse_expr_rest(toks, all, a3) == Some((all, a3)));
            assert(parse_expr_rest(toks, l12, a2) == Some((all, a3)));
            assert(parse_expr_rest(toks, e1, a1) == Some((all, a3)));
        }
    }
}

/// Parsing law: an expression can only start with an integer or
/// floating-point literal, an opening parenthesis or a unary minus; at any
/// other token parsing fails.
pub proof fn lemma_parse_start(toks: Seq<TokenModel>, p: int)
    ensures
        parse_expr(toks, p) is Some ==> 0 <= p < toks.len() && (toks[p].kind == TokenType::INTEGER || toks[p].kind
            == TokenType::FLOAT || toks[p].kind == TokenType::LPAREN || toks[p].kind == TokenType::MINUS),
{
    if parse_expr(toks, p) is Some {
        assert(parse_term(toks, p) is Some);
        assert(parse_unary(toks, p) is Some);
        if 0 <= p < toks.len() && toks[p].kind != TokenType::MINUS {
            assert(parse_primary(toks, p) is Some);
        }
    }
}

/// Parsing law: an opening parenthesis must be closed. When `(` is followed
/// by an expression `e` written out and then by a token that is neither a
/// binary operator nor `)`, parsing from the parenthesis fails.
pub proof fn lemma_parse_unclosed(toks: Seq<TokenModel>, p: int, e: ExprModel)
    requires
        printable(e),
        0 <= p < toks.len(),
        toks[p].kind == TokenType::LPAREN,
        spells(toks, p + 1, print_tokens(e)),
        p + 1 + print_tokens(e).len() < toks.len(),
        ({
            let k = toks[p + 1 + print_tokens(e).len()].kind;
            k != TokenType::RPAREN && k != TokenType::PLUS && k != TokenType::MINUS && k != TokenType::STAR && k
                != TokenType::SLASH && k != TokenType::PERCENT
        }),
    ensures
        parse_expr(toks, p) is None,
{
    lemma_parse_printed(toks, p + 1, e);
    assert(parse_primary(toks, p) is None);
    assert(parse_unary(toks, p) is None);
    assert(parse_term(toks, p) is None);
}

/// A parser over a sequence of tokens.
pub struct Parser<'a> {
    tokens: Vec<Token<'a>>,
    pos: usize,
}

impl<'a> Parser<'a> {
    /// The tokens being parsed.
    pub closed spec fn tokens(&self) -> Seq<TokenModel> {
        tokens_model(self.tokens@)
    }

    /// The position of the next token to read.
    pub closed spec fn position(&self) -> int {
        self.pos as int
    }

    /// The parser's invariant.
    pub closed spec fn wf(&self) -> bool {
        self.pos <= self.tokens@.len()
    }

    pub fn new(tokens: Vec<Token<'a>>) -> (r: Self)
        ensures
            r.wf(),
            r.tokens() == tokens_model(tokens@),
            r.position() == 0,
    {
        Self { tokens, pos: 0 }
    }

    /// Reads one expression from the current position, or returns `None`
    /// where the tokens there do not form one.
    pub fn try_parse(&mut self) -> (r: Option<Expr>)
        requires
            old(self).wf(),
        ensures
            final(self).wf(),
            final(self).tokens() == old(self).tokens(),
            match parse_expr(old(self).tokens(), old(self).position()) {
                Some((e, q)) => r matches Some(x) && x@ == e && final(self).position() == q,
                None => r is None,
            },
    {
        self.try_parse_expr()
    }

    /// Reads one expression from the current position.
    pub fn parse(&mut self) -> (r: Expr)
        requires
            old(self).wf(),
            parse_expr(old(self).tokens(), old(self).position()) is Some,
        ensures
            final(self).wf(),
            final(self).tokens() == old(self).tokens(),
            parse_expr(old(self).tokens(), old(self).position()) == Some((r@, final(self).position())),
    {
        self.parse_expr()
    }

    fn parse_expr(&mut self) -> (r: Expr)
        requires
            old(self).wf(),
            parse_expr(old(self).tokens(), old(self).position()) is Some,
        ensures
            final(self).wf(),
            final(self).tokens == old(self).tokens,
            old(self).pos <= final(self).pos,
            parse_expr(old(self).tokens(), old(self).position()) == Some((r@, final(self).position())),
        decreases old(self).tokens@.len() - old(self).pos, 5int,
    {
        let ghost toks = self.tokens();
        let ghost p0 = self.pos as int;
        let mut left = self.parse_term();
        let ghost goal = parse_expr(toks, p0);
        loop
            invariant
                self.wf(),
                self.tokens == old(self).tokens,
                toks == self.tokens(),
                p0 == old(self).pos,
                p0 <= self.pos,
                goal == parse_expr(toks, p0),
                goal is Some,
                goal == parse_expr_rest(toks, left@, self.pos as int),
            ensures
                self.wf(),
                self.tokens == old(self).tokens,
                p0 <= self.pos,
                goal == Some((left@, self.pos as int)),
            decreases self.tokens@.len() - self.pos,
        {
            let op = self.peek().token_type;
            if !(op == TokenType::PLUS || op == TokenType::MINUS) {
                break;
            }
            self.advance();
            let right = self.parse_term();
            left = Expr::Binary(Box::new(left), op, Box::new(right));
        }
        left
    }

    fn parse_term(&mut self) -> (r: Expr)
        requires
            old(self).wf(),
            parse_term(old(self).tokens(), old(self).position()) is Some,
        ensures
            final(self).wf(),
            final(self).tokens == old(self).tokens,
            old(self).pos <= final(self).pos,
            parse_term(old(self).tokens(), old(self).position()) == Some((r@, final(self).position())),
        decreases old(self).tokens@.len() - old(self).pos, 3int,
    {
        let ghost toks = self.tokens();
        let ghost p0 = self.pos as int;
        let mut left = self.parse_unary();
        let ghost goal = parse_term(toks, p0);
        loop
            invariant
                self.wf(),
                self.tokens == old(self).tokens,
                toks == self.tokens(),
                p0 == old(self).pos,
                p0 <= self.pos,
                goal == parse_term(toks, p0),
                goal is Some,
                goal == parse_term_rest(toks, left@, self.pos as int),
            ensures
                self.wf(),
                self.tokens == old(self).tokens,
                p0 <= self.pos,
                goal == Some((left@, self.pos as int)),
            decreases self.tokens@.len() - self.pos,
        {
            let op = self.peek().token_type;
            if !(op == TokenType::STAR || op == TokenType::SLASH || op == TokenType::PERCENT) {
                break;
            }
            self.advance();
            let right = self.parse_unary();
            left = Expr::Binary(Box::new(left), op, Box::new(right));
        }
        left
    }

    fn parse_unary(&mut self) -> (r: Expr)
        requires
            old(self).wf(),
            parse_unary(old(self).tokens(), old(self).position()) is Some,
        ensures
            final(self).wf(),
            final(self).tokens == old(self).tokens,
            old(self).pos <= final(self).pos,
            parse_unary(old(self).tokens(), old(self).position()) == Some((r@, final(self).position())),
        decreases old(self).tokens@.len() - old(self).pos, 1int,
    {
        if self.peek().token_type == TokenType::MINUS {
            self.advance();
            let operand = self.parse_unary();
            return Expr::Unary(TokenType::MINUS, Box::new(operand));
        }
        self.parse_primary()
    }

    fn parse_primary(&mut self) -> (r: Expr)
        requires
            old(self).wf(),
            parse_primary(old(self).tokens(), old(self).position()) is Some,
        ensures
            final(self).wf(),
            final(self).tokens == old(self).tokens,
            old(self).pos <= final(self).pos,
            parse_primary(old(self).tokens(), old(self).position()) == Some((r@, final(self).position())),
        decreases old(self).tokens@.len() - old(self).pos, 0int,
    {
        let i = self.advance();
        let kind = self.tokens[i].token_type;
        if kind == TokenType::INTEGER {
            match &self.tokens[i].value {
                LiteralValue::Integer(v) => Expr::Integer(*v),
                _ => unreached(),
            }
        } else if kind == TokenType::FLOAT {
            match &self.tokens[i].value {
                LiteralValue::Float(f) => Expr::Float(f.clone()),
                _ => unreached(),
            }
        } else {
            // `(` expr `)`
            let expr = self.parse_expr();
            let closing = self.advance();
            assert(self.tokens@[closing as int].token_type == TokenType::RPAREN);
            expr
        }
    }

    fn try_parse_expr(&mut self) -> (r: Option<Expr>)
        requires
            old(self).wf(),
        ensures
            final(self).wf(),
            final(self).tokens == old(self).tokens,
            old(self).pos <= final(self).pos,
            match parse_expr(old(self).tokens(), old(self).position()) {
                Some((e, q)) => r matches Some(x) && x@ == e && final(self).position() == q,
                None => r is None,
            },
        decreases old(self).tokens@.len() - old(self).pos, 5int,
    {
        let ghost toks = self.tokens();
        let ghost p0 = self.pos as int;
        let mut left = match self.try_parse_term() {
            Some(e) => e,
            None => return None,
        };
        let ghost goal = parse_expr(toks, p0);
        loop
            invariant
                self.wf(),
                self.tokens == old(self).tokens,
                toks == self.tokens(),
                p0 == old(self).pos,
                p0 <= self.pos,
                goal == parse_expr(toks, p0),
                goal == parse_expr_rest(toks, left@, self.pos as int),
            ensures
                self.wf(),
                self.tokens == old(self).tokens,
                p0 <= self.pos,
                goal == Some((left@, self.pos as int)),
            decreases self.tokens@.len() - self.pos,
        {
            if self.pos >= self.tokens.len() {
                // reading past the last token
                return None;
            }
            let op = self.peek().token_type;
            if !(op == TokenType::PLUS || op == TokenType::MINUS) {
                break;
            }
            self.advance();
            let right = match self.try_parse_term() {
                Some(e) => e,
                None => return None,
            };
            left = Expr::Binary(Box::new(left), op, Box::new(right));
        }
        Some(left)
    }

    fn try_parse_term(&mut self) -> (r: Option<Expr>)
        requires
            old(self).wf(),
        ensures
            final(self).wf(),
            final(self).tokens == old(self).tokens,
            old(self).pos <= final(self).pos,
            match parse_term(old(self).tokens(), old(self).position()) {
                Some((e, q)) => r matches Some(x) && x@ == e && final(self).position() == q,
                None => r is None,
            },
        decreases old(self).tokens@.len() - old(self).pos, 3int,
    {
        let ghost toks = self.tokens();
        let ghost p0 = self.pos as int;
        let mut left = match self.try_parse_unary() {
            Some(e) => e,
            None => return None,
        };
        let ghost goal = parse_term(toks, p0);
        loop
            invariant
                self.wf(),
                self.tokens == old(self).tokens,
                toks == self.tokens(),
                p0 == old(self).pos,
                p0 <= self.pos,
                goal == parse_term(toks, p0),
                goal == parse_term_rest(toks, left@, self.pos as int),
            ensures
                self.wf(),
                self.tokens == old(self).tokens,
                p0 <= self.pos,
                goal == Some((left@, self.pos as int)),
            decreases self.tokens@.len() - self.pos,
        {
            if self.pos >= self.tokens.len() {
                // reading past the last token
                return None;
            }
            let op = self.peek().token_type;
            if !(op == TokenType::STAR || op == TokenType::SLASH || op == TokenType::PERCENT) {
                break;
            }
            self.advance();
            let right = match self.try_parse_unary() {
                Some(e) => e,
                None => return None,
            };
            left = Expr::Binary(Box::new(left), op, Box::new(right));
        }
        Some(left)
    }

    fn try_parse_unary(&mut self) -> (r: Option<Expr>)
        requires
            old(self).wf(),
        ensures
            final(self).wf(),
            final(self).tokens == old(self).tokens,
            old(self).pos <= final(self).pos,
            match parse_unary(old(self).tokens(), old(self).position()) {
                Some((e, q)) => r matches Some(x) && x@ == e && final(self).position() == q,
                None => r is None,
            },
        decreases old(self).tokens@.len() - old(self).pos, 1int,
    {
        if self.pos >= self.tokens.len() {
            // reading past the last token
            return None;
        }
        if self.peek().token_type == TokenType::MINUS {
            self.advance();
            let operand = match self.try_parse_unary() {
                Some(e) => e,
                None => return None,
            };
            return Some(Expr::Unary(TokenType::MINUS, Box::new(operand)));
        }
        self.try_parse_primary()
    }

    fn try_parse_primary(&mut self) -> (r: Option<Expr>)
        requires
            old(self).wf(),
        ensures
            final(self).wf(),
            final(self).tokens == old(self).tokens,
            old(self).pos <= final(self).pos,
            match parse_primary(old(self).tokens(), old(self).position()) {
                Some((e, q)) => r matches Some(x) && x@ == e && final(self).position() == q,
                None => r is None,
            },
        decreases old(self).tokens@.len() - old(self).pos, 0int,
    {
        if self.pos >= self.tokens.len() {
            // reading past the last token
            return None;
        }
        let i = self.advance();
        let kind = self.tokens[i].token_type;
        if kind == TokenType::INTEGER {
            match &self.tokens[i].value {
                LiteralValue::Integer(v) => Some(Expr::Integer(*v)),
                // an integer token without an integer value
                _ => None,
            }
        } else if kind == TokenType::FLOAT {
            match &self.tokens[i].value {
                LiteralValue::Float(f) => Some(Expr::Float(f.clone())),
                // a float token without a float value
                _ => None,
            }
        } else if kind == TokenType::LPAREN {
            let expr = match self.try_parse_expr() {
                Some(e) => e,
                None => return None,
            };
            if self.pos >= self.tokens.len() {
                // reading past the last token
                return None;
            }
            let closing = self.advance();
            if self.tokens[closing].token_type != TokenType::RPAREN {
                // expected `)`
                return None;
            }
            Some(expr)
        } else {
            // unexpected token
            None
        }
    }

    fn peek(&self) -> (r: &Token<'a>)
        requires
            self.pos < self.tokens@.len(),
        ensures
            *r == self.tokens@[self.pos as int],
    {
        &self.tokens[self.pos]
    }

    /// Consumes the current token unless it is the end of input, and returns
    /// its index.
    fn advance(&mut self) -> (r: usize)
        requires
            old(self).pos < old(self).tokens@.len(),
        ensures
            r == old(self).pos,
            final(self).tokens == old(self).tokens,
            final(self).pos == if old(self).tokens@[r as int].token_type != TokenType::END_OF_FILE {
                old(self).pos + 1
            } else {
                old(self).pos as int
            },
    {
        let i = self.pos;
        let n = self.tokens.len();
        assert(i < n);
        if self.tokens[i].token_type != TokenType::END_OF_FILE {
            self.pos = self.pos + 1;
        }
        i
    }
}

} // verus!
