use lib::lexer::Lexer;
use lib::parser::{Expr, Parser};
use lib::token::{LiteralValue, SourceLocation, Token, TokenType};

fn parse(source: &str) -> Option<Expr> {
    let mut lexer = Lexer::new(source, "test");
    let tokens = lexer.tokenize();
    let mut parser = Parser::new(tokens);
    parser.try_parse()
}

fn num(n: i64) -> Box<Expr> {
    Box::new(Expr::Integer(n))
}

fn bin(l: Box<Expr>, op: TokenType, r: Box<Expr>) -> Box<Expr> {
    Box::new(Expr::Binary(l, op, r))
}

#[test]
fn parse_example_program() {
    let mut lexer = Lexer::new("32 / (2 - 23) * 4", "main");
    let tokens = lexer.tokenize();
    let mut parser = Parser::new(tokens);
    let ast = parser.parse();
    let expected = bin(
        bin(num(32), TokenType::SLASH, bin(num(2), TokenType::MINUS, num(23))),
        TokenType::STAR,
        num(4),
    );
    assert_eq!(Box::new(ast), expected);
}

#[test]
fn multiplication_binds_tighter() {
    assert_eq!(
        parse("1 + 2 * 3").map(Box::new),
        Some(bin(num(1), TokenType::PLUS, bin(num(2), TokenType::STAR, num(3))))
    );
    assert_eq!(
        parse("1 % 2 - 3").map(Box::new),
        Some(bin(bin(num(1), TokenType::PERCENT, num(2)), TokenType::MINUS, num(3)))
    );
}

#[test]
fn operators_associate_left() {
    assert_eq!(
        parse("1 - 2 - 3").map(Box::new),
        Some(bin(bin(num(1), TokenType::MINUS, num(2)), TokenType::MINUS, num(3)))
    );
    assert_eq!(
        parse("8 / 4 / 2").map(Box::new),
        Some(bin(bin(num(8), TokenType::SLASH, num(4)), TokenType::SLASH, num(2)))
    );
}

#[test]
fn unary_minus() {
    assert_eq!(
        parse("--5"),
        Some(Expr::Unary(TokenType::MINUS, Box::new(Expr::Unary(TokenType::MINUS, num(5)))))
    );
    assert_eq!(
        parse("-(1 + 2) * 3").map(Box::new),
        Some(bin(
            Box::new(Expr::Unary(TokenType::MINUS, bin(num(1), TokenType::PLUS, num(2)))),
            TokenType::STAR,
            num(3)
        ))
    );
}

#[test]
fn float_literals_keep_their_text() {
    assert_eq!(
        parse("1.5 * 2").map(Box::new),
        Some(bin(Box::new(Expr::Float("1.5".to_string())), TokenType::STAR, num(2)))
    );
}

#[test]
fn rejected_token_sequences() {
    for source in ["", "(1", ")", "1 +", "* 2", "(1 + 2", "x", "-"] {
        assert_eq!(parse(source), None, "{:?} should not parse", source);
    }
}

#[test]
fn reads_one_expression_and_stops() {
    assert_eq!(parse("1 2"), Some(Expr::Integer(1)));
    assert_eq!(parse("(3) )"), Some(Expr::Integer(3)));
}

#[test]
fn integer_token_without_integer_value() {
    let tokens = vec![
        Token {
            token_type: TokenType::INTEGER,
            lexeme: "1",
            value: LiteralValue::Empty,
            location: SourceLocation::new("t", 1, 1),
        },
        Token {
            token_type: TokenType::END_OF_FILE,
            lexeme: "",
            value: LiteralValue::Empty,
            location: SourceLocation::new("t", 1, 2),
        },
    ];
    let mut parser = Parser::new(tokens);
    assert_eq!(parser.try_parse(), None);
}

#[test]
fn tokens_without_end_marker() {
    // running past the last token is a failure, not a crash
    let tokens = vec![Token {
        token_type: TokenType::INTEGER,
        lexeme: "1",
        value: LiteralValue::Integer(1),
        location: SourceLocation::new("t", 1, 1),
    }];
    let mut parser = Parser::new(tokens);
    assert_eq!(parser.try_parse(), None);
    let mut parser = Parser::new(Vec::new());
    assert_eq!(parser.try_parse(), None);
}

#[test]
fn parsing_law_printed_expression_round_trips() {
    // ((1 + 2) * -(3 - 4)) written with every binary operation in parentheses
    let expected = bin(
        bin(num(1), TokenType::PLUS, num(2)),
        TokenType::STAR,
        Box::new(Expr::Unary(TokenType::MINUS, bin(num(3), TokenType::MINUS, num(4)))),
    );
    assert_eq!(parse("((1 + 2) * -(3 - 4))").map(Box::new), Some(expected));
}

#[test]
fn reading_law_text_without_blanks() {
    // -(12%5)/(7-(-3))
    let expected = bin(
        Box::new(Expr::Unary(TokenType::MINUS, bin(num(12), TokenType::PERCENT, num(5)))),
        TokenType::SLASH,
        bin(num(7), TokenType::MINUS, Box::new(Expr::Unary(TokenType::MINUS, num(3)))),
    );
    assert_eq!(parse("(-(12%5)/(7-(-3)))").map(Box::new), Some(expected));
}
