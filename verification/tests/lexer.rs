use lib::lexer::Lexer;
use lib::token::{LiteralValue, Token, TokenType};

fn lex(source: &str) -> Vec<Token<'_>> {
    let mut lexer = Lexer::new(source, "test");
    lexer.tokenize()
}

fn kinds(tokens: &[Token<'_>]) -> Vec<TokenType> {
    tokens.iter().map(|t| t.token_type.clone()).collect()
}

fn position(token: &Token<'_>) -> String {
    format!("{:?}", token.location)
}

#[test]
fn tokenize_arithmetic() {
    let tokens = lex("32 / (2 - 23) * 4");
    assert_eq!(
        kinds(&tokens),
        vec![
            TokenType::INTEGER,
            TokenType::SLASH,
            TokenType::LPAREN,
            TokenType::INTEGER,
            TokenType::MINUS,
            TokenType::INTEGER,
            TokenType::RPAREN,
            TokenType::STAR,
            TokenType::INTEGER,
            TokenType::END_OF_FILE,
        ]
    );
    assert_eq!(tokens[0].value, LiteralValue::Integer(32));
    assert_eq!(tokens[0].lexeme, "32");
    assert_eq!(tokens[5].value, LiteralValue::Integer(23));
    assert_eq!(tokens[8].value, LiteralValue::Integer(4));
    assert_eq!(tokens[9].lexeme, "");
    assert_eq!(tokens[9].value, LiteralValue::Empty);
}

#[test]
fn token_locations() {
    let tokens = lex("32 / (2 - 23) * 4");
    let columns: Vec<String> = tokens.iter().map(position).collect();
    assert_eq!(columns[0], r#"SourceLocation { filename: "test", line: 1, column: 1 }"#);
    assert_eq!(columns[1], r#"SourceLocation { filename: "test", line: 1, column: 4 }"#);
    assert_eq!(columns[3], r#"SourceLocation { filename: "test", line: 1, column: 7 }"#);
    assert_eq!(columns[8], r#"SourceLocation { filename: "test", line: 1, column: 17 }"#);
    assert_eq!(columns[9], r#"SourceLocation { filename: "test", line: 1, column: 18 }"#);
}

#[test]
fn end_of_input_on_later_line() {
    let tokens = lex("a\nbc");
    assert_eq!(kinds(&tokens), vec![TokenType::IDENTIFIER, TokenType::IDENTIFIER, TokenType::END_OF_FILE]);
    assert_eq!(position(&tokens[1]), r#"SourceLocation { filename: "test", line: 2, column: 1 }"#);
    assert_eq!(position(&tokens[2]), r#"SourceLocation { filename: "test", line: 2, column: 3 }"#);
}

#[test]
fn empty_source_gives_only_end_of_input() {
    let tokens = lex("");
    assert_eq!(kinds(&tokens), vec![TokenType::END_OF_FILE]);
    assert_eq!(position(&tokens[0]), r#"SourceLocation { filename: "test", line: 1, column: 1 }"#);
    let tokens = lex("  // only a comment");
    assert_eq!(kinds(&tokens), vec![TokenType::END_OF_FILE]);
}

#[test]
fn keywords_and_identifiers() {
    let tokens = lex("let mut letter fn return if else while for break continue struct impl move drop unsafe");
    assert_eq!(
        kinds(&tokens),
        vec![
            TokenType::LET,
            TokenType::MUT,
            TokenType::IDENTIFIER,
            TokenType::FN,
            TokenType::RETURN,
            TokenType::IF,
            TokenType::ELSE,
            TokenType::WHILE,
            TokenType::FOR,
            TokenType::BREAK,
            TokenType::CONTINUE,
            TokenType::STRUCT,
            TokenType::IMPL,
            TokenType::MOVE,
            TokenType::DROP,
            TokenType::UNSAFE,
            TokenType::END_OF_FILE,
        ]
    );
    assert_eq!(tokens[2].lexeme, "letter");
    let tokens = lex("i32 i64 u32 u64 f32 f64 bool char true false _x9 void");
    assert_eq!(
        kinds(&tokens),
        vec![
            TokenType::I32,
            TokenType::I64,
            TokenType::U32,
            TokenType::U64,
            TokenType::F32,
            TokenType::F64,
            TokenType::BOOL,
            TokenType::CHAR,
            TokenType::TRUE,
            TokenType::FALSE,
            TokenType::IDENTIFIER,
            TokenType::IDENTIFIER,
            TokenType::END_OF_FILE,
        ]
    );
}

#[test]
fn operators_and_delimiters() {
    let tokens = lex("-> != == <= >= && || :: ! = < > & : . , ; { } [ ] % + - * /");
    assert_eq!(
        kinds(&tokens),
        vec![
            TokenType::ARROW,
            TokenType::BANG_EQ,
            TokenType::EQ_EQ,
            TokenType::LT_EQ,
            TokenType::GT_EQ,
            TokenType::AND_AND,
            TokenType::OR_OR,
            TokenType::COLON_COLON,
            TokenType::BANG,
            TokenType::EQ,
            TokenType::LT,
            TokenType::GT,
            TokenType::AMP,
            TokenType::COLON,
            TokenType::DOT,
            TokenType::COMMA,
            TokenType::SEMICOLON,
            TokenType::LBRACE,
            TokenType::RBRACE,
            TokenType::LBRACKET,
            TokenType::RBRACKET,
            TokenType::PERCENT,
            TokenType::PLUS,
            TokenType::MINUS,
            TokenType::STAR,
            TokenType::SLASH,
            TokenType::END_OF_FILE,
        ]
    );
    assert_eq!(tokens[0].lexeme, "->");
    assert_eq!(tokens[5].lexeme, "&&");
}

#[test]
fn ampersand_mut() {
    let tokens = lex("&mut x");
    assert_eq!(kinds(&tokens), vec![TokenType::AMP_MUT, TokenType::IDENTIFIER, TokenType::END_OF_FILE]);
    assert_eq!(tokens[0].lexeme, "&mut");
    // `&` before a longer word: the look-ahead goes back, but keeps its column count
    let tokens = lex("&mutable");
    assert_eq!(kinds(&tokens), vec![TokenType::AMP, TokenType::IDENTIFIER, TokenType::END_OF_FILE]);
    assert_eq!(tokens[0].lexeme, "&");
    assert_eq!(tokens[1].lexeme, "mutable");
    assert_eq!(position(&tokens[1]), r#"SourceLocation { filename: "test", line: 1, column: 4 }"#);
    let tokens = lex("&m");
    assert_eq!(kinds(&tokens), vec![TokenType::AMP, TokenType::IDENTIFIER, TokenType::END_OF_FILE]);
}

#[test]
fn comments_are_skipped() {
    let tokens = lex("1 // one\n2 /* two\n */ 3");
    assert_eq!(
        kinds(&tokens),
        vec![TokenType::INTEGER, TokenType::INTEGER, TokenType::INTEGER, TokenType::END_OF_FILE]
    );
    assert_eq!(position(&tokens[1]), r#"SourceLocation { filename: "test", line: 2, column: 1 }"#);
    assert_eq!(position(&tokens[2]), r#"SourceLocation { filename: "test", line: 3, column: 5 }"#);
    // an unterminated block comment runs to the end
    let tokens = lex("7 /* open");
    assert_eq!(kinds(&tokens), vec![TokenType::INTEGER, TokenType::END_OF_FILE]);
}

#[test]
fn string_and_char_literals() {
    let tokens = lex(r#""a\nb\"c" 'x' '\t' '\''"#);
    assert_eq!(
        kinds(&tokens),
        vec![
            TokenType::STRING,
            TokenType::CHAR_LIT,
            TokenType::CHAR_LIT,
            TokenType::CHAR_LIT,
            TokenType::END_OF_FILE,
        ]
    );
    assert_eq!(tokens[0].value, LiteralValue::String("a\nb\"c".to_string()));
    assert_eq!(tokens[0].lexeme, r#""a\nb\"c""#);
    assert_eq!(tokens[1].value, LiteralValue::Char('x'));
    assert_eq!(tokens[2].value, LiteralValue::Char('\t'));
    assert_eq!(tokens[3].value, LiteralValue::Char('\''));
}

#[test]
fn number_literals() {
    let tokens = lex("1.5 2e10 3.25E-2 7. 8e 9223372036854775807");
    assert_eq!(
        kinds(&tokens),
        vec![
            TokenType::FLOAT,
            TokenType::FLOAT,
            TokenType::FLOAT,
            TokenType::INTEGER,
            TokenType::DOT,
            TokenType::INTEGER,
            TokenType::IDENTIFIER,
            TokenType::INTEGER,
            TokenType::END_OF_FILE,
        ]
    );
    assert_eq!(tokens[0].value, LiteralValue::Float("1.5".to_string()));
    assert_eq!(tokens[1].value, LiteralValue::Float("2e10".to_string()));
    assert_eq!(tokens[2].value, LiteralValue::Float("3.25E-2".to_string()));
    assert_eq!(tokens[3].value, LiteralValue::Integer(7));
    assert_eq!(tokens[6].lexeme, "e");
    assert_eq!(tokens[7].value, LiteralValue::Integer(i64::MAX));
}

#[test]
fn rejected_sources() {
    for source in ["|", "#", "\"abc", "\"a\nb\"", "'ab'", "'", "1e+", "2.5e-x", "9223372036854775808", "é"] {
        let mut lexer = Lexer::new(source, "test");
        assert!(lexer.try_tokenize().is_none(), "{:?} should not lex", source);
    }
}

#[test]
fn try_tokenize_agrees_with_tokenize() {
    let source = "let x = (1 + 2.5) * 'c'; // done";
    let mut a = Lexer::new(source, "f");
    let mut b = Lexer::new(source, "f");
    let ta = a.tokenize();
    let tb = b.try_tokenize().unwrap();
    assert_eq!(kinds(&ta), kinds(&tb));
    for (x, y) in ta.iter().zip(tb.iter()) {
        assert_eq!(x.lexeme, y.lexeme);
        assert_eq!(x.value, y.value);
        assert_eq!(position(x), position(y));
    }
}

#[test]
fn tokenize_twice_gives_end_of_input() {
    let mut lexer = Lexer::new("1 2", "test");
    let first = lexer.tokenize();
    assert_eq!(first.len(), 3);
    let second = lexer.tokenize();
    assert_eq!(kinds(&second), vec![TokenType::END_OF_FILE]);
    assert_eq!(position(&second[0]), r#"SourceLocation { filename: "test", line: 1, column: 4 }"#);
}

#[test]
fn lexing_law_end_of_input_only_last() {
    let tokens = lex("a /* x */ 'q' \"s\" 1.0 2 -> &mut");
    let n = tokens.len();
    assert_eq!(tokens[n - 1].token_type, TokenType::END_OF_FILE);
    for t in &tokens[..n - 1] {
        assert_ne!(t.token_type, TokenType::END_OF_FILE);
        assert!(position(t).contains("filename: \"test\""));
    }
}
