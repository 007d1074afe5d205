use lib::token::{keyword_kind, token_type_to_str, LiteralValue, SourceLocation, Token, TokenType};

#[test]
fn literal_get_value() {
    let v = LiteralValue::Integer(42);
    assert_eq!(v.get_value::<i64>(), Some(42));
    assert_eq!(v.get_value::<char>(), None);
    assert_eq!(v.get_value::<String>(), None);
    let s = LiteralValue::String("hi".to_string());
    assert_eq!(s.get_value::<String>(), Some("hi".to_string()));
    assert_eq!(s.get_value::<i64>(), None);
    let c = LiteralValue::Char('z');
    assert_eq!(c.get_value::<char>(), Some('z'));
    let f = LiteralValue::Float("2.5".to_string());
    assert_eq!(f.get_value::<i64>(), None);
    assert_eq!(f.get_value::<String>(), None);
    assert_eq!(LiteralValue::Empty.get_value::<i64>(), None);
}

#[test]
fn token_get_value() {
    let t = Token {
        token_type: TokenType::INTEGER,
        lexeme: "7",
        value: LiteralValue::Integer(7),
        location: SourceLocation::new("f", 3, 9),
    };
    assert_eq!(t.get_value::<i64>(), Some(7));
    assert_eq!(t.get_value::<char>(), None);
}

#[test]
fn source_location_new() {
    let l = SourceLocation::new("main", 2, 5);
    assert_eq!(format!("{:?}", l), r#"SourceLocation { filename: "main", line: 2, column: 5 }"#);
}

#[test]
fn token_type_names() {
    assert_eq!(token_type_to_str(TokenType::LET), "LET");
    assert_eq!(token_type_to_str(TokenType::EQ_EQ), "EQ_EQ");
    assert_eq!(token_type_to_str(TokenType::AMP_MUT), "AMP_MUT");
    assert_eq!(token_type_to_str(TokenType::END_OF_FILE), "END_OF_FILE");
    assert_eq!(token_type_to_str(TokenType::INVALID), "INVALID");
    let all = [
        TokenType::LET, TokenType::MUT, TokenType::FN, TokenType::RETURN, TokenType::IF,
        TokenType::ELSE, TokenType::WHILE, TokenType::FOR, TokenType::BREAK, TokenType::CONTINUE,
        TokenType::STRUCT, TokenType::IMPL, TokenType::MOVE, TokenType::DROP, TokenType::UNSAFE,
        TokenType::I32, TokenType::I64, TokenType::U32, TokenType::U64, TokenType::F32,
        TokenType::F64, TokenType::BOOL, TokenType::CHAR, TokenType::VOID, TokenType::PLUS,
        TokenType::MINUS, TokenType::STAR, TokenType::SLASH, TokenType::PERCENT, TokenType::EQ_EQ,
        TokenType::BANG_EQ, TokenType::LT, TokenType::GT, TokenType::LT_EQ, TokenType::GT_EQ,
        TokenType::AND_AND, TokenType::OR_OR, TokenType::BANG, TokenType::EQ, TokenType::AMP,
        TokenType::AMP_MUT, TokenType::DOT, TokenType::COLON_COLON, TokenType::ARROW,
        TokenType::LPAREN, TokenType::RPAREN, TokenType::LBRACE, TokenType::RBRACE,
        TokenType::LBRACKET, TokenType::RBRACKET, TokenType::SEMICOLON, TokenType::COMMA,
        TokenType::COLON, TokenType::INTEGER, TokenType::FLOAT, TokenType::STRING,
        TokenType::CHAR_LIT, TokenType::TRUE, TokenType::FALSE, TokenType::IDENTIFIER,
        TokenType::END_OF_FILE, TokenType::INVALID,
    ];
    for t in all {
        assert_eq!(token_type_to_str(t.clone()), format!("{:?}", t));
    }
}

#[test]
fn keyword_table() {
    assert_eq!(keyword_kind("let"), Some(TokenType::LET));
    assert_eq!(keyword_kind("continue"), Some(TokenType::CONTINUE));
    assert_eq!(keyword_kind("f64"), Some(TokenType::F64));
    assert_eq!(keyword_kind("false"), Some(TokenType::FALSE));
    assert_eq!(keyword_kind("letter"), None);
    assert_eq!(keyword_kind("Let"), None);
    assert_eq!(keyword_kind(""), None);
    assert_eq!(keyword_kind("void"), None);
}
