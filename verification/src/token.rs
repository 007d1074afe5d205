use vstd::prelude::*;

verus! {

/// The kinds of token the lexer produces.
#[derive(Debug, Clone, Copy, PartialEq, Eq, Structural)]
pub enum TokenType {
    // Core keywords
    LET,
    MUT,
    FN,
    RETURN,
    IF,
    ELSE,
    WHILE,
    FOR,
    BREAK,
    CONTINUE,
    STRUCT,
    IMPL,
    // Memory-model keywords
    MOVE,
    DROP,
    UNSAFE,
    // Primitive types
    I32,
    I64,
    U32,
    U64,
    F32,
    F64,
    BOOL,
    CHAR,
    VOID,
    // Arithmetic operators
    PLUS,
    MINUS,
    STAR,
    SLASH,
    PERCENT,
    // Comparison operators
    EQ_EQ,
    BANG_EQ,
    LT,
    GT,
    LT_EQ,
    GT_EQ,
    // Logical operators
    AND_AND,
    OR_OR,
    BANG,
    // Assignment and references
    EQ,
    AMP,
    AMP_MUT,
    // Access
    DOT,
    COLON_COLON,
    ARROW,
    // Delimiters
    LPAREN,
    RPAREN,
    LBRACE,
    RBRACE,
    LBRACKET,
    RBRACKET,
    SEMICOLON,
    COMMA,
    COLON,
    // Literals
    INTEGER,
    FLOAT,
    STRING,
    CHAR_LIT,
    TRUE,
    FALSE,
    // Identifiers
    IDENTIFIER,
    // End of input
    END_OF_FILE,
    // Invalid token
    INVALID,
}

/// Where a token starts: the file it comes from, its line and its column
/// (both counted from 1).
#[derive(Debug)]
pub struct SourceLocation<'a> {
    pub(crate) filename: &'a str,
    pub(crate) line: usize,
    pub(crate) column: usize,
}

/// The mathematical value of a `SourceLocation`.
pub struct LocationModel {
    pub filename: Seq<char>,
    pub line: nat,
    pub column: nat,
}

impl<'a> View for SourceLocation<'a> {
    type V = LocationModel;

    closed spec fn view(&self) -> LocationModel {
        LocationModel { filename: self.filename@, line: self.line as nat, column: self.column as nat }
    }
}

impl<'r> SourceLocation<'r> {
    pub fn new(filename: &'r str, line: usize, column: usize) -> (r: Self)
        ensures
            r@ == (LocationModel { filename: filename@, line: line as nat, column: column as nat }),
    {
        Self { filename, line, column }
    }
}

/// The value carried by a literal token.
///
/// A floating-point literal is kept as its decimal text: the library does no
/// floating-point arithmetic, and the text determines the value exactly.
#[derive(Debug, PartialEq)]
pub enum LiteralValue {
    Empty,
    Integer(i64),
    Float(String),
    String(String),
    Char(char),
}

/// The mathematical value of a `LiteralValue`.
pub enum LiteralModel {
    Empty,
    Integer(i64),
    Float(Seq<char>),
    Text(Seq<char>),
    Char(char),
}

impl View for LiteralValue {
    type V = LiteralModel;

    open spec fn view(&self) -> LiteralModel {
        match self {
            LiteralValue::Empty => LiteralModel::Empty,
            LiteralValue::Integer(i) => LiteralModel::Integer(*i),
            LiteralValue::Float(s) => LiteralModel::Float(s@),
            LiteralValue::String(s) => LiteralModel::Text(s@),
            LiteralValue::Char(c) => LiteralModel::Char(*c),
        }
    }
}

/// Types that can be read out of a `LiteralValue`.
pub trait FromLiteralValue: Sized {
    /// What `from_literal` returns for `value`.
    spec fn literal_to(value: &LiteralValue) -> Option<Self>;

    fn from_literal(value: &LiteralValue) -> (r: Option<Self>)
        ensures
            r == Self::literal_to(value),
    ;
}

impl FromLiteralValue for i64 {
    open spec fn literal_to(value: &LiteralValue) -> Option<i64> {
        match value {
            LiteralValue::Integer(i) => Some(*i),
            _ => None,
        }
    }

    fn from_literal(value: &LiteralValue) -> (r: Option<i64>) {
        match value {
            LiteralValue::Integer(i) => Some(*i),
            _ => None,
        }
    }
}

impl FromLiteralValue for String {
    open spec fn literal_to(value: &LiteralValue) -> Option<String> {
        match value {
            LiteralValue::String(s) => Some(*s),
            _ => None,
        }
    }

    fn from_literal(value: &LiteralValue) -> (r: Option<String>) {
        match value {
            LiteralValue::String(s) => Some(s.clone()),
            _ => None,
        }
    }
}

impl FromLiteralValue for char {
    open spec fn literal_to(value: &LiteralValue) -> Option<char> {
        match value {
            LiteralValue::Char(c) => Some(*c),
            _ => None,
        }
    }

    fn from_literal(value: &LiteralValue) -> (r: Option<char>) {
        match value {
            LiteralValue::Char(c) => Some(*c),
            _ => None,
        }
    }
}

impl LiteralValue {
    pub fn get_value<T: FromLiteralValue>(&self) -> (r: Option<T>)
        ensures
            r == T::literal_to(self),
    {
        T::from_literal(self)
    }
}

/// A token: its kind, its text in the source, its literal value and where it
/// starts.
#[derive(Debug)]
pub struct Token<'rc> {
    pub token_type: TokenType,
    pub lexeme: &'rc str,
    pub value: LiteralValue,
    pub location: SourceLocation<'rc>,
}

/// The mathematical value of a `Token`.
pub struct TokenModel {
    pub kind: TokenType,
    pub lexeme: Seq<char>,
    pub value: LiteralModel,
    pub location: LocationModel,
}

impl<'rc> View for Token<'rc> {
    type V = TokenModel;

    open spec fn view(&self) -> TokenModel {
        TokenModel {
            kind: self.token_type,
            lexeme: self.lexeme@,
            value: self.value@,
            location: self.location@,
        }
    }
}

/// The models of a sequence of tokens.
pub open spec fn tokens_model<'rc>(tokens: Seq<Token<'rc>>) -> Seq<TokenModel> {
    tokens.map_values(|t: Token<'rc>| t@)
}

impl<'rc> Token<'rc> {
    fn is(&self, t: TokenType) -> (r: bool)
        ensures
            r == (self.token_type == t),
    {
        self.token_type == t
    }

    fn is_one_of(&self, t_types: Vec<TokenType>) -> (r: bool)
        ensures
            r == t_types@.contains(self.token_type),
    {
        let mut i: usize = 0;
        while i < t_types.len()
            invariant
                i <= t_types.len(),
                forall|j: int| 0 <= j < i ==> t_types@[j] != self.token_type,
            decreases t_types.len() - i,
        {
            if self.token_type == t_types[i] {
                return true;
            }
            i = i + 1;
        }
        false
    }

    pub fn get_value<T: FromLiteralValue>(&self) -> (r: Option<T>)
        ensures
            r == T::literal_to(&self.value),
    {
        T::from_literal(&self.value)
    }
}

/// The reserved words of the language and the token kind of each.
pub open spec fn keyword(text: Seq<char>) -> Option<TokenType> {
    if text == "let"@ {
        Some(TokenType::LET)
    } else if text == "mut"@ {
        Some(TokenType::MUT)
    } else if text == "fn"@ {
        Some(TokenType::FN)
    } else if text == "return"@ {
        Some(TokenType::RETURN)
    } else if text == "if"@ {
        Some(TokenType::IF)
    } else if text == "else"@ {
        Some(TokenType::ELSE)
    } else if text == "while"@ {
        Some(TokenType::WHILE)
    } else if text == "for"@ {
        Some(TokenType::FOR)
    } else if text == "break"@ {
        Some(TokenType::BREAK)
    } else if text == "continue"@ {
        Some(TokenType::CONTINUE)
    } else if text == "struct"@ {
        Some(TokenType::STRUCT)
    } else if text == "impl"@ {
        Some(TokenType::IMPL)
    } else if text == "move"@ {
        Some(TokenType::MOVE)
    } else if text == "drop"@ {
        Some(TokenType::DROP)
    } else if text == "unsafe"@ {
        Some(TokenType::UNSAFE)
    } else if text == "i32"@ {
        Some(TokenType::I32)
    } else if text == "i64"@ {
        Some(TokenType::I64)
    } else if text == "u32"@ {
        Some(TokenType::U32)
    } else if text == "u64"@ {
        Some(TokenType::U64)
    } else if text == "f32"@ {
        Some(TokenType::F32)
    } else if text == "f64"@ {
        Some(TokenType::F64)
    } else if text == "bool"@ {
        Some(TokenType::BOOL)
    } else if text == "char"@ {
        Some(TokenType::CHAR)
    } else if text == "true"@ {
        Some(TokenType::TRUE)
    } else if text == "false"@ {
        Some(TokenType::FALSE)
    } else {
        None
    }
}

/// The characters of `s`.
pub(crate) fn chars_of(s: &str) -> (r: Vec<char>)
    ensures
        r@ == s@,
{
    let mut chars: Vec<char> = Vec::new();
    for c in it: s.chars()
        invariant
            chars@ == it.seq().take(it.index()),
    {
        chars.push(c);
    }
    assert(chars@ =~= s@);
    chars
}

/// The token kind of a reserved word, or `None` when `word` is not one.
pub fn keyword_kind(word: &str) -> (r: Option<TokenType>)
    ensures
        r == keyword(word@),
{
    let chars = chars_of(word);
    assert(chars@.subrange(0, chars@.len() as int) =~= word@);
    keyword_of(&chars, 0, chars.len())
}

/// Whether `chars[start..end]` spells `word`.
fn text_is(chars: &Vec<char>, start: usize, end: usize, word: &str) -> (r: bool)
    requires
        start <= end <= chars@.len(),
    ensures
        r == (chars@.subrange(start as int, end as int) == word@),
{
    let n = word.unicode_len();
    if end - start != n {
        return false;
    }
    let mut i: usize = 0;
    while i < n
        invariant
            start <= end <= chars@.len(),
            end - start == n,
            n == word@.len(),
            i <= n,
            forall|j: int| 0 <= j < i ==> chars@[start + j] == word@[j],
        decreases n - i,
    {
        if chars[start + i] != word.get_char(i) {
            assert(chars@.subrange(start as int, end as int)[i as int] != word@[i as int]);
            return false;
        }
        i = i + 1;
    }
    assert(chars@.subrange(start as int, end as int) =~= word@);
    true
}

/// The keyword spelt by `chars[start..end]`, if it is one.
pub(crate) fn keyword_of(chars: &Vec<char>, start: usize, end: usize) -> (r: Option<TokenType>)
    requires
        start <= end <= chars@.len(),
    ensures
        r == keyword(chars@.subrange(start as int, end as int)),
{
    if text_is(chars, start, end, "let") {
        Some(TokenType::LET)
    } else if text_is(chars, start, end, "mut") {
        Some(TokenType::MUT)
    } else if text_is(chars, start, end, "fn") {
        Some(TokenType::FN)
    } else if text_is(chars, start, end, "return") {
        Some(TokenType::RETURN)
    } else if text_is(chars, start, end, "if") {
        Some(TokenType::IF)
    } else if text_is(chars, start, end, "else") {
        Some(TokenType::ELSE)
    } else if text_is(chars, start, end, "while") {
        Some(TokenType::WHILE)
    } else if text_is(chars, start, end, "for") {
        Some(TokenType::FOR)
    } else if text_is(chars, start, end, "break") {
        Some(TokenType::BREAK)
    } else if text_is(chars, start, end, "continue") {
        Some(TokenType::CONTINUE)
    } else if text_is(chars, start, end, "struct") {
        Some(TokenType::STRUCT)
    } else if text_is(chars, start, end, "impl") {
        Some(TokenType::IMPL)
    } else if text_is(chars, start, end, "move") {
        Some(TokenType::MOVE)
    } else if text_is(chars, start, end, "drop") {
        Some(TokenType::DROP)
    } else if text_is(chars, start, end, "unsafe") {
        Some(TokenType::UNSAFE)
    } else if text_is(chars, start, end, "i32") {
        Some(TokenType::I32)
    } else if text_is(chars, start, end, "i64") {
        Some(TokenType::I64)
    } else if text_is(chars, start, end, "u32") {
        Some(TokenType::U32)
    } else if text_is(chars, start, end, "u64") {
        Some(TokenType::U64)
    } else if text_is(chars, start, end, "f32") {
        Some(TokenType::F32)
    } else if text_is(chars, start, end, "f64") {
        Some(TokenType::F64)
    } else if text_is(chars, start, end, "bool") {
        Some(TokenType::BOOL)
    } else if text_is(chars, start, end, "char") {
        Some(TokenType::CHAR)
    } else if text_is(chars, start, end, "true") {
        Some(TokenType::TRUE)
    } else if text_is(chars, start, end, "false") {
        Some(TokenType::FALSE)
    } else {
        None
    }
}

/// The name of a token kind: the kind's identifier.
pub open spec fn token_type_name(t: TokenType) -> Seq<char> {
    match t {
        TokenType::LET => "LET"@,
        TokenType::MUT => "MUT"@,
        TokenType::FN => "FN"@,
        TokenType::RETURN => "RETURN"@,
        TokenType::IF => "IF"@,
        TokenType::ELSE => "ELSE"@,
        TokenType::WHILE => "WHILE"@,
        TokenType::FOR => "FOR"@,
        TokenType::BREAK => "BREAK"@,
        TokenType::CONTINUE => "CONTINUE"@,
        TokenType::STRUCT => "STRUCT"@,
        TokenType::IMPL => "IMPL"@,
        TokenType::MOVE => "MOVE"@,
        TokenType::DROP => "DROP"@,
        TokenType::UNSAFE => "UNSAFE"@,
        TokenType::I32 => "I32"@,
        TokenType::I64 => "I64"@,
        TokenType::U32 => "U32"@,
        TokenType::U64 => "U64"@,
        TokenType::F32 => "F32"@,
        TokenType::F64 => "F64"@,
        TokenType::BOOL => "BOOL"@,
        TokenType::CHAR => "CHAR"@,
        TokenType::VOID => "VOID"@,
        TokenType::PLUS => "PLUS"@,
        TokenType::MINUS => "MINUS"@,
        TokenType::STAR => "STAR"@,
        TokenType::SLASH => "SLASH"@,
        TokenType::PERCENT => "PERCENT"@,
        TokenType::EQ_EQ => "EQ_EQ"@,
        TokenType::BANG_EQ => "BANG_EQ"@,
        TokenType::LT => "LT"@,
        TokenType::GT => "GT"@,
        TokenType::LT_EQ => "LT_EQ"@,
        TokenType::GT_EQ => "GT_EQ"@,
        TokenType::AND_AND => "AND_AND"@,
        TokenType::OR_OR => "OR_OR"@,
        TokenType::BANG => "BANG"@,
        TokenType::EQ => "EQ"@,
        TokenType::AMP => "AMP"@,
        TokenType::AMP_MUT => "AMP_MUT"@,
        TokenType::DOT => "DOT"@,
        TokenType::COLON_COLON => "COLON_COLON"@,
        TokenType::ARROW => "ARROW"@,
        TokenType::LPAREN => "LPAREN"@,
        TokenType::RPAREN => "RPAREN"@,
        TokenType::LBRACE => "LBRACE"@,
        TokenType::RBRACE => "RBRACE"@,
        TokenType::LBRACKET => "LBRACKET"@,
        TokenType::RBRACKET => "RBRACKET"@,
        TokenType::SEMICOLON => "SEMICOLON"@,
        TokenType::COMMA => "COMMA"@,
        TokenType::COLON => "COLON"@,
        TokenType::INTEGER => "INTEGER"@,
        TokenType::FLOAT => "FLOAT"@,
        TokenType::STRING => "STRING"@,
        TokenType::CHAR_LIT => "CHAR_LIT"@,
        TokenType::TRUE => "TRUE"@,
        TokenType::FALSE => "FALSE"@,
        TokenType::IDENTIFIER => "IDENTIFIER"@,
        TokenType::END_OF_FILE => "END_OF_FILE"@,
        TokenType::INVALID => "INVALID"@,
    }
}

pub fn token_type_to_str(t_type: TokenType) -> (r: &'static str)
    ensures
        r@ == token_type_name(t_type),
{
    match t_type {
        TokenType::LET => "LET",
        TokenType::MUT => "MUT",
        TokenType::FN => "FN",
        TokenType::RETURN => "RETURN",
        TokenType::IF => "IF",
        TokenType::ELSE => "ELSE",
        TokenType::WHILE => "WHILE",
        TokenType::FOR => "FOR",
        TokenType::BREAK => "BREAK",
        TokenType::CONTINUE => "CONTINUE",
        TokenType::STRUCT => "STRUCT",
        TokenType::IMPL => "IMPL",
        TokenType::MOVE => "MOVE",
        TokenType::DROP => "DROP",
        TokenType::UNSAFE => "UNSAFE",
        TokenType::I32 => "I32",
        TokenType::I64 => "I64",
        TokenType::U32 => "U32",
        TokenType::U64 => "U64",
        TokenType::F32 => "F32",
        TokenType::F64 => "F64",
        TokenType::BOOL => "BOOL",
        TokenType::CHAR => "CHAR",
        TokenType::VOID => "VOID",
        TokenType::PLUS => "PLUS",
        TokenType::MINUS => "MINUS",
        TokenType::STAR => "STAR",
        TokenType::SLASH => "SLASH",
        TokenType::PERCENT => "PERCENT",
        TokenType::EQ_EQ => "EQ_EQ",
        TokenType::BANG_EQ => "BANG_EQ",
        TokenType::LT => "LT",
        TokenType::GT => "GT",
        TokenType::LT_EQ => "LT_EQ",
        TokenType::GT_EQ => "GT_EQ",
        TokenType::AND_AND => "AND_AND",
        TokenType::OR_OR => "OR_OR",
        TokenType::BANG => "BANG",
        TokenType::EQ => "EQ",
        TokenType::AMP => "AMP",
        TokenType::AMP_MUT => "AMP_MUT",
        TokenType::DOT => "DOT",
        TokenType::COLON_COLON => "COLON_COLON",
        TokenType::ARROW => "ARROW",
        TokenType::LPAREN => "LPAREN",
        TokenType::RPAREN => "RPAREN",
        TokenType::LBRACE => "LBRACE",
        TokenType::RBRACE => "RBRACE",
        TokenType::LBRACKET => "LBRACKET",
        TokenType::RBRACKET => "RBRACKET",
        TokenType::SEMICOLON => "SEMICOLON",
        TokenType::COMMA => "COMMA",
        TokenType::COLON => "COLON",
        TokenType::INTEGER => "INTEGER",
        TokenType::FLOAT => "FLOAT",
        TokenType::STRING => "STRING",
        TokenType::CHAR_LIT => "CHAR_LIT",
        TokenType::TRUE => "TRUE",
        TokenType::FALSE => "FALSE",
        TokenType::IDENTIFIER => "IDENTIFIER",
        TokenType::END_OF_FILE => "END_OF_FILE",
        TokenType::INVALID => "INVALID",
    }
}

/// The token kind whose name is `name`, if any, read letter by letter.
pub open spec fn kind_named(name: Seq<char>) -> Option<TokenType> {
    if name.len() == 3 && name[0] == 'L' && name[1] == 'E' && name[2] == 'T' {
        Some(TokenType::LET)
    } else if name.len() == 3 && name[0] == 'M' && name[1] == 'U' && name[2] == 'T' {
        Some(TokenType::MUT)
    } else if name.len() == 2 && name[0] == 'F' && name[1] == 'N' {
        Some(TokenType::FN)
    } else if name.len() == 6 && name[0] == 'R' && name[1] == 'E' && name[2] == 'T' && name[3] == 'U' && name[4] == 'R' && name[5] == 'N' {
        Some(TokenType::RETURN)
    } else if name.len() == 2 && name[0] == 'I' && name[1] == 'F' {
        Some(TokenType::IF)
    } else if name.len() == 4 && name[0] == 'E' && name[1] == 'L' && name[2] == 'S' && name[3] == 'E' {
        Some(TokenType::ELSE)
    } else if name.len() == 5 && name[0] == 'W' && name[1] == 'H' && name[2] == 'I' && name[3] == 'L' && name[4] == 'E' {
        Some(TokenType::WHILE)
    } else if name.len() == 3 && name[0] == 'F' && name[1] == 'O' && name[2] == 'R' {
        Some(TokenType::FOR)
    } else if name.len() == 5 && name[0] == 'B' && name[1] == 'R' && name[2] == 'E' && name[3] == 'A' && name[4] == 'K' {
        Some(TokenType::BREAK)
    } else if name.len() == 8 && name[0] == 'C' && name[1] == 'O' && name[2] == 'N' && name[3] == 'T' && name[4] == 'I' && name[5] == 'N' && name[6] == 'U' && name[7] == 'E' {
        Some(TokenType::CONTINUE)
    } else if name.len() == 6 && name[0] == 'S' && name[1] == 'T' && name[2] == 'R' && name[3] == 'U' && name[4] == 'C' && name[5] == 'T' {
        Some(TokenType::STRUCT)
    } else if name.len() == 4 && name[0] == 'I' && name[1] == 'M' && name[2] == 'P' && name[3] == 'L' {
        Some(TokenType::IMPL)
    } else if name.len() == 4 && name[0] == 'M' && name[1] == 'O' && name[2] == 'V' && name[3] == 'E' {
        Some(TokenType::MOVE)
    } else if name.len() == 4 && name[0] == 'D' && name[1] == 'R' && name[2] == 'O' && name[3] == 'P' {
        Some(TokenType::DROP)
    } else if name.len() == 6 && name[0] == 'U' && name[1] == 'N' && name[2] == 'S' && name[3] == 'A' && name[4] == 'F' && name[5] == 'E' {
        Some(TokenType::UNSAFE)
    } else if name.len() == 3 && name[0] == 'I' && name[1] == '3' && name[2] == '2' {
        Some(TokenType::I32)
    } else if name.len() == 3 && name[0] == 'I' && name[1] == '6' && name[2] == '4' {
        Some(TokenType::I64)
    } else if name.len() == 3 && name[0] == 'U' && name[1] == '3' && name[2] == '2' {
        Some(TokenType::U32)
    } else if name.len() == 3 && name[0] == 'U' && name[1] == '6' && name[2] == '4' {
        Some(TokenType::U64)
    } else if name.len() == 3 && name[0] == 'F' && name[1] == '3' && name[2] == '2' {
        Some(TokenType::F32)
    } else if name.len() == 3 && name[0] == 'F' && name[1] == '6' && name[2] == '4' {
        Some(TokenType::F64)
    } else if name.len() == 4 && name[0] == 'B' && name[1] == 'O' && name[2] == 'O' && name[3] == 'L' {
        Some(TokenType::BOOL)
    } else if name.len() == 4 && name[0] == 'C' && name[1] == 'H' && name[2] == 'A' && name[3] == 'R' {
        Some(TokenType::CHAR)
    } else if name.len() == 4 && name[0] == 'V' && name[1] == 'O' && name[2] == 'I' && name[3] == 'D' {
        Some(TokenType::VOID)
    } else if name.len() == 4 && name[0] == 'P' && name[1] == 'L' && name[2] == 'U' && name[3] == 'S' {
        Some(TokenType::PLUS)
    } else if name.len() == 5 && name[0] == 'M' && name[1] == 'I' && name[2] == 'N' && name[3] == 'U' && name[4] == 'S' {
        Some(TokenType::MINUS)
    } else if name.len() == 4 && name[0] == 'S' && name[1] == 'T' && name[2] == 'A' && name[3] == 'R' {
        Some(TokenType::STAR)
    } else if name.len() == 5 && name[0] == 'S' && name[1] == 'L' && name[2] == 'A' && name[3] == 'S' && name[4] == 'H' {
        Some(TokenType::SLASH)
    } else if name.len() == 7 && name[0] == 'P' && name[1] == 'E' && name[2] == 'R' && name[3] == 'C' && name[4] == 'E' && name[5] == 'N' && name[6] == 'T' {
        Some(TokenType::PERCENT)
    } else if name.len() == 5 && name[0] == 'E' && name[1] == 'Q' && name[2] == '_' && name[3] == 'E' && name[4] == 'Q' {
        Some(TokenType::EQ_EQ)
    } else if name.len() == 7 && name[0] == 'B' && name[1] == 'A' && name[2] == 'N' && name[3] == 'G' && name[4] == '_' && name[5] == 'E' && name[6] == 'Q' {
        Some(TokenType::BANG_EQ)
    } else if name.len() == 2 && name[0] == 'L' && name[1] == 'T' {
        Some(TokenType::LT)
    } else if name.len() == 2 && name[0] == 'G' && name[1] == 'T' {
        Some(TokenType::GT)
    } else if name.len() == 5 && name[0] == 'L' && name[1] == 'T' && name[2] == '_' && name[3] == 'E' && name[4] == 'Q' {
        Some(TokenType::LT_EQ)
    } else if name.len() == 5 && name[0] == 'G' && name[1] == 'T' && name[2] == '_' && name[3] == 'E' && name[4] == 'Q' {
        Some(TokenType::GT_EQ)
    } else if name.len() == 7 && name[0] == 'A' && name[1] == 'N' && name[2] == 'D' && name[3] == '_' && name[4] == 'A' && name[5] == 'N' && name[6] == 'D' {
        Some(TokenType::AND_AND)
    } else if name.len() == 5 && name[0] == 'O' && name[1] == 'R' && name[2] == '_' && name[3] == 'O' && name[4] == 'R' {
        Some(TokenType::OR_OR)
    } else if name.len() == 4 && name[0] == 'B' && name[1] == 'A' && name[2] == 'N' && name[3] == 'G' {
        Some(TokenType::BANG)
    } else if name.len() == 2 && name[0] == 'E' && name[1] == 'Q' {
        Some(TokenType::EQ)
    } else if name.len() == 3 && name[0] == 'A' && name[1] == 'M' && name[2] == 'P' {
        Some(TokenType::AMP)
    } else if name.len() == 7 && name[0] == 'A' && name[1] == 'M' && name[2] == 'P' && name[3] == '_' && name[4] == 'M' && name[5] == 'U' && name[6] == 'T' {
        Some(TokenType::AMP_MUT)
    } else if name.len() == 3 && name[0] == 'D' && name[1] == 'O' && name[2] == 'T' {
        Some(TokenType::DOT)
    } else if name.len() == 11 && name[0] == 'C' && name[1] == 'O' && name[2] == 'L' && name[3] == 'O' && name[4] == 'N' && name[5] == '_' && name[6] == 'C' && name[7] == 'O' && name[8] == 'L' && name[9] == 'O' && name[10] == 'N' {
        Some(TokenType::COLON_COLON)
    } else if name.len() == 5 && name[0] == 'A' && name[1] == 'R' && name[2] == 'R' && name[3] == 'O' && name[4] == 'W' {
        Some(TokenType::ARROW)
    } else if name.len() == 6 && name[0] == 'L' && name[1] == 'P' && name[2] == 'A' && name[3] == 'R' && name[4] == 'E' && name[5] == 'N' {
        Some(TokenType::LPAREN)
    } else if name.len() == 6 && name[0] == 'R' && name[1] == 'P' && name[2] == 'A' && name[3] == 'R' && name[4] == 'E' && name[5] == 'N' {
        Some(TokenType::RPAREN)
    } else if name.len() == 6 && name[0] == 'L' && name[1] == 'B' && name[2] == 'R' && name[3] == 'A' && name[4] == 'C' && name[5] == 'E' {
        Some(TokenType::LBRACE)
    } else if name.len() == 6 && name[0] == 'R' && name[1] == 'B' && name[2] == 'R' && name[3] == 'A' && name[4] == 'C' && name[5] == 'E' {
        Some(TokenType::RBRACE)
    } else if name.len() == 8 && name[0] == 'L' && name[1] == 'B' && name[2] == 'R' && name[3] == 'A' && name[4] == 'C' && name[5] == 'K' && name[6] == 'E' && name[7] == 'T' {
        Some(TokenType::LBRACKET)
    } else if name.len() == 8 && name[0] == 'R' && name[1] == 'B' && name[2] == 'R' && name[3] == 'A' && name[4] == 'C' && name[5] == 'K' && name[6] == 'E' && name[7] == 'T' {
        Some(TokenType::RBRACKET)
    } else if name.len() == 9 && name[0] == 'S' && name[1] == 'E' && name[2] == 'M' && name[3] == 'I' && name[4] == 'C' && name[5] == 'O' && name[6] == 'L' && name[7] == 'O' && name[8] == 'N' {
        Some(TokenType::SEMICOLON)
    } else if name.len() == 5 && name[0] == 'C' && name[1] == 'O' && name[2] == 'M' && name[3] == 'M' && name[4] == 'A' {
        Some(TokenType::COMMA)
    } else if name.len() == 5 && name[0] == 'C' && name[1] == 'O' && name[2] == 'L' && name[3] == 'O' && name[4] == 'N' {
        Some(TokenType::COLON)
    } else if name.len() == 7 && name[0] == 'I' && name[1] == 'N' && name[2] == 'T' && name[3] == 'E' && name[4] == 'G' && name[5] == 'E' && name[6] == 'R' {
        Some(TokenType::INTEGER)
    } else if name.len() == 5 && name[0] == 'F' && name[1] == 'L' && name[2] == 'O' && name[3] == 'A' && name[4] == 'T' {
        Some(TokenType::FLOAT)
    } else if name.len() == 6 && name[0] == 'S' && name[1] == 'T' && name[2] == 'R' && name[3] == 'I' && name[4] == 'N' && name[5] == 'G' {
        Some(TokenType::STRING)
    } else if name.len() == 8 && name[0] == 'C' && name[1] == 'H' && name[2] == 'A' && name[3] == 'R' && name[4] == '_' && name[5] == 'L' && name[6] == 'I' && name[7] == 'T' {
        Some(TokenType::CHAR_LIT)
    } else if name.len() == 4 && name[0] == 'T' && name[1] == 'R' && name[2] == 'U' && name[3] == 'E' {
        Some(TokenType::TRUE)
    } else if name.len() == 5 && name[0] == 'F' && name[1] == 'A' && name[2] == 'L' && name[3] == 'S' && name[4] == 'E' {
        Some(TokenType::FALSE)
    } else if name.len() == 10 && name[0] == 'I' && name[1] == 'D' && name[2] == 'E' && name[3] == 'N' && name[4] == 'T' && name[5] == 'I' && name[6] == 'F' && name[7] == 'I' && name[8] == 'E' && name[9] == 'R' {
        Some(TokenType::IDENTIFIER)
    } else if name.len() == 11 && name[0] == 'E' && name[1] == 'N' && name[2] == 'D' && name[3] == '_' && name[4] == 'O' && name[5] == 'F' && name[6] == '_' && name[7] == 'F' && name[8] == 'I' && name[9] == 'L' && name[10] == 'E' {
        Some(TokenType::END_OF_FILE)
    } else if name.len() == 7 && name[0] == 'I' && name[1] == 'N' && name[2] == 'V' && name[3] == 'A' && name[4] == 'L' && name[5] == 'I' && name[6] == 'D' {
        Some(TokenType::INVALID)
    } else {
        None
    }
}

#[verifier::rlimit(100)]
proof fn lemma_kind_named(t: TokenType)
    ensures
        kind_named(token_type_name(t)) == Some(t),
{
    reveal_strlit("LET");
    reveal_strlit("MUT");
    reveal_strlit("FN");
    reveal_strlit("RETURN");
    reveal_strlit("IF");
    reveal_strlit("ELSE");
    reveal_strlit("WHILE");
    reveal_strlit("FOR");
    reveal_strlit("BREAK");
    reveal_strlit("CONTINUE");
    reveal_strlit("STRUCT");
    reveal_strlit("IMPL");
    reveal_strlit("MOVE");
    reveal_strlit("DROP");
    reveal_strlit("UNSAFE");
    reveal_strlit("I32");
    reveal_strlit("I64");
    reveal_strlit("U32");
    reveal_strlit("U64");
    reveal_strlit("F32");
    reveal_strlit("F64");
    reveal_strlit("BOOL");
    reveal_strlit("CHAR");
    reveal_strlit("VOID");
    reveal_strlit("PLUS");
    reveal_strlit("MINUS");
    reveal_strlit("STAR");
    reveal_strlit("SLASH");
    reveal_strlit("PERCENT");
    reveal_strlit("EQ_EQ");
    reveal_strlit("BANG_EQ");
    reveal_strlit("LT");
    reveal_strlit("GT");
    reveal_strlit("LT_EQ");
    reveal_strlit("GT_EQ");
    reveal_strlit("AND_AND");
    reveal_strlit("OR_OR");
    reveal_strlit("BANG");
    reveal_strlit("EQ");
    reveal_strlit("AMP");
    reveal_strlit("AMP_MUT");
    reveal_strlit("DOT");
    reveal_strlit("COLON_COLON");
    reveal_strlit("ARROW");
    reveal_strlit("LPAREN");
    reveal_strlit("RPAREN");
    reveal_strlit("LBRACE");
    reveal_strlit("RBRACE");
    reveal_strlit("LBRACKET");
    reveal_strlit("RBRACKET");
    reveal_strlit("SEMICOLON");
    reveal_strlit("COMMA");
    reveal_strlit("COLON");
    reveal_strlit("INTEGER");
    reveal_strlit("FLOAT");
    reveal_strlit("STRING");
    reveal_strlit("CHAR_LIT");
    reveal_strlit("TRUE");
    reveal_strlit("FALSE");
    reveal_strlit("IDENTIFIER");
    reveal_strlit("END_OF_FILE");
    reveal_strlit("INVALID");
    match t {
        TokenType::LET => {},
        TokenType::MUT => {},
        TokenType::FN => {},
        TokenType::RETURN => {},
        TokenType::IF => {},
        TokenType::ELSE => {},
        TokenType::WHILE => {},
        TokenType::FOR => {},
        TokenType::BREAK => {},
        TokenType::CONTINUE => {},
        TokenType::STRUCT => {},
        TokenType::IMPL => {},
        TokenType::MOVE => {},
        TokenType::DROP => {},
        TokenType::UNSAFE => {},
        TokenType::I32 => {},
        TokenType::I64 => {},
        TokenType::U32 => {},
        TokenType::U64 => {},
        TokenType::F32 => {},
        TokenType::F64 => {},
        TokenType::BOOL => {},
        TokenType::CHAR => {},
        TokenType::VOID => {},
        TokenType::PLUS => {},
        TokenType::MINUS => {},
        TokenType::STAR => {},
        TokenType::SLASH => {},
        TokenType::PERCENT => {},
        TokenType::EQ_EQ => {},
        TokenType::BANG_EQ => {},
        TokenType::LT => {},
        TokenType::GT => {},
        TokenType::LT_EQ => {},
        TokenType::GT_EQ => {},
        TokenType::AND_AND => {},
        TokenType::OR_OR => {},
        TokenType::BANG => {},
        TokenType::EQ => {},
        TokenType::AMP => {},
        TokenType::AMP_MUT => {},
        TokenType::DOT => {},
        TokenType::COLON_COLON => {},
        TokenType::ARROW => {},
        TokenType::LPAREN => {},
        TokenType::RPAREN => {},
        TokenType::LBRACE => {},
        TokenType::RBRACE => {},
        TokenType::LBRACKET => {},
        TokenType::RBRACKET => {},
        TokenType::SEMICOLON => {},
        TokenType::COMMA => {},
        TokenType::COLON => {},
        TokenType::INTEGER => {},
        TokenType::FLOAT => {},
        TokenType::STRING => {},
        TokenType::CHAR_LIT => {},
        TokenType::TRUE => {},
        TokenType::FALSE => {},
        TokenType::IDENTIFIER => {},
        TokenType::END_OF_FILE => {},
        TokenType::INVALID => {},
    }
}

/// Naming law: different token kinds have different names.
pub proof fn lemma_token_type_names_distinct(a: TokenType, b: TokenType)
    requires
        a != b,
    ensures
        token_type_name(a) != token_type_name(b),
{
    lemma_kind_named(a);
    lemma_kind_named(b);
}

/// The upper-case form of an ASCII lower-case letter; any other character
/// is left as it is.
pub open spec fn ascii_upper(ch: char) -> char {
    if 'a' <= ch && ch <= 'z' {
        ((ch as int) - 32) as char
    } else {
        ch
    }
}

/// Keyword law: the token kind of every reserved word is the kind named by
/// the word in upper case (`let` is `LET`, `i32` is `I32`).
#[verifier::rlimit(100)]
pub proof fn lemma_keyword_named(w: Seq<char>)
    ensures
        keyword(w) matches Some(k) ==> token_type_name(k) == w.map_values(|ch: char| ascii_upper(ch)),
{
    reveal_strlit("let");
    reveal_strlit("LET");
    reveal_strlit("mut");
    reveal_strlit("MUT");
    reveal_strlit("fn");
    reveal_strlit("FN");
    reveal_strlit("return");
    reveal_strlit("RETURN");
    reveal_strlit("if");
    reveal_strlit("IF");
    reveal_strlit("else");
    reveal_strlit("ELSE");
    reveal_strlit("while");
    reveal_strlit("WHILE");
    reveal_strlit("for");
    reveal_strlit("FOR");
    reveal_strlit("break");
    reveal_strlit("BREAK");
    reveal_strlit("continue");
    reveal_strlit("CONTINUE");
    reveal_strlit("struct");
    reveal_strlit("STRUCT");
    reveal_strlit("impl");
    reveal_strlit("IMPL");
    reveal_strlit("move");
    reveal_strlit("MOVE");
    reveal_strlit("drop");
    reveal_strlit("DROP");
    reveal_strlit("unsafe");
    reveal_strlit("UNSAFE");
    reveal_strlit("i32");
    reveal_strlit("I32");
    reveal_strlit("i64");
    reveal_strlit("I64");
    reveal_strlit("u32");
    reveal_strlit("U32");
    reveal_strlit("u64");
    reveal_strlit("U64");
    reveal_strlit("f32");
    reveal_strlit("F32");
    reveal_strlit("f64");
    reveal_strlit("F64");
    reveal_strlit("bool");
    reveal_strlit("BOOL");
    reveal_strlit("char");
    reveal_strlit("CHAR");
    reveal_strlit("true");
    reveal_strlit("TRUE");
    reveal_strlit("false");
    reveal_strlit("FALSE");
    if let Some(k) = keyword(w) {
        assert(token_type_name(k) =~= w.map_values(|ch: char| ascii_upper(ch)));
    }
}

} // verus!
