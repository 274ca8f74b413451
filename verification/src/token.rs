use vstd::prelude::*;

use crate::text::{decimal_int, i64_to_string, push_char, string_of, append_str};

verus! {

/// The kinds of tokens, over a type `S` of text. The library works on
/// [`TokenKind`] (text held in `String`s); contracts speak of
/// [`TokenKindM`] (text held in character sequences).
///
/// A float literal keeps its source text (digits, a point, digits).
#[derive(Debug, Clone, PartialEq)]
pub enum TokenKindOf<S> {
    // Literals
    Integer(i64),
    Float(S),
    Boolean(bool),
    Nil,
    StringLit(S),
    Identifier(S),

    // Keywords
    Make,
    Show,
    When,
    Otherwise,
    During,
    For,
    Return,
    Func,
    And,
    Or,

    // Type names used by function declarations
    TypeInt,
    TypeFloat,
    TypeBool,
    TypeString,
    TypeVoid,

    // Arithmetic
    Plus,
    Minus,
    Star,
    Slash,
    Percent,

    // Logical operators
    AndAnd,
    OrOr,

    // Assignment / comparison / logical
    Equal,
    DoubleEqual,
    NotEqual,
    Not,
    Less,
    LessEqual,
    Greater,
    GreaterEqual,

    // Delimiters
    LeftParen,
    RightParen,
    LeftBrace,
    RightBrace,
    Semicolon,
    Colon,
    Comma,

    Eof,
    Unknown(char),
}

/// Token kinds as the lexer produces them.
pub type TokenKind = TokenKindOf<String>;

/// The mathematical value of a token kind.
pub type TokenKindM = TokenKindOf<Seq<char>>;

impl View for TokenKindOf<String> {
    type V = TokenKindM;

    open spec fn view(&self) -> TokenKindM {
        match *self {
            TokenKindOf::Integer(n) => TokenKindOf::Integer(n),
            TokenKindOf::Float(t) => TokenKindOf::Float(t@),
            TokenKindOf::Boolean(b) => TokenKindOf::Boolean(b),
            TokenKindOf::StringLit(t) => TokenKindOf::StringLit(t@),
            TokenKindOf::Identifier(t) => TokenKindOf::Identifier(t@),
            TokenKindOf::Unknown(c) => TokenKindOf::Unknown(c),
            TokenKindOf::Nil => TokenKindOf::Nil,
            TokenKindOf::Make => TokenKindOf::Make,
            TokenKindOf::Show => TokenKindOf::Show,
            TokenKindOf::When => TokenKindOf::When,
            TokenKindOf::Otherwise => TokenKindOf::Otherwise,
            TokenKindOf::During => TokenKindOf::During,
            TokenKindOf::For => TokenKindOf::For,
            TokenKindOf::Return => TokenKindOf::Return,
            TokenKindOf::Func => TokenKindOf::Func,
            TokenKindOf::And => TokenKindOf::And,
            TokenKindOf::Or => TokenKindOf::Or,
            TokenKindOf::TypeInt => TokenKindOf::TypeInt,
            TokenKindOf::TypeFloat => TokenKindOf::TypeFloat,
            TokenKindOf::TypeBool => TokenKindOf::TypeBool,
            TokenKindOf::TypeString => TokenKindOf::TypeString,
            TokenKindOf::TypeVoid => TokenKindOf::TypeVoid,
            TokenKindOf::Plus => TokenKindOf::Plus,
            TokenKindOf::Minus => TokenKindOf::Minus,
            TokenKindOf::Star => TokenKindOf::Star,
            TokenKindOf::Slash => TokenKindOf::Slash,
            TokenKindOf::Percent => TokenKindOf::Percent,
            TokenKindOf::AndAnd => TokenKindOf::AndAnd,
            TokenKindOf::OrOr => TokenKindOf::OrOr,
            TokenKindOf::Equal => TokenKindOf::Equal,
            TokenKindOf::DoubleEqual => TokenKindOf::DoubleEqual,
            TokenKindOf::NotEqual => TokenKindOf::NotEqual,
            TokenKindOf::Not => TokenKindOf::Not,
            TokenKindOf::Less => TokenKindOf::Less,
            TokenKindOf::LessEqual => TokenKindOf::LessEqual,
            TokenKindOf::Greater => TokenKindOf::Greater,
            TokenKindOf::GreaterEqual => TokenKindOf::GreaterEqual,
            TokenKindOf::LeftParen => TokenKindOf::LeftParen,
            TokenKindOf::RightParen => TokenKindOf::RightParen,
            TokenKindOf::LeftBrace => TokenKindOf::LeftBrace,
            TokenKindOf::RightBrace => TokenKindOf::RightBrace,
            TokenKindOf::Semicolon => TokenKindOf::Semicolon,
            TokenKindOf::Colon => TokenKindOf::Colon,
            TokenKindOf::Comma => TokenKindOf::Comma,
            TokenKindOf::Eof => TokenKindOf::Eof,
        }
    }
}

/// The text that stands for a token kind: the numeral of an integer, the
/// source text of a float, `true`/`false`, a string literal in double
/// quotes, an identifier's name, the canonical spelling of a keyword,
/// operator or delimiter, `<EOF>` for the end, and an unknown character itself.
pub open spec fn kind_text(k: TokenKindM) -> Seq<char> {
    match k {
        TokenKindOf::Integer(n) => decimal_int(n as int),
        TokenKindOf::Float(t) => t,
        TokenKindOf::Boolean(b) => if b { "true"@ } else { "false"@ },
        TokenKindOf::StringLit(t) => "\""@ + t + "\""@,
        TokenKindOf::Identifier(t) => t,
        TokenKindOf::Unknown(c) => seq![c],
            TokenKindOf::Nil => "nil"@,
            TokenKindOf::Make => "make"@,
            TokenKindOf::Show => "show"@,
            TokenKindOf::When => "if"@,
            TokenKindOf::Otherwise => "else"@,
            TokenKindOf::During => "while"@,
            TokenKindOf::For => "for"@,
            TokenKindOf::Return => "return"@,
            TokenKindOf::Func => "func"@,
            TokenKindOf::And => "and"@,
            TokenKindOf::Or => "or"@,
            TokenKindOf::TypeInt => "int"@,
            TokenKindOf::TypeFloat => "float"@,
            TokenKindOf::TypeBool => "bool"@,
            TokenKindOf::TypeString => "String"@,
            TokenKindOf::TypeVoid => "void"@,
            TokenKindOf::Plus => "+"@,
            TokenKindOf::Minus => "-"@,
            TokenKindOf::Star => "*"@,
            TokenKindOf::Slash => "/"@,
            TokenKindOf::Percent => "%"@,
            TokenKindOf::AndAnd => "&&"@,
            TokenKindOf::OrOr => "||"@,
            TokenKindOf::Equal => "="@,
            TokenKindOf::DoubleEqual => "=="@,
            TokenKindOf::NotEqual => "!="@,
            TokenKindOf::Not => "!"@,
            TokenKindOf::Less => "<"@,
            TokenKindOf::LessEqual => "<="@,
            TokenKindOf::Greater => ">"@,
            TokenKindOf::GreaterEqual => ">="@,
            TokenKindOf::LeftParen => "("@,
            TokenKindOf::RightParen => ")"@,
            TokenKindOf::LeftBrace => "{"@,
            TokenKindOf::RightBrace => "}"@,
            TokenKindOf::Semicolon => ";"@,
            TokenKindOf::Colon => ":"@,
            TokenKindOf::Comma => ","@,
            TokenKindOf::Eof => "<EOF>"@,
    }
}

/// Which variant a token kind is, as a number: two kinds have the same tag
/// exactly when they are the same variant, whatever their contents.
pub open spec fn kind_tag<S>(k: TokenKindOf<S>) -> int {
    match k {
        TokenKindOf::Integer(_) => 0,
        TokenKindOf::Float(_) => 1,
        TokenKindOf::Boolean(_) => 2,
        TokenKindOf::StringLit(_) => 3,
        TokenKindOf::Identifier(_) => 4,
        TokenKindOf::Unknown(_) => 5,
        TokenKindOf::Nil => 6,
        TokenKindOf::Make => 7,
        TokenKindOf::Show => 8,
        TokenKindOf::When => 9,
        TokenKindOf::Otherwise => 10,
        TokenKindOf::During => 11,
        TokenKindOf::For => 12,
        TokenKindOf::Return => 13,
        TokenKindOf::Func => 14,
        TokenKindOf::And => 15,
        TokenKindOf::Or => 16,
        TokenKindOf::TypeInt => 17,
        TokenKindOf::TypeFloat => 18,
        TokenKindOf::TypeBool => 19,
        TokenKindOf::TypeString => 20,
        TokenKindOf::TypeVoid => 21,
        TokenKindOf::Plus => 22,
        TokenKindOf::Minus => 23,
        TokenKindOf::Star => 24,
        TokenKindOf::Slash => 25,
        TokenKindOf::Percent => 26,
        TokenKindOf::AndAnd => 27,
        TokenKindOf::OrOr => 28,
        TokenKindOf::Equal => 29,
        TokenKindOf::DoubleEqual => 30,
        TokenKindOf::NotEqual => 31,
        TokenKindOf::Not => 32,
        TokenKindOf::Less => 33,
        TokenKindOf::LessEqual => 34,
        TokenKindOf::Greater => 35,
        TokenKindOf::GreaterEqual => 36,
        TokenKindOf::LeftParen => 37,
        TokenKindOf::RightParen => 38,
        TokenKindOf::LeftBrace => 39,
        TokenKindOf::RightBrace => 40,
        TokenKindOf::Semicolon => 41,
        TokenKindOf::Colon => 42,
        TokenKindOf::Comma => 43,
        TokenKindOf::Eof => 44,
    }
}

impl TokenKindOf<String> {
    /// The variant of this kind (see [`kind_tag`]).
    pub fn tag(&self) -> (t: u8)
        ensures
            t as int == kind_tag(*self),
    {
        match self {
            TokenKindOf::Integer(_) => 0,
            TokenKindOf::Float(_) => 1,
            TokenKindOf::Boolean(_) => 2,
            TokenKindOf::StringLit(_) => 3,
            TokenKindOf::Identifier(_) => 4,
            TokenKindOf::Unknown(_) => 5,
            TokenKindOf::Nil => 6,
            TokenKindOf::Make => 7,
            TokenKindOf::Show => 8,
            TokenKindOf::When => 9,
            TokenKindOf::Otherwise => 10,
            TokenKindOf::During => 11,
            TokenKindOf::For => 12,
            TokenKindOf::Return => 13,
            TokenKindOf::Func => 14,
            TokenKindOf::And => 15,
            TokenKindOf::Or => 16,
            TokenKindOf::TypeInt => 17,
            TokenKindOf::TypeFloat => 18,
            TokenKindOf::TypeBool => 19,
            TokenKindOf::TypeString => 20,
            TokenKindOf::TypeVoid => 21,
            TokenKindOf::Plus => 22,
            TokenKindOf::Minus => 23,
            TokenKindOf::Star => 24,
            TokenKindOf::Slash => 25,
            TokenKindOf::Percent => 26,
            TokenKindOf::AndAnd => 27,
            TokenKindOf::OrOr => 28,
            TokenKindOf::Equal => 29,
            TokenKindOf::DoubleEqual => 30,
            TokenKindOf::NotEqual => 31,
            TokenKindOf::Not => 32,
            TokenKindOf::Less => 33,
            TokenKindOf::LessEqual => 34,
            TokenKindOf::Greater => 35,
            TokenKindOf::GreaterEqual => 36,
            TokenKindOf::LeftParen => 37,
            TokenKindOf::RightParen => 38,
            TokenKindOf::LeftBrace => 39,
            TokenKindOf::RightBrace => 40,
            TokenKindOf::Semicolon => 41,
            TokenKindOf::Colon => 42,
            TokenKindOf::Comma => 43,
            TokenKindOf::Eof => 44,
        }
    }

    /// Whether this kind and `other` are the same variant, whatever their contents.
    pub fn same_variant(&self, other: &TokenKind) -> (b: bool)
        ensures
            b == (kind_tag(*self) == kind_tag(*other)),
    {
        self.tag() == other.tag()
    }

    /// The text that stands for this kind (see [`kind_text`]).
    pub fn display(&self) -> (s: String)
        ensures
            s@ == kind_text(self@),
    {
        match self {
            TokenKindOf::Integer(n) => i64_to_string(*n),
            TokenKindOf::Float(t) => t.clone(),
            TokenKindOf::Boolean(b) => if *b { string_of("true") } else { string_of("false") },
            TokenKindOf::StringLit(t) => {
                let mut s = string_of("\"");
                append_str(&mut s, t.as_str());
                append_str(&mut s, "\"");
                s
            },
            TokenKindOf::Identifier(t) => t.clone(),
            TokenKindOf::Unknown(c) => {
                let mut s = String::new();
                push_char(&mut s, *c);
                s
            },
            TokenKindOf::Nil => string_of("nil"),
            TokenKindOf::Make => string_of("make"),
            TokenKindOf::Show => string_of("show"),
            TokenKindOf::When => string_of("if"),
            TokenKindOf::Otherwise => string_of("else"),
            TokenKindOf::During => string_of("while"),
            TokenKindOf::For => string_of("for"),
            TokenKindOf::Return => string_of("return"),
            TokenKindOf::Func => string_of("func"),
            TokenKindOf::And => string_of("and"),
            TokenKindOf::Or => string_of("or"),
            TokenKindOf::TypeInt => string_of("int"),
            TokenKindOf::TypeFloat => string_of("float"),
            TokenKindOf::TypeBool => string_of("bool"),
            TokenKindOf::TypeString => string_of("String"),
            TokenKindOf::TypeVoid => string_of("void"),
            TokenKindOf::Plus => string_of("+"),
            TokenKindOf::Minus => string_of("-"),
            TokenKindOf::Star => string_of("*"),
            TokenKindOf::Slash => string_of("/"),
            TokenKindOf::Percent => string_of("%"),
            TokenKindOf::AndAnd => string_of("&&"),
            TokenKindOf::OrOr => string_of("||"),
            TokenKindOf::Equal => string_of("="),
            TokenKindOf::DoubleEqual => string_of("=="),
            TokenKindOf::NotEqual => string_of("!="),
            TokenKindOf::Not => string_of("!"),
            TokenKindOf::Less => string_of("<"),
            TokenKindOf::LessEqual => string_of("<="),
            TokenKindOf::Greater => string_of(">"),
            TokenKindOf::GreaterEqual => string_of(">="),
            TokenKindOf::LeftParen => string_of("("),
            TokenKindOf::RightParen => string_of(")"),
            TokenKindOf::LeftBrace => string_of("{"),
            TokenKindOf::RightBrace => string_of("}"),
            TokenKindOf::Semicolon => string_of(";"),
            TokenKindOf::Colon => string_of(":"),
            TokenKindOf::Comma => string_of(","),
            TokenKindOf::Eof => string_of("<EOF>"),
        }
    }

    /// A copy of this kind.
    pub fn copy(&self) -> (r: Self)
        ensures
            r == *self,
    {
        match self {
            TokenKindOf::Integer(n) => TokenKindOf::Integer(*n),
            TokenKindOf::Float(t) => TokenKindOf::Float(t.clone()),
            TokenKindOf::Boolean(b) => TokenKindOf::Boolean(*b),
            TokenKindOf::StringLit(t) => TokenKindOf::StringLit(t.clone()),
            TokenKindOf::Identifier(t) => TokenKindOf::Identifier(t.clone()),
            TokenKindOf::Unknown(c) => TokenKindOf::Unknown(*c),
            TokenKindOf::Nil => TokenKindOf::Nil,
            TokenKindOf::Make => TokenKindOf::Make,
            TokenKindOf::Show => TokenKindOf::Show,
            TokenKindOf::When => TokenKindOf::When,
            TokenKindOf::Otherwise => TokenKindOf::Otherwise,
            TokenKindOf::During => TokenKindOf::During,
            TokenKindOf::For => TokenKindOf::For,
            TokenKindOf::Return => TokenKindOf::Return,
            TokenKindOf::Func => TokenKindOf::Func,
            TokenKindOf::And => TokenKindOf::And,
            TokenKindOf::Or => TokenKindOf::Or,
            TokenKindOf::TypeInt => TokenKindOf::TypeInt,
            TokenKindOf::TypeFloat => TokenKindOf::TypeFloat,
            TokenKindOf::TypeBool => TokenKindOf::TypeBool,
            TokenKindOf::TypeString => TokenKindOf::TypeString,
            TokenKindOf::TypeVoid => TokenKindOf::TypeVoid,
            TokenKindOf::Plus => TokenKindOf::Plus,
            TokenKindOf::Minus => TokenKindOf::Minus,
            TokenKindOf::Star => TokenKindOf::Star,
            TokenKindOf::Slash => TokenKindOf::Slash,
            TokenKindOf::Percent => TokenKindOf::Percent,
            TokenKindOf::AndAnd => TokenKindOf::AndAnd,
            TokenKindOf::OrOr => TokenKindOf::OrOr,
            TokenKindOf::Equal => TokenKindOf::Equal,
            TokenKindOf::DoubleEqual => TokenKindOf::DoubleEqual,
            TokenKindOf::NotEqual => TokenKindOf::NotEqual,
            TokenKindOf::Not => TokenKindOf::Not,
            TokenKindOf::Less => TokenKindOf::Less,
            TokenKindOf::LessEqual => TokenKindOf::LessEqual,
            TokenKindOf::Greater => TokenKindOf::Greater,
            TokenKindOf::GreaterEqual => TokenKindOf::GreaterEqual,
            TokenKindOf::LeftParen => TokenKindOf::LeftParen,
            TokenKindOf::RightParen => TokenKindOf::RightParen,
            TokenKindOf::LeftBrace => TokenKindOf::LeftBrace,
            TokenKindOf::RightBrace => TokenKindOf::RightBrace,
            TokenKindOf::Semicolon => TokenKindOf::Semicolon,
            TokenKindOf::Colon => TokenKindOf::Colon,
            TokenKindOf::Comma => TokenKindOf::Comma,
            TokenKindOf::Eof => TokenKindOf::Eof,
        }
    }
}

/// A token: its kind, its text, and the line and column (both from 1) of
/// its first character in the source.
#[derive(Debug, Clone, PartialEq)]
pub struct TokenOf<S> {
    pub kind: TokenKindOf<S>,
    pub lexeme: S,
    pub line: usize,
    pub col: usize,
}

/// Tokens as the lexer produces them.
pub type Token = TokenOf<String>;

/// The mathematical value of a token.
pub type TokenM = TokenOf<Seq<char>>;

impl View for TokenOf<String> {
    type V = TokenM;

    open spec fn view(&self) -> TokenM {
        TokenOf { kind: self.kind@, lexeme: self.lexeme@, line: self.line, col: self.col }
    }
}

impl TokenOf<String> {
    /// A token with the given parts.
    pub fn new(kind: TokenKind, lexeme: String, line: usize, col: usize) -> (t: Self)
        ensures
            t.kind == kind,
            t.lexeme == lexeme,
            t.line == line,
            t.col == col,
    {
        TokenOf { kind, lexeme, line, col }
    }
}

} // verus!
