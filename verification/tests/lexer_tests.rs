use lib::lexer::Lexer;
use lib::token::{Token, TokenKind};

fn kinds(src: &str) -> Vec<TokenKind> {
    let mut lx = Lexer::new(src);
    lx.tokenize().into_iter().map(|t| t.kind).collect()
}

fn tokens(src: &str) -> Vec<Token> {
    let mut lx = Lexer::new(src);
    lx.tokenize()
}

#[test]
fn empty_source_gives_only_eof() {
    assert_eq!(kinds(""), vec![TokenKind::Eof]);
    assert_eq!(kinds("   \n\t  "), vec![TokenKind::Eof]);
}

#[test]
fn make_statement_tokens() {
    assert_eq!(
        kinds("make x = 42;"),
        vec![
            TokenKind::Make,
            TokenKind::Identifier("x".to_string()),
            TokenKind::Equal,
            TokenKind::Integer(42),
            TokenKind::Semicolon,
            TokenKind::Eof,
        ]
    );
}

#[test]
fn keyword_synonyms() {
    assert_eq!(
        kinds("if when else otherwise while during"),
        vec![
            TokenKind::When,
            TokenKind::When,
            TokenKind::Otherwise,
            TokenKind::Otherwise,
            TokenKind::During,
            TokenKind::During,
            TokenKind::Eof,
        ]
    );
}

#[test]
fn literal_and_type_words() {
    assert_eq!(
        kinds("true false nil int float bool String void func return for and or show"),
        vec![
            TokenKind::Boolean(true),
            TokenKind::Boolean(false),
            TokenKind::Nil,
            TokenKind::TypeInt,
            TokenKind::TypeFloat,
            TokenKind::TypeBool,
            TokenKind::TypeString,
            TokenKind::TypeVoid,
            TokenKind::Func,
            TokenKind::Return,
            TokenKind::For,
            TokenKind::And,
            TokenKind::Or,
            TokenKind::Show,
            TokenKind::Eof,
        ]
    );
}

#[test]
fn identifiers_with_digits_and_underscores() {
    assert_eq!(
        kinds("_a1 b_2 string"),
        vec![
            TokenKind::Identifier("_a1".to_string()),
            TokenKind::Identifier("b_2".to_string()),
            TokenKind::Identifier("string".to_string()),
            TokenKind::Eof,
        ]
    );
}

#[test]
fn operators_one_and_two_chars() {
    assert_eq!(
        kinds("+ - * / % && || = == != ! < <= > >= ( ) { } ; : ,"),
        vec![
            TokenKind::Plus,
            TokenKind::Minus,
            TokenKind::Star,
            TokenKind::Slash,
            TokenKind::Percent,
            TokenKind::AndAnd,
            TokenKind::OrOr,
            TokenKind::Equal,
            TokenKind::DoubleEqual,
            TokenKind::NotEqual,
            TokenKind::Not,
            TokenKind::Less,
            TokenKind::LessEqual,
            TokenKind::Greater,
            TokenKind::GreaterEqual,
            TokenKind::LeftParen,
            TokenKind::RightParen,
            TokenKind::LeftBrace,
            TokenKind::RightBrace,
            TokenKind::Semicolon,
            TokenKind::Colon,
            TokenKind::Comma,
            TokenKind::Eof,
        ]
    );
}

#[test]
fn single_ampersand_and_bar_are_unknown() {
    assert_eq!(
        kinds("& | @"),
        vec![
            TokenKind::Unknown('&'),
            TokenKind::Unknown('|'),
            TokenKind::Unknown('@'),
            TokenKind::Eof,
        ]
    );
}

#[test]
fn numbers_integer_and_float() {
    assert_eq!(
        kinds("12 3.25 7. 8.x"),
        vec![
            TokenKind::Integer(12),
            TokenKind::Float("3.25".to_string()),
            TokenKind::Integer(7),
            TokenKind::Unknown('.'),
            TokenKind::Integer(8),
            TokenKind::Unknown('.'),
            TokenKind::Identifier("x".to_string()),
            TokenKind::Eof,
        ]
    );
}

#[test]
fn integer_too_large_reads_as_zero() {
    assert_eq!(kinds("9223372036854775807"), vec![TokenKind::Integer(i64::MAX), TokenKind::Eof]);
    assert_eq!(kinds("9223372036854775808"), vec![TokenKind::Integer(0), TokenKind::Eof]);
}

#[test]
fn string_escapes() {
    assert_eq!(
        kinds(r#""a\nb\tc\\d\"e\qf""#),
        vec![TokenKind::StringLit("a\nb\tc\\d\"e\\qf".to_string()), TokenKind::Eof]
    );
}

#[test]
fn unterminated_string_runs_to_end() {
    assert_eq!(kinds("\"abc"), vec![TokenKind::StringLit("abc".to_string()), TokenKind::Eof]);
}

#[test]
fn comments_are_skipped() {
    assert_eq!(
        kinds("# a comment\nshow # another\n# last"),
        vec![TokenKind::Show, TokenKind::Eof]
    );
}

#[test]
fn lines_and_columns() {
    let toks = tokens("make a\n  = 1");
    let pos: Vec<(usize, usize)> = toks.iter().map(|t| (t.line, t.col)).collect();
    assert_eq!(pos, vec![(1, 1), (1, 6), (2, 3), (2, 5), (2, 6)]);
}

#[test]
fn lexemes_are_the_kinds_text() {
    let toks = tokens("\"hi\" 5 x <= when <EOF>");
    let lexemes: Vec<String> = toks.iter().map(|t| t.lexeme.clone()).collect();
    assert_eq!(lexemes, vec!["\"hi\"", "5", "x", "<=", "if", "<", "EOF", ">", "<EOF>"]);
}

#[test]
fn eof_is_sticky() {
    let mut lx = Lexer::new("x");
    assert_eq!(lx.next_token().kind, TokenKind::Identifier("x".to_string()));
    let first = lx.next_token();
    let second = lx.next_token();
    assert_eq!(first.kind, TokenKind::Eof);
    assert_eq!(first, second);
}

#[test]
fn token_kind_display() {
    assert_eq!(TokenKind::Integer(-3).display(), "-3");
    assert_eq!(TokenKind::StringLit("s".to_string()).display(), "\"s\"");
    assert_eq!(TokenKind::TypeString.display(), "String");
    assert_eq!(TokenKind::Eof.display(), "<EOF>");
    assert_eq!(TokenKind::Unknown('$').display(), "$");
}

#[test]
fn token_new_keeps_parts() {
    let t = Token::new(TokenKind::Comma, ",".to_string(), 3, 9);
    assert_eq!(t.kind, TokenKind::Comma);
    assert_eq!(t.lexeme, ",");
    assert_eq!((t.line, t.col), (3, 9));
}

#[test]
fn display_text_reads_back() {
    let kinds = vec![
        TokenKind::Make,
        TokenKind::When,
        TokenKind::Otherwise,
        TokenKind::During,
        TokenKind::TypeString,
        TokenKind::TypeFloat,
        TokenKind::Boolean(false),
        TokenKind::Nil,
        TokenKind::NotEqual,
        TokenKind::Not,
        TokenKind::OrOr,
        TokenKind::Comma,
        TokenKind::Integer(4096),
        TokenKind::Identifier("total_2".to_string()),
    ];
    for k in kinds {
        let text = k.display();
        let mut lx = Lexer::new(&text);
        assert_eq!(lx.next_token().kind, k);
    }
}

#[test]
fn at_most_one_token_per_char_plus_eof() {
    let src = "a+b*(c-1)";
    assert!(tokens(src).len() <= src.chars().count() + 1);
    assert_eq!(tokens(src).len(), 10);
}

#[test]
fn line_is_one_plus_newlines_and_column_counts_from_last() {
    let toks = tokens("\n\n   x\n  y");
    assert_eq!((toks[0].line, toks[0].col), (3, 4));
    assert_eq!((toks[1].line, toks[1].col), (4, 3));
}
