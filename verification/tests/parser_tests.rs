use lib::ast::{BinOp, Expr, Program, Stmt, TypeAnnotation, UnOp};
use lib::lexer::Lexer;
use lib::parser::{ParseError, Parser};

fn parse(src: &str) -> Result<Program, ParseError> {
    let mut lx = Lexer::new(src);
    let toks = lx.tokenize();
    Parser::new(toks).parse_program()
}

fn parse_err(src: &str) -> String {
    match parse(src) {
        Ok(_) => panic!("expected a parse error"),
        Err(e) => e.display(),
    }
}

fn lit(n: i64) -> Box<Expr> {
    Box::new(Expr::Integer(n))
}

#[test]
fn precedence_of_multiplication_over_addition() {
    let p = parse("make x = 1 + 2 * 3;").unwrap();
    assert_eq!(
        p.stmts,
        vec![Stmt::Make {
            name: "x".to_string(),
            init: Expr::BinaryOp {
                left: lit(1),
                op: BinOp::Add,
                right: Box::new(Expr::BinaryOp { left: lit(2), op: BinOp::Mul, right: lit(3) }),
            },
        }]
    );
}

#[test]
fn operators_associate_to_the_left() {
    let p = parse("8 - 4 - 2").unwrap();
    assert_eq!(
        p.stmts,
        vec![Stmt::ExprStmt(Expr::BinaryOp {
            left: Box::new(Expr::BinaryOp { left: lit(8), op: BinOp::Sub, right: lit(4) }),
            op: BinOp::Sub,
            right: lit(2),
        })]
    );
}

#[test]
fn assignment_is_right_associative() {
    let p = parse("a = b = 3").unwrap();
    assert_eq!(
        p.stmts,
        vec![Stmt::ExprStmt(Expr::Assignment {
            name: "a".to_string(),
            value: Box::new(Expr::Assignment { name: "b".to_string(), value: lit(3) }),
        })]
    );
}

#[test]
fn unary_and_grouping() {
    let p = parse("-(1) == !true").unwrap();
    assert_eq!(
        p.stmts,
        vec![Stmt::ExprStmt(Expr::BinaryOp {
            left: Box::new(Expr::UnaryOp {
                op: UnOp::Neg,
                operand: Box::new(Expr::Grouped(lit(1))),
            }),
            op: BinOp::Eq,
            right: Box::new(Expr::UnaryOp { op: UnOp::Not, operand: Box::new(Expr::Boolean(true)) }),
        })]
    );
}

#[test]
fn function_definition_with_types() {
    let p = parse("func int add(a: int, b) { return a + b; }").unwrap();
    assert_eq!(
        p.stmts,
        vec![Stmt::FuncDef {
            name: "add".to_string(),
            return_type: Some(TypeAnnotation::Int),
            params: vec!["a".to_string(), "b".to_string()],
            body: vec![Stmt::Return {
                value: Some(Expr::BinaryOp {
                    left: Box::new(Expr::Identifier("a".to_string())),
                    op: BinOp::Add,
                    right: Box::new(Expr::Identifier("b".to_string())),
                }),
            }],
        }]
    );
}

#[test]
fn if_else_and_while() {
    let p = parse("when (x) { show(1) } otherwise { } during (false) { ; }").unwrap();
    assert_eq!(
        p.stmts,
        vec![
            Stmt::When {
                condition: Expr::Identifier("x".to_string()),
                then_body: vec![Stmt::Show { args: vec![Expr::Integer(1)] }],
                else_body: Some(vec![]),
            },
            Stmt::During { condition: Expr::Boolean(false), body: vec![] },
        ]
    );
}

#[test]
fn for_loop_parts() {
    let p = parse("for (make i = 0; i < 3; i = i + 1) { } for (;;) { }").unwrap();
    assert_eq!(p.stmts.len(), 2);
    match &p.stmts[0] {
        Stmt::For { init, condition, update, body } => {
            assert!(matches!(init.as_deref(), Some(Stmt::Make { .. })));
            assert!(condition.is_some());
            assert!(update.is_some());
            assert!(body.is_empty());
        },
        _ => panic!("expected a for statement"),
    }
    assert_eq!(p.stmts[1], Stmt::For { init: None, condition: None, update: None, body: vec![] });
}

#[test]
fn return_without_value() {
    let p = parse("func f() { return; return }").unwrap();
    match &p.stmts[0] {
        Stmt::FuncDef { body, return_type, .. } => {
            assert_eq!(*return_type, None);
            assert_eq!(body, &vec![Stmt::Return { value: None }, Stmt::Return { value: None }]);
        },
        _ => panic!("expected a function"),
    }
}

#[test]
fn calls_with_arguments() {
    let p = parse("f(1, \"s\", nil)").unwrap();
    assert_eq!(
        p.stmts,
        vec![Stmt::ExprStmt(Expr::Call {
            callee: "f".to_string(),
            args: vec![Expr::Integer(1), Expr::StringLit("s".to_string()), Expr::Nil],
        })]
    );
}

#[test]
fn float_literal_keeps_its_text() {
    let p = parse("2.50").unwrap();
    assert_eq!(p.stmts, vec![Stmt::ExprStmt(Expr::Float("2.50".to_string()))]);
}

#[test]
fn empty_program_and_stray_semicolons() {
    assert!(parse("").unwrap().stmts.is_empty());
    assert!(parse(";;;").unwrap().stmts.is_empty());
}

#[test]
fn error_expected_identifier() {
    assert_eq!(parse_err("make = 5"), "[ParseError line 1, col 6] expected identifier but found '='");
}

#[test]
fn error_expected_token() {
    assert_eq!(parse_err("show(1"), "[ParseError line 1, col 7] expected ')' but found '<EOF>'");
}

#[test]
fn error_invalid_assignment_target() {
    assert_eq!(parse_err("1 = 2"), "[ParseError line 1, col 6] invalid assignment target");
}

#[test]
fn error_unknown_character() {
    assert_eq!(parse_err("make x = @"), "[ParseError line 1, col 10] unknown character '@'");
}

#[test]
fn error_unexpected_token() {
    assert_eq!(
        parse_err("make x =\n  ;"),
        "[ParseError line 2, col 3] unexpected ';' — expected a literal, identifier, or '('"
    );
}

#[test]
fn error_expected_type() {
    assert_eq!(parse_err("func f(a: x) {}"), "[ParseError line 1, col 11] expected a type but found 'x'");
}

#[test]
fn error_missing_block() {
    assert_eq!(parse_err("while (1) show(1)"), "[ParseError line 1, col 11] expected '{' but found 'show'");
}

#[test]
fn program_new_is_empty() {
    assert!(Program::new().stmts.is_empty());
}
