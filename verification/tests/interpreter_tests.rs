use lib::ast::BinOp;
use lib::interpreter::{Interpreter, RuntimeError};
use lib::lexer::Lexer;
use lib::parser::Parser;
use lib::semantics::RuntimeErrorOf;
use lib::value::{Host, Port};

struct TestHost {
    lines: Vec<String>,
}

impl Host for TestHost {
    fn show(&mut self, line: String) {
        self.lines.push(line);
    }

    fn float_from_literal(&self, text: &str) -> u64 {
        text.parse::<f64>().unwrap_or(0.0).to_bits()
    }

    fn float_from_int(&self, n: i64) -> u64 {
        (n as f64).to_bits()
    }

    fn float_arith(&self, op: BinOp, a: u64, b: u64) -> u64 {
        let (x, y) = (f64::from_bits(a), f64::from_bits(b));
        let r = match op {
            BinOp::Add => x + y,
            BinOp::Sub => x - y,
            BinOp::Mul => x * y,
            _ => x / y,
        };
        r.to_bits()
    }

    fn float_neg(&self, a: u64) -> u64 {
        (-f64::from_bits(a)).to_bits()
    }

    fn float_compare(&self, op: BinOp, a: u64, b: u64) -> bool {
        let (x, y) = (f64::from_bits(a), f64::from_bits(b));
        match op {
            BinOp::Lt => x < y,
            BinOp::LtEq => x <= y,
            BinOp::Gt => x > y,
            BinOp::GtEq => x >= y,
            _ => x == y,
        }
    }

    fn float_is_zero(&self, a: u64) -> bool {
        f64::from_bits(a) == 0.0
    }

    fn float_display(&self, a: u64) -> String {
        f64::from_bits(a).to_string()
    }
}

fn run(src: &str) -> (Result<(), RuntimeError>, Vec<String>) {
    let mut lx = Lexer::new(src);
    let toks = lx.tokenize();
    let program = Parser::new(toks).parse_program().expect("the program parses");
    let mut port = Port::new(TestHost { lines: Vec::new() });
    let r = Interpreter::new().run(&program, &mut port);
    (r, port.into_host().lines)
}

fn output(src: &str) -> Vec<String> {
    let (r, lines) = run(src);
    assert!(r.is_ok(), "run failed: {:?}", r);
    lines
}

fn message(src: &str) -> String {
    match run(src).0 {
        Err(RuntimeErrorOf::Message(m)) => m,
        other => panic!("expected an error message, got {:?}", other),
    }
}

#[test]
fn show_joins_its_arguments() {
    assert_eq!(output("show(1, \" and \", true, nil)"), vec!["1 and truenil"]);
    assert_eq!(output("show()"), vec![""]);
}

#[test]
fn integer_arithmetic_truncates_toward_zero() {
    assert_eq!(output("show(7 / 2, \" \", -7 / 2, \" \", 7 / -2, \" \", 2 + 3 * 4 - 1)"), vec!["3 -3 -3 13"]);
}

#[test]
fn make_then_read_and_reassign() {
    assert_eq!(output("make x = 1; show(x); x = x + 41; show(x); make x = 5; show(x)"), vec!["1", "42", "5"]);
}

#[test]
fn assignment_gives_its_value() {
    assert_eq!(output("make a = 0; make b = 0; a = b = 7; show(a, b)"), vec!["77"]);
}

#[test]
fn if_else_branches() {
    assert_eq!(
        output("if (0) { show(\"a\") } else { show(\"b\") } if (\"\") { show(\"c\") } if (nil) { show(\"d\") }"),
        vec!["b", "c"]
    );
}

#[test]
fn while_loop_counts() {
    assert_eq!(output("make i = 0; while (i < 3) { show(i); i = i + 1; }"), vec!["0", "1", "2"]);
}

#[test]
fn for_loop_and_its_scope() {
    assert_eq!(
        output("for (make i = 0; i < 2; i = i + 1) { show(i) } show(\"done\")"),
        vec!["0", "1", "done"]
    );
    assert_eq!(message("for (make i = 0; i < 1; i = i + 1) { } show(i)"), "undefined variable 'i'");
}

#[test]
fn block_variables_vanish_but_outer_ones_update() {
    assert_eq!(
        output("make x = 1; if (true) { make x = 2; make y = 3; } show(x)"),
        vec!["2"]
    );
    assert_eq!(message("if (true) { make y = 3; } show(y)"), "undefined variable 'y'");
}

#[test]
fn functions_and_recursion() {
    assert_eq!(
        output("func fact(n) { if (n <= 1) { return 1; } return n * fact(n - 1); } show(fact(10))"),
        vec!["3628800"]
    );
}

#[test]
fn function_without_return_gives_nil() {
    assert_eq!(output("func f() { make z = 1; } show(f())"), vec!["nil"]);
}

#[test]
fn top_level_return_ends_only_its_statement() {
    assert_eq!(output("return 5; show(\"after\")"), vec!["after"]);
}

#[test]
fn string_concatenation_and_equality() {
    assert_eq!(output("show(\"ab\" + \"cd\", \" \", \"x\" == \"x\", \" \", 1 != 1, \" \", nil == nil)"), vec!["abcd true false true"]);
}

#[test]
fn equality_of_different_variants_is_false() {
    assert_eq!(output("show(1 == \"1\", \" \", true == 1, \" \", 1 == 1.0)"), vec!["false false false"]);
}

#[test]
fn functions_compare_by_parameters_and_body() {
    assert_eq!(
        output("func f(a) { return a; } func g(a) { return a; } func h(b) { return b; } show(f == g, \" \", f == h)"),
        vec!["true false"]
    );
}

#[test]
fn unary_operators() {
    assert_eq!(output("show(-5, \" \", !0, \" \", !3, \" \", !nil, \" \", --2)"), vec!["-5 true false true 2"]);
}

#[test]
fn float_arithmetic_and_display() {
    assert_eq!(output("show(1.5 + 2, \" \", 3 * 0.5, \" \", 7.0 / 2, \" \", 2.0 - 0.5, \" \", 4.0)"), vec!["3.5 1.5 3.5 1.5 4"]);
}

#[test]
fn float_comparisons_and_truthiness() {
    assert_eq!(output("show(1 < 1.5, \" \", 2.5 >= 2, \" \", 0.5 <= 0.25)"), vec!["true true false"]);
    assert_eq!(output("if (0.0) { show(\"yes\") } else { show(\"no\") }"), vec!["no"]);
    assert_eq!(output("show(-1.5)"), vec!["-1.5"]);
}

#[test]
fn error_undefined_variable() {
    assert_eq!(message("show(x)"), "undefined variable 'x'");
}

#[test]
fn error_assign_before_make() {
    assert_eq!(message("x = 1"), "'x' is not declared — use `make` first");
}

#[test]
fn error_integer_division_by_zero() {
    assert_eq!(message("show(1 / 0)"), "integer division by zero");
}

#[test]
fn error_float_division_by_zero() {
    assert_eq!(message("show(1.0 / 0.0)"), "float division by zero");
    assert_eq!(message("show(1 / 0.0)"), "division by zero");
    assert_eq!(message("show(1.5 / 0)"), "division by zero");
}

#[test]
fn error_type_mismatch() {
    assert_eq!(message("show(\"a\" - 1)"), "type error: cannot apply Sub to a and 1");
    assert_eq!(message("show(true < 2.5)"), "type error: cannot apply Lt to true and 2.5");
}

#[test]
fn error_unary_minus_on_string() {
    assert_eq!(message("show(-\"s\")"), "unary `-` on non-numeric value: s");
}

#[test]
fn error_undefined_function() {
    assert_eq!(message("f()"), "undefined function 'f'");
}

#[test]
fn error_not_a_function() {
    assert_eq!(message("make f = 1; f()"), "'f' is not a function");
}

#[test]
fn error_wrong_number_of_arguments() {
    assert_eq!(message("func f(a, b) { } f(1)"), "'f' expects 2 arg(s), got 1");
}

#[test]
fn error_stops_the_run_after_earlier_output() {
    let (r, lines) = run("show(1); show(y); show(2)");
    assert!(r.is_err());
    assert_eq!(lines, vec!["1"]);
}

#[test]
fn integer_overflow_is_reported() {
    match run("show(9223372036854775807 + 1)").0 {
        Err(RuntimeErrorOf::Overflow(m)) => assert_eq!(m, "attempt to add with overflow"),
        other => panic!("expected an overflow, got {:?}", other),
    }
    match run("make m = 0 - 9223372036854775807 - 1; show(m / -1)").0 {
        Err(RuntimeErrorOf::Overflow(m)) => assert_eq!(m, "attempt to divide with overflow"),
        other => panic!("expected an overflow, got {:?}", other),
    }
    match run("make m = 0 - 9223372036854775807 - 1; show(-m)").0 {
        Err(RuntimeErrorOf::Overflow(m)) => assert_eq!(m, "attempt to negate with overflow"),
        other => panic!("expected an overflow, got {:?}", other),
    }
}

#[test]
fn top_level_return_then_show_prints_two() {
    let (r, lines) = run("return 1; show(2)");
    assert!(r.is_ok());
    assert_eq!(lines, vec!["2"]);
}

#[test]
fn make_on_outer_name_assigns_it() {
    assert_eq!(output("make x = 1; if (true) { make x = 2; } show(x)"), vec!["2"]);
}

#[test]
fn show_joins_then_error_stops_the_rest() {
    let (r, lines) = run("show(\"a\", 1, true, nil); y; show(2)");
    match r {
        Err(RuntimeErrorOf::Message(m)) => assert_eq!(m, "undefined variable 'y'"),
        other => panic!("expected an error, got {:?}", other),
    }
    assert_eq!(lines, vec!["a1truenil"]);
}
