use lib::asm_helpers::{is_alpha_asm, is_digit_asm};
use lib::ast::{BinOp, Stmt};
use lib::text::{i64_to_string, usize_to_string};
use lib::value::{trim_point_zero, Host, Port, Value};

struct PlainHost;

impl Host for PlainHost {
    fn show(&mut self, _line: String) {}

    fn float_from_literal(&self, text: &str) -> u64 {
        text.parse::<f64>().unwrap_or(0.0).to_bits()
    }

    fn float_from_int(&self, n: i64) -> u64 {
        (n as f64).to_bits()
    }

    fn float_arith(&self, _op: BinOp, a: u64, _b: u64) -> u64 {
        a
    }

    fn float_neg(&self, a: u64) -> u64 {
        (-f64::from_bits(a)).to_bits()
    }

    fn float_compare(&self, _op: BinOp, a: u64, b: u64) -> bool {
        f64::from_bits(a) == f64::from_bits(b)
    }

    fn float_is_zero(&self, a: u64) -> bool {
        f64::from_bits(a) == 0.0
    }

    fn float_display(&self, a: u64) -> String {
        f64::from_bits(a).to_string()
    }
}

#[test]
fn display_of_values() {
    let mut h = Port::new(PlainHost);
    assert_eq!(Value::Integer(-12).display(&mut h), "-12");
    assert_eq!(Value::Float(2.5f64.to_bits()).display(&mut h), "2.5");
    assert_eq!(Value::Str("hi".to_string()).display(&mut h), "hi");
    assert_eq!(Value::Bool(false).display(&mut h), "false");
    assert_eq!(Value::Nil.display(&mut h), "nil");
    let f = Value::Func { params: vec!["a".to_string()], body: Vec::<Stmt>::new() };
    assert_eq!(f.display(&mut h), "<func>");
}

#[test]
fn truthiness() {
    let mut h = Port::new(PlainHost);
    assert!(!Value::Bool(false).is_truthy(&mut h));
    assert!(Value::Bool(true).is_truthy(&mut h));
    assert!(!Value::Nil.is_truthy(&mut h));
    assert!(!Value::Integer(0).is_truthy(&mut h));
    assert!(Value::Integer(-1).is_truthy(&mut h));
    assert!(!Value::Float(0.0f64.to_bits()).is_truthy(&mut h));
    assert!(!Value::Float((-0.0f64).to_bits()).is_truthy(&mut h));
    assert!(Value::Float(0.1f64.to_bits()).is_truthy(&mut h));
    assert!(Value::Str(String::new()).is_truthy(&mut h));
}

#[test]
fn copy_is_deep_and_equal() {
    let mut h = Port::new(PlainHost);
    let v = Value::Str("abc".to_string());
    assert_eq!(v.copy().display(&mut h), "abc");
}

#[test]
fn decimal_numerals() {
    assert_eq!(i64_to_string(0), "0");
    assert_eq!(i64_to_string(-905), "-905");
    assert_eq!(i64_to_string(i64::MIN), "-9223372036854775808");
    assert_eq!(i64_to_string(i64::MAX), "9223372036854775807");
    assert_eq!(usize_to_string(40), "40");
}

#[test]
fn character_classes() {
    assert!(is_digit_asm('0') && is_digit_asm('9'));
    assert!(!is_digit_asm('a') && !is_digit_asm('/') && !is_digit_asm(':'));
    assert!(is_alpha_asm('a') && is_alpha_asm('Z'));
    assert!(is_alpha_asm('_'));
    assert!(!is_alpha_asm('1') && !is_alpha_asm('@') && !is_alpha_asm('['));
}

#[test]
fn float_text_drops_trailing_point_zero() {
    assert_eq!(trim_point_zero("3.0".to_string()), "3");
    assert_eq!(trim_point_zero("3.05".to_string()), "3.05");
    assert_eq!(trim_point_zero("10".to_string()), "10");
    assert_eq!(trim_point_zero(".0".to_string()), "");
    let mut h = Port::new(PointZeroHost);
    assert_eq!(Value::Float(7.0f64.to_bits()).display(&mut h), "7");
}

struct PointZeroHost;

impl Host for PointZeroHost {
    fn show(&mut self, _line: String) {}

    fn float_from_literal(&self, _text: &str) -> u64 {
        0
    }

    fn float_from_int(&self, _n: i64) -> u64 {
        0
    }

    fn float_arith(&self, _op: BinOp, a: u64, _b: u64) -> u64 {
        a
    }

    fn float_neg(&self, a: u64) -> u64 {
        a
    }

    fn float_compare(&self, _op: BinOp, _a: u64, _b: u64) -> bool {
        false
    }

    fn float_is_zero(&self, _a: u64) -> bool {
        false
    }

    fn float_display(&self, a: u64) -> String {
        format!("{:?}", f64::from_bits(a))
    }
}

#[test]
fn port_records_and_forwards_show() {
    let mut port = Port::new(Collect { lines: Vec::new() });
    port.show("one".to_string());
    port.show("two".to_string());
    assert_eq!(port.host().lines, vec!["one", "two"]);
}

struct Collect {
    lines: Vec<String>,
}

impl Host for Collect {
    fn show(&mut self, line: String) {
        self.lines.push(line);
    }

    fn float_from_literal(&self, _text: &str) -> u64 {
        0
    }

    fn float_from_int(&self, _n: i64) -> u64 {
        0
    }

    fn float_arith(&self, _op: BinOp, a: u64, _b: u64) -> u64 {
        a
    }

    fn float_neg(&self, a: u64) -> u64 {
        a
    }

    fn float_compare(&self, _op: BinOp, _a: u64, _b: u64) -> bool {
        false
    }

    fn float_is_zero(&self, _a: u64) -> bool {
        false
    }

    fn float_display(&self, _a: u64) -> String {
        String::new()
    }
}
