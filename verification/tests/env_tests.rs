use lib::env::Env;
use lib::value::Value;

fn int_of(v: Option<Value>) -> Option<i64> {
    match v {
        Some(Value::Integer(n)) => Some(n),
        Some(_) => panic!("not an integer"),
        None => None,
    }
}

fn s(name: &str) -> String {
    name.to_string()
}

#[test]
fn read_after_declare() {
    let mut env = Env::new();
    env.declare_or_assign(s("x"), Value::Integer(1));
    assert_eq!(int_of(env.get(&s("x"))), Some(1));
    assert_eq!(int_of(env.get(&s("y"))), None);
}

#[test]
fn assign_needs_a_declaration() {
    let mut env = Env::new();
    assert!(!env.assign(&s("x"), Value::Integer(1)));
    assert_eq!(int_of(env.get(&s("x"))), None);
    env.define_current(s("x"), Value::Integer(1));
    assert!(env.assign(&s("x"), Value::Integer(2)));
    assert_eq!(int_of(env.get(&s("x"))), Some(2));
}

#[test]
fn inner_scope_shadows_and_vanishes() {
    let mut env = Env::new();
    env.define_current(s("x"), Value::Integer(1));
    env.push();
    env.define_current(s("x"), Value::Integer(2));
    assert_eq!(int_of(env.get(&s("x"))), Some(2));
    env.pop();
    assert_eq!(int_of(env.get(&s("x"))), Some(1));
}

#[test]
fn declare_in_inner_scope_updates_outer_binding() {
    let mut env = Env::new();
    env.define_current(s("x"), Value::Integer(1));
    env.push();
    env.declare_or_assign(s("x"), Value::Integer(5));
    env.declare_or_assign(s("y"), Value::Integer(6));
    env.pop();
    assert_eq!(int_of(env.get(&s("x"))), Some(5));
    assert_eq!(int_of(env.get(&s("y"))), None);
}

#[test]
fn pop_keeps_the_global_scope() {
    let mut env = Env::new();
    env.define_current(s("g"), Value::Integer(9));
    env.pop();
    env.pop();
    assert_eq!(int_of(env.get(&s("g"))), Some(9));
}

#[test]
fn assign_changes_the_innermost_binding_only() {
    let mut env = Env::new();
    env.define_current(s("x"), Value::Integer(1));
    env.push();
    env.define_current(s("x"), Value::Integer(2));
    assert!(env.assign(&s("x"), Value::Integer(3)));
    env.pop();
    assert_eq!(int_of(env.get(&s("x"))), Some(1));
}
