//! The operators: what a unary or binary operation gives on run-time values.
use vstd::prelude::*;

use super::{value_res, Interpreter, RuntimeError};
use crate::ast::{BinOp, UnOp};
use crate::semantics::{
    apply_binop, apply_unop, binop_name, int_order, is_arith, msg, RuntimeErrorM,
    RuntimeErrorOf,
};
use crate::text::{append_str, string_of};
use crate::value::{
    Port, agrees, lemma_agrees_extends, log_extends, obs_holds, FloatModel, Host, Value, ValueM,
};

verus! {

/// The overflow that Rust reports for an integer operation.
fn overflow(what: &str) -> (e: RuntimeError)
    ensures
        e@ == RuntimeErrorOf::Overflow("attempt to "@ + what@ + " with overflow"@),
{
    let mut m = string_of("attempt to ");
    append_str(&mut m, what);
    append_str(&mut m, " with overflow");
    RuntimeErrorOf::Overflow(m)
}

/// The name of a binary operator as `{:?}` writes it.
fn binop_str(op: BinOp) -> (s: &'static str)
    ensures
        s@ == binop_name(op),
{
    match op {
        BinOp::Add => "Add",
        BinOp::Sub => "Sub",
        BinOp::Mul => "Mul",
        BinOp::Div => "Div",
        BinOp::Mod => "Mod",
        BinOp::Eq => "Eq",
        BinOp::NotEq => "NotEq",
        BinOp::Lt => "Lt",
        BinOp::LtEq => "LtEq",
        BinOp::Gt => "Gt",
        BinOp::GtEq => "GtEq",
        BinOp::LogicalAnd => "LogicalAnd",
        BinOp::LogicalOr => "LogicalOr",
    }
}

/// `+`, `-`, `*` or `/` on two integers.
fn int_arith(a: i64, op: BinOp, b: i64) -> (res: Result<Value, RuntimeError>)
    requires
        is_arith(op) || op == BinOp::Div,
    ensures
        forall|fm: FloatModel| value_res(res) == #[trigger] apply_binop(ValueM::Integer(a), op, ValueM::Integer(b), fm),
{
    match op {
        BinOp::Add => match a.checked_add(b) {
            Some(n) => Ok(Value::Integer(n)),
            None => Err(overflow("add")),
        },
        BinOp::Sub => match a.checked_sub(b) {
            Some(n) => Ok(Value::Integer(n)),
            None => Err(overflow("subtract")),
        },
        BinOp::Mul => match a.checked_mul(b) {
            Some(n) => Ok(Value::Integer(n)),
            None => Err(overflow("multiply")),
        },
        _ => {
            if b == 0 {
                return Err(RuntimeErrorOf::Message(string_of("integer division by zero")));
            }
            match a.checked_div(b) {
                Some(n) => Ok(Value::Integer(n)),
                None => Err(overflow("divide")),
            }
        },
    }
}

/// `<`, `<=`, `>` or `>=` on two integers.
fn int_compare(a: i64, op: BinOp, b: i64) -> (c: bool)
    ensures
        c == int_order(op, a as int, b as int),
{
    match op {
        BinOp::Lt => a < b,
        BinOp::LtEq => a <= b,
        BinOp::Gt => a > b,
        _ => a >= b,
    }
}

impl Interpreter {
    /// The value of `l op r` (see [`apply_binop`]).
    pub(super) fn binop<H: Host>(&mut self, l: &Value, op: BinOp, r: &Value, port: &mut Port<H>) -> (res: Result<Value, RuntimeError>)
        ensures
            log_extends(old(port).answers(), final(port).answers()),
            final(self).env == old(self).env,
            final(port).shown() == old(port).shown(),
            forall|fm: FloatModel| #[trigger] agrees(fm, final(port).answers()) ==> value_res(res) == apply_binop(l@, op, r@, fm),
    {
        broadcast use lemma_agrees_extends;
        let arith = op == BinOp::Add || op == BinOp::Sub || op == BinOp::Mul || op == BinOp::Div;
        let order = op == BinOp::Lt || op == BinOp::LtEq || op == BinOp::Gt || op == BinOp::GtEq;
        let ghost log0 = port.answers();
        match (l, r) {
            (Value::Integer(a), Value::Integer(b)) => {
                if arith {
                    return int_arith(*a, op, *b);
                }
                if order {
                    return Ok(Value::Bool(int_compare(*a, op, *b)));
                }
            },
            (Value::Float(a), Value::Float(b)) => {
                if arith {
                    if op == BinOp::Div {
                        let z = port.is_zero(*b);
                        if z {
                            proof {
                                assert forall|fm: FloatModel| #[trigger] agrees(fm, port.answers()) implies
                                    apply_binop(l@, op, r@, fm) == Err::<ValueM, _>(msg("float division by zero"@)) by {
                                    assert(obs_holds(fm, port.answers()[port.answers().len() - 1]));
                                }
                            }
                            return Err(RuntimeErrorOf::Message(string_of("float division by zero")));
                        }
                    }
                    let ghost log1 = port.answers();
                    let x = port.arith(op, *a, *b);
                    proof {
                        assert forall|fm: FloatModel| #[trigger] agrees(fm, port.answers()) implies
                            apply_binop(l@, op, r@, fm) == Ok::<ValueM, RuntimeErrorM>(ValueM::Float(x)) by {
                            assert(obs_holds(fm, port.answers()[port.answers().len() - 1]));
                            if op == BinOp::Div {
                                assert(obs_holds(fm, port.answers()[port.answers().len() - 2]));
                            }
                        }
                    }
                    return Ok(Value::Float(x));
                }
                if order {
                    let c = port.compare(op, *a, *b);
                    proof {
                        assert forall|fm: FloatModel| #[trigger] agrees(fm, port.answers()) implies
                            apply_binop(l@, op, r@, fm) == Ok::<ValueM, RuntimeErrorM>(ValueM::Bool(c)) by {
                            assert(obs_holds(fm, port.answers()[port.answers().len() - 1]));
                        }
                    }
                    return Ok(Value::Bool(c));
                }
            },
            (Value::Integer(a), Value::Float(b)) => {
                if arith {
                    if op == BinOp::Div {
                        let z = port.is_zero(*b);
                        if z {
                            proof {
                                assert forall|fm: FloatModel| #[trigger] agrees(fm, port.answers()) implies
                                    apply_binop(l@, op, r@, fm) == Err::<ValueM, _>(msg("division by zero"@)) by {
                                    assert(obs_holds(fm, port.answers()[port.answers().len() - 1]));
                                }
                            }
                            return Err(RuntimeErrorOf::Message(string_of("division by zero")));
                        }
                    }
                    let fa = port.from_int(*a);
                    let x = port.arith(op, fa, *b);
                    proof {
                        assert forall|fm: FloatModel| #[trigger] agrees(fm, port.answers()) implies
                            apply_binop(l@, op, r@, fm) == Ok::<ValueM, RuntimeErrorM>(ValueM::Float(x)) by {
                            assert(obs_holds(fm, port.answers()[port.answers().len() - 1]));
                            assert(obs_holds(fm, port.answers()[port.answers().len() - 2]));
                            if op == BinOp::Div {
                                assert(obs_holds(fm, port.answers()[port.answers().len() - 3]));
                            }
                        }
                    }
                    return Ok(Value::Float(x));
                }
                if order {
                    let fa = port.from_int(*a);
                    let c = port.compare(op, fa, *b);
                    proof {
                        assert forall|fm: FloatModel| #[trigger] agrees(fm, port.answers()) implies
                            apply_binop(l@, op, r@, fm) == Ok::<ValueM, RuntimeErrorM>(ValueM::Bool(c)) by {
                            assert(obs_holds(fm, port.answers()[port.answers().len() - 1]));
                            assert(obs_holds(fm, port.answers()[port.answers().len() - 2]));
                        }
                    }
                    return Ok(Value::Bool(c));
                }
            },
            (Value::Float(a), Value::Integer(b)) => {
                if arith {
                    if op == BinOp::Div && *b == 0 {
                        return Err(RuntimeErrorOf::Message(string_of("division by zero")));
                    }
                    let fb = port.from_int(*b);
                    let x = port.arith(op, *a, fb);
                    proof {
                        assert forall|fm: FloatModel| #[trigger] agrees(fm, port.answers()) implies
                            apply_binop(l@, op, r@, fm) == Ok::<ValueM, RuntimeErrorM>(ValueM::Float(x)) by {
                            assert(obs_holds(fm, port.answers()[port.answers().len() - 1]));
                            assert(obs_holds(fm, port.answers()[port.answers().len() - 2]));
                        }
                    }
                    return Ok(Value::Float(x));
                }
                if order {
                    let fb = port.from_int(*b);
                    let c = port.compare(op, *a, fb);
                    proof {
                        assert forall|fm: FloatModel| #[trigger] agrees(fm, port.answers()) implies
                            apply_binop(l@, op, r@, fm) == Ok::<ValueM, RuntimeErrorM>(ValueM::Bool(c)) by {
                            assert(obs_holds(fm, port.answers()[port.answers().len() - 1]));
                            assert(obs_holds(fm, port.answers()[port.answers().len() - 2]));
                        }
                    }
                    return Ok(Value::Bool(c));
                }
            },
            (Value::Str(a), Value::Str(b)) => {
                if op == BinOp::Add {
                    let mut s = a.clone();
                    append_str(&mut s, b.as_str());
                    return Ok(Value::Str(s));
                }
            },
            _ => {},
        }
        if op == BinOp::Eq {
            let e = self.values_eq(l, r, port);
            return Ok(Value::Bool(e));
        }
        if op == BinOp::NotEq {
            let e = self.values_eq(l, r, port);
            return Ok(Value::Bool(!e));
        }
        let ghost log1 = port.answers();
        let lt = l.display(port);
        let ghost log2 = port.answers();
        let rt = r.display(port);
        let mut m = string_of("type error: cannot apply ");
        append_str(&mut m, binop_str(op));
        append_str(&mut m, " to ");
        append_str(&mut m, lt.as_str());
        append_str(&mut m, " and ");
        append_str(&mut m, rt.as_str());
        proof {
            assert forall|fm: FloatModel| #[trigger] agrees(fm, port.answers()) implies
                apply_binop(l@, op, r@, fm) == Err::<ValueM, RuntimeErrorM>(RuntimeErrorOf::Message(m@)) by {
                assert(agrees(fm, log2));
            }
        }
        Err(RuntimeErrorOf::Message(m))
    }

    /// The value of `op v` (see [`apply_unop`]).
    pub(super) fn unop<H: Host>(&mut self, op: UnOp, v: &Value, port: &mut Port<H>) -> (res: Result<Value, RuntimeError>)
        ensures
            log_extends(old(port).answers(), final(port).answers()),
            final(self).env == old(self).env,
            final(port).shown() == old(port).shown(),
            forall|fm: FloatModel| #[trigger] agrees(fm, final(port).answers()) ==> value_res(res) == apply_unop(op, v@, fm),
    {
        match op {
            UnOp::Neg => match v {
                Value::Integer(n) => {
                    if *n == i64::MIN {
                        Err(overflow("negate"))
                    } else {
                        Ok(Value::Integer(-*n))
                    }
                },
                Value::Float(b) => {
                    let x = port.neg(*b);
                    proof {
                        assert forall|fm: FloatModel| #[trigger] agrees(fm, port.answers()) implies
                            apply_unop(op, v@, fm) == Ok::<ValueM, RuntimeErrorM>(ValueM::Float(x)) by {
                            assert(obs_holds(fm, port.answers()[port.answers().len() - 1]));
                        }
                    }
                    Ok(Value::Float(x))
                },
                _ => {
                    let t = v.display(port);
                    let mut m = string_of("unary `-` on non-numeric value: ");
                    append_str(&mut m, t.as_str());
                    Err(RuntimeErrorOf::Message(m))
                },
            },
            UnOp::Not => {
                let t = v.is_truthy(port);
                Ok(Value::Bool(!t))
            },
        }
    }
}

} // verus!
