//! What running a program does, stated over the mathematical values of
//! syntax trees, values and scopes. Evaluation is bounded by a depth
//! `fuel`: every nested evaluation, and every loop iteration, uses one unit;
//! running out is an outcome of its own.
use vstd::prelude::*;

use crate::ast::{BinOp, ExprM, StmtM, UnOp};
use crate::env::{env_assign, env_declare, env_define, env_lookup, env_pop, env_push, EnvM};
use crate::text::{decimal_nat};
use crate::value::{truthy, value_text, FloatModel, ValueM};

verus! {

/// Why running a program stopped early: an error of the language with its
/// message, an integer overflow (where Rust's checked arithmetic panics,
/// with Rust's panic message), or the evaluation bound.
#[derive(Debug, Clone, PartialEq)]
pub enum RuntimeErrorOf<S> {
    Message(S),
    Overflow(S),
    OutOfFuel,
}

pub type RuntimeErrorM = RuntimeErrorOf<Seq<char>>;

/// How a statement ends: normally, or by `return` with a value.
pub enum SignalM {
    Continue,
    Return(ValueM),
}

/// The state of a run: the scopes, and the lines shown so far.
pub struct IState {
    pub env: EnvM,
    pub out: Seq<Seq<char>>,
}

pub open spec fn with_env(s: IState, env: EnvM) -> IState {
    IState { env, out: s.out }
}

pub open spec fn msg(m: Seq<char>) -> RuntimeErrorM {
    RuntimeErrorOf::Message(m)
}

/// The name of a binary operator as `{:?}` writes it.
pub open spec fn binop_name(op: BinOp) -> Seq<char> {
    match op {
        BinOp::Add => "Add"@,
        BinOp::Sub => "Sub"@,
        BinOp::Mul => "Mul"@,
        BinOp::Div => "Div"@,
        BinOp::Mod => "Mod"@,
        BinOp::Eq => "Eq"@,
        BinOp::NotEq => "NotEq"@,
        BinOp::Lt => "Lt"@,
        BinOp::LtEq => "LtEq"@,
        BinOp::Gt => "Gt"@,
        BinOp::GtEq => "GtEq"@,
        BinOp::LogicalAnd => "LogicalAnd"@,
        BinOp::LogicalOr => "LogicalOr"@,
    }
}

pub open spec fn fits_i64(n: int) -> bool {
    i64::MIN <= n <= i64::MAX
}

/// Integer division rounding toward zero, as Rust's `/` does.
pub open spec fn trunc_div(a: int, b: int) -> int {
    let q = (if a < 0 {
        -a
    } else {
        a
    }) / (if b < 0 {
        -b
    } else {
        b
    });
    if (a < 0) != (b < 0) {
        -q
    } else {
        q
    }
}

/// An integer result, or the overflow that Rust reports for it.
pub open spec fn int_result(n: int, what: Seq<char>) -> Result<ValueM, RuntimeErrorM> {
    if fits_i64(n) {
        Ok(ValueM::Integer(n as i64))
    } else {
        Err(RuntimeErrorOf::Overflow("attempt to "@ + what + " with overflow"@))
    }
}

pub open spec fn is_arith(op: BinOp) -> bool {
    op == BinOp::Add || op == BinOp::Sub || op == BinOp::Mul
}

pub open spec fn is_order(op: BinOp) -> bool {
    op == BinOp::Lt || op == BinOp::LtEq || op == BinOp::Gt || op == BinOp::GtEq
}

pub open spec fn int_order(op: BinOp, a: int, b: int) -> bool {
    match op {
        BinOp::Lt => a < b,
        BinOp::LtEq => a <= b,
        BinOp::Gt => a > b,
        _ => a >= b,
    }
}

pub open spec fn type_error(l: ValueM, op: BinOp, r: ValueM, fm: FloatModel) -> RuntimeErrorM {
    msg(
        "type error: cannot apply "@ + binop_name(op) + " to "@ + value_text(l, fm) + " and "@
            + value_text(r, fm),
    )
}

/// The value of a binary operation on two values. Integers compute exactly
/// (an overflow or a division of `i64::MIN` by -1 is an overflow); an integer
/// meets a float by converting to a float; `+` joins strings; `==` and `!=`
/// compare any two values ([`values_equal`]); anything else is a type error.
pub open spec fn apply_binop(l: ValueM, op: BinOp, r: ValueM, fm: FloatModel) -> Result<ValueM, RuntimeErrorM> {
    match (l, r) {
        (ValueM::Integer(a), ValueM::Integer(b)) if is_arith(op) || op == BinOp::Div => {
            if op == BinOp::Add {
                int_result(a + b, "add"@)
            } else if op == BinOp::Sub {
                int_result(a - b, "subtract"@)
            } else if op == BinOp::Mul {
                int_result(a * b, "multiply"@)
            } else if b == 0 {
                Err(msg("integer division by zero"@))
            } else {
                int_result(trunc_div(a as int, b as int), "divide"@)
            }
        },
        (ValueM::Float(a), ValueM::Float(b)) if is_arith(op) || op == BinOp::Div => {
            if op == BinOp::Div && (fm.is_zero)(b) {
                Err(msg("float division by zero"@))
            } else {
                Ok(ValueM::Float((fm.arith)(op, a, b)))
            }
        },
        (ValueM::Integer(a), ValueM::Float(b)) if is_arith(op) || op == BinOp::Div => {
            if op == BinOp::Div && (fm.is_zero)(b) {
                Err(msg("division by zero"@))
            } else {
                Ok(ValueM::Float((fm.arith)(op, (fm.from_int)(a), b)))
            }
        },
        (ValueM::Float(a), ValueM::Integer(b)) if is_arith(op) || op == BinOp::Div => {
            if op == BinOp::Div && b == 0 {
                Err(msg("division by zero"@))
            } else {
                Ok(ValueM::Float((fm.arith)(op, a, (fm.from_int)(b))))
            }
        },
        (ValueM::Str(a), ValueM::Str(b)) if op == BinOp::Add => Ok(ValueM::Str(a + b)),
        (ValueM::Integer(a), ValueM::Integer(b)) if is_order(op) => Ok(
            ValueM::Bool(int_order(op, a as int, b as int)),
        ),
        (ValueM::Float(a), ValueM::Float(b)) if is_order(op) => Ok(ValueM::Bool((fm.compare)(op, a, b))),
        (ValueM::Integer(a), ValueM::Float(b)) if is_order(op) => Ok(
            ValueM::Bool((fm.compare)(op, (fm.from_int)(a), b)),
        ),
        (ValueM::Float(a), ValueM::Integer(b)) if is_order(op) => Ok(
            ValueM::Bool((fm.compare)(op, a, (fm.from_int)(b))),
        ),
        _ => if op == BinOp::Eq {
            Ok(ValueM::Bool(values_equal(l, r, fm)))
        } else if op == BinOp::NotEq {
            Ok(ValueM::Bool(!values_equal(l, r, fm)))
        } else {
            Err(type_error(l, op, r, fm))
        },
    }
}

/// Equality of values: the same variant with equal contents; floats compare
/// as doubles; functions compare their parameters and bodies.
pub open spec fn values_equal(l: ValueM, r: ValueM, fm: FloatModel) -> bool {
    match (l, r) {
        (ValueM::Integer(a), ValueM::Integer(b)) => a == b,
        (ValueM::Float(a), ValueM::Float(b)) => (fm.compare)(BinOp::Eq, a, b),
        (ValueM::Str(a), ValueM::Str(b)) => a == b,
        (ValueM::Bool(a), ValueM::Bool(b)) => a == b,
        (ValueM::Func { params: p1, body: b1 }, ValueM::Func { params: p2, body: b2 }) => p1 == p2
            && stmts_equal(b1, b2, fm),
        (ValueM::Nil, ValueM::Nil) => true,
        _ => false,
    }
}

/// Equality of expressions: the same shape with equal contents; float
/// literals compare by the doubles they denote.
pub open spec fn expr_equal(a: ExprM, b: ExprM, fm: FloatModel) -> bool
    decreases a,
{
    match (a, b) {
        (ExprM::Integer(x), ExprM::Integer(y)) => x == y,
        (ExprM::Float(x), ExprM::Float(y)) => (fm.compare)(
            BinOp::Eq,
            (fm.from_literal)(x),
            (fm.from_literal)(y),
        ),
        (ExprM::StringLit(x), ExprM::StringLit(y)) => x == y,
        (ExprM::Boolean(x), ExprM::Boolean(y)) => x == y,
        (ExprM::Nil, ExprM::Nil) => true,
        (ExprM::Identifier(x), ExprM::Identifier(y)) => x == y,
        (ExprM::Assignment { name: n1, value: v1 }, ExprM::Assignment { name: n2, value: v2 }) =>
            n1 == n2 && expr_equal(*v1, *v2, fm),
        (
            ExprM::BinaryOp { left: l1, op: o1, right: r1 },
            ExprM::BinaryOp { left: l2, op: o2, right: r2 },
        ) => expr_equal(*l1, *l2, fm) && o1 == o2 && expr_equal(*r1, *r2, fm),
        (ExprM::UnaryOp { op: o1, operand: x1 }, ExprM::UnaryOp { op: o2, operand: x2 }) => o1
            == o2 && expr_equal(*x1, *x2, fm),
        (ExprM::Grouped(x1), ExprM::Grouped(x2)) => expr_equal(*x1, *x2, fm),
        (ExprM::Call { callee: c1, args: a1 }, ExprM::Call { callee: c2, args: a2 }) => c1 == c2
            && exprs_equal(a1, a2, fm),
        _ => false,
    }
}

pub open spec fn exprs_equal(a: Seq<ExprM>, b: Seq<ExprM>, fm: FloatModel) -> bool
    decreases a,
{
    if a.len() != b.len() {
        false
    } else if a.len() == 0 {
        true
    } else {
        exprs_equal(a.drop_last(), b.drop_last(), fm) && expr_equal(a.last(), b.last(), fm)
    }
}

pub open spec fn opt_expr_equal(a: Option<ExprM>, b: Option<ExprM>, fm: FloatModel) -> bool {
    match (a, b) {
        (Some(x), Some(y)) => expr_equal(x, y, fm),
        (None, None) => true,
        _ => false,
    }
}

pub open spec fn opt_boxed_expr_equal(a: Option<Box<ExprM>>, b: Option<Box<ExprM>>, fm: FloatModel) -> bool {
    match (a, b) {
        (Some(x), Some(y)) => expr_equal(*x, *y, fm),
        (None, None) => true,
        _ => false,
    }
}

pub open spec fn opt_stmt_equal(a: Option<Box<StmtM>>, b: Option<Box<StmtM>>, fm: FloatModel) -> bool
    decreases a,
{
    match (a, b) {
        (Some(x), Some(y)) => stmt_equal(*x, *y, fm),
        (None, None) => true,
        _ => false,
    }
}

pub open spec fn opt_stmts_equal(a: Option<Seq<StmtM>>, b: Option<Seq<StmtM>>, fm: FloatModel) -> bool
    decreases a,
{
    match (a, b) {
        (Some(x), Some(y)) => stmts_equal(x, y, fm),
        (None, None) => true,
        _ => false,
    }
}

/// Equality of statements: the same shape with equal contents.
pub open spec fn stmt_equal(a: StmtM, b: StmtM, fm: FloatModel) -> bool
    decreases a,
{
    match (a, b) {
        (StmtM::Make { name: n1, init: i1 }, StmtM::Make { name: n2, init: i2 }) => n1 == n2
            && expr_equal(i1, i2, fm),
        (StmtM::Show { args: a1 }, StmtM::Show { args: a2 }) => exprs_equal(a1, a2, fm),
        (StmtM::Return { value: v1 }, StmtM::Return { value: v2 }) => opt_expr_equal(v1, v2, fm),
        (
            StmtM::When { condition: c1, then_body: t1, else_body: e1 },
            StmtM::When { condition: c2, then_body: t2, else_body: e2 },
        ) => expr_equal(c1, c2, fm) && stmts_equal(t1, t2, fm) && opt_stmts_equal(e1, e2, fm),
        (StmtM::During { condition: c1, body: b1 }, StmtM::During { condition: c2, body: b2 }) =>
            expr_equal(c1, c2, fm) && stmts_equal(b1, b2, fm),
        (
            StmtM::For { init: i1, condition: c1, update: u1, body: b1 },
            StmtM::For { init: i2, condition: c2, update: u2, body: b2 },
        ) => opt_stmt_equal(i1, i2, fm) && opt_expr_equal(c1, c2, fm) && opt_boxed_expr_equal(
            u1,
            u2,
            fm,
        ) && stmts_equal(b1, b2, fm),
        (
            StmtM::FuncDef { name: n1, return_type: r1, params: p1, body: b1 },
            StmtM::FuncDef { name: n2, return_type: r2, params: p2, body: b2 },
        ) => n1 == n2 && r1 == r2 && p1 == p2 && stmts_equal(b1, b2, fm),
        (StmtM::ExprStmt(x), StmtM::ExprStmt(y)) => expr_equal(x, y, fm),
        _ => false,
    }
}

pub open spec fn stmts_equal(a: Seq<StmtM>, b: Seq<StmtM>, fm: FloatModel) -> bool
    decreases a,
{
    if a.len() != b.len() {
        false
    } else if a.len() == 0 {
        true
    } else {
        stmts_equal(a.drop_last(), b.drop_last(), fm) && stmt_equal(a.last(), b.last(), fm)
    }
}

pub open spec fn undefined_variable_message(name: Seq<char>) -> Seq<char> {
    "undefined variable '"@ + name + "'"@
}

pub open spec fn not_declared_message(name: Seq<char>) -> Seq<char> {
    "'"@ + name + "' is not declared — use `make` first"@
}

pub open spec fn non_numeric_message(v: ValueM, fm: FloatModel) -> Seq<char> {
    "unary `-` on non-numeric value: "@ + value_text(v, fm)
}

pub open spec fn undefined_function_message(name: Seq<char>) -> Seq<char> {
    "undefined function '"@ + name + "'"@
}

pub open spec fn not_a_function_message(name: Seq<char>) -> Seq<char> {
    "'"@ + name + "' is not a function"@
}

pub open spec fn arity_message(name: Seq<char>, expected: nat, got: nat) -> Seq<char> {
    "'"@ + name + "' expects "@ + decimal_nat(expected) + " arg(s), got "@ + decimal_nat(got)
}

/// The value of a unary operation.
pub open spec fn apply_unop(op: UnOp, v: ValueM, fm: FloatModel) -> Result<ValueM, RuntimeErrorM> {
    match op {
        UnOp::Neg => match v {
            ValueM::Integer(n) => int_result(-n, "negate"@),
            ValueM::Float(b) => Ok(ValueM::Float((fm.neg)(b))),
            _ => Err(msg(non_numeric_message(v, fm))),
        },
        UnOp::Not => Ok(ValueM::Bool(!truthy(v, fm))),
    }
}

/// Binds parameters to argument values, in order, in the innermost scope.
pub open spec fn bind_params(env: EnvM, params: Seq<Seq<char>>, vals: Seq<ValueM>) -> EnvM
    decreases params.len(),
{
    if params.len() == 0 || vals.len() == 0 {
        env
    } else {
        env_define(
            bind_params(env, params.drop_last(), vals.drop_last()),
            params.last(),
            vals.last(),
        )
    }
}

/// Evaluates an expression.
pub open spec fn eval(s: IState, e: ExprM, fuel: nat, fm: FloatModel) -> (IState, Result<ValueM, RuntimeErrorM>)
    decreases fuel, 0int, 0int,
{
    if fuel == 0 {
        (s, Err(RuntimeErrorOf::OutOfFuel))
    } else {
        let f = (fuel - 1) as nat;
        match e {
            ExprM::Integer(n) => (s, Ok(ValueM::Integer(n))),
            ExprM::Float(t) => (s, Ok(ValueM::Float((fm.from_literal)(t)))),
            ExprM::StringLit(t) => (s, Ok(ValueM::Str(t))),
            ExprM::Boolean(b) => (s, Ok(ValueM::Bool(b))),
            ExprM::Nil => (s, Ok(ValueM::Nil)),
            ExprM::Identifier(name) => match env_lookup(s.env, name) {
                Some(v) => (s, Ok(v)),
                None => (s, Err(msg(undefined_variable_message(name)))),
            },
            ExprM::Assignment { name, value } => {
                let (s1, r) = eval(s, *value, f, fm);
                match r {
                    Err(err) => (s1, Err(err)),
                    Ok(v) => match env_assign(s1.env, name, v) {
                        Some(env2) => (with_env(s1, env2), Ok(v)),
                        None => (s1, Err(msg(not_declared_message(name)))),
                    },
                }
            },
            ExprM::BinaryOp { left, op, right } => {
                let (s1, r1) = eval(s, *left, f, fm);
                match r1 {
                    Err(err) => (s1, Err(err)),
                    Ok(lv) => {
                        let (s2, r2) = eval(s1, *right, f, fm);
                        match r2 {
                            Err(err) => (s2, Err(err)),
                            Ok(rv) => (s2, apply_binop(lv, op, rv, fm)),
                        }
                    },
                }
            },
            ExprM::UnaryOp { op, operand } => {
                let (s1, r) = eval(s, *operand, f, fm);
                match r {
                    Err(err) => (s1, Err(err)),
                    Ok(v) => (s1, apply_unop(op, v, fm)),
                }
            },
            ExprM::Grouped(inner) => eval(s, *inner, f, fm),
            ExprM::Call { callee, args } => call(s, callee, args, f, fm),
        }
    }
}

/// Evaluates expressions from first to last, stopping at the first error.
pub open spec fn eval_args(s: IState, es: Seq<ExprM>, fuel: nat, fm: FloatModel) -> (IState, Result<Seq<ValueM>, RuntimeErrorM>)
    decreases fuel, 1int, es.len(),
{
    if es.len() == 0 {
        (s, Ok(Seq::empty()))
    } else {
        let (s1, r) = eval_args(s, es.drop_last(), fuel, fm);
        match r {
            Err(err) => (s1, Err(err)),
            Ok(vs) => {
                let (s2, r2) = eval(s1, es.last(), fuel, fm);
                match r2 {
                    Err(err) => (s2, Err(err)),
                    Ok(v) => (s2, Ok(vs.push(v))),
                }
            },
        }
    }
}

/// Calls the function named `callee`: its arguments are evaluated in the
/// caller's scopes, then a scope with the parameters is opened, the body runs
/// as a block, and the scope is closed; the value is what `return` gave, or
/// `nil`.
pub open spec fn call(s: IState, callee: Seq<char>, args: Seq<ExprM>, fuel: nat, fm: FloatModel) -> (IState, Result<ValueM, RuntimeErrorM>)
    decreases fuel, 5int, 0int,
{
    match env_lookup(s.env, callee) {
        None => (s, Err(msg(undefined_function_message(callee)))),
        Some(ValueM::Func { params, body }) => if args.len() != params.len() {
            (s, Err(msg(arity_message(callee, params.len(), args.len()))))
        } else {
            let (s1, r) = eval_args(s, args, fuel, fm);
            match r {
                Err(err) => (s1, Err(err)),
                Ok(vals) => {
                    let s2 = with_env(s1, bind_params(env_push(s1.env), params, vals));
                    let (s3, r3) = exec_block(s2, body, fuel, fm);
                    match r3 {
                        Err(err) => (s3, Err(err)),
                        Ok(sig) => (
                            with_env(s3, env_pop(s3.env)),
                            Ok(
                                match sig {
                                    SignalM::Return(v) => v,
                                    SignalM::Continue => ValueM::Nil,
                                },
                            ),
                        ),
                    }
                },
            }
        },
        Some(_) => (s, Err(msg(not_a_function_message(callee)))),
    }
}

/// The text a `show` prints: the texts of its arguments' values, joined.
pub open spec fn show_text(s: IState, args: Seq<ExprM>, fuel: nat, fm: FloatModel) -> (IState, Result<Seq<char>, RuntimeErrorM>)
    decreases fuel, 1int, args.len(),
{
    if args.len() == 0 {
        (s, Ok(Seq::empty()))
    } else {
        let (s1, r) = show_text(s, args.drop_last(), fuel, fm);
        match r {
            Err(err) => (s1, Err(err)),
            Ok(t) => {
                let (s2, r2) = eval(s1, args.last(), fuel, fm);
                match r2 {
                    Err(err) => (s2, Err(err)),
                    Ok(v) => (s2, Ok(t + value_text(v, fm))),
                }
            },
        }
    }
}

/// Runs statements in order until one returns or fails.
pub open spec fn exec_seq(s: IState, stmts: Seq<StmtM>, fuel: nat, fm: FloatModel) -> (IState, Result<SignalM, RuntimeErrorM>)
    decreases fuel, 2int, stmts.len(),
{
    if stmts.len() == 0 {
        (s, Ok(SignalM::Continue))
    } else {
        let (s1, r) = exec(s, stmts[0], fuel, fm);
        match r {
            Err(err) => (s1, Err(err)),
            Ok(SignalM::Return(v)) => (s1, Ok(SignalM::Return(v))),
            Ok(SignalM::Continue) => exec_seq(s1, stmts.drop_first(), fuel, fm),
        }
    }
}

/// Runs statements in a new scope, which is closed unless an error stopped them.
pub open spec fn exec_block(s: IState, stmts: Seq<StmtM>, fuel: nat, fm: FloatModel) -> (IState, Result<SignalM, RuntimeErrorM>)
    decreases fuel, 3int, 0int,
{
    let (s1, r) = exec_seq(with_env(s, env_push(s.env)), stmts, fuel, fm);
    match r {
        Err(err) => (s1, Err(err)),
        Ok(sig) => (with_env(s1, env_pop(s1.env)), Ok(sig)),
    }
}

/// A `while` loop from its next test of the condition on.
pub open spec fn during_loop(s: IState, cond: ExprM, body: Seq<StmtM>, fuel: nat, fm: FloatModel) -> (IState, Result<SignalM, RuntimeErrorM>)
    decreases fuel, 0int, 0int,
{
    if fuel == 0 {
        (s, Err(RuntimeErrorOf::OutOfFuel))
    } else {
        let f = (fuel - 1) as nat;
        let (s1, r) = eval(s, cond, f, fm);
        match r {
            Err(err) => (s1, Err(err)),
            Ok(c) => if !truthy(c, fm) {
                (s1, Ok(SignalM::Continue))
            } else {
                let (s2, r2) = exec_block(s1, body, f, fm);
                match r2 {
                    Err(err) => (s2, Err(err)),
                    Ok(SignalM::Return(v)) => (s2, Ok(SignalM::Return(v))),
                    Ok(SignalM::Continue) => during_loop(s2, cond, body, f, fm),
                }
            },
        }
    }
}

/// A `for` loop from its next test of the condition on; it closes the
/// loop's scope when it ends normally or by `return`.
pub open spec fn for_loop(
    s: IState,
    cond: Option<ExprM>,
    update: Option<Box<ExprM>>,
    body: Seq<StmtM>,
    fuel: nat,
    fm: FloatModel,
) -> (IState, Result<SignalM, RuntimeErrorM>)
    decreases fuel, 0int, 0int,
{
    if fuel == 0 {
        (s, Err(RuntimeErrorOf::OutOfFuel))
    } else {
        let f = (fuel - 1) as nat;
        let (s1, r) = match cond {
            Some(c) => {
                let (s1, r) = eval(s, c, f, fm);
                match r {
                    Err(err) => (s1, Err(err)),
                    Ok(v) => (s1, Ok(truthy(v, fm))),
                }
            },
            None => (s, Ok(true)),
        };
        match r {
            Err(err) => (s1, Err(err)),
            Ok(keep_going) => if !keep_going {
                (with_env(s1, env_pop(s1.env)), Ok(SignalM::Continue))
            } else {
                let (s2, r2) = exec_block(s1, body, f, fm);
                match r2 {
                    Err(err) => (s2, Err(err)),
                    Ok(SignalM::Return(v)) => (with_env(s2, env_pop(s2.env)), Ok(SignalM::Return(v))),
                    Ok(SignalM::Continue) => match update {
                        Some(u) => {
                            let (s3, r3) = eval(s2, *u, f, fm);
                            match r3 {
                                Err(err) => (s3, Err(err)),
                                Ok(_) => for_loop(s3, cond, update, body, f, fm),
                            }
                        },
                        None => for_loop(s2, cond, update, body, f, fm),
                    },
                }
            },
        }
    }
}

/// Runs a statement.
pub open spec fn exec(s: IState, st: StmtM, fuel: nat, fm: FloatModel) -> (IState, Result<SignalM, RuntimeErrorM>)
    decreases fuel, 0int, 0int,
{
    if fuel == 0 {
        (s, Err(RuntimeErrorOf::OutOfFuel))
    } else {
        let f = (fuel - 1) as nat;
        match st {
            StmtM::Make { name, init } => {
                let (s1, r) = eval(s, init, f, fm);
                match r {
                    Err(err) => (s1, Err(err)),
                    Ok(v) => (with_env(s1, env_declare(s1.env, name, v)), Ok(SignalM::Continue)),
                }
            },
            StmtM::Show { args } => {
                let (s1, r) = show_text(s, args, f, fm);
                match r {
                    Err(err) => (s1, Err(err)),
                    Ok(t) => (IState { env: s1.env, out: s1.out.push(t) }, Ok(SignalM::Continue)),
                }
            },
            StmtM::Return { value } => match value {
                None => (s, Ok(SignalM::Return(ValueM::Nil))),
                Some(e) => {
                    let (s1, r) = eval(s, e, f, fm);
                    match r {
                        Err(err) => (s1, Err(err)),
                        Ok(v) => (s1, Ok(SignalM::Return(v))),
                    }
                },
            },
            StmtM::When { condition, then_body, else_body } => {
                let (s1, r) = eval(s, condition, f, fm);
                match r {
                    Err(err) => (s1, Err(err)),
                    Ok(c) => if truthy(c, fm) {
                        exec_block(s1, then_body, f, fm)
                    } else {
                        match else_body {
                            Some(b) => exec_block(s1, b, f, fm),
                            None => (s1, Ok(SignalM::Continue)),
                        }
                    },
                }
            },
            StmtM::During { condition, body } => during_loop(s, condition, body, f, fm),
            StmtM::For { init, condition, update, body } => {
                let s0 = with_env(s, env_push(s.env));
                match init {
                    Some(i) => {
                        let (s1, r) = exec(s0, *i, f, fm);
                        match r {
                            Err(err) => (s1, Err(err)),
                            Ok(_) => for_loop(s1, condition, update, body, f, fm),
                        }
                    },
                    None => for_loop(s0, condition, update, body, f, fm),
                }
            },
            StmtM::FuncDef { name, params, body, .. } => (
                with_env(s, env_declare(s.env, name, ValueM::Func { params, body })),
                Ok(SignalM::Continue),
            ),
            StmtM::ExprStmt(e) => {
                let (s1, r) = eval(s, e, f, fm);
                match r {
                    Err(err) => (s1, Err(err)),
                    Ok(_) => (s1, Ok(SignalM::Continue)),
                }
            },
        }
    }
}

/// Runs a program's statements in order; a `return` at the top level ends
/// only its own statement. Stops at the first error.
pub open spec fn run_stmts(s: IState, stmts: Seq<StmtM>, fuel: nat, fm: FloatModel) -> (IState, Result<(), RuntimeErrorM>)
    decreases stmts.len(),
{
    if stmts.len() == 0 {
        (s, Ok(()))
    } else {
        let (s1, r) = exec(s, stmts[0], fuel, fm);
        match r {
            Err(err) => (s1, Err(err)),
            Ok(_) => run_stmts(s1, stmts.drop_first(), fuel, fm),
        }
    }
}


/// An error while evaluating the first `k` arguments is the error of all of them.
pub proof fn lemma_eval_args_prefix_err(s: IState, es: Seq<ExprM>, k: int, fuel: nat, fm: FloatModel)
    requires
        0 <= k <= es.len(),
        eval_args(s, es.take(k), fuel, fm).1 is Err,
    ensures
        eval_args(s, es, fuel, fm) == eval_args(s, es.take(k), fuel, fm),
    decreases es.len(),
{
    if k == es.len() {
        assert(es.take(k) =~= es);
    } else {
        assert(es.drop_last().take(k) =~= es.take(k));
        lemma_eval_args_prefix_err(s, es.drop_last(), k, fuel, fm);
    }
}

/// An error while writing the first `k` arguments of `show` is the error of all of them.
pub proof fn lemma_show_text_prefix_err(s: IState, es: Seq<ExprM>, k: int, fuel: nat, fm: FloatModel)
    requires
        0 <= k <= es.len(),
        show_text(s, es.take(k), fuel, fm).1 is Err,
    ensures
        show_text(s, es, fuel, fm) == show_text(s, es.take(k), fuel, fm),
    decreases es.len(),
{
    if k == es.len() {
        assert(es.take(k) =~= es);
    } else {
        assert(es.drop_last().take(k) =~= es.take(k));
        lemma_show_text_prefix_err(s, es.drop_last(), k, fuel, fm);
    }
}


/// `b` keeps every line that `a` has shown, in order, and may have more.
pub open spec fn out_extends(a: IState, b: IState) -> bool {
    a.out.len() <= b.out.len() && forall|i: int| 0 <= i < a.out.len() ==> #[trigger] b.out[i] == a.out[i]
}

/// What every step of a run keeps: the lines already shown stay, the
/// outermost scope stays, and a step that completes leaves as many scopes
/// as it found.
pub open spec fn frame_kept<T>(s: IState, res: (IState, Result<T, RuntimeErrorM>)) -> bool {
    &&& out_extends(s, res.0)
    &&& res.0.env.len() >= 1
    &&& res.1 is Ok ==> res.0.env.len() == s.env.len()
}

/// Binding parameters keeps the number of scopes.
pub proof fn lemma_bind_params_len(env: EnvM, params: Seq<Seq<char>>, vals: Seq<ValueM>)
    ensures
        bind_params(env, params, vals).len() == env.len(),
    decreases params.len(),
{
    if params.len() > 0 && vals.len() > 0 {
        lemma_bind_params_len(env, params.drop_last(), vals.drop_last());
    }
}

/// Evaluating an expression keeps the frame (see [`frame_kept`]).
pub proof fn lemma_eval_frame(s: IState, e: ExprM, fuel: nat, fm: FloatModel)
    requires
        s.env.len() >= 1,
    ensures
        frame_kept(s, eval(s, e, fuel, fm)),
    decreases fuel, 0int, 0int,
{
    if fuel > 0 {
        let f = (fuel - 1) as nat;
        match e {
            ExprM::Assignment { name, value } => {
                lemma_eval_frame(s, *value, f, fm);
                let (s1, r) = eval(s, *value, f, fm);
                if r is Ok {
                    crate::env::lemma_assign_then_lookup(s1.env, name, r->Ok_0);
                }
            },
            ExprM::BinaryOp { left, op, right } => {
                lemma_eval_frame(s, *left, f, fm);
                let (s1, r1) = eval(s, *left, f, fm);
                if r1 is Ok {
                    lemma_eval_frame(s1, *right, f, fm);
                }
            },
            ExprM::UnaryOp { op, operand } => {
                lemma_eval_frame(s, *operand, f, fm);
            },
            ExprM::Grouped(inner) => {
                lemma_eval_frame(s, *inner, f, fm);
            },
            ExprM::Call { callee, args } => {
                lemma_call_frame(s, callee, args, f, fm);
            },
            _ => {},
        }
    }
}

pub proof fn lemma_eval_args_frame(s: IState, es: Seq<ExprM>, fuel: nat, fm: FloatModel)
    requires
        s.env.len() >= 1,
    ensures
        frame_kept(s, eval_args(s, es, fuel, fm)),
    decreases fuel, 1int, es.len(),
{
    if es.len() > 0 {
        lemma_eval_args_frame(s, es.drop_last(), fuel, fm);
        let (s1, r) = eval_args(s, es.drop_last(), fuel, fm);
        if r is Ok {
            lemma_eval_frame(s1, es.last(), fuel, fm);
        }
    }
}

/// A function call that completes leaves the caller's scopes as it found
/// them: the scope of its parameters is closed again.
pub proof fn lemma_call_frame(s: IState, callee: Seq<char>, args: Seq<ExprM>, fuel: nat, fm: FloatModel)
    requires
        s.env.len() >= 1,
    ensures
        frame_kept(s, call(s, callee, args, fuel, fm)),
    decreases fuel, 5int, 0int,
{
    match env_lookup(s.env, callee) {
        Some(ValueM::Func { params, body }) => {
            if args.len() == params.len() {
                lemma_eval_args_frame(s, args, fuel, fm);
                let (s1, r) = eval_args(s, args, fuel, fm);
                if r is Ok {
                    let s2 = with_env(s1, bind_params(env_push(s1.env), params, r->Ok_0));
                    lemma_bind_params_len(env_push(s1.env), params, r->Ok_0);
                    lemma_exec_block_frame(s2, body, fuel, fm);
                }
            }
        },
        _ => {},
    }
}

pub proof fn lemma_show_text_frame(s: IState, es: Seq<ExprM>, fuel: nat, fm: FloatModel)
    requires
        s.env.len() >= 1,
    ensures
        frame_kept(s, show_text(s, es, fuel, fm)),
    decreases fuel, 1int, es.len(),
{
    if es.len() > 0 {
        lemma_show_text_frame(s, es.drop_last(), fuel, fm);
        let (s1, r) = show_text(s, es.drop_last(), fuel, fm);
        if r is Ok {
            lemma_eval_frame(s1, es.last(), fuel, fm);
        }
    }
}

pub proof fn lemma_exec_seq_frame(s: IState, stmts: Seq<StmtM>, fuel: nat, fm: FloatModel)
    requires
        s.env.len() >= 1,
    ensures
        frame_kept(s, exec_seq(s, stmts, fuel, fm)),
    decreases fuel, 2int, stmts.len(),
{
    if stmts.len() > 0 {
        lemma_exec_frame(s, stmts[0], fuel, fm);
        let (s1, r) = exec(s, stmts[0], fuel, fm);
        if r == Ok::<SignalM, RuntimeErrorM>(SignalM::Continue) {
            lemma_exec_seq_frame(s1, stmts.drop_first(), fuel, fm);
        }
    }
}

/// A block that completes, normally or by `return`, closes exactly the scope
/// it opened.
pub proof fn lemma_exec_block_frame(s: IState, stmts: Seq<StmtM>, fuel: nat, fm: FloatModel)
    requires
        s.env.len() >= 1,
    ensures
        frame_kept(s, exec_block(s, stmts, fuel, fm)),
    decreases fuel, 3int, 0int,
{
    lemma_exec_seq_frame(with_env(s, env_push(s.env)), stmts, fuel, fm);
}

pub proof fn lemma_during_loop_frame(s: IState, cond: ExprM, body: Seq<StmtM>, fuel: nat, fm: FloatModel)
    requires
        s.env.len() >= 1,
    ensures
        frame_kept(s, during_loop(s, cond, body, fuel, fm)),
    decreases fuel, 0int, 0int,
{
    if fuel > 0 {
        let f = (fuel - 1) as nat;
        lemma_eval_frame(s, cond, f, fm);
        let (s1, r) = eval(s, cond, f, fm);
        if r is Ok && truthy(r->Ok_0, fm) {
            lemma_exec_block_frame(s1, body, f, fm);
            let (s2, r2) = exec_block(s1, body, f, fm);
            if r2 == Ok::<SignalM, RuntimeErrorM>(SignalM::Continue) {
                lemma_during_loop_frame(s2, cond, body, f, fm);
            }
        }
    }
}

/// A `for` loop runs in a scope of its own, which it closes when it
/// completes.
pub proof fn lemma_for_loop_frame(
    s: IState,
    cond: Option<ExprM>,
    update: Option<Box<ExprM>>,
    body: Seq<StmtM>,
    fuel: nat,
    fm: FloatModel,
)
    requires
        s.env.len() >= 2,
    ensures
        out_extends(s, for_loop(s, cond, update, body, fuel, fm).0),
        for_loop(s, cond, update, body, fuel, fm).0.env.len() >= 1,
        for_loop(s, cond, update, body, fuel, fm).1 is Ok ==> for_loop(s, cond, update, body, fuel, fm).0.env.len()
            == s.env.len() - 1,
    decreases fuel, 0int, 0int,
{
    if fuel > 0 {
        let f = (fuel - 1) as nat;
        match cond {
            Some(c) => {
                lemma_eval_frame(s, c, f, fm);
            },
            None => {},
        }
        let (s1, r) = match cond {
            Some(c) => {
                let (s1, r) = eval(s, c, f, fm);
                match r {
                    Err(err) => (s1, Err(err)),
                    Ok(v) => (s1, Ok(truthy(v, fm))),
                }
            },
            None => (s, Ok(true)),
        };
        if r == Ok::<bool, RuntimeErrorM>(true) {
            lemma_exec_block_frame(s1, body, f, fm);
            let (s2, r2) = exec_block(s1, body, f, fm);
            if r2 == Ok::<SignalM, RuntimeErrorM>(SignalM::Continue) {
                match update {
                    Some(u) => {
                        lemma_eval_frame(s2, *u, f, fm);
                        let (s3, r3) = eval(s2, *u, f, fm);
                        if r3 is Ok {
                            lemma_for_loop_frame(s3, cond, update, body, f, fm);
                        }
                    },
                    None => {
                        lemma_for_loop_frame(s2, cond, update, body, f, fm);
                    },
                }
            }
        }
    }
}

/// Running a statement keeps the frame (see [`frame_kept`]).
pub proof fn lemma_exec_frame(s: IState, st: StmtM, fuel: nat, fm: FloatModel)
    requires
        s.env.len() >= 1,
    ensures
        frame_kept(s, exec(s, st, fuel, fm)),
    decreases fuel, 0int, 0int,
{
    if fuel > 0 {
        let f = (fuel - 1) as nat;
        match st {
            StmtM::Make { name, init } => {
                lemma_eval_frame(s, init, f, fm);
                let (s1, r) = eval(s, init, f, fm);
                if r is Ok {
                    crate::env::lemma_lookup_after_declare(s1.env, name, r->Ok_0, name);
                }
            },
            StmtM::Show { args } => {
                lemma_show_text_frame(s, args, f, fm);
            },
            StmtM::Return { value } => match value {
                Some(e) => {
                    lemma_eval_frame(s, e, f, fm);
                },
                None => {},
            },
            StmtM::When { condition, then_body, else_body } => {
                lemma_eval_frame(s, condition, f, fm);
                let (s1, r) = eval(s, condition, f, fm);
                if r is Ok {
                    lemma_exec_block_frame(s1, then_body, f, fm);
                    match else_body {
                        Some(b) => {
                            lemma_exec_block_frame(s1, b, f, fm);
                        },
                        None => {},
                    }
                }
            },
            StmtM::During { condition, body } => {
                lemma_during_loop_frame(s, condition, body, f, fm);
            },
            StmtM::For { init, condition, update, body } => {
                let s0 = with_env(s, env_push(s.env));
                match init {
                    Some(i) => {
                        lemma_exec_frame(s0, *i, f, fm);
                        let (s1, r) = exec(s0, *i, f, fm);
                        if r is Ok {
                            lemma_for_loop_frame(s1, condition, update, body, f, fm);
                        }
                    },
                    None => {
                        lemma_for_loop_frame(s0, condition, update, body, f, fm);
                    },
                }
            },
            StmtM::FuncDef { name, params, body, .. } => {
                crate::env::lemma_lookup_after_declare(s.env, name, ValueM::Func { params, body }, name);
            },
            StmtM::ExprStmt(e) => {
                lemma_eval_frame(s, e, f, fm);
            },
        }
    }
}


/// A program's run keeps the frame: the lines it shows only ever grow, and a
/// run that completes leaves as many scopes as it found (a run from a fresh
/// interpreter ends with only the global scope).
pub proof fn lemma_run_stmts_frame(s: IState, stmts: Seq<StmtM>, fuel: nat, fm: FloatModel)
    requires
        s.env.len() >= 1,
    ensures
        frame_kept(s, run_stmts(s, stmts, fuel, fm)),
    decreases stmts.len(),
{
    if stmts.len() > 0 {
        lemma_exec_frame(s, stmts[0], fuel, fm);
        let (s1, r) = exec(s, stmts[0], fuel, fm);
        if r is Ok {
            lemma_run_stmts_frame(s1, stmts.drop_first(), fuel, fm);
        }
    }
}

/// Read after write: once `make name = init` has run, `name` evaluates to
/// the value that `init` had, and the scopes number as many as before.
pub proof fn lemma_make_then_read(s: IState, name: Seq<char>, init: ExprM, fuel: nat, fuel2: nat, fm: FloatModel)
    requires
        s.env.len() >= 1,
        fuel2 >= 1,
        exec(s, StmtM::Make { name, init }, fuel, fm).1 is Ok,
    ensures
        ({
            let s1 = exec(s, StmtM::Make { name, init }, fuel, fm).0;
            let v = eval(s, init, (fuel - 1) as nat, fm).1->Ok_0;
            &&& eval(s1, ExprM::Identifier(name), fuel2, fm) == (s1, Ok::<ValueM, RuntimeErrorM>(v))
            &&& s1.env.len() == s.env.len()
        }),
{
    let f = (fuel - 1) as nat;
    lemma_eval_frame(s, init, f, fm);
    let (s1, r) = eval(s, init, f, fm);
    crate::env::lemma_lookup_after_declare(s1.env, name, r->Ok_0, name);
}

/// Read after write for assignment: `name = value` that succeeds gives the
/// value, and afterwards `name` evaluates to it.
pub proof fn lemma_assign_then_read(s: IState, name: Seq<char>, value: ExprM, fuel: nat, fuel2: nat, fm: FloatModel)
    requires
        s.env.len() >= 1,
        fuel2 >= 1,
        eval(s, ExprM::Assignment { name, value: Box::new(value) }, fuel, fm).1 is Ok,
    ensures
        ({
            let (s1, r) = eval(s, ExprM::Assignment { name, value: Box::new(value) }, fuel, fm);
            &&& r == eval(s, value, (fuel - 1) as nat, fm).1
            &&& eval(s1, ExprM::Identifier(name), fuel2, fm) == (s1, r)
        }),
{
    let f = (fuel - 1) as nat;
    lemma_eval_frame(s, value, f, fm);
    let (s1, r) = eval(s, value, f, fm);
    crate::env::lemma_assign_then_lookup(s1.env, name, r->Ok_0);
}

/// Assigning to a name that no scope has fails with the message that asks
/// for `make`, and changes nothing but what evaluating the value changed.
pub proof fn lemma_assign_undeclared(s: IState, name: Seq<char>, value: ExprM, fuel: nat, fm: FloatModel)
    requires
        fuel >= 1,
        eval(s, value, (fuel - 1) as nat, fm).1 is Ok,
        env_lookup(eval(s, value, (fuel - 1) as nat, fm).0.env, name) is None,
    ensures
        eval(s, ExprM::Assignment { name, value: Box::new(value) }, fuel, fm) == (
            eval(s, value, (fuel - 1) as nat, fm).0,
            Err::<ValueM, RuntimeErrorM>(msg(not_declared_message(name))),
        ),
{
    let (s1, r) = eval(s, value, (fuel - 1) as nat, fm);
    crate::env::lemma_assign_then_lookup(s1.env, name, r->Ok_0);
}


/// `b` has the scopes of `a`, each binding the same names (values may differ).
pub open spec fn same_names(a: EnvM, b: EnvM) -> bool {
    a.len() == b.len() && forall|i: int| 0 <= i < a.len() ==> #[trigger] b[i].dom() == a[i].dom()
}

/// `b` has the scopes of `a`; the outer ones bind the same names, and the
/// innermost binds at least the names it bound.
pub open spec fn grows_inner(a: EnvM, b: EnvM) -> bool {
    &&& a.len() == b.len()
    &&& a.len() >= 1
    &&& forall|i: int| 0 <= i < a.len() - 1 ==> #[trigger] b[i].dom() == a[i].dom()
    &&& a.last().dom().subset_of(b.last().dom())
}

proof fn lemma_same_names_pop(a: EnvM, b: EnvM)
    requires
        same_names(a, b),
        a.len() >= 2,
    ensures
        same_names(env_pop(a), env_pop(b)),
{
    assert forall|i: int| 0 <= i < env_pop(a).len() implies #[trigger] env_pop(b)[i].dom() == env_pop(a)[i].dom() by {
        assert(b[i].dom() == a[i].dom());
    }
}

proof fn lemma_grown_block_closes(a: EnvM, b: EnvM)
    requires
        a.len() >= 1,
        grows_inner(env_push(a), b),
    ensures
        same_names(a, env_pop(b)),
{
    assert forall|i: int| 0 <= i < a.len() implies #[trigger] env_pop(b)[i].dom() == a[i].dom() by {
        assert(b[i].dom() == env_push(a)[i].dom());
    }
}

proof fn lemma_assign_same_names(env: EnvM, name: Seq<char>, v: ValueM)
    requires
        env_assign(env, name, v) is Some,
    ensures
        same_names(env, env_assign(env, name, v)->Some_0),
    decreases env.len(),
{
    let e = env_assign(env, name, v)->Some_0;
    if env.last().contains_key(name) {
        assert(env.last().insert(name, v).dom() =~= env.last().dom());
        assert forall|i: int| 0 <= i < env.len() implies #[trigger] e[i].dom() == env[i].dom() by {
            if i < env.len() - 1 {
                assert(e[i] == env[i]);
            }
        }
    } else {
        lemma_assign_same_names(env.drop_last(), name, v);
        let t = env_assign(env.drop_last(), name, v)->Some_0;
        assert forall|i: int| 0 <= i < env.len() implies #[trigger] e[i].dom() == env[i].dom() by {
            if i < env.len() - 1 {
                assert(e[i] == t[i]);
                assert(t[i].dom() == env.drop_last()[i].dom());
            }
        }
    }
}

proof fn lemma_define_grows(env: EnvM, name: Seq<char>, v: ValueM)
    requires
        env.len() >= 1,
    ensures
        grows_inner(env, env_define(env, name, v)),
{
    let e = env_define(env, name, v);
    assert forall|i: int| 0 <= i < env.len() - 1 implies #[trigger] e[i].dom() == env[i].dom() by {
        assert(e[i] == env[i]);
    }
}

proof fn lemma_declare_grows(env: EnvM, name: Seq<char>, v: ValueM)
    requires
        env.len() >= 1,
    ensures
        grows_inner(env, env_declare(env, name, v)),
{
    if env_assign(env, name, v) is Some {
        lemma_assign_same_names(env, name, v);
        let e = env_assign(env, name, v)->Some_0;
        assert(e.last().dom() == env.last().dom()) by {
            assert(e[env.len() - 1].dom() == env[env.len() - 1].dom());
        }
    } else {
        lemma_define_grows(env, name, v);
    }
}

proof fn lemma_bind_params_grows(env: EnvM, params: Seq<Seq<char>>, vals: Seq<ValueM>)
    requires
        env.len() >= 1,
    ensures
        grows_inner(env, bind_params(env, params, vals)),
    decreases params.len(),
{
    if params.len() > 0 && vals.len() > 0 {
        lemma_bind_params_grows(env, params.drop_last(), vals.drop_last());
        let b = bind_params(env, params.drop_last(), vals.drop_last());
        lemma_define_grows(b, params.last(), vals.last());
    }
}

proof fn lemma_eval_names(s: IState, e: ExprM, fuel: nat, fm: FloatModel)
    ensures
        eval(s, e, fuel, fm).1 is Ok ==> same_names(s.env, eval(s, e, fuel, fm).0.env),
    decreases fuel, 0int, 0int,
{
    if fuel > 0 {
        let f = (fuel - 1) as nat;
        match e {
            ExprM::Assignment { name, value } => {
                lemma_eval_names(s, *value, f, fm);
                let (s1, r) = eval(s, *value, f, fm);
                if r is Ok && env_assign(s1.env, name, r->Ok_0) is Some {
                    lemma_assign_same_names(s1.env, name, r->Ok_0);
                }
            },
            ExprM::BinaryOp { left, op, right } => {
                lemma_eval_names(s, *left, f, fm);
                let (s1, r1) = eval(s, *left, f, fm);
                if r1 is Ok {
                    lemma_eval_names(s1, *right, f, fm);
                }
            },
            ExprM::UnaryOp { op, operand } => {
                lemma_eval_names(s, *operand, f, fm);
            },
            ExprM::Grouped(inner) => {
                lemma_eval_names(s, *inner, f, fm);
            },
            ExprM::Call { callee, args } => {
                lemma_call_names(s, callee, args, f, fm);
            },
            _ => {},
        }
    }
}

proof fn lemma_eval_args_names(s: IState, es: Seq<ExprM>, fuel: nat, fm: FloatModel)
    ensures
        eval_args(s, es, fuel, fm).1 is Ok ==> same_names(s.env, eval_args(s, es, fuel, fm).0.env),
    decreases fuel, 1int, es.len(),
{
    if es.len() > 0 {
        lemma_eval_args_names(s, es.drop_last(), fuel, fm);
        let (s1, r) = eval_args(s, es.drop_last(), fuel, fm);
        if r is Ok {
            lemma_eval_names(s1, es.last(), fuel, fm);
        }
    }
}

/// A call that completes binds no new names in the caller's scopes.
pub proof fn lemma_call_names(s: IState, callee: Seq<char>, args: Seq<ExprM>, fuel: nat, fm: FloatModel)
    ensures
        call(s, callee, args, fuel, fm).1 is Ok ==> same_names(s.env, call(s, callee, args, fuel, fm).0.env),
    decreases fuel, 5int, 0int,
{
    match env_lookup(s.env, callee) {
        Some(ValueM::Func { params, body }) => {
            if args.len() == params.len() {
                lemma_eval_args_names(s, args, fuel, fm);
                let (s1, r) = eval_args(s, args, fuel, fm);
                if r is Ok {
                    let s2 = with_env(s1, bind_params(env_push(s1.env), params, r->Ok_0));
                    lemma_bind_params_grows(env_push(s1.env), params, r->Ok_0);
                    lemma_exec_block_names(s2, body, fuel, fm);
                    let (s3, r3) = exec_block(s2, body, fuel, fm);
                    if r3 is Ok {
                        assert(grows_inner(env_push(s1.env), s3.env)) by {
                            assert forall|i: int| 0 <= i < env_push(s1.env).len() - 1 implies #[trigger] s3.env[i].dom()
                                == env_push(s1.env)[i].dom() by {
                                assert(s3.env[i].dom() == s2.env[i].dom());
                            }
                            assert(s3.env[s3.env.len() - 1].dom() == s2.env[s2.env.len() - 1].dom());
                        }
                        lemma_grown_block_closes(s1.env, s3.env);
                    }
                }
            }
        },
        _ => {},
    }
}

proof fn lemma_show_text_names(s: IState, es: Seq<ExprM>, fuel: nat, fm: FloatModel)
    ensures
        show_text(s, es, fuel, fm).1 is Ok ==> same_names(s.env, show_text(s, es, fuel, fm).0.env),
    decreases fuel, 1int, es.len(),
{
    if es.len() > 0 {
        lemma_show_text_names(s, es.drop_last(), fuel, fm);
        let (s1, r) = show_text(s, es.drop_last(), fuel, fm);
        if r is Ok {
            lemma_eval_names(s1, es.last(), fuel, fm);
        }
    }
}

proof fn lemma_exec_seq_names(s: IState, stmts: Seq<StmtM>, fuel: nat, fm: FloatModel)
    requires
        s.env.len() >= 1,
    ensures
        exec_seq(s, stmts, fuel, fm).1 is Ok ==> grows_inner(s.env, exec_seq(s, stmts, fuel, fm).0.env),
    decreases fuel, 2int, stmts.len(),
{
    if stmts.len() > 0 {
        lemma_exec_names(s, stmts[0], fuel, fm);
        let (s1, r) = exec(s, stmts[0], fuel, fm);
        if r == Ok::<SignalM, RuntimeErrorM>(SignalM::Continue) {
            lemma_exec_seq_names(s1, stmts.drop_first(), fuel, fm);
        }
    }
}

/// A block that completes binds no new names: the names each scope binds
/// afterwards are those it bound before, so a name first bound inside the
/// block is gone once it ends.
pub proof fn lemma_exec_block_names(s: IState, stmts: Seq<StmtM>, fuel: nat, fm: FloatModel)
    requires
        s.env.len() >= 1,
    ensures
        exec_block(s, stmts, fuel, fm).1 is Ok ==> same_names(s.env, exec_block(s, stmts, fuel, fm).0.env),
    decreases fuel, 3int, 0int,
{
    lemma_exec_seq_names(with_env(s, env_push(s.env)), stmts, fuel, fm);
    let (s1, r) = exec_seq(with_env(s, env_push(s.env)), stmts, fuel, fm);
    if r is Ok {
        lemma_grown_block_closes(s.env, s1.env);
    }
}

proof fn lemma_during_loop_names(s: IState, cond: ExprM, body: Seq<StmtM>, fuel: nat, fm: FloatModel)
    requires
        s.env.len() >= 1,
    ensures
        during_loop(s, cond, body, fuel, fm).1 is Ok ==> same_names(s.env, during_loop(s, cond, body, fuel, fm).0.env),
    decreases fuel, 0int, 0int,
{
    if fuel > 0 {
        let f = (fuel - 1) as nat;
        lemma_eval_names(s, cond, f, fm);
        let (s1, r) = eval(s, cond, f, fm);
        if r is Ok && truthy(r->Ok_0, fm) {
            lemma_exec_block_names(s1, body, f, fm);
            let (s2, r2) = exec_block(s1, body, f, fm);
            if r2 == Ok::<SignalM, RuntimeErrorM>(SignalM::Continue) {
                lemma_during_loop_names(s2, cond, body, f, fm);
            }
        }
    }
}

proof fn lemma_for_loop_names(
    s: IState,
    cond: Option<ExprM>,
    update: Option<Box<ExprM>>,
    body: Seq<StmtM>,
    fuel: nat,
    fm: FloatModel,
)
    requires
        s.env.len() >= 2,
    ensures
        for_loop(s, cond, update, body, fuel, fm).1 is Ok ==> same_names(
            env_pop(s.env),
            for_loop(s, cond, update, body, fuel, fm).0.env,
        ),
    decreases fuel, 0int, 0int,
{
    if fuel > 0 {
        let f = (fuel - 1) as nat;
        match cond {
            Some(c) => {
                lemma_eval_names(s, c, f, fm);
            },
            None => {},
        }
        let (s1, r) = match cond {
            Some(c) => {
                let (s1, r) = eval(s, c, f, fm);
                match r {
                    Err(err) => (s1, Err(err)),
                    Ok(v) => (s1, Ok(truthy(v, fm))),
                }
            },
            None => (s, Ok(true)),
        };
        if r is Ok {
            lemma_same_names_pop(s.env, s1.env);
            if r == Ok::<bool, RuntimeErrorM>(true) {
                lemma_exec_block_names(s1, body, f, fm);
                let (s2, r2) = exec_block(s1, body, f, fm);
                if r2 is Ok {
                    lemma_same_names_pop(s1.env, s2.env);
                }
                if r2 == Ok::<SignalM, RuntimeErrorM>(SignalM::Continue) {
                    match update {
                        Some(u) => {
                            lemma_eval_names(s2, *u, f, fm);
                            let (s3, r3) = eval(s2, *u, f, fm);
                            if r3 is Ok {
                                lemma_same_names_pop(s2.env, s3.env);
                                lemma_for_loop_names(s3, cond, update, body, f, fm);
                            }
                        },
                        None => {
                            lemma_for_loop_names(s2, cond, update, body, f, fm);
                        },
                    }
                }
            }
        }
    }
}

/// A statement that completes keeps the names of the outer scopes and may
/// only add names to the innermost one (`make` and `func` bind there).
pub proof fn lemma_exec_names(s: IState, st: StmtM, fuel: nat, fm: FloatModel)
    requires
        s.env.len() >= 1,
    ensures
        exec(s, st, fuel, fm).1 is Ok ==> grows_inner(s.env, exec(s, st, fuel, fm).0.env),
    decreases fuel, 0int, 0int,
{
    if fuel > 0 {
        let f = (fuel - 1) as nat;
        match st {
            StmtM::Make { name, init } => {
                lemma_eval_names(s, init, f, fm);
                let (s1, r) = eval(s, init, f, fm);
                if r is Ok {
                    lemma_declare_grows(s1.env, name, r->Ok_0);
                }
            },
            StmtM::Show { args } => {
                lemma_show_text_names(s, args, f, fm);
            },
            StmtM::Return { value } => match value {
                Some(e) => {
                    lemma_eval_names(s, e, f, fm);
                },
                None => {},
            },
            StmtM::When { condition, then_body, else_body } => {
                lemma_eval_names(s, condition, f, fm);
                let (s1, r) = eval(s, condition, f, fm);
                if r is Ok {
                    lemma_exec_block_names(s1, then_body, f, fm);
                    match else_body {
                        Some(b) => {
                            lemma_exec_block_names(s1, b, f, fm);
                        },
                        None => {},
                    }
                }
            },
            StmtM::During { condition, body } => {
                lemma_during_loop_names(s, condition, body, f, fm);
            },
            StmtM::For { init, condition, update, body } => {
                let s0 = with_env(s, env_push(s.env));
                match init {
                    Some(i) => {
                        lemma_exec_names(s0, *i, f, fm);
                        let (s1, r) = exec(s0, *i, f, fm);
                        if r is Ok {
                            lemma_for_loop_names(s1, condition, update, body, f, fm);
                            lemma_grown_block_closes(s.env, s1.env);
                        }
                    },
                    None => {
                        lemma_for_loop_names(s0, condition, update, body, f, fm);
                        assert(env_pop(s0.env) =~= s.env);
                    },
                }
            },
            StmtM::FuncDef { name, params, body, .. } => {
                lemma_declare_grows(s.env, name, ValueM::Func { params, body });
            },
            StmtM::ExprStmt(e) => {
                lemma_eval_names(s, e, f, fm);
            },
        }
    }
}

/// Scopes that bind the same names leave the same names unbound.
pub proof fn lemma_same_names_lookup(a: EnvM, b: EnvM, name: Seq<char>)
    requires
        same_names(a, b),
    ensures
        (env_lookup(a, name) is None) <==> (env_lookup(b, name) is None),
    decreases a.len(),
{
    if a.len() > 0 {
        assert(b.last().dom() == a.last().dom()) by {
            assert(b[a.len() - 1].dom() == a[a.len() - 1].dom());
        }
        assert(b.last().contains_key(name) == a.last().contains_key(name));
        assert(same_names(a.drop_last(), b.drop_last())) by {
            assert forall|i: int| 0 <= i < a.drop_last().len() implies #[trigger] b.drop_last()[i].dom()
                == a.drop_last()[i].dom() by {
                assert(b[i].dom() == a[i].dom());
            }
        }
        lemma_same_names_lookup(a.drop_last(), b.drop_last(), name);
    }
}

/// Block-local names vanish: after a block (or a `for` statement) that
/// completes, a name that no scope bound before is still unbound.
pub proof fn lemma_block_names_vanish(s: IState, stmts: Seq<StmtM>, st: StmtM, fuel: nat, fm: FloatModel, name: Seq<char>)
    requires
        s.env.len() >= 1,
        env_lookup(s.env, name) is None,
    ensures
        exec_block(s, stmts, fuel, fm).1 is Ok ==> env_lookup(exec_block(s, stmts, fuel, fm).0.env, name) is None,
        st is For && exec(s, st, fuel, fm).1 is Ok ==> env_lookup(exec(s, st, fuel, fm).0.env, name) is None,
{
    lemma_exec_block_names(s, stmts, fuel, fm);
    if exec_block(s, stmts, fuel, fm).1 is Ok {
        lemma_same_names_lookup(s.env, exec_block(s, stmts, fuel, fm).0.env, name);
    }
    if st is For && exec(s, st, fuel, fm).1 is Ok {
        lemma_exec_for_names(s, st, fuel, fm);
        lemma_same_names_lookup(s.env, exec(s, st, fuel, fm).0.env, name);
    }
}

proof fn lemma_exec_for_names(s: IState, st: StmtM, fuel: nat, fm: FloatModel)
    requires
        s.env.len() >= 1,
        st is For,
        exec(s, st, fuel, fm).1 is Ok,
    ensures
        same_names(s.env, exec(s, st, fuel, fm).0.env),
{
    let f = (fuel - 1) as nat;
    match st {
        StmtM::For { init, condition, update, body } => {
            let s0 = with_env(s, env_push(s.env));
            match init {
                Some(i) => {
                    lemma_exec_names(s0, *i, f, fm);
                    let (s1, r) = exec(s0, *i, f, fm);
                    lemma_for_loop_names(s1, condition, update, body, f, fm);
                    lemma_grown_block_closes(s.env, s1.env);
                },
                None => {
                    lemma_for_loop_names(s0, condition, update, body, f, fm);
                    assert(env_pop(s0.env) =~= s.env);
                },
            }
        },
        _ => {},
    }
}

} // verus!
