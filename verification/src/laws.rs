//! What the language's operations mean, stated in terms of their inputs:
//! comparison tokens denote the comparisons of the integers, string
//! equality is equality of characters, a call binds each parameter to its
//! own argument and yields what the body returned, and a `return` inside a
//! loop ends the loop with its value.
use vstd::prelude::*;

use crate::ast::{BinOp, ExprM, StmtM};
use crate::env::{env_define, env_lookup, env_push, EnvM};
use crate::parser_spec::{
    advance, binary, binop_equality, p_additive, p_additive_rest, p_assignment, p_equality,
    p_equality_rest, p_expr, p_multiplicative, p_multiplicative_rest, p_primary, p_unary,
    ParseErrorM, PState,
};
use crate::semantics::{
    apply_binop, bind_params, call, during_loop, eval, eval_args, exec, exec_block, exec_seq,
    for_loop,
    lemma_bind_params_len,
    values_equal, with_env, IState, RuntimeErrorM, SignalM,
};
use crate::token::{TokenKindM, TokenKindOf};
use crate::value::{truthy, FloatModel, ValueM};

verus! {

/// The comparison that a comparison token stands for, on two integers.
pub open spec fn token_comparison(k: TokenKindM, a: int, b: int) -> bool {
    match k {
        TokenKindOf::Less => a < b,
        TokenKindOf::LessEqual => a <= b,
        TokenKindOf::Greater => a > b,
        TokenKindOf::GreaterEqual => a >= b,
        TokenKindOf::DoubleEqual => a == b,
        _ => a != b,
    }
}

/// `<`, `<=`, `>`, `>=`, `==` and `!=` mean the comparisons of the integers:
/// the operator that each token parses to gives, on two integers, `true`
/// exactly when that comparison holds (so `3 > 3` is `false`, `3 >= 3` is
/// `true`), and the six tokens parse to six different operators.
pub proof fn lemma_comparison_tokens_compare(k: TokenKindM, a: i64, b: i64, fm: FloatModel)
    requires
        binop_equality(k) is Some,
    ensures
        apply_binop(ValueM::Integer(a), binop_equality(k)->0, ValueM::Integer(b), fm)
            == Ok::<ValueM, RuntimeErrorM>(ValueM::Bool(token_comparison(k, a as int, b as int))),
        forall|k2: TokenKindM| #[trigger] binop_equality(k2) == binop_equality(k) ==> k2 == k,
{
}

/// A comparison of two integer literals parses to the operator of its token
/// between the two literals.
pub proof fn lemma_comparison_parses(s: PState, a: i64, k: TokenKindM, b: i64)
    requires
        binop_equality(k) is Some,
        0 <= s.cur,
        s.cur + 3 == s.toks.len(),
        s.toks[s.cur].kind == TokenKindOf::<Seq<char>>::Integer(a),
        s.toks[s.cur + 1].kind == k,
        s.toks[s.cur + 2].kind == TokenKindOf::<Seq<char>>::Integer(b),
    ensures
        p_expr(s) matches Ok((e, _)) && e == binary(
            ExprM::Integer(a),
            binop_equality(k)->0,
            ExprM::Integer(b),
        ),
{
    let op = binop_equality(k)->0;
    let ea = ExprM::Integer(a);
    let eb = ExprM::Integer(b);
    let s1 = advance(s);
    let s2 = advance(s1);
    let s3 = advance(s2);
    assert(s1.toks[s.cur + 1] == s.toks[s.cur + 1]);
    assert(s2.toks[s.cur + 2] == s.toks[s.cur + 2]);
    assert(p_primary(s) == Ok::<(ExprM, PState), ParseErrorM>((ea, s1)));
    assert(p_unary(s) == Ok::<(ExprM, PState), ParseErrorM>((ea, s1)));
    assert(p_multiplicative_rest(ea, s1) == Ok::<(ExprM, PState), ParseErrorM>((ea, s1)));
    assert(p_multiplicative(s) == Ok::<(ExprM, PState), ParseErrorM>((ea, s1)));
    assert(p_additive_rest(ea, s1) == Ok::<(ExprM, PState), ParseErrorM>((ea, s1)));
    assert(p_additive(s) == Ok::<(ExprM, PState), ParseErrorM>((ea, s1)));
    assert(p_primary(s2) == Ok::<(ExprM, PState), ParseErrorM>((eb, s3)));
    assert(p_unary(s2) == Ok::<(ExprM, PState), ParseErrorM>((eb, s3)));
    assert(p_multiplicative_rest(eb, s3) == Ok::<(ExprM, PState), ParseErrorM>((eb, s3)));
    assert(p_multiplicative(s2) == Ok::<(ExprM, PState), ParseErrorM>((eb, s3)));
    assert(p_additive_rest(eb, s3) == Ok::<(ExprM, PState), ParseErrorM>((eb, s3)));
    assert(p_additive(s2) == Ok::<(ExprM, PState), ParseErrorM>((eb, s3)));
    let e = binary(ea, op, eb);
    assert(p_equality_rest(e, s3) == Ok::<(ExprM, PState), ParseErrorM>((e, s3)));
    assert(p_equality_rest(ea, s1) == Ok::<(ExprM, PState), ParseErrorM>((e, s3)));
    assert(p_equality(s) == Ok::<(ExprM, PState), ParseErrorM>((e, s3)));
    assert(p_assignment(s) == Ok::<(ExprM, PState), ParseErrorM>((e, s3)));
}

/// String values are equal exactly when they hold the same characters, and
/// `==` and `!=` on strings say so.
pub proof fn lemma_string_equality(a: Seq<char>, b: Seq<char>, fm: FloatModel)
    ensures
        values_equal(ValueM::Str(a), ValueM::Str(b), fm) <==> a =~= b,
        apply_binop(ValueM::Str(a), BinOp::Eq, ValueM::Str(b), fm) == Ok::<ValueM, RuntimeErrorM>(
            ValueM::Bool(a =~= b),
        ),
        apply_binop(ValueM::Str(a), BinOp::NotEq, ValueM::Str(b), fm) == Ok::<ValueM, RuntimeErrorM>(
            ValueM::Bool(!(a =~= b)),
        ),
{
}

/// The value of the `k`-th argument: the `k`-th expression, evaluated in the
/// state that the arguments before it left.
pub open spec fn arg_value(s: IState, es: Seq<ExprM>, k: int, fuel: nat, fm: FloatModel) -> Result<ValueM, RuntimeErrorM> {
    eval(eval_args(s, es.take(k), fuel, fm).0, es[k], fuel, fm).1
}

/// Arguments are evaluated from first to last, and the `k`-th value is the
/// value of the `k`-th argument.
pub proof fn lemma_eval_args_in_order(s: IState, es: Seq<ExprM>, fuel: nat, fm: FloatModel)
    ensures
        eval_args(s, es, fuel, fm).1 is Ok ==> {
            let vs = eval_args(s, es, fuel, fm).1->Ok_0;
            &&& vs.len() == es.len()
            &&& forall|k: int| 0 <= k < es.len() ==> #[trigger] arg_value(s, es, k, fuel, fm) == Ok::<ValueM, RuntimeErrorM>(vs[k])
        },
    decreases es.len(),
{
    if es.len() > 0 {
        let t = es.drop_last();
        lemma_eval_args_in_order(s, t, fuel, fm);
        if eval_args(s, es, fuel, fm).1 is Ok {
            let vs = eval_args(s, es, fuel, fm).1->Ok_0;
            let ws = eval_args(s, t, fuel, fm).1->Ok_0;
            assert forall|k: int| 0 <= k < es.len() implies #[trigger] arg_value(s, es, k, fuel, fm)
                == Ok::<ValueM, RuntimeErrorM>(vs[k]) by {
                if k < es.len() - 1 {
                    assert(t.take(k) =~= es.take(k));
                    assert(t[k] == es[k]);
                    assert(arg_value(s, t, k, fuel, fm) == Ok::<ValueM, RuntimeErrorM>(ws[k]));
                } else {
                    assert(es.take(k) =~= t);
                }
            }
        }
    }
}

/// Binding one name leaves every other name as it was.
proof fn lemma_define_other(env: EnvM, name: Seq<char>, v: ValueM, other: Seq<char>)
    requires
        env.len() >= 1,
        other != name,
    ensures
        env_lookup(env_define(env, name, v), other) == env_lookup(env, other),
{
    let e = env_define(env, name, v);
    assert(e.drop_last() =~= env.drop_last());
}

/// Binding parameters binds the `k`-th parameter to the `k`-th value, when
/// the parameters are distinct names.
pub proof fn lemma_bind_params_binds(env: EnvM, params: Seq<Seq<char>>, vals: Seq<ValueM>)
    requires
        env.len() >= 1,
        params.len() == vals.len(),
        forall|i: int, j: int| 0 <= i < j < params.len() ==> params[i] != params[j],
    ensures
        forall|k: int| 0 <= k < params.len() ==> env_lookup(bind_params(env, params, vals), #[trigger] params[k]) == Some(vals[k]),
    decreases params.len(),
{
    if params.len() > 0 {
        let ps = params.drop_last();
        let vs = vals.drop_last();
        lemma_bind_params_binds(env, ps, vs);
        lemma_bind_params_len(env, ps, vs);
        let b = bind_params(env, ps, vs);
        let n = params.len() - 1;
        assert forall|k: int| 0 <= k < params.len() implies env_lookup(bind_params(env, params, vals), #[trigger] params[k]) == Some(vals[k]) by {
            if k < n {
                assert(ps[k] == params[k]);
                assert(params[k] != params[n]);
                lemma_define_other(b, params[n], vals[n], params[k]);
            } else {
                let e = env_define(b, params[n], vals[n]);
                assert(e.last().contains_key(params[n]));
            }
        }
    }
}

/// A call `f(e0, ..., en)` of a function with distinct parameters runs its
/// body in a new scope where the `k`-th parameter has the value of `ek`, and
/// when the body returns a value, that value is the value of the call.
pub proof fn lemma_call_binds_arguments(s: IState, callee: Seq<char>, args: Seq<ExprM>, fuel: nat, fm: FloatModel)
    requires
        s.env.len() >= 1,
        env_lookup(s.env, callee) matches Some(ValueM::Func { params, body }) && params.len() == args.len()
            && forall|i: int, j: int| 0 <= i < j < params.len() ==> params[i] != params[j],
        eval_args(s, args, fuel, fm).1 is Ok,
    ensures
        ({
            let f = env_lookup(s.env, callee)->Some_0;
            let (s1, r) = eval_args(s, args, fuel, fm);
            let s2 = with_env(s1, bind_params(env_push(s1.env), f->params, r->Ok_0));
            &&& forall|k: int| 0 <= k < args.len() ==> Some(#[trigger] arg_value(s, args, k, fuel, fm)->Ok_0)
                == env_lookup(s2.env, f->params[k])
            &&& forall|v: ValueM| exec_block(s2, f->body, fuel, fm).1 == Ok::<SignalM, RuntimeErrorM>(SignalM::Return(v))
                ==> #[trigger] call(s, callee, args, fuel, fm).1 == Ok::<ValueM, RuntimeErrorM>(v)
        }),
{
    let f = env_lookup(s.env, callee)->Some_0;
    let (s1, r) = eval_args(s, args, fuel, fm);
    lemma_eval_args_in_order(s, args, fuel, fm);
    lemma_bind_params_binds(env_push(s1.env), f->params, r->Ok_0);
    let s2 = with_env(s1, bind_params(env_push(s1.env), f->params, r->Ok_0));
    assert forall|k: int| 0 <= k < args.len() implies Some(#[trigger] arg_value(s, args, k, fuel, fm)->Ok_0)
        == env_lookup(s2.env, f->params[k]) by {
        assert(env_lookup(s2.env, f->params[k]) == Some((r->Ok_0)[k]));
    }
}

/// A `return` inside a `while` loop ends the loop with that `return`'s value:
/// when the condition holds and the body returns `v`, the loop returns `v`.
pub proof fn lemma_return_ends_while(s: IState, cond: ExprM, body: Seq<StmtM>, fuel: nat, fm: FloatModel, v: ValueM)
    requires
        fuel >= 2,
        eval(s, cond, (fuel - 2) as nat, fm).1 is Ok,
        truthy(eval(s, cond, (fuel - 2) as nat, fm).1->Ok_0, fm),
        exec_block(eval(s, cond, (fuel - 2) as nat, fm).0, body, (fuel - 2) as nat, fm).1
            == Ok::<SignalM, RuntimeErrorM>(SignalM::Return(v)),
    ensures
        exec(s, StmtM::During { condition: cond, body }, fuel, fm) == (
            exec_block(eval(s, cond, (fuel - 2) as nat, fm).0, body, (fuel - 2) as nat, fm).0,
            Ok::<SignalM, RuntimeErrorM>(SignalM::Return(v)),
        ),
{
    let f = (fuel - 1) as nat;
    assert(exec(s, StmtM::During { condition: cond, body }, fuel, fm) == during_loop(s, cond, body, f, fm));
}


/// A `return` among a block's statements ends the block with its value:
/// when the first statement returns `v`, so does the block.
pub proof fn lemma_return_ends_block(s: IState, stmts: Seq<StmtM>, fuel: nat, fm: FloatModel, v: ValueM)
    requires
        stmts.len() > 0,
        exec(with_env(s, env_push(s.env)), stmts[0], fuel, fm).1 == Ok::<SignalM, RuntimeErrorM>(
            SignalM::Return(v),
        ),
    ensures
        exec_block(s, stmts, fuel, fm).1 == Ok::<SignalM, RuntimeErrorM>(SignalM::Return(v)),
{
    assert(exec_seq(with_env(s, env_push(s.env)), stmts, fuel, fm).1 == Ok::<SignalM, RuntimeErrorM>(
        SignalM::Return(v),
    ));
}

/// A `return` inside a `for` loop ends the loop with that `return`'s value:
/// in `for (;;) { ... }`, a body that returns `v` makes the loop return `v`.
pub proof fn lemma_return_ends_for(
    s: IState,
    update: Option<Box<ExprM>>,
    body: Seq<StmtM>,
    fuel: nat,
    fm: FloatModel,
    v: ValueM,
)
    requires
        fuel >= 2,
        exec_block(with_env(s, env_push(s.env)), body, (fuel - 2) as nat, fm).1 == Ok::<
            SignalM,
            RuntimeErrorM,
        >(SignalM::Return(v)),
    ensures
        exec(s, StmtM::For { init: None, condition: None, update, body }, fuel, fm).1 == Ok::<
            SignalM,
            RuntimeErrorM,
        >(SignalM::Return(v)),
{
    let s0 = with_env(s, env_push(s.env));
    assert(exec(s, StmtM::For { init: None, condition: None, update, body }, fuel, fm) == for_loop(
        s0,
        None,
        update,
        body,
        (fuel - 1) as nat,
        fm,
    ));
}

} // verus!
