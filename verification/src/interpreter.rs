//! The interpreter: runs a program's statements, holding its variables.
use vstd::prelude::*;

mod equality;
mod ops;

use crate::ast::{
    copy_stmts, copy_strings, exprs_m, stmts_m, strings_m, Expr, ExprM, Program, Stmt, StmtM,
};
use equality::{opt_boxed_expr_m, opt_expr_m};
use crate::env::{env_lookup, env_pop, env_push, Env, EnvM};
use crate::semantics::{
    call, eval, eval_args, exec, exec_block, exec_seq, for_loop, during_loop, msg, run_stmts,
    show_text, with_env, IState, RuntimeErrorM, RuntimeErrorOf, SignalM, bind_params,
    lemma_eval_args_prefix_err, lemma_show_text_prefix_err, lemma_run_stmts_frame,
};
use crate::text::{append_str, string_of, usize_to_string};
use crate::value::{
    Port, agrees, lemma_agrees_extends, log_extends, obs_holds, FloatModel, Host, Value, ValueM,
};

verus! {

/// Why a run stopped early (see [`RuntimeErrorOf`]).
pub type RuntimeError = RuntimeErrorOf<String>;

impl View for RuntimeErrorOf<String> {
    type V = RuntimeErrorM;

    open spec fn view(&self) -> RuntimeErrorM {
        match self {
            RuntimeErrorOf::Message(m) => RuntimeErrorOf::Message(m@),
            RuntimeErrorOf::Overflow(m) => RuntimeErrorOf::Overflow(m@),
            RuntimeErrorOf::OutOfFuel => RuntimeErrorOf::OutOfFuel,
        }
    }
}

broadcast use crate::value::lemma_agrees_extends;

pub open spec fn value_res(r: Result<Value, RuntimeError>) -> Result<ValueM, RuntimeErrorM> {
    match r {
        Ok(v) => Ok(v@),
        Err(e) => Err(e@),
    }
}

/// How a statement ended.
pub enum Signal {
    Continue,
    Return(Value),
}

impl View for Signal {
    type V = SignalM;

    open spec fn view(&self) -> SignalM {
        match self {
            Signal::Continue => SignalM::Continue,
            Signal::Return(v) => SignalM::Return(v@),
        }
    }
}

pub open spec fn signal_res(r: Result<Signal, RuntimeError>) -> Result<SignalM, RuntimeErrorM> {
    match r {
        Ok(s) => Ok(s@),
        Err(e) => Err(e@),
    }
}

pub open spec fn values_m(v: Seq<Value>) -> Seq<ValueM> {
    v.map_values(|x: Value| x@)
}


/// A message made of `before`, a name, and `after`.
fn quoted_message(before: &str, name: &String, after: &str) -> (e: RuntimeError)
    ensures
        e@ == msg(before@ + name@ + after@),
{
    let mut m = string_of(before);
    append_str(&mut m, name.as_str());
    append_str(&mut m, after);
    RuntimeErrorOf::Message(m)
}

pub open spec fn unit_res(r: Result<(), RuntimeError>) -> Result<(), RuntimeErrorM> {
    match r {
        Ok(_) => Ok(()),
        Err(e) => Err(e@),
    }
}

/// The fuel a run starts with: enough that no real run uses it up.
pub const RUN_FUEL: u64 = 0xFFFF_FFFF_FFFF_FFFF;

/// Runs programs: holds their variables between statements.
pub struct Interpreter {
    env: Env,
}

impl Interpreter {
    /// The scopes, with `shown` as the lines shown so far.
    pub closed spec fn state(&self, shown: Seq<Seq<char>>) -> IState {
        IState { env: self.env.model(), out: shown }
    }

    /// The scopes, innermost last.
    pub closed spec fn scopes(&self) -> EnvM {
        self.env.model()
    }

    pub closed spec fn wf(&self) -> bool {
        self.env.wf()
    }

    /// An interpreter with one empty scope.
    pub fn new() -> (it: Self)
        ensures
            it.wf(),
            it.scopes() == seq![Map::<Seq<char>, ValueM>::empty()],
    {
        Interpreter { env: Env::new() }
    }

    /// Evaluates `e` with `fuel` levels of nesting left (see [`eval`]).
    fn eval<H: Host>(&mut self, e: &Expr, fuel: u64, port: &mut Port<H>) -> (r: Result<Value, RuntimeError>)
        requires
            old(self).wf(),
        ensures
            final(self).wf(),
            log_extends(old(port).answers(), final(port).answers()),
            forall|fm: FloatModel| #[trigger] agrees(fm, final(port).answers()) ==> eval(
                old(self).state(old(port).shown()),
                e@,
                fuel as nat,
                fm,
            ) == (final(self).state(final(port).shown()), value_res(r)),
        decreases fuel, 0int, 0int,
    {
        if fuel == 0 {
            return Err(RuntimeErrorOf::OutOfFuel);
        }
        let f = fuel - 1;
        let ghost s0 = self.state(port.shown());
        match e {
            Expr::Integer(n) => Ok(Value::Integer(*n)),
            Expr::Float(t) => {
                let b = port.from_literal(t.as_str());
                proof {
                    assert forall|fm: FloatModel| #[trigger] agrees(fm, port.answers()) implies eval(s0, e@, fuel as nat, fm)
                        == (self.state(port.shown()), value_res(Ok(Value::Float(b)))) by {
                        assert(obs_holds(fm, port.answers()[port.answers().len() - 1]));
                    }
                }
                Ok(Value::Float(b))
            },
            Expr::StringLit(t) => Ok(Value::Str(t.clone())),
            Expr::Boolean(b) => Ok(Value::Bool(*b)),
            Expr::Nil => Ok(Value::Nil),
            Expr::Identifier(name) => match self.env.get(name) {
                Some(v) => Ok(v),
                None => Err(quoted_message("undefined variable '", name, "'")),
            },
            Expr::Assignment { name, value } => {
                let v = match self.eval(value, f, port) {
                    Ok(v) => v,
                    Err(err) => {
                        return Err(err);
                    },
                };
                if self.env.assign(name, v.copy()) {
                    Ok(v)
                } else {
                    Err(quoted_message("'", name, "' is not declared — use `make` first"))
                }
            },
            Expr::BinaryOp { left, op, right } => {
                let lv = match self.eval(left, f, port) {
                    Ok(v) => v,
                    Err(err) => {
                        return Err(err);
                    },
                };
                let ghost log1 = port.answers();
                let rv = match self.eval(right, f, port) {
                    Ok(v) => v,
                    Err(err) => {
                        return Err(err);
                    },
                };
                let ghost log2 = port.answers();
                self.binop(&lv, *op, &rv, port)
            },
            Expr::UnaryOp { op, operand } => {
                let v = match self.eval(operand, f, port) {
                    Ok(v) => v,
                    Err(err) => {
                        return Err(err);
                    },
                };
                self.unop(*op, &v, port)
            },
            Expr::Grouped(inner) => self.eval(inner, f, port),
            Expr::Call { callee, args } => self.call_function(callee, args, f, port),
        }
    }

    /// Calls the function named `callee` with `args` (see [`call`]).
    fn call_function<H: Host>(&mut self, callee: &String, args: &Vec<Expr>, fuel: u64, port: &mut Port<H>) -> (r: Result<Value, RuntimeError>)
        requires
            old(self).wf(),
        ensures
            final(self).wf(),
            log_extends(old(port).answers(), final(port).answers()),
            forall|fm: FloatModel| #[trigger] agrees(fm, final(port).answers()) ==> call(
                old(self).state(old(port).shown()),
                callee@,
                exprs_m(args@),
                fuel as nat,
                fm,
            ) == (final(self).state(final(port).shown()), value_res(r)),
        decreases fuel, 5int, 0int,
    {
        let ghost s0 = self.state(port.shown());
        let ghost log0 = port.answers();
        let func = match self.env.get(callee) {
            Some(v) => v,
            None => {
                return Err(quoted_message("undefined function '", callee, "'"));
            },
        };
        let (params, body) = match func {
            Value::Func { params, body } => (params, body),
            _ => {
                return Err(quoted_message("'", callee, "' is not a function"));
            },
        };
        if args.len() != params.len() {
            let mut m = string_of("'");
            append_str(&mut m, callee.as_str());
            append_str(&mut m, "' expects ");
            let expected = usize_to_string(params.len());
            append_str(&mut m, expected.as_str());
            append_str(&mut m, " arg(s), got ");
            let got = usize_to_string(args.len());
            append_str(&mut m, got.as_str());
            proof {
                crate::ast::lemma_exprs_m(args@);
                assert(strings_m(params@).len() == params@.len());
            }
            return Err(RuntimeErrorOf::Message(m));
        }
        let ghost am = exprs_m(args@);
        let ghost pm = strings_m(params@);
        let ghost bm = stmts_m(body@);
        proof {
            crate::ast::lemma_exprs_m(args@);
            assert(am.take(0) =~= Seq::<ExprM>::empty());
            assert(values_m(Seq::<Value>::empty()) =~= Seq::<ValueM>::empty());
        }
        let mut vals: Vec<Value> = Vec::new();
        let mut i: usize = 0;
        while i < args.len()
            invariant
                s0 == old(self).state(old(port).shown()),
                log0 == old(port).answers(),
                self.wf(),
                i <= args@.len(),
                am == exprs_m(args@),
                am.len() == args@.len(),
                forall|k: int| 0 <= k < args@.len() ==> #[trigger] am[k] == args@[k]@,
                vals@.len() == i,
                log_extends(log0, port.answers()),
                env_lookup(s0.env, callee@) == Some(ValueM::Func { params: pm, body: bm }),
                pm.len() == args@.len(),
                forall|fm: FloatModel| #[trigger] agrees(fm, port.answers()) ==> eval_args(
                    s0,
                    am.take(i as int),
                    fuel as nat,
                    fm,
                ) == (self.state(port.shown()), Ok::<Seq<ValueM>, RuntimeErrorM>(values_m(vals@))),
            decreases args@.len() - i,
        {
            let ghost sb = self.state(port.shown());
            let ghost lb = port.answers();
            let ghost vb = vals@;
            proof {
                assert(am.take(i + 1).drop_last() =~= am.take(i as int));
                assert(am.take(i + 1).last() == am[i as int]);
            }
            match self.eval(&args[i], fuel, port) {
                Ok(v) => {
                    vals.push(v);
                    proof {
                        assert(values_m(vals@) =~= values_m(vb).push(v@));
                        assert forall|fm: FloatModel| #[trigger] agrees(fm, port.answers()) implies eval_args(
                            s0,
                            am.take(i + 1),
                            fuel as nat,
                            fm,
                        ) == (self.state(port.shown()), Ok::<Seq<ValueM>, RuntimeErrorM>(values_m(vals@))) by {
                            assert(agrees(fm, lb));
                        }
                    }
                },
                Err(err) => {
                    proof {
                        assert forall|fm: FloatModel| #[trigger] agrees(fm, port.answers()) implies call(
                            s0,
                            callee@,
                            am,
                            fuel as nat,
                            fm,
                        ) == (self.state(port.shown()), value_res(Err(err))) by {
                            assert(agrees(fm, lb));
                            assert(eval_args(s0, am.take(i + 1), fuel as nat, fm) == (self.state(port.shown()), Err::<Seq<ValueM>, RuntimeErrorM>(err@)));
                            lemma_eval_args_prefix_err(s0, am, i + 1, fuel as nat, fm);
                        }
                    }
                    return Err(err);
                },
            }
            i += 1;
        }
        proof {
            assert(am.take(i as int) =~= am);
        }
        let ghost s1 = self.state(port.shown());
        let ghost log1 = port.answers();
        self.env.push();
        let mut j: usize = 0;
        proof {
            assert(pm.take(0) =~= Seq::<Seq<char>>::empty());
        }
        while j < params.len()
            invariant
                s0 == old(self).state(old(port).shown()),
                log0 == old(port).answers(),
                self.wf(),
                j <= params@.len(),
                params@.len() == vals@.len(),
                pm == strings_m(params@),
                port.answers() == log1,
                port.shown() == s1.out,
                self.env.model() == bind_params(
                    env_push(s1.env),
                    pm.take(j as int),
                    values_m(vals@).take(j as int),
                ),
            decreases params@.len() - j,
        {
            proof {
                assert(pm.take(j + 1).drop_last() =~= pm.take(j as int));
                assert(values_m(vals@).take(j + 1).drop_last() =~= values_m(vals@).take(j as int));
            }
            self.env.define_current(params[j].clone(), vals[j].copy());
            j += 1;
        }
        proof {
            assert(pm.take(j as int) =~= pm);
            assert(values_m(vals@).take(j as int) =~= values_m(vals@));
        }
        let ghost s2 = self.state(port.shown());
        let ghost log2 = port.answers();
        let sig = match self.exec_block(&body, fuel, port) {
            Ok(sig) => sig,
            Err(err) => {
                proof {
                    assert forall|fm: FloatModel| #[trigger] agrees(fm, port.answers()) implies call(
                        s0,
                        callee@,
                        am,
                        fuel as nat,
                        fm,
                    ) == (self.state(port.shown()), value_res(Err(err))) by {
                        assert(agrees(fm, log2));
                        assert(eval_args(s0, am, fuel as nat, fm) == (s1, Ok::<Seq<ValueM>, RuntimeErrorM>(values_m(vals@))));
                    }
                }
                return Err(err);
            },
        };
        let ghost s3 = self.state(port.shown());
        let ghost log3 = port.answers();
        self.env.pop();
        let v = match sig {
            Signal::Return(v) => v,
            Signal::Continue => Value::Nil,
        };
        proof {
            assert forall|fm: FloatModel| #[trigger] agrees(fm, port.answers()) implies call(
                s0,
                callee@,
                am,
                fuel as nat,
                fm,
            ) == (self.state(port.shown()), value_res(Ok(v))) by {
                assert(agrees(fm, log2));
                assert(eval_args(s0, am, fuel as nat, fm) == (s1, Ok::<Seq<ValueM>, RuntimeErrorM>(values_m(vals@))));
                assert(exec_block(s2, bm, fuel as nat, fm) == (s3, Ok::<SignalM, RuntimeErrorM>(sig@)));
            }
        }
        Ok(v)
    }


    /// Runs `stmts` in a new scope (see [`exec_block`]).
    fn exec_block<H: Host>(&mut self, stmts: &Vec<Stmt>, fuel: u64, port: &mut Port<H>) -> (r: Result<Signal, RuntimeError>)
        requires
            old(self).wf(),
        ensures
            final(self).wf(),
            log_extends(old(port).answers(), final(port).answers()),
            forall|fm: FloatModel| #[trigger] agrees(fm, final(port).answers()) ==> exec_block(
                old(self).state(old(port).shown()),
                stmts_m(stmts@),
                fuel as nat,
                fm,
            ) == (final(self).state(final(port).shown()), signal_res(r)),
        decreases fuel, 3int, 0int,
    {
        let ghost s0 = self.state(port.shown());
        let ghost log0 = port.answers();
        let ghost sm = stmts_m(stmts@);
        proof {
            crate::ast::lemma_stmts_m(stmts@);
            assert(sm.skip(0) =~= sm);
        }
        self.env.push();
        let ghost sp = self.state(port.shown());
        let mut i: usize = 0;
        while i < stmts.len()
            invariant
                s0 == old(self).state(old(port).shown()),
                log0 == old(port).answers(),
                self.wf(),
                i <= stmts@.len(),
                sm == stmts_m(stmts@),
                sm.len() == stmts@.len(),
                forall|k: int| 0 <= k < stmts@.len() ==> #[trigger] sm[k] == stmts@[k]@,
                sp == with_env(s0, env_push(s0.env)),
                log_extends(log0, port.answers()),
                forall|fm: FloatModel| #[trigger] agrees(fm, port.answers()) ==> exec_seq(sp, sm, fuel as nat, fm)
                    == exec_seq(self.state(port.shown()), sm.skip(i as int), fuel as nat, fm),
            decreases stmts@.len() - i,
        {
            let ghost sb = self.state(port.shown());
            let ghost lb = port.answers();
            proof {
                assert(sm.skip(i as int)[0] == sm[i as int]);
                assert(sm.skip(i as int).drop_first() =~= sm.skip(i + 1));
            }
            match self.exec(&stmts[i], fuel, port) {
                Ok(Signal::Continue) => {
                    proof {
                        assert forall|fm: FloatModel| #[trigger] agrees(fm, port.answers()) implies exec_seq(sp, sm, fuel as nat, fm)
                            == exec_seq(self.state(port.shown()), sm.skip(i + 1), fuel as nat, fm) by {
                            assert(agrees(fm, lb));
                        }
                    }
                },
                Ok(Signal::Return(v)) => {
                    let ghost s1 = self.state(port.shown());
                    let ghost l1 = port.answers();
                    self.env.pop();
                    proof {
                        assert forall|fm: FloatModel| #[trigger] agrees(fm, port.answers()) implies exec_block(
                            s0,
                            sm,
                            fuel as nat,
                            fm,
                        ) == (self.state(port.shown()), signal_res(Ok(Signal::Return(v)))) by {
                            assert(agrees(fm, lb));
                            assert(exec_seq(sp, sm, fuel as nat, fm) == (s1, Ok::<SignalM, RuntimeErrorM>(SignalM::Return(v@))));
                        }
                    }
                    return Ok(Signal::Return(v));
                },
                Err(err) => {
                    proof {
                        assert forall|fm: FloatModel| #[trigger] agrees(fm, port.answers()) implies exec_block(
                            s0,
                            sm,
                            fuel as nat,
                            fm,
                        ) == (self.state(port.shown()), signal_res(Err(err))) by {
                            assert(agrees(fm, lb));
                            assert(exec_seq(sp, sm, fuel as nat, fm) == (self.state(port.shown()), Err::<SignalM, RuntimeErrorM>(err@)));
                        }
                    }
                    return Err(err);
                },
            }
            i += 1;
        }
        let ghost s1 = self.state(port.shown());
        self.env.pop();
        proof {
            assert forall|fm: FloatModel| #[trigger] agrees(fm, port.answers()) implies exec_block(
                s0,
                sm,
                fuel as nat,
                fm,
            ) == (self.state(port.shown()), signal_res(Ok(Signal::Continue))) by {
                assert(sm.skip(i as int) =~= Seq::<StmtM>::empty());
                assert(exec_seq(sp, sm, fuel as nat, fm) == (s1, Ok::<SignalM, RuntimeErrorM>(SignalM::Continue)));
            }
        }
        Ok(Signal::Continue)
    }

    /// Runs one statement (see [`exec`]).
    fn exec<H: Host>(&mut self, st: &Stmt, fuel: u64, port: &mut Port<H>) -> (r: Result<Signal, RuntimeError>)
        requires
            old(self).wf(),
        ensures
            final(self).wf(),
            log_extends(old(port).answers(), final(port).answers()),
            forall|fm: FloatModel| #[trigger] agrees(fm, final(port).answers()) ==> exec(
                old(self).state(old(port).shown()),
                st@,
                fuel as nat,
                fm,
            ) == (final(self).state(final(port).shown()), signal_res(r)),
        decreases fuel, 1int, 0int,
    {
        if fuel == 0 {
            return Err(RuntimeErrorOf::OutOfFuel);
        }
        let f = fuel - 1;
        let ghost s0 = self.state(port.shown());
        let ghost log0 = port.answers();
        match st {
            Stmt::Make { name, init } => {
                let v = match self.eval(init, f, port) {
                    Ok(v) => v,
                    Err(err) => {
                        return Err(err);
                    },
                };
                self.env.declare_or_assign(name.clone(), v);
                Ok(Signal::Continue)
            },
            Stmt::Show { args } => {
                let ghost am = exprs_m(args@);
                proof {
                    crate::ast::lemma_exprs_m(args@);
                    assert(am.take(0) =~= Seq::<ExprM>::empty());
                }
                let mut line = String::new();
                let mut i: usize = 0;
                while i < args.len()
                    invariant
                        s0 == old(self).state(old(port).shown()),
                        log0 == old(port).answers(),
                        self.wf(),
                        i <= args@.len(),
                        am == exprs_m(args@),
                        am.len() == args@.len(),
                        forall|k: int| 0 <= k < args@.len() ==> #[trigger] am[k] == args@[k]@,
                        log_extends(log0, port.answers()),
                        f == fuel - 1,
                        st@ == (StmtM::Show { args: am }),
                        forall|fm: FloatModel| #[trigger] agrees(fm, port.answers()) ==> show_text(
                            s0,
                            am.take(i as int),
                            f as nat,
                            fm,
                        ) == (self.state(port.shown()), Ok::<Seq<char>, RuntimeErrorM>(line@)),
                    decreases args@.len() - i,
                {
                    let ghost lb = port.answers();
                    let ghost tb = line@;
                    proof {
                        assert(am.take(i + 1).drop_last() =~= am.take(i as int));
                        assert(am.take(i + 1).last() == am[i as int]);
                    }
                    match self.eval(&args[i], f, port) {
                        Ok(v) => {
                            let ghost lv = port.answers();
                            let t = v.display(port);
                            append_str(&mut line, t.as_str());
                            proof {
                                assert forall|fm: FloatModel| #[trigger] agrees(fm, port.answers()) implies show_text(
                                    s0,
                                    am.take(i + 1),
                                    f as nat,
                                    fm,
                                ) == (self.state(port.shown()), Ok::<Seq<char>, RuntimeErrorM>(line@)) by {
                                    assert(agrees(fm, lv));
                                    assert(agrees(fm, lb));
                                }
                            }
                        },
                        Err(err) => {
                            proof {
                                assert forall|fm: FloatModel| #[trigger] agrees(fm, port.answers()) implies exec(
                                    s0,
                                    st@,
                                    fuel as nat,
                                    fm,
                                ) == (self.state(port.shown()), signal_res(Err(err))) by {
                                    assert(agrees(fm, lb));
                                    assert(show_text(s0, am.take(i + 1), f as nat, fm) == (self.state(port.shown()), Err::<Seq<char>, RuntimeErrorM>(err@)));
                                    lemma_show_text_prefix_err(s0, am, i + 1, f as nat, fm);
                                }
                            }
                            return Err(err);
                        },
                    }
                    i += 1;
                }
                proof {
                    assert(am.take(i as int) =~= am);
                }
                let ghost s1 = self.state(port.shown());
                let ghost l1 = port.answers();
                port.show(line);
                proof {
                    assert forall|fm: FloatModel| #[trigger] agrees(fm, port.answers()) implies exec(
                        s0,
                        st@,
                        fuel as nat,
                        fm,
                    ) == (self.state(port.shown()), signal_res(Ok(Signal::Continue))) by {
                        assert(show_text(s0, am, f as nat, fm) == (s1, Ok::<Seq<char>, RuntimeErrorM>(port.shown().last())));
                    }
                }
                Ok(Signal::Continue)
            },
            Stmt::Return { value } => match value {
                None => Ok(Signal::Return(Value::Nil)),
                Some(e) => match self.eval(e, f, port) {
                    Ok(v) => Ok(Signal::Return(v)),
                    Err(err) => Err(err),
                },
            },
            Stmt::When { condition, then_body, else_body } => {
                let c = match self.eval(condition, f, port) {
                    Ok(v) => v,
                    Err(err) => {
                        return Err(err);
                    },
                };
                let ghost l1 = port.answers();
                let t = c.is_truthy(port);
                let ghost l2 = port.answers();
                if t {
                    self.exec_block(then_body, f, port)
                } else {
                    match else_body {
                        Some(b) => self.exec_block(b, f, port),
                        None => Ok(Signal::Continue),
                    }
                }
            },
            Stmt::During { condition, body } => {
                let ghost cm = condition@;
                let ghost bm = stmts_m(body@);
                let mut fl: u64 = f;
                loop
                    invariant
                        s0 == old(self).state(old(port).shown()),
                        log0 == old(port).answers(),
                        self.wf(),
                        fl <= f,
                        f == fuel - 1,
                        cm == condition@,
                        bm == stmts_m(body@),
                        log_extends(log0, port.answers()),
                        forall|fm: FloatModel| #[trigger] agrees(fm, port.answers()) ==> exec(s0, st@, fuel as nat, fm)
                            == during_loop(self.state(port.shown()), cm, bm, fl as nat, fm),
                    decreases fl,
                {
                    if fl == 0 {
                        return Err(RuntimeErrorOf::OutOfFuel);
                    }
                    let g = fl - 1;
                    let ghost sb = self.state(port.shown());
                    let ghost lb = port.answers();
                    let c = match self.eval(condition, g, port) {
                        Ok(v) => v,
                        Err(err) => {
                            proof {
                                assert forall|fm: FloatModel| #[trigger] agrees(fm, port.answers()) implies exec(
                                    s0,
                                    st@,
                                    fuel as nat,
                                    fm,
                                ) == (self.state(port.shown()), signal_res(Err(err))) by {
                                    assert(agrees(fm, lb));
                                }
                            }
                            return Err(err);
                        },
                    };
                    let ghost l1 = port.answers();
                    let t = c.is_truthy(port);
                    if !t {
                        proof {
                            assert forall|fm: FloatModel| #[trigger] agrees(fm, port.answers()) implies exec(
                                s0,
                                st@,
                                fuel as nat,
                                fm,
                            ) == (self.state(port.shown()), signal_res(Ok(Signal::Continue))) by {
                                assert(agrees(fm, l1));
                                assert(agrees(fm, lb));
                            }
                        }
                        return Ok(Signal::Continue);
                    }
                    let ghost l2 = port.answers();
                    match self.exec_block(body, g, port) {
                        Ok(Signal::Continue) => {
                            proof {
                                assert forall|fm: FloatModel| #[trigger] agrees(fm, port.answers()) implies exec(
                                    s0,
                                    st@,
                                    fuel as nat,
                                    fm,
                                ) == during_loop(self.state(port.shown()), cm, bm, g as nat, fm) by {
                                    assert(agrees(fm, l2));
                                    assert(agrees(fm, l1));
                                    assert(agrees(fm, lb));
                                }
                            }
                        },
                        Ok(Signal::Return(v)) => {
                            proof {
                                assert forall|fm: FloatModel| #[trigger] agrees(fm, port.answers()) implies exec(
                                    s0,
                                    st@,
                                    fuel as nat,
                                    fm,
                                ) == (self.state(port.shown()), signal_res(Ok(Signal::Return(v)))) by {
                                    assert(agrees(fm, l2));
                                    assert(agrees(fm, l1));
                                    assert(agrees(fm, lb));
                                }
                            }
                            return Ok(Signal::Return(v));
                        },
                        Err(err) => {
                            proof {
                                assert forall|fm: FloatModel| #[trigger] agrees(fm, port.answers()) implies exec(
                                    s0,
                                    st@,
                                    fuel as nat,
                                    fm,
                                ) == (self.state(port.shown()), signal_res(Err(err))) by {
                                    assert(agrees(fm, l2));
                                    assert(agrees(fm, l1));
                                    assert(agrees(fm, lb));
                                }
                            }
                            return Err(err);
                        },
                    }
                    fl = g;
                }
            },
            Stmt::For { .. } => self.exec_for(st, fuel, port),
            Stmt::FuncDef { name, params, body, .. } => {
                let func = Value::Func { params: copy_strings(params), body: copy_stmts(body) };
                self.env.declare_or_assign(name.clone(), func);
                Ok(Signal::Continue)
            },
            Stmt::ExprStmt(e) => match self.eval(e, f, port) {
                Ok(_) => Ok(Signal::Continue),
                Err(err) => Err(err),
            },
        }
    }

    /// Runs a `for` statement: its loop runs in a scope of its own.
    fn exec_for<H: Host>(&mut self, st: &Stmt, fuel: u64, port: &mut Port<H>) -> (r: Result<Signal, RuntimeError>)
        requires
            old(self).wf(),
            st is For,
            fuel > 0,
        ensures
            final(self).wf(),
            log_extends(old(port).answers(), final(port).answers()),
            forall|fm: FloatModel| #[trigger] agrees(fm, final(port).answers()) ==> exec(
                old(self).state(old(port).shown()),
                st@,
                fuel as nat,
                fm,
            ) == (final(self).state(final(port).shown()), signal_res(r)),
        decreases fuel, 0int, 0int,
    {
        let f = fuel - 1;
        let ghost s0 = self.state(port.shown());
        let ghost log0 = port.answers();
        match st {
            Stmt::For { init, condition, update, body } => {
                let ghost cm = opt_expr_m(*condition);
                let ghost um = opt_boxed_expr_m(*update);
                let ghost bm = stmts_m(body@);
                self.env.push();
                let ghost sp = self.state(port.shown());
                match init {
                    Some(s) => match self.exec(s, f, port) {
                        Ok(_) => {},
                        Err(err) => {
                            return Err(err);
                        },
                    },
                    None => {},
                }
                let mut fl: u64 = f;
                loop
                    invariant
                        s0 == old(self).state(old(port).shown()),
                        log0 == old(port).answers(),
                        self.wf(),
                        fl <= f,
                        f == fuel - 1,
                        cm == opt_expr_m(*condition),
                        um == opt_boxed_expr_m(*update),
                        bm == stmts_m(body@),
                        log_extends(log0, port.answers()),
                        forall|fm: FloatModel| #[trigger] agrees(fm, port.answers()) ==> exec(s0, st@, fuel as nat, fm)
                            == for_loop(self.state(port.shown()), cm, um, bm, fl as nat, fm),
                    decreases fl,
                {
                    if fl == 0 {
                        return Err(RuntimeErrorOf::OutOfFuel);
                    }
                    let g = fl - 1;
                    let ghost sb = self.state(port.shown());
                    let ghost lb = port.answers();
                    let keep_going = match condition {
                        Some(c) => {
                            let v = match self.eval(c, g, port) {
                                Ok(v) => v,
                                Err(err) => {
                                    proof {
                                        assert forall|fm: FloatModel| #[trigger] agrees(fm, port.answers()) implies exec(
                                            s0,
                                            st@,
                                            fuel as nat,
                                            fm,
                                        ) == (self.state(port.shown()), signal_res(Err(err))) by {
                                            assert(agrees(fm, lb));
                                        }
                                    }
                                    return Err(err);
                                },
                            };
                            v.is_truthy(port)
                        },
                        None => true,
                    };
                    let ghost s1 = self.state(port.shown());
                    let ghost l1 = port.answers();
                    proof {
                        assert forall|fm: FloatModel| #[trigger] agrees(fm, port.answers()) implies exec(
                            s0,
                            st@,
                            fuel as nat,
                            fm,
                        ) == (if keep_going {
                            let (s2, r2) = exec_block(s1, bm, g as nat, fm);
                            match r2 {
                                Err(err) => (s2, Err(err)),
                                Ok(SignalM::Return(v)) => (with_env(s2, env_pop(s2.env)), Ok(SignalM::Return(v))),
                                Ok(SignalM::Continue) => match um {
                                    Some(u) => {
                                        let (s3, r3) = eval(s2, *u, g as nat, fm);
                                        match r3 {
                                            Err(err) => (s3, Err(err)),
                                            Ok(_) => for_loop(s3, cm, um, bm, g as nat, fm),
                                        }
                                    },
                                    None => for_loop(s2, cm, um, bm, g as nat, fm),
                                },
                            }
                        } else {
                            (with_env(s1, env_pop(s1.env)), Ok(SignalM::Continue))
                        }) by {
                            assert(agrees(fm, lb));
                        }
                    }
                    if !keep_going {
                        self.env.pop();
                        return Ok(Signal::Continue);
                    }
                    let ghost l2 = port.answers();
                    match self.exec_block(body, g, port) {
                        Ok(Signal::Continue) => {},
                        Ok(Signal::Return(v)) => {
                            self.env.pop();
                            proof {
                                assert forall|fm: FloatModel| #[trigger] agrees(fm, port.answers()) implies exec(
                                    s0,
                                    st@,
                                    fuel as nat,
                                    fm,
                                ) == (self.state(port.shown()), signal_res(Ok(Signal::Return(v)))) by {
                                    assert(agrees(fm, l1));
                                }
                            }
                            return Ok(Signal::Return(v));
                        },
                        Err(err) => {
                            proof {
                                assert forall|fm: FloatModel| #[trigger] agrees(fm, port.answers()) implies exec(
                                    s0,
                                    st@,
                                    fuel as nat,
                                    fm,
                                ) == (self.state(port.shown()), signal_res(Err(err))) by {
                                    assert(agrees(fm, l1));
                                }
                            }
                            return Err(err);
                        },
                    }
                    let ghost l3 = port.answers();
                    match update {
                        Some(u) => match self.eval(u, g, port) {
                            Ok(_) => {},
                            Err(err) => {
                                proof {
                                    assert forall|fm: FloatModel| #[trigger] agrees(fm, port.answers()) implies exec(
                                        s0,
                                        st@,
                                        fuel as nat,
                                        fm,
                                    ) == (self.state(port.shown()), signal_res(Err(err))) by {
                                        assert(agrees(fm, l3));
                                        assert(agrees(fm, l1));
                                    }
                                }
                                return Err(err);
                            },
                        },
                        None => {},
                    }
                    proof {
                        assert forall|fm: FloatModel| #[trigger] agrees(fm, port.answers()) implies exec(
                            s0,
                            st@,
                            fuel as nat,
                            fm,
                        ) == for_loop(self.state(port.shown()), cm, um, bm, g as nat, fm) by {
                            assert(agrees(fm, l3));
                            assert(agrees(fm, l1));
                        }
                    }
                    fl = g;
                }
            },
            _ => {
                proof {
                    assert(false);
                }
                Err(RuntimeErrorOf::OutOfFuel)
            },
        }
    }

    /// Runs a program's statements in order, stopping at the first error
    /// (see [`run_stmts`]). Each top-level statement may nest evaluation
    /// [`RUN_FUEL`] levels deep. The lines handed to the host's `show` are
    /// exactly the lines the semantics shows: the port's record of them is
    /// the output of the resulting state. When the host answers its float
    /// questions as a function (some model agrees with its answers), a run
    /// that completes leaves as many scopes as it found.
    pub fn run<H: Host>(&mut self, program: &Program, port: &mut Port<H>) -> (r: Result<(), RuntimeError>)
        requires
            old(self).wf(),
        ensures
            final(self).wf(),
            log_extends(old(port).answers(), final(port).answers()),
            forall|fm: FloatModel| #[trigger] agrees(fm, final(port).answers()) ==> run_stmts(
                old(self).state(old(port).shown()),
                program@,
                RUN_FUEL as nat,
                fm,
            ) == (final(self).state(final(port).shown()), unit_res(r)),
            final(self).scopes().len() >= 1,
            (exists|fm: FloatModel| agrees(fm, final(port).answers())) && r is Ok
                ==> final(self).scopes().len() == old(self).scopes().len(),
    {
        proof {
            self.env.lemma_wf_has_global();
        }
        let ghost s0 = self.state(port.shown());
        let ghost log0 = port.answers();
        let ghost pm = program@;
        proof {
            crate::ast::lemma_stmts_m(program.stmts@);
            assert(pm.skip(0) =~= pm);
        }
        let mut i: usize = 0;
        while i < program.stmts.len()
            invariant
                s0 == old(self).state(old(port).shown()),
                log0 == old(port).answers(),
                self.wf(),
                i <= program.stmts@.len(),
                pm == stmts_m(program.stmts@),
                pm.len() == program.stmts@.len(),
                forall|k: int| 0 <= k < program.stmts@.len() ==> #[trigger] pm[k] == program.stmts@[k]@,
                log_extends(log0, port.answers()),
                forall|fm: FloatModel| #[trigger] agrees(fm, port.answers()) ==> run_stmts(s0, pm, RUN_FUEL as nat, fm)
                    == run_stmts(self.state(port.shown()), pm.skip(i as int), RUN_FUEL as nat, fm),
            decreases program.stmts@.len() - i,
        {
            let ghost lb = port.answers();
            proof {
                assert(pm.skip(i as int)[0] == pm[i as int]);
                assert(pm.skip(i as int).drop_first() =~= pm.skip(i + 1));
            }
            match self.exec(&program.stmts[i], RUN_FUEL, port) {
                Ok(_) => {
                    proof {
                        assert forall|fm: FloatModel| #[trigger] agrees(fm, port.answers()) implies run_stmts(s0, pm, RUN_FUEL as nat, fm)
                            == run_stmts(self.state(port.shown()), pm.skip(i + 1), RUN_FUEL as nat, fm) by {
                            assert(agrees(fm, lb));
                        }
                    }
                },
                Err(err) => {
                    proof {
                        assert forall|fm: FloatModel| #[trigger] agrees(fm, port.answers()) implies run_stmts(s0, pm, RUN_FUEL as nat, fm)
                            == (self.state(port.shown()), unit_res(Err(err))) by {
                            assert(agrees(fm, lb));
                        }
                    }
                    proof {
                        self.env.lemma_wf_has_global();
                    }
                    return Err(err);
                },
            }
            i += 1;
        }
        proof {
            assert(pm.skip(i as int) =~= Seq::<StmtM>::empty());
        }
        proof {
            self.env.lemma_wf_has_global();
            if exists|fm: FloatModel| agrees(fm, port.answers()) {
                let fm = choose|fm: FloatModel| agrees(fm, port.answers());
                lemma_run_stmts_frame(s0, pm, RUN_FUEL as nat, fm);
            }
        }
        Ok(())
    }
}

} // verus!
