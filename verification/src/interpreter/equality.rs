//! Equality of run-time values, as `==` and `!=` compare them: the same
//! variant with equal contents, where floats are compared by the host.
use vstd::prelude::*;

use super::Interpreter;
use crate::ast::{exprs_m, stmts_m, strings_m, BinOp, Expr, ExprM, Stmt, StmtM};
use crate::semantics::{
    expr_equal, exprs_equal, opt_boxed_expr_equal, opt_expr_equal, opt_stmt_equal,
    opt_stmts_equal, stmt_equal, stmts_equal, values_equal,
};
use crate::value::{Port, agrees, lemma_agrees_extends, log_extends, obs_holds, FloatModel, Host, Value};

verus! {

pub open spec fn opt_expr_m(o: Option<Expr>) -> Option<ExprM> {
    match o {
        Some(e) => Some(e@),
        None => None,
    }
}

pub open spec fn opt_boxed_expr_m(o: Option<Box<Expr>>) -> Option<Box<ExprM>> {
    match o {
        Some(e) => Some(Box::new((*e)@)),
        None => None,
    }
}

pub open spec fn opt_stmt_m(o: Option<Box<Stmt>>) -> Option<Box<StmtM>> {
    match o {
        Some(s) => Some(Box::new((*s)@)),
        None => None,
    }
}

pub open spec fn opt_stmts_m(o: Option<Vec<Stmt>>) -> Option<Seq<StmtM>> {
    match o {
        Some(b) => Some(stmts_m(b@)),
        None => None,
    }
}

impl Interpreter {
    pub(super) fn strings_eq(a: &Vec<String>, b: &Vec<String>) -> (r: bool)
        ensures
            r == (strings_m(a@) == strings_m(b@)),
    {
        if a.len() != b.len() {
            assert(strings_m(a@).len() != strings_m(b@).len());
            return false;
        }
        let mut i: usize = 0;
        while i < a.len()
            invariant
                i <= a@.len() == b@.len(),
                forall|k: int| 0 <= k < i ==> (#[trigger] a@[k])@ == b@[k]@,
            decreases a@.len() - i,
        {
            if a[i] != b[i] {
                assert(strings_m(a@)[i as int] != strings_m(b@)[i as int]);
                return false;
            }
            i += 1;
        }
        assert(strings_m(a@) =~= strings_m(b@));
        true
    }

    pub(super) fn expr_eq<H: Host>(&mut self, a: &Expr, b: &Expr, port: &mut Port<H>) -> (r: bool)
        ensures
            log_extends(old(port).answers(), final(port).answers()),
            final(self).env == old(self).env,
            final(port).shown() == old(port).shown(),
            forall|fm: FloatModel| #[trigger] agrees(fm, final(port).answers()) ==> r == expr_equal(a@, b@, fm),
        decreases a,
    {
        broadcast use lemma_agrees_extends;
        match (a, b) {
            (Expr::Integer(x), Expr::Integer(y)) => *x == *y,
            (Expr::Float(x), Expr::Float(y)) => {
                let fx = port.from_literal(x.as_str());
                let fy = port.from_literal(y.as_str());
                let e = port.compare(BinOp::Eq, fx, fy);
                proof {
                    let n = port.answers().len();
                    assert forall|fm: FloatModel| agrees(fm, port.answers()) implies e == #[trigger] expr_equal(a@, b@, fm) by {
                        assert(obs_holds(fm, port.answers()[n - 1]));
                        assert(obs_holds(fm, port.answers()[n - 2]));
                        assert(obs_holds(fm, port.answers()[n - 3]));
                    }
                }
                e
            },
            (Expr::StringLit(x), Expr::StringLit(y)) => *x == *y,
            (Expr::Boolean(x), Expr::Boolean(y)) => *x == *y,
            (Expr::Nil, Expr::Nil) => true,
            (Expr::Identifier(x), Expr::Identifier(y)) => *x == *y,
            (Expr::Assignment { name: n1, value: v1 }, Expr::Assignment { name: n2, value: v2 }) => {
                if *n1 != *n2 {
                    return false;
                }
                let e = self.expr_eq(v1, v2, port);
                proof {
                    assert forall|fm: FloatModel| agrees(fm, port.answers()) implies e == #[trigger] expr_equal(a@, b@, fm) by {
                        assert(expr_equal(a@, b@, fm) == (expr_equal((**v1)@, (**v2)@, fm)));
                    }
                }
                e
            },
            (
                Expr::BinaryOp { left: l1, op: o1, right: r1 },
                Expr::BinaryOp { left: l2, op: o2, right: r2 },
            ) => {
                let ghost log0 = port.answers();
                let e1 = self.expr_eq(l1, l2, port);
                if !e1 {
                proof {
                    assert forall|fm: FloatModel| agrees(fm, port.answers()) implies false == #[trigger] expr_equal(a@, b@, fm) by {
                        assert(expr_equal(a@, b@, fm) == (expr_equal((**l1)@, (**l2)@, fm) && o1 == o2 && expr_equal((**r1)@, (**r2)@, fm)));
                    }
                }
                    return false;
                }
                if *o1 != *o2 {
                proof {
                    assert forall|fm: FloatModel| agrees(fm, port.answers()) implies false == #[trigger] expr_equal(a@, b@, fm) by {
                        assert(expr_equal(a@, b@, fm) == (expr_equal((**l1)@, (**l2)@, fm) && o1 == o2 && expr_equal((**r1)@, (**r2)@, fm)));
                    }
                }
                    return false;
                }
                let ghost log1 = port.answers();
                let e2 = self.expr_eq(r1, r2, port);
                proof {
                    assert forall|fm: FloatModel| agrees(fm, port.answers()) implies e2 == #[trigger] expr_equal(a@, b@, fm) by {
                        assert(agrees(fm, log1));
                        assert(expr_equal((**l1)@, (**l2)@, fm));
                        assert(expr_equal(a@, b@, fm) == (expr_equal((**l1)@, (**l2)@, fm) && o1 == o2 && expr_equal((**r1)@, (**r2)@, fm)));
                    }
                }
                e2
            },
            (Expr::UnaryOp { op: o1, operand: x1 }, Expr::UnaryOp { op: o2, operand: x2 }) => {
                if *o1 != *o2 {
                    return false;
                }
                let e = self.expr_eq(x1, x2, port);
                proof {
                    assert forall|fm: FloatModel| agrees(fm, port.answers()) implies e == #[trigger] expr_equal(a@, b@, fm) by {
                        assert(expr_equal(a@, b@, fm) == (o1 == o2 && expr_equal((**x1)@, (**x2)@, fm)));
                    }
                }
                e
            },
            (Expr::Grouped(x1), Expr::Grouped(x2)) => {
                let e = self.expr_eq(x1, x2, port);
                proof {
                    assert forall|fm: FloatModel| agrees(fm, port.answers()) implies e == #[trigger] expr_equal(a@, b@, fm) by {
                        assert(expr_equal(a@, b@, fm) == (expr_equal((**x1)@, (**x2)@, fm)));
                    }
                }
                e
            },
            (Expr::Call { callee: c1, args: a1 }, Expr::Call { callee: c2, args: a2 }) => {
                if *c1 != *c2 {
                    return false;
                }
                let e = self.exprs_eq(a1, a2, port);
                proof {
                    assert forall|fm: FloatModel| agrees(fm, port.answers()) implies e == #[trigger] expr_equal(a@, b@, fm) by {
                        assert(expr_equal(a@, b@, fm) == (exprs_equal(exprs_m(a1@), exprs_m(a2@), fm)));
                    }
                }
                e
            },
            _ => false,
        }
    }

    pub(super) fn exprs_eq<H: Host>(&mut self, a: &Vec<Expr>, b: &Vec<Expr>, port: &mut Port<H>) -> (r: bool)
        ensures
            log_extends(old(port).answers(), final(port).answers()),
            final(self).env == old(self).env,
            final(port).shown() == old(port).shown(),
            forall|fm: FloatModel| #[trigger] agrees(fm, final(port).answers()) ==> r == exprs_equal(exprs_m(a@), exprs_m(b@), fm),
        decreases a,
    {
        broadcast use lemma_agrees_extends;
        proof {
            crate::ast::lemma_exprs_m(a@);
            crate::ast::lemma_exprs_m(b@);
        }
        let ghost am = exprs_m(a@);
        let ghost bm = exprs_m(b@);
        if a.len() != b.len() {
            return false;
        }
        let mut j: usize = a.len();
        assert(am.take(j as int) =~= am);
        assert(bm.take(j as int) =~= bm);
        while j > 0
            invariant
                j <= a@.len() == b@.len(),
                am == exprs_m(a@),
                bm == exprs_m(b@),
                am.len() == a@.len() && bm.len() == b@.len(),
                forall|k: int| 0 <= k < a@.len() ==> #[trigger] am[k] == a@[k]@,
                forall|k: int| 0 <= k < b@.len() ==> #[trigger] bm[k] == b@[k]@,
                log_extends(old(port).answers(), port.answers()),
                self.env == old(self).env,
                port.shown() == old(port).shown(),
                forall|fm: FloatModel| agrees(fm, port.answers()) ==> #[trigger] exprs_equal(am, bm, fm)
                    == exprs_equal(am.take(j as int), bm.take(j as int), fm),
            decreases j,
        {
            let ghost log0 = port.answers();
            let e = self.expr_eq(&a[j - 1], &b[j - 1], port);
            proof {
                assert(am.take(j as int).drop_last() =~= am.take(j - 1));
                assert(bm.take(j as int).drop_last() =~= bm.take(j - 1));
                assert(am.take(j as int).last() == am[j - 1]);
                assert(bm.take(j as int).last() == bm[j - 1]);
                assert forall|fm: FloatModel| agrees(fm, port.answers()) implies #[trigger] exprs_equal(
                    am,
                    bm,
                    fm,
                ) == (exprs_equal(am.take(j - 1), bm.take(j - 1), fm) && e) by {
                    lemma_agrees_extends(fm, log0, port.answers());
                    assert(exprs_equal(am, bm, fm) == exprs_equal(am.take(j as int), bm.take(j as int), fm));
                    assert(e == expr_equal(a@[j - 1]@, b@[j - 1]@, fm));
                }
            }
            if !e {
                return false;
            }
            j -= 1;
        }
        proof {
            assert forall|fm: FloatModel| agrees(fm, port.answers()) implies #[trigger] exprs_equal(am, bm, fm) by {
                assert(am.take(0) =~= Seq::<crate::ast::ExprM>::empty());
                assert(bm.take(0) =~= Seq::<crate::ast::ExprM>::empty());
            }
        }
        true
    }

    pub(super) fn opt_expr_eq<H: Host>(&mut self, a: &Option<Expr>, b: &Option<Expr>, port: &mut Port<H>) -> (r: bool)
        ensures
            log_extends(old(port).answers(), final(port).answers()),
            final(self).env == old(self).env,
            final(port).shown() == old(port).shown(),
            forall|fm: FloatModel| #[trigger] agrees(fm, final(port).answers()) ==> r == opt_expr_equal(opt_expr_m(*a), opt_expr_m(*b), fm),
    {
        match (a, b) {
            (Some(x), Some(y)) => self.expr_eq(x, y, port),
            (None, None) => true,
            _ => false,
        }
    }

    pub(super) fn opt_boxed_expr_eq<H: Host>(&mut self, a: &Option<Box<Expr>>, b: &Option<Box<Expr>>, port: &mut Port<H>) -> (r: bool)
        ensures
            log_extends(old(port).answers(), final(port).answers()),
            final(self).env == old(self).env,
            final(port).shown() == old(port).shown(),
            forall|fm: FloatModel| #[trigger] agrees(fm, final(port).answers()) ==> r == opt_boxed_expr_equal(opt_boxed_expr_m(*a), opt_boxed_expr_m(*b), fm),
    {
        match (a, b) {
            (Some(x), Some(y)) => self.expr_eq(x, y, port),
            (None, None) => true,
            _ => false,
        }
    }

    pub(super) fn opt_stmt_eq<H: Host>(&mut self, a: &Option<Box<Stmt>>, b: &Option<Box<Stmt>>, port: &mut Port<H>) -> (r: bool)
        ensures
            log_extends(old(port).answers(), final(port).answers()),
            final(self).env == old(self).env,
            final(port).shown() == old(port).shown(),
            forall|fm: FloatModel| #[trigger] agrees(fm, final(port).answers()) ==> r == opt_stmt_equal(opt_stmt_m(*a), opt_stmt_m(*b), fm),
        decreases a, 1int,
    {
        match (a, b) {
            (Some(x), Some(y)) => self.stmt_eq(x, y, port),
            (None, None) => true,
            _ => false,
        }
    }

    pub(super) fn opt_stmts_eq<H: Host>(&mut self, a: &Option<Vec<Stmt>>, b: &Option<Vec<Stmt>>, port: &mut Port<H>) -> (r: bool)
        ensures
            log_extends(old(port).answers(), final(port).answers()),
            final(self).env == old(self).env,
            final(port).shown() == old(port).shown(),
            forall|fm: FloatModel| #[trigger] agrees(fm, final(port).answers()) ==> r == opt_stmts_equal(opt_stmts_m(*a), opt_stmts_m(*b), fm),
        decreases a, 1int,
    {
        match (a, b) {
            (Some(x), Some(y)) => self.stmts_eq(x, y, port),
            (None, None) => true,
            _ => false,
        }
    }

    pub(super) fn stmt_eq<H: Host>(&mut self, a: &Stmt, b: &Stmt, port: &mut Port<H>) -> (r: bool)
        ensures
            log_extends(old(port).answers(), final(port).answers()),
            final(self).env == old(self).env,
            final(port).shown() == old(port).shown(),
            forall|fm: FloatModel| #[trigger] agrees(fm, final(port).answers()) ==> r == stmt_equal(a@, b@, fm),
        decreases a, 0int,
    {
        broadcast use lemma_agrees_extends;
        let ghost log0 = port.answers();
        match (a, b) {
            (Stmt::Make { name: n1, init: i1 }, Stmt::Make { name: n2, init: i2 }) => {
                if *n1 != *n2 {
                    return false;
                }
                self.expr_eq(i1, i2, port)
            },
            (Stmt::Show { args: a1 }, Stmt::Show { args: a2 }) => self.exprs_eq(a1, a2, port),
            (Stmt::Return { value: v1 }, Stmt::Return { value: v2 }) => self.opt_expr_eq(v1, v2, port),
            (
                Stmt::When { condition: c1, then_body: t1, else_body: e1 },
                Stmt::When { condition: c2, then_body: t2, else_body: e2 },
            ) => {
                let x = self.expr_eq(c1, c2, port);
                if !x {
                    return false;
                }
                let ghost log1 = port.answers();
                let y = self.stmts_eq(t1, t2, port);
                if !y {
                    proof {
                        assert forall|fm: FloatModel| agrees(fm, port.answers()) implies false == #[trigger] stmt_equal(a@, b@, fm) by {
                            assert(agrees(fm, log1));
                        }
                    }
                    return false;
                }
                let ghost log2 = port.answers();
                let z = self.opt_stmts_eq(e1, e2, port);
                proof {
                    assert forall|fm: FloatModel| agrees(fm, port.answers()) implies z == #[trigger] stmt_equal(a@, b@, fm) by {
                        assert(agrees(fm, log2));
                        assert(agrees(fm, log1));
                    }
                }
                z
            },
            (Stmt::During { condition: c1, body: b1 }, Stmt::During { condition: c2, body: b2 }) => {
                let x = self.expr_eq(c1, c2, port);
                if !x {
                    return false;
                }
                let ghost log1 = port.answers();
                let y = self.stmts_eq(b1, b2, port);
                proof {
                    assert forall|fm: FloatModel| agrees(fm, port.answers()) implies y == #[trigger] stmt_equal(a@, b@, fm) by {
                        assert(agrees(fm, log1));
                    }
                }
                y
            },
            (
                Stmt::For { init: i1, condition: c1, update: u1, body: b1 },
                Stmt::For { init: i2, condition: c2, update: u2, body: b2 },
            ) => {
                let w = self.opt_stmt_eq(i1, i2, port);
                if !w {
                    return false;
                }
                let ghost log1 = port.answers();
                let x = self.opt_expr_eq(c1, c2, port);
                if !x {
                    proof {
                        assert forall|fm: FloatModel| agrees(fm, port.answers()) implies false == #[trigger] stmt_equal(a@, b@, fm) by {
                            assert(agrees(fm, log1));
                        }
                    }
                    return false;
                }
                let ghost log2 = port.answers();
                let y = self.opt_boxed_expr_eq(u1, u2, port);
                if !y {
                    proof {
                        assert forall|fm: FloatModel| agrees(fm, port.answers()) implies false == #[trigger] stmt_equal(a@, b@, fm) by {
                            assert(agrees(fm, log2));
                            assert(agrees(fm, log1));
                        }
                    }
                    return false;
                }
                let ghost log3 = port.answers();
                let z = self.stmts_eq(b1, b2, port);
                proof {
                    assert forall|fm: FloatModel| agrees(fm, port.answers()) implies z == #[trigger] stmt_equal(a@, b@, fm) by {
                        assert(agrees(fm, log3));
                        assert(agrees(fm, log2));
                        assert(agrees(fm, log1));
                    }
                }
                z
            },
            (
                Stmt::FuncDef { name: n1, return_type: r1, params: p1, body: b1 },
                Stmt::FuncDef { name: n2, return_type: r2, params: p2, body: b2 },
            ) => {
                if *n1 != *n2 {
                    return false;
                }
                let same_type = match (r1, r2) {
                    (Some(x), Some(y)) => *x == *y,
                    (None, None) => true,
                    _ => false,
                };
                if !same_type {
                    return false;
                }
                if !Self::strings_eq(p1, p2) {
                    return false;
                }
                self.stmts_eq(b1, b2, port)
            },
            (Stmt::ExprStmt(x), Stmt::ExprStmt(y)) => self.expr_eq(x, y, port),
            _ => false,
        }
    }

    pub(super) fn stmts_eq<H: Host>(&mut self, a: &Vec<Stmt>, b: &Vec<Stmt>, port: &mut Port<H>) -> (r: bool)
        ensures
            log_extends(old(port).answers(), final(port).answers()),
            final(self).env == old(self).env,
            final(port).shown() == old(port).shown(),
            forall|fm: FloatModel| #[trigger] agrees(fm, final(port).answers()) ==> r == stmts_equal(stmts_m(a@), stmts_m(b@), fm),
        decreases a, 0int,
    {
        broadcast use lemma_agrees_extends;
        proof {
            crate::ast::lemma_stmts_m(a@);
            crate::ast::lemma_stmts_m(b@);
        }
        let ghost am = stmts_m(a@);
        let ghost bm = stmts_m(b@);
        if a.len() != b.len() {
            return false;
        }
        let mut j: usize = a.len();
        assert(am.take(j as int) =~= am);
        assert(bm.take(j as int) =~= bm);
        while j > 0
            invariant
                j <= a@.len() == b@.len(),
                am == stmts_m(a@),
                bm == stmts_m(b@),
                am.len() == a@.len() && bm.len() == b@.len(),
                forall|k: int| 0 <= k < a@.len() ==> #[trigger] am[k] == a@[k]@,
                forall|k: int| 0 <= k < b@.len() ==> #[trigger] bm[k] == b@[k]@,
                log_extends(old(port).answers(), port.answers()),
                self.env == old(self).env,
                port.shown() == old(port).shown(),
                forall|fm: FloatModel| agrees(fm, port.answers()) ==> #[trigger] stmts_equal(am, bm, fm)
                    == stmts_equal(am.take(j as int), bm.take(j as int), fm),
            decreases j,
        {
            let ghost log0 = port.answers();
            let e = self.stmt_eq(&a[j - 1], &b[j - 1], port);
            proof {
                assert(am.take(j as int).drop_last() =~= am.take(j - 1));
                assert(bm.take(j as int).drop_last() =~= bm.take(j - 1));
                assert(am.take(j as int).last() == am[j - 1]);
                assert(bm.take(j as int).last() == bm[j - 1]);
                assert forall|fm: FloatModel| agrees(fm, port.answers()) implies #[trigger] stmts_equal(
                    am,
                    bm,
                    fm,
                ) == (stmts_equal(am.take(j - 1), bm.take(j - 1), fm) && e) by {
                    lemma_agrees_extends(fm, log0, port.answers());
                    assert(stmts_equal(am, bm, fm) == stmts_equal(am.take(j as int), bm.take(j as int), fm));
                    assert(e == stmt_equal(a@[j - 1]@, b@[j - 1]@, fm));
                }
            }
            if !e {
                return false;
            }
            j -= 1;
        }
        proof {
            assert forall|fm: FloatModel| agrees(fm, port.answers()) implies #[trigger] stmts_equal(am, bm, fm) by {
                assert(am.take(0) =~= Seq::<StmtM>::empty());
                assert(bm.take(0) =~= Seq::<StmtM>::empty());
            }
        }
        true
    }

    /// Whether two values are equal, as `==` compares them (see [`values_equal`]).
    pub(super) fn values_eq<H: Host>(&mut self, l: &Value, r: &Value, port: &mut Port<H>) -> (e: bool)
        ensures
            log_extends(old(port).answers(), final(port).answers()),
            final(self).env == old(self).env,
            final(port).shown() == old(port).shown(),
            forall|fm: FloatModel| #[trigger] agrees(fm, final(port).answers()) ==> e == values_equal(l@, r@, fm),
    {
        match (l, r) {
            (Value::Integer(a), Value::Integer(b)) => *a == *b,
            (Value::Float(a), Value::Float(b)) => {
                let e = port.compare(BinOp::Eq, *a, *b);
                proof {
                    assert forall|fm: FloatModel| agrees(fm, port.answers()) implies e == #[trigger] values_equal(l@, r@, fm) by {
                        assert(obs_holds(fm, port.answers()[port.answers().len() - 1]));
                    }
                }
                e
            },
            (Value::Str(a), Value::Str(b)) => *a == *b,
            (Value::Bool(a), Value::Bool(b)) => *a == *b,
            (Value::Func { params: p1, body: b1 }, Value::Func { params: p2, body: b2 }) => {
                if !Self::strings_eq(p1, p2) {
                    return false;
                }
                self.stmts_eq(b1, b2, port)
            },
            (Value::Nil, Value::Nil) => true,
            _ => false,
        }
    }
}

} // verus!
