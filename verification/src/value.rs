//! Run-time values, and the host that runs a program.
use vstd::prelude::*;

use crate::ast::{copy_stmts, copy_strings, stmts_m, strings_m, BinOp, Stmt, StmtM};
use crate::text::{decimal_int, i64_to_string, string_of};

verus! {

/// A run-time value. A float is held as the bit pattern of an IEEE 754
/// double (`f64::to_bits`); the host computes with it.
#[derive(Debug, Clone)]
pub enum Value {
    Integer(i64),
    Float(u64),
    Str(String),
    Bool(bool),
    Func { params: Vec<String>, body: Vec<Stmt> },
    Nil,
}

/// The mathematical value of a run-time value.
pub enum ValueM {
    Integer(i64),
    Float(u64),
    Str(Seq<char>),
    Bool(bool),
    Func { params: Seq<Seq<char>>, body: Seq<StmtM> },
    Nil,
}

impl View for Value {
    type V = ValueM;

    open spec fn view(&self) -> ValueM {
        match self {
            Value::Integer(n) => ValueM::Integer(*n),
            Value::Float(b) => ValueM::Float(*b),
            Value::Str(s) => ValueM::Str(s@),
            Value::Bool(b) => ValueM::Bool(*b),
            Value::Func { params, body } => ValueM::Func {
                params: strings_m(params@),
                body: stmts_m(body@),
            },
            Value::Nil => ValueM::Nil,
        }
    }
}

/// What a program's host provides: where `show` output goes, and the
/// floating-point arithmetic on bit patterns of doubles. The library states
/// nothing of what these return. It reaches a host only through a [`Port`],
/// which records every line handed to `show` and every answer the host
/// gives; the interpreter's contract is stated over those records (see
/// [`FloatModel`]).
pub trait Host {
    /// Receives one line of `show` output.
    fn show(&mut self, line: String);

    /// The double that a float literal (digits, a point, digits) denotes.
    fn float_from_literal(&self, text: &str) -> u64;

    /// The double nearest to an integer (`n as f64`).
    fn float_from_int(&self, n: i64) -> u64;

    /// `a + b`, `a - b`, `a * b` or `a / b` (for `Add`, `Sub`, `Mul`, `Div`).
    fn float_arith(&self, op: BinOp, a: u64, b: u64) -> u64;

    /// `-a`.
    fn float_neg(&self, a: u64) -> u64;

    /// `a < b`, `a <= b`, `a > b`, `a >= b` or `a == b` (for `Lt`, `LtEq`,
    /// `Gt`, `GtEq`, `Eq`).
    fn float_compare(&self, op: BinOp, a: u64, b: u64) -> bool;

    /// `a == 0.0`.
    fn float_is_zero(&self, a: u64) -> bool;

    /// The text of a double, as `to_string` writes it.
    fn float_display(&self, a: u64) -> String;
}

/// A host, reached only through methods that record what passes: the lines
/// handed to `show`, in order, and each float question with the host's
/// answer. Nothing else can add to these records, so they are what the host
/// was actually told and actually answered.
pub struct Port<H: Host> {
    host: H,
    shown: Ghost<Seq<Seq<char>>>,
    answers: Ghost<Seq<FloatObs>>,
}

impl<H: Host> Port<H> {
    /// The lines handed to the host's `show` so far.
    pub closed spec fn shown(&self) -> Seq<Seq<char>> {
        self.shown@
    }

    /// The host's float answers so far.
    pub closed spec fn answers(&self) -> Seq<FloatObs> {
        self.answers@
    }

    /// A port to `host`, with nothing shown or answered yet.
    pub fn new(host: H) -> (p: Self)
        ensures
            p.shown() == Seq::<Seq<char>>::empty(),
            p.answers() == Seq::<FloatObs>::empty(),
    {
        Port { host, shown: Ghost(Seq::empty()), answers: Ghost(Seq::empty()) }
    }

    /// The host, to read from.
    pub fn host(&self) -> &H {
        &self.host
    }

    /// The host back, once the port is no longer needed.
    pub fn into_host(self) -> H {
        self.host
    }

    /// Hands one line of output to the host.
    pub fn show(&mut self, line: String)
        ensures
            final(self).shown() == old(self).shown().push(line@),
            final(self).answers() == old(self).answers(),
    {
        proof {
            self.shown@ = self.shown@.push(line@);
        }
        self.host.show(line);
    }

    /// The double that a float literal denotes.
    pub fn from_literal(&mut self, text: &str) -> (b: u64)
        ensures
            final(self).answers() == old(self).answers().push(FloatObs::FromLiteral(text@, b)),
            final(self).shown() == old(self).shown(),
    {
        let b = self.host.float_from_literal(text);
        proof {
            self.answers@ = self.answers@.push(FloatObs::FromLiteral(text@, b));
        }
        b
    }

    /// The double nearest to an integer.
    pub fn from_int(&mut self, n: i64) -> (b: u64)
        ensures
            final(self).answers() == old(self).answers().push(FloatObs::FromInt(n, b)),
            final(self).shown() == old(self).shown(),
    {
        let b = self.host.float_from_int(n);
        proof {
            self.answers@ = self.answers@.push(FloatObs::FromInt(n, b));
        }
        b
    }

    /// `a op c` on doubles.
    pub fn arith(&mut self, op: BinOp, a: u64, c: u64) -> (b: u64)
        ensures
            final(self).answers() == old(self).answers().push(FloatObs::Arith(op, a, c, b)),
            final(self).shown() == old(self).shown(),
    {
        let b = self.host.float_arith(op, a, c);
        proof {
            self.answers@ = self.answers@.push(FloatObs::Arith(op, a, c, b));
        }
        b
    }

    /// `-a` on a double.
    pub fn neg(&mut self, a: u64) -> (b: u64)
        ensures
            final(self).answers() == old(self).answers().push(FloatObs::Neg(a, b)),
            final(self).shown() == old(self).shown(),
    {
        let b = self.host.float_neg(a);
        proof {
            self.answers@ = self.answers@.push(FloatObs::Neg(a, b));
        }
        b
    }

    /// A comparison of doubles.
    pub fn compare(&mut self, op: BinOp, a: u64, c: u64) -> (b: bool)
        ensures
            final(self).answers() == old(self).answers().push(FloatObs::Compare(op, a, c, b)),
            final(self).shown() == old(self).shown(),
    {
        let b = self.host.float_compare(op, a, c);
        proof {
            self.answers@ = self.answers@.push(FloatObs::Compare(op, a, c, b));
        }
        b
    }

    /// Whether a double is zero.
    pub fn is_zero(&mut self, a: u64) -> (b: bool)
        ensures
            final(self).answers() == old(self).answers().push(FloatObs::IsZero(a, b)),
            final(self).shown() == old(self).shown(),
    {
        let b = self.host.float_is_zero(a);
        proof {
            self.answers@ = self.answers@.push(FloatObs::IsZero(a, b));
        }
        b
    }

    /// The text of a double.
    pub fn float_text(&mut self, a: u64) -> (s: String)
        ensures
            final(self).answers() == old(self).answers().push(FloatObs::Display(a, s@)),
            final(self).shown() == old(self).shown(),
    {
        let s = self.host.float_display(a);
        proof {
            self.answers@ = self.answers@.push(FloatObs::Display(a, s@));
        }
        s
    }
}

/// A mathematical account of the host's float operations, one function per
/// operation. The interpreter's results are stated for every model that
/// agrees with the answers the host actually gave.
pub struct FloatModel {
    pub from_literal: spec_fn(Seq<char>) -> u64,
    pub from_int: spec_fn(i64) -> u64,
    pub arith: spec_fn(BinOp, u64, u64) -> u64,
    pub neg: spec_fn(u64) -> u64,
    pub compare: spec_fn(BinOp, u64, u64) -> bool,
    pub is_zero: spec_fn(u64) -> bool,
    pub display: spec_fn(u64) -> Seq<char>,
}

/// One answer the host gave: the question and the answer.
pub enum FloatObs {
    FromLiteral(Seq<char>, u64),
    FromInt(i64, u64),
    Arith(BinOp, u64, u64, u64),
    Neg(u64, u64),
    Compare(BinOp, u64, u64, bool),
    IsZero(u64, bool),
    Display(u64, Seq<char>),
}

/// The model gives the answer that the host gave.
pub open spec fn obs_holds(fm: FloatModel, o: FloatObs) -> bool {
    match o {
        FloatObs::FromLiteral(t, r) => (fm.from_literal)(t) == r,
        FloatObs::FromInt(n, r) => (fm.from_int)(n) == r,
        FloatObs::Arith(op, a, b, r) => (fm.arith)(op, a, b) == r,
        FloatObs::Neg(a, r) => (fm.neg)(a) == r,
        FloatObs::Compare(op, a, b, r) => (fm.compare)(op, a, b) == r,
        FloatObs::IsZero(a, r) => (fm.is_zero)(a) == r,
        FloatObs::Display(a, r) => (fm.display)(a) == r,
    }
}

/// The model agrees with every answer in the log.
pub open spec fn agrees(fm: FloatModel, log: Seq<FloatObs>) -> bool {
    forall|i: int| 0 <= i < log.len() ==> #[trigger] obs_holds(fm, log[i])
}

/// `b` repeats the answers of `a`, and may have more after them.
pub open spec fn log_extends(a: Seq<FloatObs>, b: Seq<FloatObs>) -> bool {
    a.len() <= b.len() && forall|i: int| 0 <= i < a.len() ==> #[trigger] b[i] == a[i]
}

pub broadcast proof fn lemma_agrees_extends(fm: FloatModel, a: Seq<FloatObs>, b: Seq<FloatObs>)
    requires
        agrees(fm, b),
        log_extends(a, b),
    ensures
        #![trigger agrees(fm, b), log_extends(a, b)]
        agrees(fm, a),
{
    assert forall|i: int| 0 <= i < a.len() implies #[trigger] obs_holds(fm, a[i]) by {
        assert(b[i] == a[i]);
        assert(obs_holds(fm, b[i]));
    }
}

/// A number's text without a trailing `.0`.
pub open spec fn without_point_zero(t: Seq<char>) -> Seq<char> {
    if t.len() >= 2 && t[t.len() - 2] == '.' && t[t.len() - 1] == '0' {
        t.take(t.len() - 2)
    } else {
        t
    }
}

/// Drops a trailing `.0` from a number's text (see [`without_point_zero`]).
pub fn trim_point_zero(t: String) -> (r: String)
    ensures
        r@ == without_point_zero(t@),
{
    let n = t.as_str().unicode_len();
    if n >= 2 && t.as_str().get_char(n - 2) == '.' && t.as_str().get_char(n - 1) == '0' {
        string_of(t.as_str().substring_char(0, n - 2))
    } else {
        t
    }
}

/// How `show` writes a value.
pub open spec fn value_text(v: ValueM, fm: FloatModel) -> Seq<char> {
    match v {
        ValueM::Integer(n) => decimal_int(n as int),
        ValueM::Float(b) => without_point_zero((fm.display)(b)),
        ValueM::Str(s) => s,
        ValueM::Bool(b) => if b {
            "true"@
        } else {
            "false"@
        },
        ValueM::Func { .. } => "<func>"@,
        ValueM::Nil => "nil"@,
    }
}

/// Whether a condition with this value holds: `false` and `nil` do not, nor
/// a zero integer or float; every other value does.
pub open spec fn truthy(v: ValueM, fm: FloatModel) -> bool {
    match v {
        ValueM::Bool(b) => b,
        ValueM::Nil => false,
        ValueM::Integer(n) => n != 0,
        ValueM::Float(b) => !(fm.is_zero)(b),
        _ => true,
    }
}

impl Value {
    /// A deep copy of this value.
    pub fn copy(&self) -> (r: Value)
        ensures
            r@ == self@,
    {
        match self {
            Value::Integer(n) => Value::Integer(*n),
            Value::Float(b) => Value::Float(*b),
            Value::Str(s) => Value::Str(s.clone()),
            Value::Bool(b) => Value::Bool(*b),
            Value::Func { params, body } => Value::Func {
                params: copy_strings(params),
                body: copy_stmts(body),
            },
            Value::Nil => Value::Nil,
        }
    }

    /// How `show` writes this value (see [`value_text`]); a float's text is
    /// the host's, without a trailing `.0`.
    pub fn display<H: Host>(&self, port: &mut Port<H>) -> (s: String)
        ensures
            log_extends(old(port).answers(), final(port).answers()),
            final(port).shown() == old(port).shown(),
            forall|fm: FloatModel| #[trigger] agrees(fm, final(port).answers()) ==> s@ == value_text(self@, fm),
    {
        match self {
            Value::Integer(n) => i64_to_string(*n),
            Value::Float(b) => {
                let t = port.float_text(*b);
                proof {
                    assert forall|fm: FloatModel| #[trigger] agrees(fm, port.answers()) implies (fm.display)(*b) == t@ by {
                        assert(obs_holds(fm, port.answers()[port.answers().len() - 1]));
                    }
                }
                trim_point_zero(t)
            },
            Value::Str(s) => s.clone(),
            Value::Bool(b) => if *b {
                string_of("true")
            } else {
                string_of("false")
            },
            Value::Func { .. } => string_of("<func>"),
            Value::Nil => string_of("nil"),
        }
    }

    /// Whether a condition with this value holds (see [`truthy`]); whether a
    /// float is zero is the host's answer.
    pub fn is_truthy<H: Host>(&self, port: &mut Port<H>) -> (b: bool)
        ensures
            log_extends(old(port).answers(), final(port).answers()),
            final(port).shown() == old(port).shown(),
            forall|fm: FloatModel| #[trigger] agrees(fm, final(port).answers()) ==> b == truthy(self@, fm),
    {
        match self {
            Value::Bool(b) => *b,
            Value::Nil => false,
            Value::Integer(n) => *n != 0,
            Value::Float(x) => {
                let z = port.is_zero(*x);
                proof {
                    assert forall|fm: FloatModel| #[trigger] agrees(fm, port.answers()) implies !z == truthy(self@, fm) by {
                        assert(obs_holds(fm, port.answers()[port.answers().len() - 1]));
                    }
                }
                !z
            },
            _ => true,
        }
    }
}

} // verus!
