use vstd::prelude::*;

verus! {

/// A type named in a function's header.
#[derive(Debug, Clone, Copy, PartialEq, Eq, Structural)]
pub enum TypeAnnotation {
    Int,
    Float,
    Bool,
    Str,
    Void,
}

/// Expressions of the language. A float literal keeps its source text
/// (digits, a point, digits); its value is computed where it is used.
#[derive(Debug, PartialEq)]
pub enum Expr {
    Integer(i64),
    Float(String),
    StringLit(String),
    Boolean(bool),
    Nil,
    Identifier(String),
    Assignment { name: String, value: Box<Expr> },
    BinaryOp { left: Box<Expr>, op: BinOp, right: Box<Expr> },
    UnaryOp { op: UnOp, operand: Box<Expr> },
    Grouped(Box<Expr>),
    Call { callee: String, args: Vec<Expr> },
}

/// Binary operators.
#[derive(Debug, Clone, Copy, PartialEq, Eq, Structural)]
pub enum BinOp {
    Add,
    Sub,
    Mul,
    Div,
    Mod,
    Eq,
    NotEq,
    Lt,
    LtEq,
    Gt,
    GtEq,
    LogicalAnd,
    LogicalOr,
}

/// Unary operators.
#[derive(Debug, Clone, Copy, PartialEq, Eq, Structural)]
pub enum UnOp {
    Neg,
    Not,
}

/// Statements of the language.
#[derive(Debug, PartialEq)]
pub enum Stmt {
    Make { name: String, init: Expr },
    Show { args: Vec<Expr> },
    Return { value: Option<Expr> },
    When { condition: Expr, then_body: Vec<Stmt>, else_body: Option<Vec<Stmt>> },
    During { condition: Expr, body: Vec<Stmt> },
    For {
        init: Option<Box<Stmt>>,
        condition: Option<Expr>,
        update: Option<Box<Expr>>,
        body: Vec<Stmt>,
    },
    FuncDef {
        name: String,
        return_type: Option<TypeAnnotation>,
        params: Vec<String>,
        body: Vec<Stmt>,
    },
    ExprStmt(Expr),
}

/// A whole program: its top-level statements in order.
#[derive(Debug, Clone, PartialEq)]
pub struct Program {
    pub stmts: Vec<Stmt>,
}

/// The mathematical value of an expression tree.
pub enum ExprM {
    Integer(i64),
    Float(Seq<char>),
    StringLit(Seq<char>),
    Boolean(bool),
    Nil,
    Identifier(Seq<char>),
    Assignment { name: Seq<char>, value: Box<ExprM> },
    BinaryOp { left: Box<ExprM>, op: BinOp, right: Box<ExprM> },
    UnaryOp { op: UnOp, operand: Box<ExprM> },
    Grouped(Box<ExprM>),
    Call { callee: Seq<char>, args: Seq<ExprM> },
}

/// The mathematical value of a statement tree.
pub enum StmtM {
    Make { name: Seq<char>, init: ExprM },
    Show { args: Seq<ExprM> },
    Return { value: Option<ExprM> },
    When { condition: ExprM, then_body: Seq<StmtM>, else_body: Option<Seq<StmtM>> },
    During { condition: ExprM, body: Seq<StmtM> },
    For {
        init: Option<Box<StmtM>>,
        condition: Option<ExprM>,
        update: Option<Box<ExprM>>,
        body: Seq<StmtM>,
    },
    FuncDef {
        name: Seq<char>,
        return_type: Option<TypeAnnotation>,
        params: Seq<Seq<char>>,
        body: Seq<StmtM>,
    },
    ExprStmt(ExprM),
}

pub open spec fn strings_m(s: Seq<String>) -> Seq<Seq<char>> {
    s.map_values(|x: String| x@)
}

pub open spec fn expr_m(e: Expr) -> ExprM
    decreases e,
{
    match e {
        Expr::Integer(n) => ExprM::Integer(n),
        Expr::Float(t) => ExprM::Float(t@),
        Expr::StringLit(s) => ExprM::StringLit(s@),
        Expr::Boolean(b) => ExprM::Boolean(b),
        Expr::Nil => ExprM::Nil,
        Expr::Identifier(s) => ExprM::Identifier(s@),
        Expr::Assignment { name, value } => ExprM::Assignment {
            name: name@,
            value: Box::new(expr_m(*value)),
        },
        Expr::BinaryOp { left, op, right } => ExprM::BinaryOp {
            left: Box::new(expr_m(*left)),
            op,
            right: Box::new(expr_m(*right)),
        },
        Expr::UnaryOp { op, operand } => ExprM::UnaryOp { op, operand: Box::new(expr_m(*operand)) },
        Expr::Grouped(inner) => ExprM::Grouped(Box::new(expr_m(*inner))),
        Expr::Call { callee, args } => ExprM::Call { callee: callee@, args: exprs_m(args@) },
    }
}

pub open spec fn exprs_m(s: Seq<Expr>) -> Seq<ExprM>
    decreases s,
{
    if s.len() == 0 {
        Seq::empty()
    } else {
        exprs_m(s.drop_last()).push(expr_m(s.last()))
    }
}

pub open spec fn stmt_m(st: Stmt) -> StmtM
    decreases st,
{
    match st {
        Stmt::Make { name, init } => StmtM::Make { name: name@, init: expr_m(init) },
        Stmt::Show { args } => StmtM::Show { args: exprs_m(args@) },
        Stmt::Return { value } => StmtM::Return {
            value: match value {
                Some(e) => Some(expr_m(e)),
                None => None,
            },
        },
        Stmt::When { condition, then_body, else_body } => StmtM::When {
            condition: expr_m(condition),
            then_body: stmts_m(then_body@),
            else_body: match else_body {
                Some(b) => Some(stmts_m(b@)),
                None => None,
            },
        },
        Stmt::During { condition, body } => StmtM::During {
            condition: expr_m(condition),
            body: stmts_m(body@),
        },
        Stmt::For { init, condition, update, body } => StmtM::For {
            init: match init {
                Some(s) => Some(Box::new(stmt_m(*s))),
                None => None,
            },
            condition: match condition {
                Some(e) => Some(expr_m(e)),
                None => None,
            },
            update: match update {
                Some(e) => Some(Box::new(expr_m(*e))),
                None => None,
            },
            body: stmts_m(body@),
        },
        Stmt::FuncDef { name, return_type, params, body } => StmtM::FuncDef {
            name: name@,
            return_type,
            params: strings_m(params@),
            body: stmts_m(body@),
        },
        Stmt::ExprStmt(e) => StmtM::ExprStmt(expr_m(e)),
    }
}

pub open spec fn stmts_m(s: Seq<Stmt>) -> Seq<StmtM>
    decreases s,
{
    if s.len() == 0 {
        Seq::empty()
    } else {
        stmts_m(s.drop_last()).push(stmt_m(s.last()))
    }
}

impl View for Expr {
    type V = ExprM;

    open spec fn view(&self) -> ExprM {
        expr_m(*self)
    }
}

impl View for Stmt {
    type V = StmtM;

    open spec fn view(&self) -> StmtM {
        stmt_m(*self)
    }
}

impl View for Program {
    type V = Seq<StmtM>;

    open spec fn view(&self) -> Seq<StmtM> {
        stmts_m(self.stmts@)
    }
}

impl Program {
    /// An empty program.
    pub fn new() -> (p: Self)
        ensures
            p@ == Seq::<StmtM>::empty(),
    {
        Program { stmts: Vec::new() }
    }
}

pub proof fn lemma_exprs_m_push(s: Seq<Expr>, e: Expr)
    ensures
        exprs_m(s.push(e)) == exprs_m(s).push(expr_m(e)),
{
    assert(s.push(e).drop_last() =~= s);
}

pub proof fn lemma_stmts_m_push(s: Seq<Stmt>, st: Stmt)
    ensures
        stmts_m(s.push(st)) == stmts_m(s).push(stmt_m(st)),
{
    assert(s.push(st).drop_last() =~= s);
}

pub proof fn lemma_strings_m_push(s: Seq<String>, t: String)
    ensures
        strings_m(s.push(t)) == strings_m(s).push(t@),
{
    assert(strings_m(s.push(t)) =~= strings_m(s).push(t@));
}

/// The models of a sequence of expressions are those of its items, in order.
pub proof fn lemma_exprs_m(s: Seq<Expr>)
    ensures
        exprs_m(s).len() == s.len(),
        forall|i: int| 0 <= i < s.len() ==> #[trigger] exprs_m(s)[i] == expr_m(s[i]),
    decreases s.len(),
{
    if s.len() > 0 {
        lemma_exprs_m(s.drop_last());
    }
}

/// The models of a sequence of statements are those of its items, in order.
pub proof fn lemma_stmts_m(s: Seq<Stmt>)
    ensures
        stmts_m(s).len() == s.len(),
        forall|i: int| 0 <= i < s.len() ==> #[trigger] stmts_m(s)[i] == stmt_m(s[i]),
    decreases s.len(),
{
    if s.len() > 0 {
        lemma_stmts_m(s.drop_last());
    }
}

impl Expr {
    /// A deep copy of this expression.
    pub fn copy(&self) -> (r: Expr)
        ensures
            r@ == self@,
        decreases self,
    {
        match self {
            Expr::Integer(n) => Expr::Integer(*n),
            Expr::Float(t) => Expr::Float(t.clone()),
            Expr::StringLit(t) => Expr::StringLit(t.clone()),
            Expr::Boolean(b) => Expr::Boolean(*b),
            Expr::Nil => Expr::Nil,
            Expr::Identifier(t) => Expr::Identifier(t.clone()),
            Expr::Assignment { name, value } => Expr::Assignment {
                name: name.clone(),
                value: Box::new((**value).copy()),
            },
            Expr::BinaryOp { left, op, right } => Expr::BinaryOp {
                left: Box::new((**left).copy()),
                op: *op,
                right: Box::new((**right).copy()),
            },
            Expr::UnaryOp { op, operand } => Expr::UnaryOp {
                op: *op,
                operand: Box::new((**operand).copy()),
            },
            Expr::Grouped(inner) => Expr::Grouped(Box::new((**inner).copy())),
            Expr::Call { callee, args } => Expr::Call { callee: callee.clone(), args: copy_exprs(args) },
        }
    }
}

/// A deep copy of a sequence of expressions.
pub fn copy_exprs(v: &Vec<Expr>) -> (r: Vec<Expr>)
    ensures
        exprs_m(r@) == exprs_m(v@),
    decreases v,
{
    let mut r: Vec<Expr> = Vec::new();
    let mut i: usize = 0;
    while i < v.len()
        invariant
            i <= v.len(),
            r@.len() == i,
            exprs_m(r@) == exprs_m(v@.take(i as int)),
        decreases v.len() - i,
    {
        let e = v[i].copy();
        proof {
            lemma_exprs_m_push(r@, e);
            lemma_exprs_m_push(v@.take(i as int), v@[i as int]);
            assert(v@.take(i as int).push(v@[i as int]) =~= v@.take(i + 1));
        }
        r.push(e);
        i += 1;
    }
    assert(v@.take(i as int) =~= v@);
    r
}

/// A deep copy of a sequence of names.
pub fn copy_strings(v: &Vec<String>) -> (r: Vec<String>)
    ensures
        strings_m(r@) == strings_m(v@),
{
    let mut r: Vec<String> = Vec::new();
    let mut i: usize = 0;
    while i < v.len()
        invariant
            i <= v.len(),
            r@.len() == i,
            strings_m(r@) == strings_m(v@.take(i as int)),
        decreases v.len() - i,
    {
        let t = v[i].clone();
        proof {
            lemma_strings_m_push(r@, t);
            lemma_strings_m_push(v@.take(i as int), v@[i as int]);
            assert(v@.take(i as int).push(v@[i as int]) =~= v@.take(i + 1));
        }
        r.push(t);
        i += 1;
    }
    assert(v@.take(i as int) =~= v@);
    r
}

impl Stmt {
    /// A deep copy of this statement.
    pub fn copy(&self) -> (r: Stmt)
        ensures
            r@ == self@,
        decreases self,
    {
        match self {
            Stmt::Make { name, init } => Stmt::Make { name: name.clone(), init: init.copy() },
            Stmt::Show { args } => Stmt::Show { args: copy_exprs(args) },
            Stmt::Return { value } => Stmt::Return {
                value: match value {
                    Some(e) => Some(e.copy()),
                    None => None,
                },
            },
            Stmt::When { condition, then_body, else_body } => Stmt::When {
                condition: condition.copy(),
                then_body: copy_stmts(then_body),
                else_body: match else_body {
                    Some(b) => Some(copy_stmts(b)),
                    None => None,
                },
            },
            Stmt::During { condition, body } => Stmt::During {
                condition: condition.copy(),
                body: copy_stmts(body),
            },
            Stmt::For { init, condition, update, body } => Stmt::For {
                init: match init {
                    Some(s) => Some(Box::new((**s).copy())),
                    None => None,
                },
                condition: match condition {
                    Some(e) => Some(e.copy()),
                    None => None,
                },
                update: match update {
                    Some(e) => Some(Box::new((**e).copy())),
                    None => None,
                },
                body: copy_stmts(body),
            },
            Stmt::FuncDef { name, return_type, params, body } => Stmt::FuncDef {
                name: name.clone(),
                return_type: *return_type,
                params: copy_strings(params),
                body: copy_stmts(body),
            },
            Stmt::ExprStmt(e) => Stmt::ExprStmt(e.copy()),
        }
    }
}

/// A deep copy of a sequence of statements.
pub fn copy_stmts(v: &Vec<Stmt>) -> (r: Vec<Stmt>)
    ensures
        stmts_m(r@) == stmts_m(v@),
    decreases v,
{
    let mut r: Vec<Stmt> = Vec::new();
    let mut i: usize = 0;
    while i < v.len()
        invariant
            i <= v.len(),
            r@.len() == i,
            stmts_m(r@) == stmts_m(v@.take(i as int)),
        decreases v.len() - i,
    {
        let st = v[i].copy();
        proof {
            lemma_stmts_m_push(r@, st);
            lemma_stmts_m_push(v@.take(i as int), v@[i as int]);
            assert(v@.take(i as int).push(v@[i as int]) =~= v@.take(i + 1));
        }
        r.push(st);
        i += 1;
    }
    assert(v@.take(i as int) =~= v@);
    r
}

impl Clone for Expr {
    fn clone(&self) -> (r: Self)
        ensures
            r@ == self@,
    {
        self.copy()
    }
}

impl Clone for Stmt {
    fn clone(&self) -> (r: Self)
        ensures
            r@ == self@,
    {
        self.copy()
    }
}

} // verus!
