//! The abstract syntax tree produced by the parser.
use vstd::prelude::*;

verus! {

/// Types of the language
#[derive(Debug, Clone, Copy, PartialEq, Eq, Structural)]
pub enum Type {
    Int,
    Float,
    Bool,
    Str,
    Unit,
    Unknown,
}

/// The name of a type as `Debug` writes it.
pub open spec fn type_text(t: Type) -> Seq<char> {
    match t {
        Type::Int => "Int"@,
        Type::Float => "Float"@,
        Type::Bool => "Bool"@,
        Type::Str => "Str"@,
        Type::Unit => "Unit"@,
        Type::Unknown => "Unknown"@,
    }
}

/// The name of a type as `Debug` writes it.
pub fn type_str(t: Type) -> (r: &'static str)
    ensures
        r@ == type_text(t),
{
    match t {
        Type::Int => "Int",
        Type::Float => "Float",
        Type::Bool => "Bool",
        Type::Str => "Str",
        Type::Unit => "Unit",
        Type::Unknown => "Unknown",
    }
}

/// Binary operators of the source language
#[derive(Debug, Clone, Copy, PartialEq, Eq, Structural)]
pub enum BinOp {
    Add,
    Sub,
    Mul,
    Div,
    Mod,
    Eq,
    Ne,
    Lt,
    Gt,
    Le,
    Ge,
    And,
    Or,
}

/// Expressions
#[derive(Debug)]
pub enum Expr {
    IntLit(i64),
    /// A floating-point literal, kept as its decimal text.
    FloatLit(String),
    BoolLit(bool),
    StrLit(String),
    Var(String),
    BinOp { op: BinOp, left: Box<Expr>, right: Box<Expr> },
    Call { func: String, args: Vec<Expr> },
    If { cond: Box<Expr>, then_: Box<Expr>, else_: Option<Box<Expr>> },
}

/// Statements
#[derive(Debug)]
pub enum Stmt {
    Let { name: String, ty: Option<Type>, init: Expr },
    Assign { name: String, value: Expr },
    Return(Expr),
    ExprStmt(Expr),
    Block(Vec<Stmt>),
    While { cond: Expr, body: Vec<Stmt> },
    If { cond: Expr, then_body: Vec<Stmt>, else_body: Option<Vec<Stmt>> },
}

/// An expression with its names and texts as character sequences.
pub enum ExprV {
    IntLit(i64),
    FloatLit(Seq<char>),
    BoolLit(bool),
    StrLit(Seq<char>),
    Var(Seq<char>),
    BinOp { op: BinOp, left: Box<ExprV>, right: Box<ExprV> },
    Call { func: Seq<char>, args: Seq<ExprV> },
    If { cond: Box<ExprV>, then_: Box<ExprV>, else_: Option<Box<ExprV>> },
}

/// A statement with its names and texts as character sequences.
pub enum StmtV {
    Let { name: Seq<char>, ty: Option<Type>, init: ExprV },
    Assign { name: Seq<char>, value: ExprV },
    Return(ExprV),
    ExprStmt(ExprV),
    Block(Seq<StmtV>),
    While { cond: ExprV, body: Seq<StmtV> },
    If { cond: ExprV, then_body: Seq<StmtV>, else_body: Option<Seq<StmtV>> },
}

pub open spec fn expr_view(e: Expr) -> ExprV
    decreases e,
{
    match e {
        Expr::IntLit(n) => ExprV::IntLit(n),
        Expr::FloatLit(s) => ExprV::FloatLit(s@),
        Expr::BoolLit(b) => ExprV::BoolLit(b),
        Expr::StrLit(s) => ExprV::StrLit(s@),
        Expr::Var(s) => ExprV::Var(s@),
        Expr::BinOp { op, left, right } => ExprV::BinOp {
            op,
            left: Box::new(expr_view(*left)),
            right: Box::new(expr_view(*right)),
        },
        Expr::Call { func, args } => ExprV::Call {
            func: func@,
            args: exprs_view(args@),
        },
        Expr::If { cond, then_, else_ } => ExprV::If {
            cond: Box::new(expr_view(*cond)),
            then_: Box::new(expr_view(*then_)),
            else_: match else_ {
                Some(x) => Some(Box::new(expr_view(*x))),
                None => None,
            },
        },
    }
}

pub open spec fn stmt_view(s: Stmt) -> StmtV
    decreases s,
{
    match s {
        Stmt::Let { name, ty, init } => StmtV::Let { name: name@, ty, init: expr_view(init) },
        Stmt::Assign { name, value } => StmtV::Assign { name: name@, value: expr_view(value) },
        Stmt::Return(e) => StmtV::Return(expr_view(e)),
        Stmt::ExprStmt(e) => StmtV::ExprStmt(expr_view(e)),
        Stmt::Block(b) => StmtV::Block(stmts_view(b@)),
        Stmt::While { cond, body } => StmtV::While {
            cond: expr_view(cond),
            body: stmts_view(body@),
        },
        Stmt::If { cond, then_body, else_body } => StmtV::If {
            cond: expr_view(cond),
            then_body: stmts_view(then_body@),
            else_body: match else_body {
                Some(b) => Some(stmts_view(b@)),
                None => None,
            },
        },
    }
}

impl View for Expr {
    type V = ExprV;

    open spec fn view(&self) -> ExprV {
        expr_view(*self)
    }
}

impl View for Stmt {
    type V = StmtV;

    open spec fn view(&self) -> StmtV {
        stmt_view(*self)
    }
}

/// The views of a sequence of statements.
pub open spec fn stmts_view(v: Seq<Stmt>) -> Seq<StmtV>
    decreases v,
{
    Seq::new(v.len(), |i: int| if 0 <= i < v.len() { stmt_view(v[i]) } else { StmtV::Block(Seq::empty()) })
}

/// The views of a sequence of expressions.
pub open spec fn exprs_view(v: Seq<Expr>) -> Seq<ExprV>
    decreases v,
{
    Seq::new(v.len(), |i: int| if 0 <= i < v.len() { expr_view(v[i]) } else { ExprV::IntLit(0) })
}

} // verus!
