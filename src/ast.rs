//! The syntax tree shared by the parser and the interpreter.
use vstd::prelude::*;

verus! {

/// A runtime value: a signed 64-bit number or a piece of text.
pub enum Value {
    Number(i64),
    Text(String),
}

/// An expression.
pub enum Expr {
    Value(Value),
    Var(String),
    BinaryOp(Box<Expr>, String, Box<Expr>),
    FuncCall(String),
    KeyPressed(String),
}

/// A statement.
pub enum Stmt {
    Make(String, Option<Expr>, Vec<Stmt>),
    Change(String, Expr),
    Say(Vec<Expr>),
    If(Expr, Vec<Stmt>),
    Repeat(Expr, Vec<Stmt>),
    ExprStmt(Expr),
    Forever(Vec<Stmt>),
}

/// The mathematical model of a `Value`.
pub ghost enum Val {
    Num(i64),
    Txt(Seq<char>),
}

/// The mathematical model of an `Expr`.
pub ghost enum ExprView {
    Lit(Val),
    Var(Seq<char>),
    Bin(Box<ExprView>, Seq<char>, Box<ExprView>),
    Call(Seq<char>),
    Key(Seq<char>),
}

/// The mathematical model of a `Stmt`.
pub ghost enum StmtView {
    Make(Seq<char>, Option<ExprView>, Seq<StmtView>),
    Change(Seq<char>, ExprView),
    Say(Seq<ExprView>),
    If(ExprView, Seq<StmtView>),
    Repeat(ExprView, Seq<StmtView>),
    ExprStmt(ExprView),
    Forever(Seq<StmtView>),
}

impl View for Value {
    type V = Val;

    open spec fn view(&self) -> Val {
        match self {
            Value::Number(n) => Val::Num(*n),
            Value::Text(s) => Val::Txt(s@),
        }
    }
}

/// The model of an expression.
pub open spec fn expr_model(e: Expr) -> ExprView
    decreases e,
{
    match e {
        Expr::Value(v) => ExprView::Lit(v@),
        Expr::Var(n) => ExprView::Var(n@),
        Expr::BinaryOp(l, op, r) => ExprView::Bin(Box::new(expr_model(*l)), op@, Box::new(expr_model(*r))),
        Expr::FuncCall(n) => ExprView::Call(n@),
        Expr::KeyPressed(k) => ExprView::Key(k@),
    }
}

impl View for Expr {
    type V = ExprView;

    open spec fn view(&self) -> ExprView {
        expr_model(*self)
    }
}

/// The models of a sequence of expressions.
pub open spec fn exprs_view(es: Seq<Expr>) -> Seq<ExprView> {
    Seq::new(es.len(), |i: int| expr_model(es[i]))
}

/// The model of a statement.
pub open spec fn stmt_model(s: Stmt) -> StmtView
    decreases s,
{
    match s {
        Stmt::Make(n, e, b) => StmtView::Make(
            n@,
            match e {
                Some(x) => Some(expr_model(x)),
                None => None,
            },
            Seq::new(b@.len(), |i: int| if 0 <= i < b@.len() { stmt_model(b@[i]) } else { StmtView::Say(seq![]) }),
        ),
        Stmt::Change(n, e) => StmtView::Change(n@, expr_model(e)),
        Stmt::Say(es) => StmtView::Say(exprs_view(es@)),
        Stmt::If(c, b) => StmtView::If(
            expr_model(c),
            Seq::new(b@.len(), |i: int| if 0 <= i < b@.len() { stmt_model(b@[i]) } else { StmtView::Say(seq![]) }),
        ),
        Stmt::Repeat(c, b) => StmtView::Repeat(
            expr_model(c),
            Seq::new(b@.len(), |i: int| if 0 <= i < b@.len() { stmt_model(b@[i]) } else { StmtView::Say(seq![]) }),
        ),
        Stmt::ExprStmt(e) => StmtView::ExprStmt(expr_model(e)),
        Stmt::Forever(b) => StmtView::Forever(
            Seq::new(b@.len(), |i: int| if 0 <= i < b@.len() { stmt_model(b@[i]) } else { StmtView::Say(seq![]) }),
        ),
    }
}

impl View for Stmt {
    type V = StmtView;

    open spec fn view(&self) -> StmtView {
        stmt_model(*self)
    }
}

/// The models of a sequence of statements.
pub open spec fn stmts_view(b: Seq<Stmt>) -> Seq<StmtView> {
    Seq::new(b.len(), |i: int| stmt_model(b[i]))
}

/// The body of a statement that has one, empty for the others.
pub open spec fn body_of(s: StmtView) -> Seq<StmtView> {
    match s {
        StmtView::Make(_, _, b) => b,
        StmtView::If(_, b) => b,
        StmtView::Repeat(_, b) => b,
        StmtView::Forever(b) => b,
        _ => seq![],
    }
}

/// The model of a statement keeps its body's statements in order.
pub proof fn lemma_body_view(s: Stmt)
    ensures
        match s {
            Stmt::Make(_, _, b) => body_of(s@) == stmts_view(b@),
            Stmt::If(_, b) => body_of(s@) == stmts_view(b@),
            Stmt::Repeat(_, b) => body_of(s@) == stmts_view(b@),
            Stmt::Forever(b) => body_of(s@) == stmts_view(b@),
            _ => true,
        },
{
    match s {
        Stmt::Make(_, _, b) => assert(body_of(s@) =~= stmts_view(b@)),
        Stmt::If(_, b) => assert(body_of(s@) =~= stmts_view(b@)),
        Stmt::Repeat(_, b) => assert(body_of(s@) =~= stmts_view(b@)),
        Stmt::Forever(b) => assert(body_of(s@) =~= stmts_view(b@)),
        _ => {},
    }
}

impl Value {
    /// A copy of this value.
    pub fn duplicate(&self) -> (r: Value)
        ensures
            r == *self,
    {
        match self {
            Value::Number(n) => Value::Number(*n),
            Value::Text(s) => Value::Text(s.clone()),
        }
    }
}

} // verus!
