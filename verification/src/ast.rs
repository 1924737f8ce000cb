//! The syntax tree that the parser builds and the evaluator walks.
//!
//! Function bodies, parameter lists and class method lists are shared behind
//! `Rc`, because a function or class declaration turns into a runtime value
//! that holds on to its (unevaluated) syntax.

use std::rc::Rc;
use vstd::prelude::*;

verus! {

broadcast use vstd::std_specs::vec::axiom_vec_decreases_to_view;

/// A literal expression.
#[derive(Debug, PartialEq)]
pub enum Literal {
    Number(i64),
    Str(String),
    Bool(bool),
    Nil,
}

/// A binary operator.
#[derive(Debug, Clone, Copy, PartialEq, Eq, Structural)]
pub enum BinaryOp {
    Add,
    Sub,
    Mul,
    Div,
    Greater,
    GreaterEqual,
    Less,
    LessEqual,
    EqualEqual,
    BangEqual,
}

/// A short-circuiting logical operator.
#[derive(Debug, Clone, Copy, PartialEq, Eq, Structural)]
pub enum LogicalOp {
    And,
    Or,
}

/// A unary operator.
#[derive(Debug, Clone, Copy, PartialEq, Eq, Structural)]
pub enum UnaryOp {
    Neg,
    Not,
}

/// An expression node.
#[derive(Debug, PartialEq)]
pub enum Expr {
    Literal(Literal),
    Variable(String),
    Assign { name: String, value: Box<Expr> },
    Logical { op: LogicalOp, left: Box<Expr>, right: Box<Expr> },
    Binary { op: BinaryOp, left: Box<Expr>, right: Box<Expr> },
    Unary { op: UnaryOp, right: Box<Expr> },
    Call { callee: Box<Expr>, arguments: Vec<Expr> },
    Get { object: Box<Expr>, name: String },
    SetField { object: Box<Expr>, name: String, value: Box<Expr> },
    This,
    Super { method: String },
    Grouping(Box<Expr>),
}

/// A statement node. `for` loops do not appear here: the parser desugars
/// them into an initializer block around a `While` statement, so the
/// evaluator has a single looping code path.
#[derive(Debug, PartialEq)]
pub enum Stmt {
    Expr(Expr),
    Print(Expr),
    Var { name: String, initializer: Option<Expr> },
    Block(Vec<Stmt>),
    If { condition: Expr, then_branch: Box<Stmt>, else_branch: Option<Box<Stmt>> },
    While { condition: Expr, body: Box<Stmt> },
    Function { name: String, params: Rc<Vec<String>>, body: Rc<Vec<Stmt>> },
    Return { value: Option<Expr> },
    Class { name: String, superclass: Option<String>, methods: Rc<Vec<Stmt>> },
}

/// Structural size of an expression, used as a termination measure when
/// walking the tree. Every node counts at least 1.
pub open spec fn expr_size(e: Expr) -> nat
    decreases e,
{
    match e {
        Expr::Literal(_) => 1,
        Expr::Variable(_) => 1,
        Expr::Assign { value, .. } => 1 + expr_size(*value),
        Expr::Logical { left, right, .. } => 1 + expr_size(*left) + expr_size(*right),
        Expr::Binary { left, right, .. } => 1 + expr_size(*left) + expr_size(*right),
        Expr::Unary { right, .. } => 1 + expr_size(*right),
        Expr::Call { callee, arguments } => 1 + expr_size(*callee) + exprs_size(arguments@),
        Expr::Get { object, .. } => 1 + expr_size(*object),
        Expr::SetField { object, value, .. } => 1 + expr_size(*object) + expr_size(*value),
        Expr::This => 1,
        Expr::Super { .. } => 1,
        Expr::Grouping(inner) => 1 + expr_size(*inner),
    }
}

/// Structural size of a sequence of expressions.
pub open spec fn exprs_size(es: Seq<Expr>) -> nat
    decreases es,
{
    if es.len() == 0 {
        0
    } else {
        1 + expr_size(es[0]) + exprs_size(es.drop_first())
    }
}

/// Structural size of a statement. Function and class declarations count as
/// leaves: declaring them does not walk their bodies (the bodies are walked
/// only when they are later called, which spends evaluation budget).
pub open spec fn stmt_size(s: Stmt) -> nat
    decreases s,
{
    match s {
        Stmt::Expr(e) => 1 + expr_size(e),
        Stmt::Print(e) => 1 + expr_size(e),
        Stmt::Var { initializer, .. } => 1 + match initializer {
            Some(e) => expr_size(e),
            None => 0,
        },
        Stmt::Block(v) => 1 + stmts_size(v@),
        Stmt::If { condition, then_branch, else_branch } => 1 + expr_size(condition) + stmt_size(
            *then_branch,
        ) + match else_branch {
            Some(b) => stmt_size(*b),
            None => 0,
        },
        Stmt::While { condition, body } => 1 + expr_size(condition) + stmt_size(*body),
        Stmt::Function { .. } => 1,
        Stmt::Return { value } => 1 + match value {
            Some(e) => expr_size(e),
            None => 0,
        },
        Stmt::Class { .. } => 1,
    }
}

/// Structural size of a sequence of statements.
pub open spec fn stmts_size(ss: Seq<Stmt>) -> nat
    decreases ss,
{
    if ss.len() == 0 {
        0
    } else {
        1 + stmt_size(ss[0]) + stmts_size(ss.drop_first())
    }
}

/// Unfolding lemma: the size of any element or tail of a statement sequence
/// is below the size of the whole sequence.
pub proof fn lemma_stmts_size_element(ss: Seq<Stmt>, i: int)
    requires
        0 <= i < ss.len(),
    ensures
        stmt_size(ss[i]) < stmts_size(ss),
    decreases ss.len(),
{
    if i == 0 {
    } else {
        lemma_stmts_size_element(ss.drop_first(), i - 1);
        assert(ss.drop_first()[i - 1] == ss[i]);
    }
}

/// Unfolding lemma: the size of any element of an expression sequence is
/// below the size of the whole sequence.
pub proof fn lemma_exprs_size_element(es: Seq<Expr>, i: int)
    requires
        0 <= i < es.len(),
    ensures
        expr_size(es[i]) < exprs_size(es),
    decreases es.len(),
{
    if i == 0 {
    } else {
        lemma_exprs_size_element(es.drop_first(), i - 1);
        assert(es.drop_first()[i - 1] == es[i]);
    }
}

} // verus!
