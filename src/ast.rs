use crate::span::Span;
use vstd::prelude::*;

verus! {

/// A literal as written: a number keeps its digits, a boolean its value.
#[derive(Clone, Debug, PartialEq)]
pub enum Literal {
    Number(String),
    Bool(bool),
}

/// Binary operators; unary minus reuses `Subtract`.
#[derive(Clone, Copy, Debug, PartialEq, Eq, Structural)]
pub enum Op {
    Add,
    Subtract,
    Multiply,
    Divide,
}

#[derive(Debug, PartialEq)]
pub struct BinaryExpr {
    pub left: ASTNode,
    pub op: Op,
    pub right: ASTNode,
}

#[derive(Debug, PartialEq)]
pub struct UnaryExpr {
    pub op: Op,
    pub arg: ASTNode,
}

#[derive(Debug, PartialEq)]
pub struct ParenExpr {
    pub expr: ASTNode,
}

/// An expression node with the span of source it covers.
#[derive(Debug, PartialEq)]
pub enum ASTNode {
    BinaryExpr(Box<BinaryExpr>, Span),
    Literal(Literal, Span),
    UnaryExpr(Box<UnaryExpr>, Span),
    ParenExpr(Box<ParenExpr>, Span),
}

/// The parsed program: its expressions in order.
#[derive(Debug, PartialEq)]
pub struct AST {
    pub items: Vec<ASTNode>,
}

/// The mathematical shape of an expression tree, spans as `[start, end)`.
pub enum Expr {
    Number { digits: Seq<char>, start: int, end: int },
    Bool { value: bool, start: int, end: int },
    Binary { left: Box<Expr>, op: Op, right: Box<Expr>, start: int, end: int },
    Unary { op: Op, arg: Box<Expr>, start: int, end: int },
    Paren { inner: Box<Expr>, start: int, end: int },
}

impl Expr {
    pub open spec fn start(self) -> int {
        match self {
            Expr::Number { start, .. } => start,
            Expr::Bool { start, .. } => start,
            Expr::Binary { start, .. } => start,
            Expr::Unary { start, .. } => start,
            Expr::Paren { start, .. } => start,
        }
    }

    pub open spec fn end(self) -> int {
        match self {
            Expr::Number { end, .. } => end,
            Expr::Bool { end, .. } => end,
            Expr::Binary { end, .. } => end,
            Expr::Unary { end, .. } => end,
            Expr::Paren { end, .. } => end,
        }
    }
}

pub open spec fn literal_expr(l: Literal, span: Span) -> Expr {
    match l {
        Literal::Number(s) => Expr::Number { digits: s@, start: span.start as int, end: span.end as int },
        Literal::Bool(b) => Expr::Bool { value: b, start: span.start as int, end: span.end as int },
    }
}

/// The model of a node.
pub open spec fn node_expr(n: ASTNode) -> Expr
    decreases n,
{
    match n {
        ASTNode::Literal(l, span) => literal_expr(l, span),
        ASTNode::BinaryExpr(b, span) => Expr::Binary {
            left: Box::new(node_expr(b.left)),
            op: b.op,
            right: Box::new(node_expr(b.right)),
            start: span.start as int,
            end: span.end as int,
        },
        ASTNode::UnaryExpr(u, span) => Expr::Unary {
            op: u.op,
            arg: Box::new(node_expr(u.arg)),
            start: span.start as int,
            end: span.end as int,
        },
        ASTNode::ParenExpr(p, span) => Expr::Paren {
            inner: Box::new(node_expr(p.expr)),
            start: span.start as int,
            end: span.end as int,
        },
    }
}

impl View for ASTNode {
    type V = Expr;

    open spec fn view(&self) -> Expr {
        node_expr(*self)
    }
}

impl ASTNode {
    /// The span this node covers.
    pub fn position(&self) -> (r: Span)
        ensures
            r.start == self@.start(),
            r.end == self@.end(),
    {
        match self {
            ASTNode::BinaryExpr(_, pos) => *pos,
            ASTNode::Literal(_, pos) => *pos,
            ASTNode::UnaryExpr(_, pos) => *pos,
            ASTNode::ParenExpr(_, pos) => *pos,
        }
    }
}

impl AST {
    pub fn new(items: Vec<ASTNode>) -> (r: AST)
        ensures
            r.items@ == items@,
    {
        AST { items }
    }
}

} // verus!
