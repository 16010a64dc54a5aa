//! The expression tree that parsing produces: literal, unary, binary and
//! grouping nodes, each owning its children.

use vstd::prelude::*;

use crate::token::{Token, TokenModel};

verus! {

/// One node of the expression tree. The variant set is closed; every node
/// exclusively owns its children, so the tree is acyclic and never shared.
#[derive(Debug)]
pub enum Expr {
    Binary(BinaryExpr),
    Grouping(GroupingExpr),
    Literal(LiteralExpr),
    Unary(UnaryExpr),
}

/// A binary application: left operand, right operand, operator token.
#[derive(Debug)]
pub struct BinaryExpr {
    pub left: Box<Expr>,
    pub right: Box<Expr>,
    pub operator: Token,
}

/// A parenthesised sub-expression.
#[derive(Debug)]
pub struct GroupingExpr {
    pub expression: Box<Expr>,
}

/// A literal leaf carrying the token it was made from.
#[derive(Debug)]
pub struct LiteralExpr {
    pub value: Token,
}

/// A prefix application: operator token and operand.
#[derive(Debug)]
pub struct UnaryExpr {
    pub operator: Token,
    pub right: Box<Expr>,
}

/// The mathematical model of an expression tree.
pub enum ExprModel {
    Binary(Box<ExprModel>, TokenModel, Box<ExprModel>),
    Grouping(Box<ExprModel>),
    Literal(TokenModel),
    Unary(TokenModel, Box<ExprModel>),
}

/// The model of an expression tree node, children included.
pub open spec fn expr_model(e: Expr) -> ExprModel
    decreases e,
{
    match e {
        Expr::Binary(b) => ExprModel::Binary(
            Box::new(expr_model(*b.left)),
            b.operator@,
            Box::new(expr_model(*b.right)),
        ),
        Expr::Grouping(g) => ExprModel::Grouping(Box::new(expr_model(*g.expression))),
        Expr::Literal(l) => ExprModel::Literal(l.value@),
        Expr::Unary(u) => ExprModel::Unary(u.operator@, Box::new(expr_model(*u.right))),
    }
}

impl View for Expr {
    type V = ExprModel;

    open spec fn view(&self) -> ExprModel {
        expr_model(*self)
    }
}

impl BinaryExpr {
    pub fn new(left: Box<Expr>, right: Box<Expr>, operator: Token) -> (e: Self)
        ensures
            e.left == left,
            e.right == right,
            e.operator == operator,
    {
        Self { left, right, operator }
    }
}

impl GroupingExpr {
    pub fn new(expression: Box<Expr>) -> (e: Self)
        ensures
            e.expression == expression,
    {
        Self { expression }
    }

    pub fn expression(&self) -> (r: &Expr)
        ensures
            *r == *self.expression,
    {
        &*self.expression
    }
}

impl LiteralExpr {
    pub fn new(value: Token) -> (e: Self)
        ensures
            e.value == value,
    {
        Self { value }
    }

    pub fn value(&self) -> (t: &Token)
        ensures
            *t == self.value,
    {
        &self.value
    }
}

impl UnaryExpr {
    pub fn new(operator: Token, right: Box<Expr>) -> (e: Self)
        ensures
            e.operator == operator,
            e.right == right,
    {
        Self { operator, right }
    }

    pub fn right(&self) -> (r: &Expr)
        ensures
            *r == *self.right,
    {
        &*self.right
    }

    pub fn operator(&self) -> (t: &Token)
        ensures
            *t == self.operator,
    {
        &self.operator
    }
}

} // verus!
