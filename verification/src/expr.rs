//! The expression tree and the visitor that walks it.

use vstd::prelude::*;
use crate::token::{Literal as LoxLiteral, LiteralView, Token, TokenView};

verus! {

/// An expression: a strict tree, each node owning its children.
pub enum Expr {
    Binary(Binary),
    Grouping(Grouping),
    Literal(Literal),
    Unary(Unary),
}

/// An infix application.
pub struct Binary {
    pub left: Box<Expr>,
    pub operator: Token,
    pub right: Box<Expr>,
}

/// A parenthesized expression.
pub struct Grouping {
    pub expression: Box<Expr>,
}

/// A literal constant.
pub struct Literal {
    pub value: LoxLiteral,
}

/// A prefix application.
pub struct Unary {
    pub operator: Token,
    pub right: Box<Expr>,
}

/// The mathematical value of an [`Expr`].
pub enum ExprView {
    Binary { left: Box<ExprView>, operator: TokenView, right: Box<ExprView> },
    Grouping { expression: Box<ExprView> },
    Literal { value: LiteralView },
    Unary { operator: TokenView, right: Box<ExprView> },
}

/// The value of the tree `e`, node by node.
pub open spec fn tree(e: Expr) -> ExprView
    decreases e,
{
    match e {
        Expr::Binary(binary) => ExprView::Binary {
            left: Box::new(tree(*binary.left)),
            operator: binary.operator@,
            right: Box::new(tree(*binary.right)),
        },
        Expr::Grouping(grouping) => ExprView::Grouping {
            expression: Box::new(tree(*grouping.expression)),
        },
        Expr::Literal(literal) => ExprView::Literal { value: literal.value@ },
        Expr::Unary(unary) => ExprView::Unary {
            operator: unary.operator@,
            right: Box::new(tree(*unary.right)),
        },
    }
}

impl View for Expr {
    type V = ExprView;

    open spec fn view(&self) -> ExprView {
        tree(*self)
    }
}

/// A traversal of expression trees with results of type `T`: one method for
/// each kind of node.
///
/// `visits` says what a visit may do: whether a visit of `expr` that starts
/// with the visitor in state `pre` can leave it in state `post` and return
/// `out`. Each method promises it of the node it is given.
pub trait Visitor<T>: Sized {
    open spec fn visits(pre: Self, expr: Expr, post: Self, out: T) -> bool {
        true
    }

    fn visit_binary_expr(&mut self, binary: &Binary) -> (out: T)
        ensures
            Self::visits(*old(self), Expr::Binary(*binary), *final(self), out),
    ;

    fn visit_grouping_expr(&mut self, grouping: &Grouping) -> (out: T)
        ensures
            Self::visits(*old(self), Expr::Grouping(*grouping), *final(self), out),
    ;

    fn visit_literal_expr(&mut self, literal: &Literal) -> (out: T)
        ensures
            Self::visits(*old(self), Expr::Literal(*literal), *final(self), out),
    ;

    fn visit_unary_expr(&mut self, unary: &Unary) -> (out: T)
        ensures
            Self::visits(*old(self), Expr::Unary(*unary), *final(self), out),
    ;
}

impl Expr {
    /// Hands the node to the method of `visitor` that is meant for its kind.
    pub fn accept<R, V: Visitor<R>>(&self, visitor: &mut V) -> (out: R)
        ensures
            V::visits(*old(visitor), *self, *final(visitor), out),
    {
        match self {
            Expr::Binary(binary) => binary.accept(visitor),
            Expr::Grouping(grouping) => grouping.accept(visitor),
            Expr::Literal(literal) => literal.accept(visitor),
            Expr::Unary(unary) => unary.accept(visitor),
        }
    }
}

impl Binary {
    pub fn new(left: Expr, operator: Token, right: Expr) -> (node: Self)
        ensures
            node == (Binary { left: Box::new(left), operator, right: Box::new(right) }),
    {
        Binary { left: Box::new(left), operator, right: Box::new(right) }
    }

    pub fn accept<R, V: Visitor<R>>(&self, visitor: &mut V) -> (out: R)
        ensures
            V::visits(*old(visitor), Expr::Binary(*self), *final(visitor), out),
    {
        visitor.visit_binary_expr(self)
    }
}

impl Grouping {
    pub fn new(expression: Expr) -> (node: Self)
        ensures
            node == (Grouping { expression: Box::new(expression) }),
    {
        Grouping { expression: Box::new(expression) }
    }

    pub fn accept<R, V: Visitor<R>>(&self, visitor: &mut V) -> (out: R)
        ensures
            V::visits(*old(visitor), Expr::Grouping(*self), *final(visitor), out),
    {
        visitor.visit_grouping_expr(self)
    }
}

impl Literal {
    pub fn new(value: LoxLiteral) -> (node: Self)
        ensures
            node == (Literal { value }),
    {
        Literal { value }
    }

    pub fn accept<R, V: Visitor<R>>(&self, visitor: &mut V) -> (out: R)
        ensures
            V::visits(*old(visitor), Expr::Literal(*self), *final(visitor), out),
    {
        visitor.visit_literal_expr(self)
    }
}

impl Unary {
    pub fn new(operator: Token, right: Expr) -> (node: Self)
        ensures
            node == (Unary { operator, right: Box::new(right) }),
    {
        Unary { operator, right: Box::new(right) }
    }

    pub fn accept<R, V: Visitor<R>>(&self, visitor: &mut V) -> (out: R)
        ensures
            V::visits(*old(visitor), Expr::Unary(*self), *final(visitor), out),
    {
        visitor.visit_unary_expr(self)
    }
}

} // verus!
