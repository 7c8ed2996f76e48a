//! The syntax tree of an expression.
use vstd::prelude::*;
use crate::number::Number;
use crate::token::{Token, TokenView};

verus! {

/// A literal value embedded in the tree.
pub enum Literal {
    Number(Number),
    String(Vec<char>),
    Boolean(bool),
    Nil,
}

/// An expression. Each node owns its children.
pub enum Expr {
    Binary(Binary),
    Unary(Unary),
    Grouping(Grouping),
    Literal(Literal),
    /// A name, kept as its token; no bindings exist in this language.
    Variable(Token),
}

pub struct Binary {
    pub left: Box<Expr>,
    pub operator: Token,
    pub right: Box<Expr>,
}

pub struct Unary {
    pub operator: Token,
    pub right: Box<Expr>,
}

/// A parenthesised expression, kept as a node of its own.
pub struct Grouping {
    pub expression: Box<Expr>,
}

pub enum LiteralView {
    Number(Number),
    String(Seq<char>),
    Boolean(bool),
    Nil,
}

/// The mathematical value of an expression.
pub enum ExprView {
    Binary(Box<ExprView>, TokenView, Box<ExprView>),
    Unary(TokenView, Box<ExprView>),
    Grouping(Box<ExprView>),
    Literal(LiteralView),
    Variable(TokenView),
}

pub open spec fn literal_view(l: &Literal) -> LiteralView {
    match l {
        Literal::Number(n) => LiteralView::Number(*n),
        Literal::String(s) => LiteralView::String(s@),
        Literal::Boolean(b) => LiteralView::Boolean(*b),
        Literal::Nil => LiteralView::Nil,
    }
}

pub open spec fn expr_view(e: &Expr) -> ExprView
    decreases e,
{
    match e {
        Expr::Binary(b) => ExprView::Binary(
            Box::new(expr_view(&*b.left)),
            b.operator@,
            Box::new(expr_view(&*b.right)),
        ),
        Expr::Unary(u) => ExprView::Unary(u.operator@, Box::new(expr_view(&*u.right))),
        Expr::Grouping(g) => ExprView::Grouping(Box::new(expr_view(&*g.expression))),
        Expr::Literal(l) => ExprView::Literal(literal_view(l)),
        Expr::Variable(t) => ExprView::Variable(t@),
    }
}

impl View for Literal {
    type V = LiteralView;

    open spec fn view(&self) -> LiteralView {
        literal_view(self)
    }
}

impl View for Expr {
    type V = ExprView;

    open spec fn view(&self) -> ExprView {
        expr_view(self)
    }
}

impl Binary {
    pub fn new(left: Box<Expr>, operator: Token, right: Box<Expr>) -> (r: Self)
        ensures
            r.left == left,
            r.operator == operator,
            r.right == right,
    {
        Self { left, operator, right }
    }
}

impl Unary {
    pub fn new(operator: Token, right: Box<Expr>) -> (r: Self)
        ensures
            r.operator == operator,
            r.right == right,
    {
        Self { operator, right }
    }
}

impl Grouping {
    pub fn new(expression: Box<Expr>) -> (r: Self)
        ensures
            r.expression == expression,
    {
        Self { expression }
    }
}

/// An operation over syntax trees, with one handler per node variant. A new
/// operation is a new implementor; the node types stay as they are.
pub trait AstVisitor<R, C> {
    fn process(&mut self, expr: &Expr, context: Option<&C>) -> R;

    fn visit_binary(&mut self, binary: &Binary, context: Option<&C>) -> R;

    fn visit_unary(&mut self, unary: &Unary, context: Option<&C>) -> R;

    fn visit_grouping(&mut self, grouping: &Grouping, context: Option<&C>) -> R;

    fn visit_literal(&mut self, literal: &Literal, context: Option<&C>) -> R;

    fn visit_variable(&mut self, name: &Token, context: Option<&C>) -> R;
}

/// A node that hands itself to the matching handler of an operation.
///
/// `accept` carries no contract: what a handler does is up to each operation.
/// The verified operations state their results on their own entry points
/// (`Interpreter::process`, `AstPrinter::process`), which dispatch with a
/// `match` of their own.
pub trait Walkable {
    fn accept<R, C, V: AstVisitor<R, C>>(&self, visitor: &mut V, context: Option<&C>) -> R;
}

impl Walkable for Expr {
    fn accept<R, C, V: AstVisitor<R, C>>(&self, visitor: &mut V, context: Option<&C>) -> R {
        match self {
            Expr::Binary(b) => visitor.visit_binary(b, context),
            Expr::Unary(u) => visitor.visit_unary(u, context),
            Expr::Grouping(g) => visitor.visit_grouping(g, context),
            Expr::Literal(l) => visitor.visit_literal(l, context),
            Expr::Variable(t) => visitor.visit_variable(t, context),
        }
    }
}

} // verus!
