//! The typed abstract syntax tree handed to the intermediate-language
//! generator: expressions annotated with a resolved scalar type and a
//! source position, and the statements that contain them.

use vstd::prelude::*;
pub use crate::utils::{Const, Position, WithPos};

verus! {

/// Resolved scalar type of an expression. `Unknown` is the placeholder
/// the parser leaves behind; semantic analysis must resolve it before
/// the tree reaches the intermediate-language generator.
#[derive(Debug, Clone, Copy, PartialEq, Eq, Structural)]
pub enum Type {
    I32,
    Unknown,
}

/// A value annotated with its resolved type.
#[derive(Debug, Clone, PartialEq)]
pub struct WithType<T> {
    pub item: T,
    pub t: Type,
}

impl<T> WithType<T> {
    pub fn unwrap_type(&self) -> (r: &T)
        ensures
            *r == self.item,
    {
        &self.item
    }

    pub fn get_type(&self) -> (t: Type)
        ensures
            t == self.t,
    {
        self.t
    }
}

/// Wraps a bare value in an annotation carrying placeholder data.
pub trait Passthrough<T>: Sized {
    fn bare(x: T) -> Self;
}

impl<T> Passthrough<T> for WithType<T> {
    fn bare(x: T) -> WithType<T> {
        WithType { item: x, t: Type::Unknown }
    }
}

impl<T> Passthrough<T> for WithPos<T> {
    fn bare(x: T) -> WithPos<T> {
        WithPos { item: x, position: Position { pos: 0 } }
    }
}

impl<T> Passthrough<T> for WithPos<WithType<T>> {
    fn bare(x: T) -> WithPos<WithType<T>> {
        WithPos { item: WithType { item: x, t: Type::Unknown }, position: Position { pos: 0 } }
    }
}

/// The four surface arithmetic operators.
#[derive(Debug, Clone, Copy, PartialEq, Eq, Structural)]
pub enum BinaryOperator {
    Add,
    Sub,
    Mul,
    Div,
}

/// An expression before annotation: a name, a literal constant, or a
/// binary operation over two subexpressions.
#[derive(Debug)]
pub enum BareExpression {
    Identifier(String),
    Literal(Const),
    BinaryOp(BinaryOperator, Box<Expression>, Box<Expression>),
}

/// An expression annotated with its resolved type and source position.
pub type Expression = WithPos<WithType<BareExpression>>;

/// A braced list of statements.
#[derive(Debug)]
pub struct BareBlock(pub StatementList);

pub type Block = WithPos<BareBlock>;

/// An `if` with optional `else if` and `else` arms. Present in the
/// surface language but not lowered by the current generator.
#[derive(Debug)]
pub struct IfStatement {
    pub expr: Expression,
    pub body: Block,
    pub elseifs: Vec<ElseIfStatement>,
    pub elseBlock: Option<ElseStatement>,
}

#[derive(Debug)]
pub struct BareElseIfStatement {
    pub expr: Expression,
    pub body: Block,
}

pub type ElseIfStatement = WithPos<BareElseIfStatement>;

#[derive(Debug)]
pub struct BareElseStatement {
    pub body: Block,
}

pub type ElseStatement = WithPos<BareElseStatement>;

/// A `while` loop. Present in the surface language but not lowered by
/// the current generator.
#[derive(Debug)]
pub struct WhileLoop {
    pub expr: Expression,
    pub body: Block,
}

/// One statement of the surface language.
#[derive(Debug)]
pub enum BareStatement {
    Print(Expression),
    Let(WithPos<String>, Expression),
    If(IfStatement),
    While(WhileLoop),
    Assignment(WithPos<WithType<String>>, Expression),
}

pub type Statement = WithPos<BareStatement>;

pub type StatementList = Vec<Statement>;

/// A whole compilation unit: its statements in source order.
#[derive(Debug)]
pub struct Program {
    pub body: StatementList,
}

} // verus!
