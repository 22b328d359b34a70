use vstd::prelude::*;
use crate::tokens::Span;

verus! {

/// A top-level declaration.
pub enum Decl {
    Store(Store),
    Operation(Operation),
}

/// A named record schema.
pub struct Store {
    pub name: Identifier,
    pub fields: Vec<Field>,
}

pub struct Field {
    pub name: Identifier,
    pub type_: Type,
}

pub enum Type {
    String,
    Int32,
    Int64,
    Uint32,
    Uint64,
    Boolean,
    Array(Array),
}

/// An array of elements of the inner type.
pub struct Array {
    pub type_: Box<Type>,
}

/// A query, modify or delete procedure.
pub struct Operation {
    pub type_: OperationType,
    pub name: Identifier,
    pub parameters: Vec<Parameter>,
    pub body: Vec<Statement>,
}

#[derive(Clone, Copy, Debug, PartialEq, Eq, Structural)]
pub enum OperationType {
    Query,
    Modify,
    Delete,
}

pub struct Parameter {
    pub name: Identifier,
    pub type_: Type,
}

pub enum Statement {
    Expression(Expression),
    Assignment(Assignment),
}

pub enum Expression {
    Identifier(Identifier),
    Literal(Literal),
    MethodChain(MethodChain),
    BinaryExpr(BinaryExpr),
    UnaryExpr(UnaryExpr),
}

/// A name with the place where it stands in the source.
pub struct Identifier {
    pub name: String,
    pub span: Span,
}

pub enum Literal {
    BooleanLiteral(BooleanLiteral),
    StringLiteral(StringLiteral),
    NumberLiteral(NumberLiteral),
}

#[derive(Clone, Copy, Debug, PartialEq, Eq, Structural)]
pub enum BooleanLiteral {
    True,
    False,
}

/// A string literal with its escapes decoded.
pub struct StringLiteral {
    pub string: String,
}

/// How a numeric literal is to be read.
#[derive(Clone, Copy, Debug, PartialEq, Eq, Structural)]
pub enum NumberKind {
    Integer,
    Unsigned,
    Float,
}

/// A numeric value of some kind.
pub trait Number {
    spec fn raw_text(&self) -> Seq<char>;
}

/// A numeric literal: its source text, its kind, and, for an integer that
/// fits in 64 bits, its value. Width and sign are checked later.
pub struct NumberLiteral {
    pub raw: String,
    pub kind: NumberKind,
    pub value: Option<u64>,
}

impl Number for NumberLiteral {
    open spec fn raw_text(&self) -> Seq<char> {
        self.raw@
    }
}

pub struct UnaryExpr {
    pub operator: Operator,
    pub operand: Operand,
}

pub struct BinaryExpr {
    pub operand1: Operand,
    pub operator: Operator,
    pub operand2: Operand,
}

/// An immediate operand of a unary or binary expression.
pub enum Operand {
    Literal(Literal),
    Identifier(Identifier),
}

#[derive(Clone, Copy, Debug, PartialEq, Eq, Structural)]
pub enum Operator {
    Equal,
    GreaterThan,
    GreaterThanEqual,
    LessThan,
    LessThanEqual,
    And,
    Or,
    Not,
    Plus,
    Minus,
    Times,
    Divide,
}

/// Dotted access `a.b.c`, as its segments in order.
pub struct MethodChain {
    pub segments: Vec<Identifier>,
}

pub struct Assignment {
    pub identifier: Identifier,
    pub expression: Expression,
}

} // verus!
