//! Expressions of the modelling language that proof obligations are built
//! from: a plain tagged-union term tree. The oracle only references these
//! values; it never interprets them.

use vstd::prelude::*;

verus! {

/// A name in the modelling language.
pub type Identifier = String;

/// Relies on `serde_json::Number`: an arbitrary-precision JSON number,
/// carried opaquely through the expression tree; the oracle's logic never
/// reads it.
#[verifier::external_type_specification]
#[verifier::external_body]
pub struct ExNumber(serde_json::Number);

/// Mathematical constants that cannot be expressed using numeric values and
/// basic expressions.
#[derive(Debug, Clone, Copy, PartialEq, Eq, Structural)]
pub enum MathConstant {
    /// Euler's number (the base of the natural logarithm); type real.
    EulersNumber,
    /// The ratio of a circle's circumference to its diameter; type real.
    Pi,
}

/// A constant value.
#[derive(Debug)]
pub enum ConstantValue {
    /// Numeric value; has type int if it is an integer and type real
    /// otherwise.
    Number(serde_json::Number),
    /// Boolean value; has type bool.
    Boolean(bool),
    /// Mathematical constants that cannot be expressed using numeric values
    /// and basic expressions.
    MathConstant(MathConstant),
}

/// If-then-else: computes if `cond` then `left` else `right`.
#[derive(Debug)]
pub struct IteExpression {
    pub cond: Expression,
    pub left: Expression,
    pub right: Expression,
}

/// Operators with one operand.
#[derive(Debug, Clone, Copy, PartialEq, Eq, Structural)]
pub enum UnaryOp {
    /// Negation.
    Not,
    /// Floor.
    Floor,
    /// Ceiling.
    Ceil,
    /// The first derivative of the operand, which must be a continuous
    /// global variable.
    Derivative,
}

/// Expressions with one operand.
#[derive(Debug)]
pub struct UnaryExpression {
    pub op: UnaryOp,
    pub exp: Expression,
}

/// Operators with two operands.
#[derive(Debug, Clone, Copy, PartialEq, Eq, Structural)]
pub enum BinaryOp {
    Or,
    And,
    Equals,
    NotEquals,
    Less,
    LessOrEqual,
    Plus,
    Minus,
    Times,
    Modulo,
    Divide,
    Pow,
    Log,
    Implication,
    Greater,
    GreaterOrEqual,
    Min,
    Max,
}

/// Expressions with two operands.
#[derive(Debug)]
pub struct BinaryExpression {
    pub op: BinaryOp,
    pub left: Expression,
    pub right: Expression,
}

/// Nondeterministic selection of a value for `var` constrained by `exp`.
#[derive(Debug)]
pub struct NondetSelectionExpression {
    pub var: Identifier,
    pub exp: Expression,
}

/// An expression of the modelling language.
#[derive(Debug)]
pub enum Expression {
    Constant(ConstantValue),
    Identifier(Identifier),
    IfThenElse(Box<IteExpression>),
    Unary(Box<UnaryExpression>),
    Binary(Box<BinaryExpression>),
    NondetSelection(Box<NondetSelectionExpression>),
}

/// The target of an assignment.
pub type LValue = Identifier;

} // verus!
