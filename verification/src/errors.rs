//! Error types shared by the parser and the arithmetic engine.

use vstd::prelude::*;

verus! {

/// Why an arithmetic operation failed.
#[derive(Clone, Copy, Debug, PartialEq, Eq, Structural)]
pub enum ArithmeticError {
    /// The right operand of a division was (numeric) zero.
    DivideByZero,
    /// An exact result does not fit the fixed-width representation.
    Overflow,
}

/// Error returned by the binary operations of the arithmetic engine.
#[derive(Clone, Copy, Debug, PartialEq, Eq, Structural)]
pub struct OperationError {
    pub kind: ArithmeticError,
}

/// Why a line of input was rejected by the parser.
#[derive(Clone, Copy, Debug, PartialEq, Eq, Structural)]
pub enum ParseError {
    /// A character that no grammar rule accepts at this point.
    UnexpectedToken,
    /// A numeric literal whose magnitude does not fit the value type.
    InvalidLiteral,
    /// A string literal with no closing quote.
    UnterminatedString,
}

} // verus!
