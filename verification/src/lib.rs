//! A small calculator-language front end: a parser that turns a line of
//! text (prefix operators, numeric/string literals, identifiers and
//! `name := expr` assignment) into an abstract syntax tree, and an
//! arithmetic engine plus evaluator that reduce such a tree to a value
//! over a mutable variable environment.

pub mod arith;
pub mod ast;
pub mod env;
pub mod eval;
pub mod errors;
pub mod fraction;
pub mod parser;
pub mod render;
pub mod text;
pub mod value;

pub use arith::{add, divide, multiply, subtract};
pub use ast::{AstNode, MonadicVerb};
pub use env::Environment;
pub use errors::{ArithmeticError, OperationError, ParseError};
pub use eval::{evaluate, EvalError};
pub use fraction::Fraction;
pub use parser::{parse, LISPParser};
pub use render::render;
pub use value::Primitive;
