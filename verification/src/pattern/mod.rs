//! The STIX patterning language: tokens, syntax tree and parser.

pub mod ast;
pub mod error;
pub mod lexer;
pub mod parser;
pub mod progress;
pub mod spans;

pub use ast::{
    Comparison, ComparisonExpression, ComparisonOperand, ComparisonOperator, Literal, ObjectPath,
    ObservationExpression, PathStep, Pattern, Qualifier,
};
pub use error::{ParseError, Span};
pub use parser::parse;
