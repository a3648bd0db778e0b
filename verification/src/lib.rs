//! A verified interpreter for a small expression language with `let`
//! bindings and `print` statements over IEEE-754 binary64 arithmetic.
//!
//! The pipeline has three stages, each specified by a mathematical
//! function and proved against it: scanning (`lexer`), parsing (`parser`)
//! and evaluation (`evaluator`).  Numeric values travel as binary64 bit
//! patterns; the arithmetic itself is done by a software IEEE-754
//! implementation behind trusted wrappers (`numeric`).

pub mod ast;
pub mod evaluator;
pub mod lexer;
pub mod parser;
pub mod numeric;
