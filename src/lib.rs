//! Evaluation of single expressions of a small dynamically typed language.
//!
//! Source text goes through three stages: the scanner turns it into tokens,
//! the parser builds a syntax tree, and the interpreter reduces the tree to a
//! value. Each stage stops at its first error.
//!
//! Numbers are fractions of 64-bit integers with infinities and "not a
//! number", not 64-bit floats; see `number` for how results are rounded.
//! Arithmetic never fails, but results can differ from floating point:
//! `0.1 + 0.2 == 0.3` is true here, and a whole number above `i64::MAX` is
//! infinite.
pub mod number;
pub mod token;
pub mod scanner;
pub mod tree;
pub mod parser;
pub mod interpreter;
pub mod printer;
pub mod lox;
pub mod rescan;
pub mod laws;
