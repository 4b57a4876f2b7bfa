//! A small expression language: a lexer, a recursive-descent parser with
//! explicit operator precedence, and a tree-walking evaluator over a mutable
//! variable environment.
//!
//! Values are integers, booleans, and floating-point numbers; the latter are
//! carried as the bit patterns of IEEE-754 binary64 values, and an outside
//! soft-float library performs the floating-point work. Evaluation reports
//! what a `print` expression writes through an output buffer; the driver
//! around the library puts those lines on standard output.

pub mod error;
pub mod expr;
pub mod float;
pub mod laws;
pub mod lexer;
pub mod num;
pub mod parser;

