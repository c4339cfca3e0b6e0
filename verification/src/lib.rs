//! A compiler from a small imperative language to assembly text for a 16-bit
//! single-accumulator machine.
//!
//! The library takes a parse tree ([`tree::Node`]) and lowers it, statement by
//! statement, into instructions; [`parser::generate`] assembles the whole
//! program. Every function carries a contract over the model of its
//! arguments, and what holds of every compilation is stated and proved in
//! [`laws`]. The arithmetic subroutines are lists of instructions of the
//! machine modelled in [`machine`], on which they are proved to compute the
//! product and the quotient.

pub mod error;
pub mod expr;
pub mod laws;
pub mod machine;
pub mod operations;
pub mod parser;
pub mod sentences;
pub mod statements;
pub mod table;
pub mod text;
pub mod tree;

