//! Statements that declare: variables, subroutines and calls.

pub mod functions;
pub mod variable;
