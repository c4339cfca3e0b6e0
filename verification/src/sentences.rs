//! Control flow: conditionals and loops.

pub mod iff;
pub mod loops;
