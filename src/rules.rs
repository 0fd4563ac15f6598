//! The proof rules: argument forms, equivalence rewrites and subproof
//! techniques.

pub mod equivalence;
pub mod inference;
pub mod technique;
