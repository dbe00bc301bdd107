//! Circuit representations: Rank-1 Constraint Systems and their lowering to
//! Quadratic Arithmetic Programs.

pub mod qap;
pub mod r1cs;
pub mod test_utils;
