//! The three algorithms of the Pinocchio protocol: the trusted setup, the
//! prover, and the verifier.

pub mod prover;
pub mod setup;
pub mod verification;
