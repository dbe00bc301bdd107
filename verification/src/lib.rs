//! A didactic implementation of the Pinocchio zk-SNARK: finite fields, a
//! quadratic field extension, polynomials with Lagrange interpolation, a
//! pairing-friendly elliptic curve, R1CS and QAP circuit representations,
//! and the setup / prove / verify protocol on top of them.

pub mod circuits;
pub mod config;
pub mod math;
pub mod pinocchio;
