//! Algebraic substrate: prime fields, a quadratic field extension,
//! polynomials, and the pairing-friendly elliptic curve group.

pub mod cyclic_group;
pub mod field_element;
pub mod polynomial;
pub mod field_extension_element;
pub mod elliptic_curve;
pub mod msm;
