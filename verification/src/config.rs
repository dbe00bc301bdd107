//! Parameters of the toy pairing-friendly curve and its fields.
//!
//! The curve is `y^2 z = x^3 + x z^2` over the quadratic extension of the
//! prime field of order 59; its subgroup of interest has order 5, which is
//! also the order of the scalar field used for circuit wires.

use crate::math::field_element::{FieldElement, FieldOrder};
use vstd::arithmetic::power::pow;
use vstd::prelude::*;

verus! {

/// Order of the scalar field used for circuit wire values.
pub const ORDER_R: u64 = 5;

/// Order of the prime field underlying the curve coordinates.
pub const ORDER_P: u64 = 59;

/// Marker for the scalar field of order [`ORDER_R`].
#[derive(Clone, Copy, Debug, PartialEq, Eq, Structural)]
pub struct OrderR;

impl FieldOrder for OrderR {
    open spec fn spec_order() -> u64 {
        5
    }

    proof fn order_positive() {
    }

    fn order() -> u64 {
        5
    }
}

/// The first few powers of an integer, written out.
proof fn lemma_pow_small(b: int)
    ensures
        pow(b, 2nat) == b * b,
        pow(b, 3nat) == (b * b) * b,
        pow(b, 4nat) == (b * b) * (b * b),
{
    vstd::arithmetic::power::lemma_square_is_pow2(b);
    vstd::arithmetic::power::lemma_pow1(b);
    vstd::arithmetic::power::lemma_pow_adds(b, 2nat, 1nat);
    vstd::arithmetic::power::lemma_pow_adds(b, 2nat, 2nat);
}

/// The law: in the scalar field, every nonzero element times its inverse
/// computed by exponentiation is one, and every nonzero element raised to
/// the order of the field less one is one.
pub proof fn lemma_scalar_field_inverses(x: int)
    requires
        0 < x < OrderR::spec_order(),
    ensures
        FieldElement::<OrderR>::invertible(x),
        pow(x, (OrderR::spec_order() - 1) as nat) % FieldElement::<OrderR>::order_spec() == 1,
{
    lemma_pow_small(x);
    assert(OrderR::spec_order() == 5);
    if x == 1 {
        assert(pow(x, 3nat) == 1);
        assert(pow(x, 4nat) == 1);
        assert(1int % 5 == 1);
        assert((1int * (1int % 5)) % 5 == 1);
        assert(FieldElement::<OrderR>::invertible(x));
        assert(pow(x, 4nat) % 5 == 1);
    } else if x == 2 {
        assert(x * x == 4);
        assert((x * x) * (x * x) == 16) by (nonlinear_arith)
            requires x == 2
        ;
        assert(pow(x, 3nat) == 8);
        assert(pow(x, 4nat) == 16);
        assert((2int * (8int % 5)) % 5 == 1);
        assert(FieldElement::<OrderR>::invertible(x));
        assert(pow(x, 4nat) % 5 == 1);
    } else if x == 3 {
        assert(x * x == 9);
        assert((x * x) * (x * x) == 81) by (nonlinear_arith)
            requires x == 3
        ;
        assert(pow(x, 3nat) == 27);
        assert(pow(x, 4nat) == 81);
        assert(27int % 5 == 2);
        assert(3int * 2 == 6);
        assert(6int % 5 == 1);
        assert((3int * (27int % 5)) % 5 == 1);
        assert(FieldElement::<OrderR>::invertible(x));
        assert(pow(x, 4nat) % 5 == 1);
    } else {
        assert(x * x == 16);
        assert((x * x) * (x * x) == 256) by (nonlinear_arith)
            requires x == 4
        ;
        assert(pow(x, 3nat) == 64);
        assert(pow(x, 4nat) == 256);
        assert((4int * (64int % 5)) % 5 == 1);
        assert(FieldElement::<OrderR>::invertible(x));
        assert(pow(x, 4nat) % 5 == 1);
    }
}

/// Marker for the coordinate field of order [`ORDER_P`].
#[derive(Clone, Copy, Debug, PartialEq, Eq, Structural)]
pub struct OrderP;

impl FieldOrder for OrderP {
    open spec fn spec_order() -> u64 {
        59
    }

    proof fn order_positive() {
    }

    fn order() -> u64 {
        59
    }
}

/// Degree of the field extension that contains the full torsion group.
pub const EMBEDDING_DEGREE: u32 = 2;

/// Order of the field extension: `ORDER_P` squared.
pub const ORDER_FIELD_EXTENSION: u128 = 3481;

/// Exponent `(ORDER_FIELD_EXTENSION - 1) / ORDER_R` of the final
/// exponentiation of the Tate pairing.
pub const TARGET_NORMALIZATION_POWER: u128 = 696;

/// Coefficient `a` of the short Weierstrass equation.
pub const ELLIPTIC_CURVE_A: u64 = 1;

/// Coefficient `b` of the short Weierstrass equation.
pub const ELLIPTIC_CURVE_B: u64 = 0;

/// Affine x coordinate of the chosen generator of the order-5 subgroup.
pub const GENERATOR_AFFINE_X: u64 = 35;

/// Affine y coordinate of the chosen generator of the order-5 subgroup.
pub const GENERATOR_AFFINE_Y: u64 = 31;

} // verus!
