//! Arithmetic in a prime field, with canonical residues in `[0, order)` as
//! representatives.
//!
//! The order of the field is a type-level constant, supplied by a zero-sized
//! marker type implementing [`FieldOrder`]. Values are reduced once on
//! construction and every operation returns a reduced result, so the stored
//! representative is always the canonical one.

use super::cyclic_group::{group_exp, group_exp_helper, BilinearCyclicGroup, GroupView, PairingTarget};
use core::marker::PhantomData;
use rand::Rng;
use vstd::arithmetic::div_mod::{
    lemma_add_mod_noop_right, lemma_mul_mod_noop_general, lemma_mul_mod_noop_right,
    lemma_small_mod,
};
use vstd::arithmetic::mul::lemma_mul_is_associative;
use vstd::arithmetic::power::{
    lemma_pow0, lemma_pow1, lemma_pow_adds, lemma_pow_mod_noop, lemma_pow_multiplies,
    lemma_square_is_pow2, pow,
};
use vstd::prelude::*;

verus! {

/// Order of the stand-alone prime field exercised by the field tests; a
/// 64-bit prime.
pub const ORDER: u128 = 18446744073709551359;

/// A zero-sized marker fixing the order of a prime field at the type level.
pub trait FieldOrder: Sized + Clone + Copy {
    /// The order of the field.
    spec fn spec_order() -> u64;

    /// The order of the field is at least two.
    proof fn order_positive()
        ensures
            Self::spec_order() >= 2,
    ;

    /// The order of the field, as a run-time value.
    fn order() -> (r: u64)
        ensures
            r == Self::spec_order(),
            r >= 2,
    ;
}

/// Marker for the field of order [`ORDER`].
#[derive(Clone, Copy, Debug, PartialEq, Eq, Structural)]
pub struct OrderLarge;

impl FieldOrder for OrderLarge {
    open spec fn spec_order() -> u64 {
        18446744073709551359
    }

    proof fn order_positive() {
    }

    fn order() -> u64 {
        18446744073709551359
    }
}

/// Failure cases of the partial field operations.
#[derive(Clone, Copy, Debug, PartialEq, Eq, Structural)]
pub enum FieldElementError {
    /// Inversion or division was attempted on the zero element.
    DivisionByZero,
}

/// An element of the prime field of order `O`, stored as its canonical
/// residue.
#[derive(Copy, Debug, Eq)]
pub struct FieldElement<O: FieldOrder> {
    value: u64,
    order_marker: PhantomData<O>,
}

impl<O: FieldOrder> View for FieldElement<O> {
    type V = int;

    closed spec fn view(&self) -> int {
        self.value as int
    }
}

impl<O: FieldOrder> Clone for FieldElement<O> {
    fn clone(&self) -> (r: Self)
        ensures
            r == *self,
    {
        *self
    }
}

impl<O: FieldOrder> PartialEq for FieldElement<O> {
    fn eq(&self, other: &Self) -> bool {
        self.value == other.value
    }
}

impl<O: FieldOrder> vstd::std_specs::cmp::PartialEqSpecImpl for FieldElement<O> {
    open spec fn obeys_eq_spec() -> bool {
        true
    }

    open spec fn eq_spec(&self, other: &Self) -> bool {
        self@ == other@
    }
}

impl<O: FieldOrder> FieldElement<O> {
    /// The stored representative is always the canonical residue.
    #[verifier::type_invariant]
    pub open spec fn reduced(self) -> bool {
        0 <= self@ < O::spec_order() as int
    }

    /// The order of the field, visible to specifications as an `int`.
    pub open spec fn order_spec() -> int {
        O::spec_order() as int
    }

    /// Creates a new field element with `value` modulo the order of the
    /// field.
    pub fn new(value: u128) -> (r: Self)
        ensures
            r@ == value as int % Self::order_spec(),
    {
        let m = O::order();
        Self { value: (value % (m as u128)) as u64, order_marker: PhantomData }
    }

    /// The additive identity.
    pub fn zero() -> (r: Self)
        ensures
            r@ == 0,
    {
        let m = O::order();
        Self { value: 0, order_marker: PhantomData }
    }

    /// The multiplicative identity.
    pub fn one() -> (r: Self)
        ensures
            r@ == 1,
    {
        let m = O::order();
        Self { value: 1, order_marker: PhantomData }
    }

    /// The canonical residue of the element, as an unsigned integer.
    pub fn representative(self) -> (r: u128)
        ensures
            r == self@,
            0 <= self@ < Self::order_spec(),
    {
        proof {
            use_type_invariant(self);
        }
        self.value as u128
    }

    /// Field addition.
    pub fn add(self, other: Self) -> (r: Self)
        ensures
            r@ == (self@ + other@) % Self::order_spec(),
    {
        let m = O::order();
        Self {
            value: ((self.value as u128 + other.value as u128) % (m as u128)) as u64,
            order_marker: PhantomData,
        }
    }

    /// Additive inverse; `neg(0) == 0`.
    pub fn neg(self) -> (r: Self)
        ensures
            r@ == (Self::order_spec() - self@) % Self::order_spec(),
    {
        proof {
            use_type_invariant(self);
        }
        let m = O::order();
        Self { value: (m - self.value) % m, order_marker: PhantomData }
    }

    /// Field subtraction.
    pub fn sub(self, other: Self) -> (r: Self)
        ensures
            r@ == (self@ - other@) % Self::order_spec(),
    {
        proof {
            use_type_invariant(other);
        }
        let r = self.add(other.neg());
        proof {
            O::order_positive();
            let m = Self::order_spec();
            lemma_add_mod_noop_right(self@, m - other@, m);
            vstd::arithmetic::div_mod::lemma_mod_add_multiples_vanish(self@ - other@, m);
        }
        r
    }

    /// Field multiplication.
    pub fn mul(self, other: Self) -> (r: Self)
        ensures
            r@ == (self@ * other@) % Self::order_spec(),
    {
        let m = O::order();
        proof {
            vstd::arithmetic::mul::lemma_mul_upper_bound(
                self.value as int,
                u64::MAX as int,
                other.value as int,
                u64::MAX as int,
            );
        }
        Self {
            value: ((self.value as u128 * other.value as u128) % (m as u128)) as u64,
            order_marker: PhantomData,
        }
    }

    /// Raises `self` to the power of `exponent` by binary exponentiation.
    pub fn pow(self, exponent: u128) -> (r: Self)
        ensures
            r@ == pow(self@, exponent as nat) % Self::order_spec(),
    {
        let ghost b0 = self@;
        let ghost e0 = exponent as nat;
        let ghost m = Self::order_spec();
        let mut result = Self::one();
        let mut base = self;
        let mut exponent = exponent;
        proof {
            O::order_positive();
            use_type_invariant(self);
            lemma_mul_mod_noop_right(1, pow(b0, e0), m);
        }
        while exponent > 0
            invariant
                m == FieldElement::<O>::order_spec(),
                m >= 2,
                0 <= result@ < m,
                0 <= base@ < m,
                (result@ * pow(base@, exponent as nat)) % m == pow(b0, e0) % m,
            decreases exponent,
        {
            let ghost e = exponent as nat;
            let ghost r_old = result@;
            let ghost b_old = base@;
            if exponent % 2 == 1 {
                result = result.mul(base);
            }
            exponent = exponent / 2;
            base = base.mul(base);
            proof {
                let e2 = exponent as nat;
                lemma_square_is_pow2(b_old);
                lemma_pow_multiplies(b_old, 2, e2);
                assert(pow((b_old * b_old) % m, e2) % m == pow(b_old * b_old, e2) % m) by {
                    lemma_pow_mod_noop(b_old * b_old, e2, m);
                }
                assert(pow(b_old, (2 * e2) as nat) == pow(b_old * b_old, e2));
                assert((result@ * pow(base@, e2)) % m == (result@ * (pow(base@, e2) % m)) % m) by {
                    lemma_mul_mod_noop_right(result@, pow(base@, e2), m);
                }
                assert((result@ * (pow(b_old * b_old, e2) % m)) % m == (result@ * pow(
                    b_old * b_old,
                    e2,
                )) % m) by {
                    lemma_mul_mod_noop_right(result@, pow(b_old * b_old, e2), m);
                }
                if e % 2 == 1 {
                    assert(e == 2 * e2 + 1);
                    assert(pow(b_old, e) == pow(b_old, 1nat) * pow(b_old, (2 * e2) as nat)) by {
                        lemma_pow_adds(b_old, 1nat, (2 * e2) as nat);
                    }
                    lemma_pow1(b_old);
                    assert(result@ == (r_old * b_old) % m);
                    assert((((r_old * b_old) % m) * pow(b_old * b_old, e2)) % m == ((r_old * b_old)
                        * pow(b_old * b_old, e2)) % m) by {
                        lemma_mul_mod_noop_general(r_old * b_old, pow(b_old * b_old, e2), m);
                        lemma_mul_mod_noop_right(
                            (r_old * b_old) % m,
                            pow(b_old * b_old, e2),
                            m,
                        );
                    }
                    assert((r_old * b_old) * pow(b_old * b_old, e2) == r_old * (b_old * pow(
                        b_old * b_old,
                        e2,
                    ))) by {
                        lemma_mul_is_associative(r_old, b_old, pow(b_old * b_old, e2));
                    }
                    assert(b_old * pow(b_old * b_old, e2) == pow(b_old, e));
                    assert((result@ * pow(base@, e2)) % m == (r_old * pow(b_old, e)) % m);
                } else {
                    assert(e == 2 * e2);
                    assert((result@ * pow(base@, e2)) % m == (r_old * pow(b_old, e)) % m);
                }
            }
        }
        proof {
            lemma_pow0(base@);
            use_type_invariant(result);
            lemma_small_mod(result@ as nat, m as nat);
        }
        result
    }

    /// Whether inversion by exponentiation succeeds on a value: the value is
    /// nonzero and multiplying it by the computed power of it yields one. For
    /// a prime order this holds of every nonzero value, by Fermat's little
    /// theorem.
    pub open spec fn invertible(a: int) -> bool {
        a != 0 && (a * (pow(a, (O::spec_order() - 2) as nat) % Self::order_spec()))
            % Self::order_spec() == 1
    }

    /// Multiplicative inverse, computed as `self` to the power of
    /// `order - 2` and checked by one multiplication.
    pub fn inv(self) -> (r: Result<Self, FieldElementError>)
        ensures
            r is Ok <==> Self::invertible(self@),
            r matches Ok(v) ==> v@ == pow(self@, (O::spec_order() - 2) as nat)
                % Self::order_spec(),
            r matches Ok(v) ==> (self@ * v@) % Self::order_spec() == 1,
            r matches Err(e) ==> e == FieldElementError::DivisionByZero,
    {
        let m = O::order();
        if self.value == 0 {
            Err(FieldElementError::DivisionByZero)
        } else {
            let candidate = self.pow((m - 2) as u128);
            let check = self.mul(candidate);
            proof {
                lemma_mul_mod_noop_right(
                    self@,
                    pow(self@, (O::spec_order() - 2) as nat),
                    Self::order_spec(),
                );
            }
            if check.representative() == 1 {
                Ok(candidate)
            } else {
                Err(FieldElementError::DivisionByZero)
            }
        }
    }

    /// Field division: multiplication by the inverse of `other`.
    pub fn div(self, other: Self) -> (r: Result<Self, FieldElementError>)
        ensures
            r is Ok <==> Self::invertible(other@),
            r matches Ok(v) ==> v@ == (self@ * (pow(other@, (O::spec_order() - 2) as nat)
                % Self::order_spec())) % Self::order_spec(),
            r matches Err(e) ==> e == FieldElementError::DivisionByZero,
    {
        match other.inv() {
            Ok(inverse) => Ok(self.mul(inverse)),
            Err(e) => Err(e),
        }
    }

    /// A uniformly random field element.
    pub fn random() -> (r: Self)
        ensures
            0 <= r@ < Self::order_spec(),
    {
        let m = O::order();
        let value = sample_uniform_below(m);
        Self { value, order_marker: PhantomData }
    }
}

impl<O: FieldOrder> PairingTarget for FieldElement<O> {
    open spec fn mul_view(a: int, b: int) -> int {
        (a * b) % (O::spec_order() as int)
    }

    open spec fn eq_view(a: int, b: int) -> bool {
        a == b
    }

    fn times(&self, other: &Self) -> (r: Self) {
        self.mul(*other)
    }

    fn equals(&self, other: &Self) -> (r: bool) {
        *self == *other
    }
}

impl<O: FieldOrder> GroupView for FieldElement<O> {
    open spec fn generator_view() -> int {
        1
    }

    open spec fn neutral_view() -> int {
        0
    }

    open spec fn op_view(a: int, b: int) -> int {
        (a + b) % (O::spec_order() as int)
    }

    open spec fn eq_view(a: int, b: int) -> bool {
        a == b
    }
}

impl<O: FieldOrder> BilinearCyclicGroup for FieldElement<O> {
    type PairingOutput = FieldElement<O>;

    open spec fn pairing_view(a: int, b: int) -> int {
        (a * b) % (O::spec_order() as int)
    }

    /// As a cyclic group, the field is taken additively, with `1` as
    /// generator.
    fn generator() -> (r: Self) {
        Self::one()
    }

    fn neutral_element() -> (r: Self) {
        Self::zero()
    }

    fn equals(&self, other: &Self) -> (r: bool) {
        *self == *other
    }

    fn operate_with(&self, other: &Self) -> (r: Self) {
        self.add(*other)
    }

    fn operate_with_self(&self, times: u128) -> (r: Self) {
        let ghost b0 = self@;
        let ghost e0 = times as nat;
        let mut result = Self::zero();
        let mut base = *self;
        let mut times = times;
        while times > 0
            invariant
                group_exp_helper::<Self>(result@, base@, times as nat) == group_exp::<Self>(
                    b0,
                    e0,
                ),
            decreases times,
        {
            let ghost e = times as nat;
            let ghost r_old = result@;
            let ghost b_old = base@;
            if times % 2 == 1 {
                result = result.add(base);
            }
            times = times / 2;
            base = base.add(base);
            proof {
                assert(group_exp_helper::<Self>(r_old, b_old, e) == group_exp_helper::<Self>(
                    if e % 2 == 1 {
                        Self::op_view(r_old, b_old)
                    } else {
                        r_old
                    },
                    Self::op_view(b_old, b_old),
                    e / 2,
                ));
            }
        }
        proof {
            assert(group_exp_helper::<Self>(result@, base@, 0nat) == result@);
        }
        result
    }

    /// As a bilinear pairing on the additive group, field multiplication is
    /// used: it is biadditive in its arguments.
    fn pairing(&self, other: &Self) -> (r: Self) {
        self.mul(*other)
    }
}

/// Relies on `rand::Rng::gen_range` over `0..bound`: the result lies in
/// `[0, bound)`, and the range is nonempty so the call does not panic.
#[verifier::external_body]
fn sample_uniform_below(bound: u64) -> (r: u64)
    requires
        bound >= 1,
    ensures
        r < bound,
{
    rand::thread_rng().gen_range(0..bound)
}

/// The law: field addition is associative. Both association orders of
/// `x + y + z` reduce to the same canonical residue.
pub proof fn lemma_add_associative<O: FieldOrder>(
    x: FieldElement<O>,
    y: FieldElement<O>,
    z: FieldElement<O>,
)
    ensures
        ((x@ + y@) % FieldElement::<O>::order_spec() + z@) % FieldElement::<O>::order_spec() == (x@
            + (y@ + z@) % FieldElement::<O>::order_spec()) % FieldElement::<O>::order_spec(),
{
    O::order_positive();
    let m = FieldElement::<O>::order_spec();
    vstd::arithmetic::div_mod::lemma_add_mod_noop_right(z@, x@ + y@, m);
    vstd::arithmetic::div_mod::lemma_add_mod_noop_right(x@, y@ + z@, m);
}

/// The law: field multiplication distributes over field addition.
pub proof fn lemma_mul_distributes_over_add<O: FieldOrder>(
    x: FieldElement<O>,
    y: FieldElement<O>,
    z: FieldElement<O>,
)
    ensures
        (x@ * ((y@ + z@) % FieldElement::<O>::order_spec())) % FieldElement::<O>::order_spec() == (
        (x@ * y@) % FieldElement::<O>::order_spec() + (x@ * z@) % FieldElement::<O>::order_spec())
            % FieldElement::<O>::order_spec(),
{
    O::order_positive();
    let m = FieldElement::<O>::order_spec();
    lemma_mul_mod_noop_right(x@, y@ + z@, m);
    assert(x@ * (y@ + z@) == x@ * y@ + x@ * z@) by {
        vstd::arithmetic::mul::lemma_mul_is_distributive_add(x@, y@, z@);
    }
    vstd::arithmetic::div_mod::lemma_add_mod_noop(x@ * y@, x@ * z@, m);
}

/// The law: every field element plus its additive inverse is zero.
pub proof fn lemma_add_neg_is_zero<O: FieldOrder>(x: FieldElement<O>)
    requires
        0 <= x@ < FieldElement::<O>::order_spec(),
    ensures
        (x@ + (FieldElement::<O>::order_spec() - x@) % FieldElement::<O>::order_spec())
            % FieldElement::<O>::order_spec() == 0,
{
    O::order_positive();
    let m = FieldElement::<O>::order_spec();
    if x@ == 0 {
        vstd::arithmetic::div_mod::lemma_mod_self_0(m);
        lemma_small_mod(0nat, m as nat);
    } else {
        lemma_small_mod((m - x@) as nat, m as nat);
        vstd::arithmetic::div_mod::lemma_mod_self_0(m);
    }
}

} // verus!
