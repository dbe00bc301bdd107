//! The quadratic extension of the coordinate field, with elements
//! represented as polynomials of degree below two, reduced modulo the
//! irreducible defining polynomial `1 + X^2`.
//!
//! The extension contains the full torsion group of the elliptic curve, and
//! the pairing takes its values in it.

use super::super::config::{OrderP, ORDER_FIELD_EXTENSION};
use super::cyclic_group::PairingTarget;
use super::field_element::{FieldElement, FieldElementError, FieldOrder};
use super::polynomial::{
    coeff_at, is_normalized, lemma_same_poly_canonical, mul_coeff, seq_views, Polynomial,
};
use vstd::arithmetic::div_mod::{
    lemma_add_mod_noop, lemma_small_mod, lemma_sub_mod_noop,
};
use vstd::prelude::*;

verus! {

/// The order of the base prime field, visible to specifications.
pub open spec fn base_order() -> int {
    OrderP::spec_order() as int
}

/// The constant coefficient of an extension element's representative.
pub open spec fn ext_c0(s: Seq<int>) -> int {
    coeff_at(s, 0)
}

/// The linear coefficient of an extension element's representative.
pub open spec fn ext_c1(s: Seq<int>) -> int {
    coeff_at(s, 1)
}

/// The canonical representative with the two given coefficients: trailing
/// zeros are dropped.
pub open spec fn ext_canon(c0: int, c1: int) -> Seq<int> {
    if c1 != 0 {
        seq![c0, c1]
    } else if c0 != 0 {
        seq![c0]
    } else {
        Seq::empty()
    }
}

/// The sum of two extension elements.
pub open spec fn ext_add_spec(a: Seq<int>, b: Seq<int>, m: int) -> Seq<int> {
    ext_canon((ext_c0(a) + ext_c0(b)) % m, (ext_c1(a) + ext_c1(b)) % m)
}

/// The additive inverse of an extension element.
pub open spec fn ext_neg_spec(a: Seq<int>, m: int) -> Seq<int> {
    ext_canon((m - ext_c0(a)) % m, (m - ext_c1(a)) % m)
}

/// The difference of two extension elements.
pub open spec fn ext_sub_spec(a: Seq<int>, b: Seq<int>, m: int) -> Seq<int> {
    ext_canon((ext_c0(a) - ext_c0(b)) % m, (ext_c1(a) - ext_c1(b)) % m)
}

/// The product of two extension elements: representatives multiplied and
/// reduced modulo `1 + X^2`, under which `X^2 = -1`.
pub open spec fn ext_mul_spec(a: Seq<int>, b: Seq<int>, m: int) -> Seq<int> {
    ext_canon(
        (ext_c0(a) * ext_c0(b) - ext_c1(a) * ext_c1(b)) % m,
        (ext_c0(a) * ext_c1(b) + ext_c1(a) * ext_c0(b)) % m,
    )
}

/// The state of binary exponentiation in the extension field after
/// consuming the exponent `e`.
pub open spec fn ext_pow_helper(result: Seq<int>, base: Seq<int>, e: nat, m: int) -> Seq<int>
    decreases e,
{
    if e == 0 {
        result
    } else {
        ext_pow_helper(
            if e % 2 == 1 {
                ext_mul_spec(result, base, m)
            } else {
                result
            },
            ext_mul_spec(base, base, m),
            e / 2,
            m,
        )
    }
}

/// An extension element raised to the power `e` by the binary method.
pub open spec fn ext_pow_spec(s: Seq<int>, e: nat, m: int) -> Seq<int> {
    ext_pow_helper(seq![1int], s, e, m)
}

/// The multiplicative identity of the extension field.
pub open spec fn ext_one() -> Seq<int> {
    seq![1int]
}

/// Whether inversion by exponentiation succeeds on an extension element:
/// it is nonzero and multiplying it by the computed power of it yields one.
/// For the fixed parameters this holds of every nonzero element, since the
/// defining polynomial is irreducible over the base field.
pub open spec fn ext_invertible(s: Seq<int>) -> bool {
    s.len() != 0 && ext_mul_spec(
        s,
        ext_pow_spec(s, (ORDER_FIELD_EXTENSION - 2) as nat, base_order()),
        base_order(),
    ) == ext_one()
}

/// An element of the quadratic extension of the coordinate field, in
/// canonical reduced form.
#[derive(Debug, Eq)]
pub struct FieldExtensionElement {
    value: Polynomial<OrderP>,
}

impl View for FieldExtensionElement {
    type V = Seq<int>;

    closed spec fn view(&self) -> Seq<int> {
        self.value@
    }
}

impl Clone for FieldExtensionElement {
    fn clone(&self) -> (r: Self)
        ensures
            r@ == self@,
    {
        proof {
            use_type_invariant(self);
        }
        Self { value: self.value.clone() }
    }
}

impl PartialEq for FieldExtensionElement {
    fn eq(&self, other: &Self) -> bool {
        self.value == other.value
    }
}

impl vstd::std_specs::cmp::PartialEqSpecImpl for FieldExtensionElement {
    open spec fn obeys_eq_spec() -> bool {
        true
    }

    open spec fn eq_spec(&self, other: &Self) -> bool {
        self@ == other@
    }
}

impl FieldExtensionElement {
    /// The representative polynomial always has degree below two.
    #[verifier::type_invariant]
    pub open spec fn reduced(self) -> bool {
        self@.len() <= 2
    }

    /// The defining polynomial of the extension: `1 + X^2`, chosen so that
    /// the resulting degree-two extension carries a type I pairing for the
    /// elliptic curve.
    pub fn defining_polynomial() -> (r: Polynomial<OrderP>)
        ensures
            r@ == seq![1int, 0int, 1int],
    {
        let mut coefficients: Vec<FieldElement<OrderP>> = Vec::new();
        let c1a = FieldElement::<OrderP>::new(1);
        let c0 = FieldElement::<OrderP>::new(0);
        let c1b = FieldElement::<OrderP>::new(1);
        coefficients.push(c1a);
        coefficients.push(c0);
        coefficients.push(c1b);
        let ghost built = seq_views(coefficients@);
        let r = Polynomial::new(coefficients);
        proof {
            assert(OrderP::spec_order() == 59);
            assert(1int % 59int == 1);
            assert(base_order() == 59);
            assert(1int % base_order() == 1);
            assert(c1a@ == 1);
            assert(c0@ == 0);
            assert(built.len() == 3);
            assert(built[0] == coefficients@[0]@);
            assert(built[1] == coefficients@[1]@);
            assert(built[2] == coefficients@[2]@);
            assert(built =~= seq![1int, 0int, 1int]);
            use_type_invariant(&r);
            lemma_same_poly_canonical(r@, built);
        }
        r
    }

    /// Creates an extension element from a polynomial `p`, keeping the
    /// remainder of dividing `p` by the defining polynomial.
    pub fn new(p: Polynomial<OrderP>) -> (r: Self)
        requires
            p@.len() < usize::MAX,
        ensures
            r@.len() <= 2,
            p@.len() <= 2 ==> r@ == p@,
            exists|q: Seq<int>|
                #![trigger q.len()]
                forall|i: int| #[trigger] coeff_at(p@, i) == (mul_coeff(
                    q,
                    seq![1int, 0int, 1int],
                    i,
                    base_order(),
                ) + coeff_at(r@, i)) % base_order(),
    {
        let defining = Self::defining_polynomial();
        let division = p.long_division_with_remainder(&defining);
        match division {
            Ok((quotient, remainder)) => {
                proof {
                    use_type_invariant(&remainder);
                    let q = quotient@;
                    assert(forall|i: int| #[trigger] coeff_at(p@, i) == (mul_coeff(
                        q,
                        seq![1int, 0int, 1int],
                        i,
                        base_order(),
                    ) + coeff_at(remainder@, i)) % base_order());
                    assert(q.len() == q.len());
                }
                Self { value: remainder }
            },
            Err(_) => {
                proof {
                    // the defining polynomial is monic, so inverting its
                    // leading coefficient always succeeds
                    let e = (OrderP::spec_order() - 2) as nat;
                    vstd::arithmetic::power::lemma1_pow(e);
                    lemma_small_mod(1nat, OrderP::spec_order() as nat);
                    assert(FieldElement::<OrderP>::invertible(1));
                }
                unreached()
            },
        }
    }

    /// Creates an extension element belonging to the base prime field.
    pub fn new_base(value: u128) -> (r: Self)
        ensures
            r@ == ext_canon(value as int % base_order(), 0),
    {
        let c = FieldElement::<OrderP>::new(value);
        let mut coefficients: Vec<FieldElement<OrderP>> = Vec::new();
        coefficients.push(c);
        let ghost built = seq_views(coefficients@);
        let r = Self { value: Polynomial::new(coefficients) };
        proof {
            assert(built =~= seq![c@]);
            use_type_invariant(&r.value);
            assert(is_normalized(ext_canon(c@, 0)));
            assert forall|i: int| #[trigger] coeff_at(r@, i) == coeff_at(
                ext_canon(c@, 0),
                i,
            ) by {}
            lemma_same_poly_canonical(r@, ext_canon(c@, 0));
        }
        r
    }

    /// The two coefficients of the representative polynomial.
    fn components(&self) -> (r: (FieldElement<OrderP>, FieldElement<OrderP>))
        ensures
            r.0@ == ext_c0(self@),
            r.1@ == ext_c1(self@),
    {
        let coefficients = self.value.coefficients();
        let c0 = if coefficients.len() > 0 {
            coefficients[0]
        } else {
            FieldElement::zero()
        };
        let c1 = if coefficients.len() > 1 {
            coefficients[1]
        } else {
            FieldElement::zero()
        };
        (c0, c1)
    }

    /// Packs two coefficients into a canonical extension element.
    fn from_components(c0: FieldElement<OrderP>, c1: FieldElement<OrderP>) -> (r: Self)
        ensures
            r@ == ext_canon(c0@, c1@),
    {
        let mut coefficients: Vec<FieldElement<OrderP>> = Vec::new();
        coefficients.push(c0);
        coefficients.push(c1);
        let ghost built = seq_views(coefficients@);
        let r = Self { value: Polynomial::new(coefficients) };
        proof {
            assert(built =~= seq![c0@, c1@]);
            use_type_invariant(&r.value);
            assert(is_normalized(ext_canon(c0@, c1@)));
            lemma_same_poly_canonical(r@, ext_canon(c0@, c1@));
        }
        r
    }

    /// Addition in the extension field.
    pub fn add(&self, other: &Self) -> (r: Self)
        ensures
            r@ == ext_add_spec(self@, other@, base_order()),
    {
        let (a0, a1) = self.components();
        let (b0, b1) = other.components();
        Self::from_components(a0.add(b0), a1.add(b1))
    }

    /// The additive inverse in the extension field.
    pub fn neg(&self) -> (r: Self)
        ensures
            r@ == ext_neg_spec(self@, base_order()),
    {
        let (a0, a1) = self.components();
        Self::from_components(a0.neg(), a1.neg())
    }

    /// Subtraction in the extension field.
    pub fn sub(&self, other: &Self) -> (r: Self)
        ensures
            r@ == ext_sub_spec(self@, other@, base_order()),
    {
        let (a0, a1) = self.components();
        let (b0, b1) = other.components();
        Self::from_components(a0.sub(b0), a1.sub(b1))
    }

    /// Multiplication in the extension field: the representatives are
    /// multiplied and reduced modulo the defining polynomial, under which
    /// `X^2 = -1`.
    pub fn mul(&self, other: &Self) -> (r: Self)
        ensures
            r@ == ext_mul_spec(self@, other@, base_order()),
    {
        let ghost m = base_order();
        let (a0, a1) = self.components();
        let (b0, b1) = other.components();
        let c0 = a0.mul(b0).sub(a1.mul(b1));
        let c1 = a0.mul(b1).add(a1.mul(b0));
        let r = Self::from_components(c0, c1);
        proof {
            lemma_sub_mod_noop(a0@ * b0@, a1@ * b1@, m);
            lemma_add_mod_noop(a0@ * b1@, a1@ * b0@, m);
            vstd::arithmetic::div_mod::lemma_mod_twice(a0@ * b0@ - a1@ * b1@, m);
            vstd::arithmetic::div_mod::lemma_mod_twice(a0@ * b1@ + a1@ * b0@, m);
        }
        r
    }

    /// Returns `self` to the power of `exponent` by the binary method.
    pub fn pow(&self, exponent: u128) -> (r: Self)
        ensures
            r@ == ext_pow_spec(self@, exponent as nat, base_order()),
    {
        let ghost m = base_order();
        let ghost s0 = self@;
        let ghost e0 = exponent as nat;
        let mut result = Self::new_base(1);
        let mut base = self.clone();
        let mut exponent = exponent;
        proof {
            assert(result@ =~= seq![1int]);
        }
        while exponent > 0
            invariant
                m == base_order(),
                ext_pow_helper(result@, base@, exponent as nat, m) == ext_pow_spec(s0, e0, m),
            decreases exponent,
        {
            let ghost e = exponent as nat;
            let ghost r_old = result@;
            let ghost b_old = base@;
            if exponent % 2 == 1 {
                result = result.mul(&base);
            }
            exponent = exponent / 2;
            base = base.mul(&base.clone());
            proof {
                assert(ext_pow_helper(r_old, b_old, e, m) == ext_pow_helper(
                    if e % 2 == 1 {
                        ext_mul_spec(r_old, b_old, m)
                    } else {
                        r_old
                    },
                    ext_mul_spec(b_old, b_old, m),
                    e / 2,
                    m,
                ));
            }
        }
        proof {
            assert(ext_pow_helper(result@, base@, 0nat, m) == result@);
        }
        result
    }

    /// The multiplicative inverse, computed as `self` to the power of
    /// the extension field order less two and checked by one
    /// multiplication.
    pub fn inv(&self) -> (r: Result<Self, FieldElementError>)
        ensures
            r is Ok <==> ext_invertible(self@),
            r matches Ok(v) ==> v@ == ext_pow_spec(
                self@,
                (ORDER_FIELD_EXTENSION - 2) as nat,
                base_order(),
            ),
            r matches Ok(v) ==> ext_mul_spec(self@, v@, base_order()) == ext_one(),
            r matches Err(e) ==> e == FieldElementError::DivisionByZero,
    {
        if self.value.coefficients().len() == 0 {
            return Err(FieldElementError::DivisionByZero);
        }
        let candidate = self.pow(ORDER_FIELD_EXTENSION - 2);
        let check = self.mul(&candidate);
        let one = Self::new_base(1);
        proof {
            assert(one@ =~= ext_one());
        }
        if check == one {
            Ok(candidate)
        } else {
            Err(FieldElementError::DivisionByZero)
        }
    }

    /// Division in the extension field: multiplication by the inverse of
    /// `other`.
    pub fn div(&self, other: &Self) -> (r: Result<Self, FieldElementError>)
        ensures
            r is Ok <==> ext_invertible(other@),
            r matches Ok(v) ==> v@ == ext_mul_spec(
                self@,
                ext_pow_spec(other@, (ORDER_FIELD_EXTENSION - 2) as nat, base_order()),
                base_order(),
            ),
            r matches Err(e) ==> e == FieldElementError::DivisionByZero,
    {
        match other.inv() {
            Ok(inverse) => Ok(self.mul(&inverse)),
            Err(e) => Err(e),
        }
    }
}

/// The canonical representative reads back its two components.
pub proof fn lemma_ext_components(u: int, v: int)
    ensures
        ext_c0(ext_canon(u, v)) == u,
        ext_c1(ext_canon(u, v)) == v,
{
    if v != 0 {
    } else if u != 0 {
    } else {
    }
}

/// The square in the extension field by the binary method is one
/// multiplication.
pub proof fn lemma_ext_pow_two(s: Seq<int>, m: int)
    requires
        m >= 2,
    ensures
        ext_pow_spec(s, 2, m) == ext_mul_spec(s, s, m),
{
    let w = ext_mul_spec(s, s, m);
    assert(ext_pow_helper(seq![1int], s, 2, m) == ext_pow_helper(seq![1int], w, 1, m));
    assert(ext_pow_helper(seq![1int], w, 1, m) == ext_pow_helper(
        ext_mul_spec(seq![1int], w, m),
        ext_mul_spec(w, w, m),
        0,
        m,
    ));
    lemma_ext_mul_one(w, m);
}

/// The cube in the extension field by the binary method is two
/// multiplications, with the base reduced once.
pub proof fn lemma_ext_pow_three(s: Seq<int>, m: int)
    requires
        m >= 2,
    ensures
        ext_pow_spec(s, 3, m) == ext_mul_spec(
            ext_canon(ext_c0(s) % m, ext_c1(s) % m),
            ext_mul_spec(s, s, m),
            m,
        ),
{
    let s1 = ext_mul_spec(seq![1int], s, m);
    let w = ext_mul_spec(s, s, m);
    assert(ext_pow_helper(seq![1int], s, 3, m) == ext_pow_helper(s1, w, 1, m));
    assert(ext_pow_helper(s1, w, 1, m) == ext_pow_helper(
        ext_mul_spec(s1, w, m),
        ext_mul_spec(w, w, m),
        0,
        m,
    ));
    assert(s1 == ext_canon(ext_c0(s) % m, ext_c1(s) % m)) by {
        assert((1int * ext_c0(s) - 0 * ext_c1(s)) % m == ext_c0(s) % m) by {
            vstd::arithmetic::mul::lemma_mul_basics_4(ext_c0(s));
            vstd::arithmetic::mul::lemma_mul_by_zero_is_zero(ext_c1(s));
        }
        assert((1int * ext_c1(s) + 0 * ext_c0(s)) % m == ext_c1(s) % m) by {
            vstd::arithmetic::mul::lemma_mul_basics_4(ext_c1(s));
            vstd::arithmetic::mul::lemma_mul_by_zero_is_zero(ext_c0(s));
        }
    }
}

/// Multiplying an element with reduced components by the identity
/// returns its canonical representative.
proof fn lemma_ext_mul_one(w: Seq<int>, m: int)
    requires
        m >= 2,
        0 <= ext_c0(w) < m,
        0 <= ext_c1(w) < m,
    ensures
        ext_mul_spec(seq![1int], w, m) == ext_canon(ext_c0(w), ext_c1(w)),
{
    assert((1int * ext_c0(w) - 0 * ext_c1(w)) % m == ext_c0(w)) by {
        vstd::arithmetic::mul::lemma_mul_basics_4(ext_c0(w));
        vstd::arithmetic::mul::lemma_mul_by_zero_is_zero(ext_c1(w));
        lemma_small_mod(ext_c0(w) as nat, m as nat);
    }
    assert((1int * ext_c1(w) + 0 * ext_c0(w)) % m == ext_c1(w)) by {
        vstd::arithmetic::mul::lemma_mul_basics_4(ext_c1(w));
        vstd::arithmetic::mul::lemma_mul_by_zero_is_zero(ext_c0(w));
        lemma_small_mod(ext_c1(w) as nat, m as nat);
    }
}

/// The law: the product of two extension elements is again an extension
/// element of degree below two.
pub proof fn lemma_ext_mul_degree(a: Seq<int>, b: Seq<int>, m: int)
    ensures
        ext_mul_spec(a, b, m).len() <= 2,
{
}

impl PairingTarget for FieldExtensionElement {
    open spec fn mul_view(a: Seq<int>, b: Seq<int>) -> Seq<int> {
        ext_mul_spec(a, b, base_order())
    }

    open spec fn eq_view(a: Seq<int>, b: Seq<int>) -> bool {
        a == b
    }

    fn times(&self, other: &Self) -> (r: Self) {
        self.mul(other)
    }

    fn equals(&self, other: &Self) -> (r: bool) {
        *self == *other
    }
}

} // verus!
