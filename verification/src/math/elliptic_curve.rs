//! The pairing-friendly elliptic curve `y^2 z = x^3 + a x z^2 + b z^3` in
//! projective coordinates over the quadratic extension field, with the
//! group law, scalar multiplication by the binary method, and a type I
//! bilinear pairing built from a Miller loop, a final exponentiation, and a
//! distortion map.
//!
//! The toy parameters are taken from "Pairings for beginners" (page 57):
//! `a = 1`, `b = 0` over the field of order 59, with a subgroup of order 5.

use super::super::config::{
    OrderP, ELLIPTIC_CURVE_A, ELLIPTIC_CURVE_B, GENERATOR_AFFINE_X, GENERATOR_AFFINE_Y,
    ORDER_FIELD_EXTENSION, ORDER_R, TARGET_NORMALIZATION_POWER,
};
use super::cyclic_group::{group_exp, group_exp_helper, BilinearCyclicGroup, GroupView};
use super::field_element::{FieldElement, FieldOrder};
use super::field_extension_element::{
    base_order, ext_c0, ext_c1, ext_canon, ext_invertible, ext_mul_spec, ext_neg_spec,
    ext_pow_spec, ext_sub_spec, FieldExtensionElement,
};
use super::polynomial::Polynomial;
use vstd::prelude::*;

verus! {

type FEE = FieldExtensionElement;

/// The view of a projective point: the views of its three coordinates.
pub type PointView = (Seq<int>, Seq<int>, Seq<int>);

/// The view of an element of the base prime field embedded in the
/// extension.
pub open spec fn ext_base(v: int) -> Seq<int> {
    ext_canon(v % base_order(), 0)
}

/// Projective equality: each point is a scalar multiple of the other,
/// that is, `x1 z2 = x2 z1` and `y1 z2 = y2 z1`.
pub open spec fn ec_eq_view(p: PointView, q: PointView) -> bool {
    let m = base_order();
    ext_mul_spec(p.0, q.2, m) == ext_mul_spec(q.0, p.2, m) && ext_mul_spec(p.1, q.2, m)
        == ext_mul_spec(q.1, p.2, m)
}

/// The view of the neutral element `(0 : 1 : 0)`.
pub open spec fn ec_neutral_view() -> PointView {
    (ext_base(0), ext_base(1), ext_base(0))
}

/// The view of the chosen generator of the order-`ORDER_R` subgroup.
pub open spec fn ec_generator_view() -> PointView {
    (
        ext_base(GENERATOR_AFFINE_X as int),
        ext_base(GENERATOR_AFFINE_Y as int),
        ext_base(1),
    )
}

/// The defining equation of the curve, evaluated at a projective triple:
/// `y^2 z - x^3 - a x z^2 - b z^3`.
pub open spec fn ec_equation_view(x: Seq<int>, y: Seq<int>, z: Seq<int>) -> Seq<int> {
    let m = base_order();
    ext_sub_spec(
        ext_sub_spec(
            ext_sub_spec(ext_mul_spec(ext_pow_spec(y, 2, m), z, m), ext_pow_spec(x, 3, m), m),
            ext_mul_spec(ext_mul_spec(ext_base(ELLIPTIC_CURVE_A as int), x, m), ext_pow_spec(z, 2, m), m),
            m,
        ),
        ext_mul_spec(ext_base(ELLIPTIC_CURVE_B as int), ext_pow_spec(z, 3, m), m),
        m,
    )
}

/// The additive inverse of a point: the `y` coordinate is negated.
pub open spec fn ec_neg_view(p: PointView) -> PointView {
    (p.0, ext_neg_spec(p.1, base_order()), p.2)
}

/// The result of dividing in the extension field, with the dividend kept
/// unchanged in the case, impossible for the fixed parameters, that the
/// divisor's inversion check fails.
pub open spec fn ext_ratio(n: Seq<int>, d: Seq<int>) -> Seq<int> {
    let m = base_order();
    if ext_invertible(d) {
        ext_mul_spec(n, ext_pow_spec(d, (ORDER_FIELD_EXTENSION - 2) as nat, m), m)
    } else {
        n
    }
}

/// The affine normalization of a point: coordinates divided by `z` where
/// `z` is invertible, the point unchanged otherwise.
pub open spec fn ec_affine_view(p: PointView) -> PointView {
    let m = base_order();
    if ext_invertible(p.2) {
        let zi = ext_pow_spec(p.2, (ORDER_FIELD_EXTENSION - 2) as nat, m);
        (ext_mul_spec(p.0, zi, m), ext_mul_spec(p.1, zi, m), ext_base(1))
    } else {
        p
    }
}

/// The group law on the curve, in projective coordinates, with branches
/// for a neutral operand, for doubling, and for inverse points.
pub open spec fn ec_add_view(p: PointView, q: PointView) -> PointView {
    let m = base_order();
    if ec_eq_view(q, ec_neutral_view()) {
        p
    } else if ec_eq_view(p, ec_neutral_view()) {
        q
    } else {
        let u1 = ext_mul_spec(q.1, p.2, m);
        let u2 = ext_mul_spec(p.1, q.2, m);
        let v1 = ext_mul_spec(q.0, p.2, m);
        let v2 = ext_mul_spec(p.0, q.2, m);
        if v1 == v2 {
            if u1 != u2 || p.1 == ext_base(0) {
                ec_neutral_view()
            } else {
                let w = ext_add_view_aux(
                    ext_mul_spec(ext_base(ELLIPTIC_CURVE_A as int), ext_pow_spec(p.2, 2, m), m),
                    ext_mul_spec(ext_base(3), ext_pow_spec(p.0, 2, m), m),
                );
                let s = ext_mul_spec(p.1, p.2, m);
                let b = ext_mul_spec(ext_mul_spec(p.0, p.1, m), s, m);
                let h = ext_sub_spec(
                    ext_pow_spec(w, 2, m),
                    ext_mul_spec(ext_base(8), b, m),
                    m,
                );
                let xp = ext_mul_spec(ext_mul_spec(ext_base(2), h, m), s, m);
                let yp = ext_sub_spec(
                    ext_mul_spec(
                        w,
                        ext_sub_spec(ext_mul_spec(ext_base(4), b, m), h, m),
                        m,
                    ),
                    ext_mul_spec(
                        ext_mul_spec(ext_base(8), ext_pow_spec(p.1, 2, m), m),
                        ext_pow_spec(s, 2, m),
                        m,
                    ),
                    m,
                );
                let zp = ext_mul_spec(ext_base(8), ext_pow_spec(s, 3, m), m);
                (xp, yp, zp)
            }
        } else {
            let u = ext_sub_spec(u1, u2, m);
            let v = ext_sub_spec(v1, v2, m);
            let w = ext_mul_spec(p.2, q.2, m);
            let a = ext_sub_spec(
                ext_sub_spec(
                    ext_mul_spec(ext_pow_spec(u, 2, m), w, m),
                    ext_pow_spec(v, 3, m),
                    m,
                ),
                ext_mul_spec(
                    ext_mul_spec(ext_base(2), ext_pow_spec(v, 2, m), m),
                    v2,
                    m,
                ),
                m,
            );
            let xp = ext_mul_spec(v, a, m);
            let yp = ext_sub_spec(
                ext_mul_spec(
                    u,
                    ext_sub_spec(ext_mul_spec(ext_pow_spec(v, 2, m), v2, m), a, m),
                    m,
                ),
                ext_mul_spec(ext_pow_spec(v, 3, m), u2, m),
                m,
            );
            let zp = ext_mul_spec(ext_pow_spec(v, 3, m), w, m);
            (xp, yp, zp)
        }
    }
}

/// The sum in the extension field, spelled out for the doubling branch.
pub open spec fn ext_add_view_aux(a: Seq<int>, b: Seq<int>) -> Seq<int> {
    super::field_extension_element::ext_add_spec(a, b, base_order())
}

/// The evaluation at `q` of the line through `a` and `r`: the tangent when
/// the points coincide, the vertical when they are inverse to each other.
/// A neutral `q`, which the pairing never passes in, reads as one.
pub open spec fn ec_line_view(a: PointView, r: PointView, q: PointView) -> Seq<int> {
    let m = base_order();
    if ec_eq_view(q, ec_neutral_view()) {
        ext_base(1)
    } else if ec_eq_view(a, ec_neutral_view()) || ec_eq_view(r, ec_neutral_view()) {
        if ec_eq_view(a, r) {
            ext_base(1)
        } else if ec_eq_view(a, ec_neutral_view()) {
            ext_sub_spec(q.0, r.0, m)
        } else {
            ext_sub_spec(q.0, a.0, m)
        }
    } else if !ec_eq_view(a, r) {
        if a.0 == r.0 {
            ext_sub_spec(q.0, a.0, m)
        } else {
            let num = ext_sub_spec(r.1, a.1, m);
            let den = ext_sub_spec(r.0, a.0, m);
            if ext_invertible(den) {
                let l = ext_ratio(num, den);
                ext_sub_spec(
                    ext_sub_spec(q.1, a.1, m),
                    ext_mul_spec(l, ext_sub_spec(q.0, a.0, m), m),
                    m,
                )
            } else {
                ext_sub_spec(q.0, a.0, m)
            }
        }
    } else {
        let num = ext_add_view_aux(
            ext_mul_spec(ext_base(3), ext_pow_spec(a.0, 2, m), m),
            ext_base(ELLIPTIC_CURVE_A as int),
        );
        let den = ext_mul_spec(ext_base(2), a.1, m);
        if den == ext_base(0) || !ext_invertible(den) {
            ext_sub_spec(q.0, a.0, m)
        } else {
            let l = ext_ratio(num, den);
            ext_sub_spec(
                ext_sub_spec(q.1, a.1, m),
                ext_mul_spec(l, ext_sub_spec(q.0, a.0, m), m),
            m,
            )
        }
    }
}

/// The binary expansion of `n`, least significant bit first.
pub open spec fn bits_of(n: nat) -> Seq<int>
    decreases n,
{
    if n == 0 {
        Seq::empty()
    } else {
        seq![(n % 2) as int] + bits_of(n / 2)
    }
}

/// One doubling step, and an addition step when the bit is set, of the
/// Miller loop.
pub open spec fn ec_miller_step(b: int, p: PointView, q: PointView, f: Seq<int>, r: PointView) -> (
    Seq<int>,
    PointView,
) {
    let m = base_order();
    let s = ec_affine_view(ec_add_view(r, r));
    let f2 = ext_mul_spec(
        ext_pow_spec(f, 2, m),
        ext_ratio(ec_line_view(r, r, q), ec_line_view(s, ec_neg_view(s), q)),
        m,
    );
    if b == 1 {
        let s2 = ec_add_view(s, p);
        let s3 = if !ec_eq_view(s2, ec_neutral_view()) {
            ec_affine_view(s2)
        } else {
            s2
        };
        let f3 = ext_mul_spec(
            f2,
            ext_ratio(ec_line_view(s, p, q), ec_line_view(s3, ec_neg_view(s3), q)),
            m,
        );
        (f3, s3)
    } else {
        (f2, s)
    }
}

/// The Miller loop over the bits of the subgroup order at indices `idx`
/// down to `0` of its binary expansion.
pub open spec fn ec_miller_from(
    bits: Seq<int>,
    idx: int,
    p: PointView,
    q: PointView,
    f: Seq<int>,
    r: PointView,
) -> Seq<int>
    decreases (if idx >= 0 {
        idx + 1
    } else {
        0
    }),
{
    if idx < 0 || idx >= bits.len() {
        f
    } else {
        let step = ec_miller_step(bits[idx], p, q, f, r);
        ec_miller_from(bits, idx - 1, p, q, step.0, step.1)
    }
}

/// The Miller function of the pairing: one on a neutral argument, else the
/// Miller loop over the binary expansion of the subgroup order, skipping
/// its leading bit.
pub open spec fn ec_miller_view(p: PointView, q: PointView) -> Seq<int> {
    if ec_eq_view(p, ec_neutral_view()) || ec_eq_view(q, ec_neutral_view()) {
        ext_base(1)
    } else {
        ec_miller_from(
            bits_of(ORDER_R as nat),
            bits_of(ORDER_R as nat).len() - 2,
            p,
            q,
            ext_base(1),
            p,
        )
    }
}

/// The Tate pairing: the Miller function raised to
/// `(ORDER_FIELD_EXTENSION - 1) / ORDER_R`.
pub open spec fn ec_tate_view(p: PointView, q: PointView) -> Seq<int> {
    ext_pow_spec(ec_miller_view(p, q), TARGET_NORMALIZATION_POWER as nat, base_order())
}

/// The Weil-style pairing: the negated ratio of the two Miller functions.
pub open spec fn ec_weil_view(p: PointView, q: PointView) -> Seq<int> {
    ext_neg_spec(ext_ratio(ec_miller_view(p, q), ec_miller_view(q, p)), base_order())
}

/// The distortion map: sends an affine point `(x, y)` of the base-field
/// subgroup to the linearly independent point `(-x, y t)` over the
/// extension, where `t` is the image of `X`.
pub open spec fn ec_distorsion_view(p: PointView) -> PointView {
    let m = base_order();
    if ec_eq_view(p, ec_neutral_view()) {
        ec_neutral_view()
    } else {
        let pa = ec_affine_view(p);
        (
            ext_neg_spec(pa.0, m),
            ext_mul_spec(pa.1, ext_canon(0, 1), m),
            ext_base(1),
        )
    }
}

/// The full pairing: both arguments normalized to affine form, the second
/// sent through the distortion map, then the Tate pairing.
pub open spec fn ec_pairing_view(p: PointView, q: PointView) -> Seq<int> {
    let pa = if !ec_eq_view(p, ec_neutral_view()) {
        ec_affine_view(p)
    } else {
        p
    };
    let qa = if !ec_eq_view(q, ec_neutral_view()) {
        ec_affine_view(q)
    } else {
        q
    };
    ec_tate_view(pa, ec_distorsion_view(qa))
}

/// A point of the elliptic curve in projective coordinates.
#[derive(Debug, Eq)]
pub struct EllipticCurveElement {
    x: FEE,
    y: FEE,
    z: FEE,
}

/// Failure cases of constructing a curve point.
#[derive(Clone, Copy, Debug, PartialEq, Eq, Structural)]
pub enum EllipticCurveError {
    /// The projective triple does not satisfy the curve equation.
    NotOnCurve,
}

impl View for EllipticCurveElement {
    type V = PointView;

    closed spec fn view(&self) -> PointView {
        (self.x@, self.y@, self.z@)
    }
}

impl Clone for EllipticCurveElement {
    fn clone(&self) -> (r: Self)
        ensures
            r@ == self@,
    {
        Self { x: self.x.clone(), y: self.y.clone(), z: self.z.clone() }
    }
}

impl PartialEq for EllipticCurveElement {
    fn eq(&self, other: &Self) -> bool {
        let a = self.x.mul(&other.z) == other.x.mul(&self.z);
        let b = self.y.mul(&other.z) == other.y.mul(&self.z);
        a && b
    }
}

impl vstd::std_specs::cmp::PartialEqSpecImpl for EllipticCurveElement {
    open spec fn obeys_eq_spec() -> bool {
        true
    }

    open spec fn eq_spec(&self, other: &Self) -> bool {
        ec_eq_view(self@, other@)
    }
}

impl EllipticCurveElement {
    /// Creates a point from a projective triple, rejecting triples that do
    /// not satisfy the curve equation.
    pub fn new(x: FEE, y: FEE, z: FEE) -> (r: Result<Self, EllipticCurveError>)
        ensures
            r is Ok <==> ec_equation_view(x@, y@, z@) == Seq::<int>::empty(),
            r matches Ok(v) ==> v@ == (x@, y@, z@),
            r matches Err(e) ==> e == EllipticCurveError::NotOnCurve,
    {
        let equation = Self::defining_equation(&x, &y, &z);
        let zero = FEE::new_base(0);
        proof {
            assert(zero@ =~= Seq::<int>::empty());
        }
        if equation == zero {
            Ok(Self { x, y, z })
        } else {
            Err(EllipticCurveError::NotOnCurve)
        }
    }

    /// The defining equation of the curve evaluated at a projective triple.
    pub fn defining_equation(x: &FEE, y: &FEE, z: &FEE) -> (r: FEE)
        ensures
            r@ == ec_equation_view(x@, y@, z@),
    {
        y.pow(2).mul(z).sub(&x.pow(3)).sub(
            &FEE::new_base(ELLIPTIC_CURVE_A as u128).mul(x).mul(&z.pow(2)),
        ).sub(&FEE::new_base(ELLIPTIC_CURVE_B as u128).mul(&z.pow(3)))
    }

    /// The x coordinate.
    pub fn x(&self) -> (r: &FEE)
        ensures
            r@ == self@.0,
    {
        &self.x
    }

    /// The y coordinate.
    pub fn y(&self) -> (r: &FEE)
        ensures
            r@ == self@.1,
    {
        &self.y
    }

    /// The z coordinate.
    pub fn z(&self) -> (r: &FEE)
        ensures
            r@ == self@.2,
    {
        &self.z
    }

    /// The additive inverse of the point.
    pub fn neg(&self) -> (r: Self)
        ensures
            r@ == ec_neg_view(self@),
    {
        Self { x: self.x.clone(), y: self.y.neg(), z: self.z.clone() }
    }

    /// The affine normalization of the point: coordinates divided by `z`.
    /// A point whose `z` coordinate is not invertible, such as the neutral
    /// element, is returned unchanged.
    pub fn affine(&self) -> (r: Self)
        ensures
            r@ == ec_affine_view(self@),
    {
        match self.z.inv() {
            Ok(zi) => Self { x: self.x.mul(&zi), y: self.y.mul(&zi), z: FEE::new_base(1) },
            Err(_) => self.clone(),
        }
    }

    /// Evaluates at `q` the line through `self` and `r`: the tangent at
    /// `self` when the two coincide, the vertical when they are inverse to
    /// each other.
    pub fn line(&self, r: &Self, q: &Self) -> (result: FEE)
        ensures
            result@ == ec_line_view(self@, r@, q@),
    {
        let neutral = Self::neutral_element();
        if *q == neutral {
            FEE::new_base(1)
        } else if *self == neutral || *r == neutral {
            if *self == *r {
                FEE::new_base(1)
            } else if *self == neutral {
                q.x.sub(&r.x)
            } else {
                q.x.sub(&self.x)
            }
        } else if !(*self == *r) {
            if self.x == r.x {
                q.x.sub(&self.x)
            } else {
                let num = r.y.sub(&self.y);
                let den = r.x.sub(&self.x);
                match num.div(&den) {
                    Ok(l) => q.y.sub(&self.y).sub(&l.mul(&q.x.sub(&self.x))),
                    Err(_) => q.x.sub(&self.x),
                }
            }
        } else {
            let num = FEE::new_base(3).mul(&self.x.pow(2)).add(
                &FEE::new_base(ELLIPTIC_CURVE_A as u128),
            );
            let den = FEE::new_base(2).mul(&self.y);
            if den == FEE::new_base(0) {
                q.x.sub(&self.x)
            } else {
                match num.div(&den) {
                    Ok(l) => q.y.sub(&self.y).sub(&l.mul(&q.x.sub(&self.x))),
                    Err(_) => q.x.sub(&self.x),
                }
            }
        }
    }

    /// The Miller function of the pairing, computed by a double-and-add
    /// loop over the binary expansion of the subgroup order ("Pairings for
    /// beginners", Algorithm 5.1).
    pub fn miller(p: &Self, q: &Self) -> (result: FEE)
        ensures
            result@ == ec_miller_view(p@, q@),
    {
        let neutral = Self::neutral_element();
        if *p == neutral || *q == neutral {
            FEE::new_base(1)
        } else {
            let mut order_r: u128 = ORDER_R as u128;
            let mut bs: Vec<u8> = Vec::new();
            proof {
                assert(bits_of(0nat) == Seq::<int>::empty());
            }
            while order_r > 0
                invariant
                    bit_views(bs@) + bits_of(order_r as nat) == bits_of(ORDER_R as nat),
                    order_r <= ORDER_R as u128,
                decreases order_r,
            {
                let ghost before = bit_views(bs@);
                let b = (order_r % 2) as u8;
                bs.push(b);
                order_r = order_r / 2;
                proof {
                    assert(bit_views(bs@) =~= before.push(b as int));
                    assert(seq![b as int] + bits_of(order_r as nat) =~= bits_of(
                        ((order_r * 2) + (b as nat)) as nat,
                    ).drop_first() + bits_of(order_r as nat) || true);
                    assert(bit_views(bs@) + bits_of(order_r as nat) =~= before + (seq![b as int]
                        + bits_of(order_r as nat)));
                }
            }
            proof {
                assert(bits_of(0nat) == Seq::<int>::empty());
                assert(bit_views(bs@) + bits_of(0nat) =~= bit_views(bs@));
            }
            let ghost bits = bit_views(bs@);
            let mut f = FEE::new_base(1);
            let mut racc = p.clone();
            let mut i: usize = bs.len() - 1;
            proof {
                assert(bits.len() >= 1) by {
                    assert(bits_of(ORDER_R as nat).len() >= 1);
                }
            }
            while i > 0
                invariant
                    i <= bits.len() - 1,
                    bits == bit_views(bs@),
                    bits == bits_of(ORDER_R as nat),
                    bits.len() >= 1,
                    ec_miller_from(bits, i - 1, p@, q@, f@, racc@) == ec_miller_from(
                        bits,
                        bits.len() - 2,
                        p@,
                        q@,
                        ext_base(1),
                        p@,
                    ),
                decreases i,
            {
                i -= 1;
                let b = bs[i];
                let ghost f_old = f@;
                let ghost r_old = racc@;
                let s = racc.operate_with(&racc).affine();
                let line1 = racc.line(&racc, q);
                let line2 = s.line(&s.neg(), q);
                let ratio1 = match line1.div(&line2) {
                    Ok(v) => v,
                    Err(_) => line1,
                };
                f = f.pow(2).mul(&ratio1);
                racc = s;
                if b == 1 {
                    let s2 = racc.operate_with(p);
                    let neutral2 = Self::neutral_element();
                    let s3 = if !(s2 == neutral2) {
                        s2.affine()
                    } else {
                        s2
                    };
                    let line3 = racc.line(p, q);
                    let line4 = s3.line(&s3.neg(), q);
                    let ratio2 = match line3.div(&line4) {
                        Ok(v) => v,
                        Err(_) => line3,
                    };
                    f = f.mul(&ratio2);
                    racc = s3;
                }
                proof {
                    assert((f@, racc@) == ec_miller_step(bits[i as int], p@, q@, f_old, r_old));
                    assert(ec_miller_from(bits, i as int, p@, q@, f_old, r_old)
                        == ec_miller_from(bits, i - 1, p@, q@, f@, racc@));
                }
            }
            proof {
                assert(ec_miller_from(bits, -1, p@, q@, f@, racc@) == f@);
            }
            f
        }
    }

    /// The Weil-style pairing: the negated ratio of the two Miller
    /// functions.
    pub fn weil_pairing(p: &Self, q: &Self) -> (result: FEE)
        ensures
            result@ == ec_weil_view(p@, q@),
    {
        let numerator = Self::miller(p, q);
        let denominator = Self::miller(q, p);
        let result = match numerator.div(&denominator) {
            Ok(v) => v,
            Err(_) => numerator,
        };
        result.neg()
    }

    /// The Tate pairing: the Miller function raised to
    /// `(ORDER_FIELD_EXTENSION - 1) / ORDER_R`.
    pub fn tate_pairing(p: &Self, q: &Self) -> (result: FEE)
        ensures
            result@ == ec_tate_view(p@, q@),
    {
        Self::miller(p, q).pow(TARGET_NORMALIZATION_POWER)
    }

    /// The distortion map, sending a point of the base-field subgroup to a
    /// linearly independent point over the extension so that the pairing is
    /// non-degenerate. By [`lemma_distorsion_preserves_curve`], the image
    /// of an affine base-subgroup point of the curve lies on the curve.
    pub fn distorsion_map(p: &Self) -> (r: Self)
        ensures
            r@ == ec_distorsion_view(p@),
    {
        let neutral = Self::neutral_element();
        if *p == neutral {
            neutral
        } else {
            let monomial = Polynomial::<OrderP>::new_monomial(FieldElement::new(1), 1);
            proof {
                use_type_invariant(&monomial);
                assert(super::polynomial::is_normalized(ext_canon(0, 1)));
                super::polynomial::lemma_same_poly_canonical(monomial@, ext_canon(0, 1));
            }
            let t = FEE::new(monomial);
            let p_affine = p.affine();
            let r = Self {
                x: p_affine.x.neg(),
                y: p_affine.y.mul(&t),
                z: FEE::new_base(1),
            };
            r
        }
    }
}

/// Congruent factors have congruent products.
proof fn lemma_congruent_mul(a1: int, a2: int, b1: int, b2: int, m: int)
    requires
        m >= 1,
        a1 % m == a2 % m,
        b1 % m == b2 % m,
    ensures
        (a1 * b1) % m == (a2 * b2) % m,
{
    vstd::arithmetic::div_mod::lemma_mul_mod_noop_general(a1, b1, m);
    vstd::arithmetic::div_mod::lemma_mul_mod_noop_general(a2, b2, m);
}

/// Congruent terms have congruent differences.
proof fn lemma_congruent_sub(a1: int, a2: int, b1: int, b2: int, m: int)
    requires
        m >= 1,
        a1 % m == a2 % m,
        b1 % m == b2 % m,
    ensures
        (a1 - b1) % m == (a2 - b2) % m,
{
    vstd::arithmetic::div_mod::lemma_sub_mod_noop(a1, b1, m);
    vstd::arithmetic::div_mod::lemma_sub_mod_noop(a2, b2, m);
}

/// The law: the distortion map preserves the curve. An affine point of
/// the base-field subgroup that satisfies the curve equation is sent to a
/// point over the extension that satisfies it as well.
pub proof fn lemma_distorsion_preserves_curve(x: Seq<int>, y: Seq<int>)
    requires
        ext_c1(x) == 0,
        ext_c1(y) == 0,
        0 <= ext_c0(x) < base_order(),
        0 <= ext_c0(y) < base_order(),
        ec_equation_view(x, y, ext_base(1)) == Seq::<int>::empty(),
    ensures
        ec_equation_view(
            ext_neg_spec(x, base_order()),
            ext_mul_spec(y, ext_canon(0, 1), base_order()),
            ext_base(1),
        ) == Seq::<int>::empty(),
{
    let m = base_order();
    assert(OrderP::spec_order() == 59);
    assert(m == 59);
    let x0 = ext_c0(x);
    let y0 = ext_c0(y);
    let z = ext_base(1);
    assert(1int % m == 1);
    assert(0int % m == 0);
    assert(z == ext_canon(1, 0));
    super::field_extension_element::lemma_ext_components(1, 0);
    super::field_extension_element::lemma_ext_components(0, 0);
    assert(ext_base(0) == ext_canon(0, 0));
    // components of the powers of the coordinates and of the line element
    super::field_extension_element::lemma_ext_pow_two(y, m);
    super::field_extension_element::lemma_ext_pow_two(x, m);
    super::field_extension_element::lemma_ext_pow_two(z, m);
    super::field_extension_element::lemma_ext_pow_three(x, m);
    super::field_extension_element::lemma_ext_pow_three(z, m);
    vstd::arithmetic::div_mod::lemma_small_mod(x0 as nat, m as nat);
    vstd::arithmetic::div_mod::lemma_small_mod(y0 as nat, m as nat);
    // the hypothesis, read off component by component
    let yy0 = (y0 * y0 - 0 * 0) % m;
    assert(ext_pow_spec(y, 2, m) == ext_canon(yy0, (y0 * 0 + 0 * y0) % m));
    super::field_extension_element::lemma_ext_components(yy0, (y0 * 0 + 0 * y0) % m);
    let xx0 = (x0 * x0 - 0 * 0) % m;
    assert(ext_pow_spec(x, 2, m) == ext_canon(xx0, (x0 * 0 + 0 * x0) % m));
    super::field_extension_element::lemma_ext_components(xx0, (x0 * 0 + 0 * x0) % m);
    let x30 = (x0 * xx0 - 0 * ((x0 * 0 + 0 * x0) % m)) % m;
    assert(ext_pow_spec(x, 3, m) == ext_mul_spec(ext_canon(x0, 0), ext_pow_spec(x, 2, m), m));
    super::field_extension_element::lemma_ext_components(x0, 0);
    assert(ext_c0(ext_pow_spec(x, 3, m)) == x30 && ext_c1(ext_pow_spec(x, 3, m)) == (x0 * ((x0
        * 0 + 0 * x0) % m) + 0 * xx0) % m) by {
        super::field_extension_element::lemma_ext_components(
            (x0 * xx0 - 0 * ((x0 * 0 + 0 * x0) % m)) % m,
            (x0 * ((x0 * 0 + 0 * x0) % m) + 0 * xx0) % m,
        );
    }
    assert(ext_c1(ext_pow_spec(x, 3, m)) == 0) by {
        vstd::arithmetic::mul::lemma_mul_by_zero_is_zero(x0);
        vstd::arithmetic::mul::lemma_mul_by_zero_is_zero(xx0);
    }
    assert(ext_c1(ext_pow_spec(y, 2, m)) == 0 && ext_c1(ext_pow_spec(x, 2, m)) == 0) by {
        vstd::arithmetic::mul::lemma_mul_by_zero_is_zero(x0);
        vstd::arithmetic::mul::lemma_mul_by_zero_is_zero(y0);
    }
    assert(yy0 == (y0 * y0) % m && xx0 == (x0 * x0) % m);
    assert(x30 == (x0 * ((x0 * x0) % m)) % m) by {
        vstd::arithmetic::mul::lemma_mul_by_zero_is_zero((x0 * 0 + 0 * x0) % m);
    }
    assert(x30 == (x0 * (x0 * x0)) % m) by {
        vstd::arithmetic::div_mod::lemma_mul_mod_noop_right(x0, x0 * x0, m);
    }
    assert(ext_pow_spec(z, 2, m) == ext_canon(1, 0)) by {
        super::field_extension_element::lemma_ext_components((1int * 1 - 0 * 0) % m, (1int * 0
            + 0 * 1) % m);
    }
    assert(ext_pow_spec(z, 3, m) == ext_canon(1, 0)) by {
        super::field_extension_element::lemma_ext_components((1int * 1 - 0 * 0) % m, (1int * 0
            + 0 * 1) % m);
    }
    // fold the equation of the hypothesis down to one residue
    let e0 = ((yy0 - x30) % m - x0) % m;
    assert(ec_equation_view(x, y, z) == ext_canon(e0, 0)) by {
        assert(ext_mul_spec(ext_pow_spec(y, 2, m), z, m) == ext_canon(yy0, 0)) by {
            vstd::arithmetic::div_mod::lemma_small_mod(yy0 as nat, m as nat);
        }
        super::field_extension_element::lemma_ext_components(yy0, 0);
        assert(ext_sub_spec(ext_canon(yy0, 0), ext_pow_spec(x, 3, m), m) == ext_canon(
            (yy0 - x30) % m,
            0,
        ));
        super::field_extension_element::lemma_ext_components((yy0 - x30) % m, 0);
        assert(ext_mul_spec(ext_base(ELLIPTIC_CURVE_A as int), x, m) == ext_canon(x0, 0));
        assert(ext_mul_spec(ext_canon(x0, 0), ext_pow_spec(z, 2, m), m) == ext_canon(x0, 0)) by {
            vstd::arithmetic::mul::lemma_mul_basics_3(x0);
            vstd::arithmetic::mul::lemma_mul_basics_4(x0);
            vstd::arithmetic::mul::lemma_mul_by_zero_is_zero(x0);
            vstd::arithmetic::mul::lemma_mul_by_zero_is_zero(1);
            vstd::arithmetic::mul::lemma_mul_by_zero_is_zero(0);
            vstd::arithmetic::div_mod::lemma_small_mod(x0 as nat, m as nat);
            vstd::arithmetic::div_mod::lemma_small_mod(0nat, m as nat);
        }
        assert(ext_sub_spec(ext_canon((yy0 - x30) % m, 0), ext_canon(x0, 0), m) == ext_canon(
            e0,
            0,
        ));
        super::field_extension_element::lemma_ext_components(e0, 0);
        assert(ext_mul_spec(ext_base(ELLIPTIC_CURVE_B as int), ext_pow_spec(z, 3, m), m)
            == ext_canon(0, 0));
        assert(ext_sub_spec(ext_canon(e0, 0), ext_canon(0, 0), m) == ext_canon(e0, 0)) by {
            vstd::arithmetic::div_mod::lemma_mod_twice(e0, m);
            vstd::arithmetic::div_mod::lemma_small_mod(0nat, m as nat);
        }
    }
    assert(e0 == 0) by {
        if e0 != 0 {
            assert(ext_canon(e0, 0) != Seq::<int>::empty());
        }
    }
    // the image point, component by component
    let nx = (m - x0) % m;
    assert(ext_neg_spec(x, m) == ext_canon(nx, 0)) by {
        vstd::arithmetic::div_mod::lemma_mod_self_0(m);
    }
    let yt = ext_mul_spec(y, ext_canon(0, 1), m);
    super::field_extension_element::lemma_ext_components(0, 1);
    assert(yt == ext_canon((y0 * 0 - 0 * 1) % m, (y0 * 1 + 0 * 0) % m));
    assert(yt == ext_canon(0, y0)) by {
        vstd::arithmetic::div_mod::lemma_small_mod(0nat, m as nat);
        vstd::arithmetic::div_mod::lemma_small_mod(y0 as nat, m as nat);
    }
    super::field_extension_element::lemma_ext_components(0, y0);
    super::field_extension_element::lemma_ext_components(nx, 0);
    super::field_extension_element::lemma_ext_pow_two(ext_canon(nx, 0), m);
    super::field_extension_element::lemma_ext_pow_two(ext_canon(0, y0), m);
    super::field_extension_element::lemma_ext_pow_three(ext_canon(nx, 0), m);
    // negation is a congruence: nx stands for -x0
    assert(nx % m == (0 - x0) % m) by {
        vstd::arithmetic::div_mod::lemma_mod_add_multiples_vanish(0 - x0, m);
        vstd::arithmetic::div_mod::lemma_mod_twice(m - x0, m);
        vstd::arithmetic::div_mod::lemma_small_mod(nx as nat, m as nat);
    }
    // squared and cubed image coordinates
    let nxx0 = (nx * nx - 0 * 0) % m;
    assert(ext_pow_spec(ext_canon(nx, 0), 2, m) == ext_canon(nxx0, (nx * 0 + 0 * nx) % m));
    assert((nx * 0 + 0 * nx) % m == 0) by {
        vstd::arithmetic::mul::lemma_mul_by_zero_is_zero(nx);
    }
    super::field_extension_element::lemma_ext_components(nxx0, 0);
    assert(nxx0 == (x0 * x0) % m) by {
        lemma_congruent_mul(nx, 0 - x0, nx, 0 - x0, m);
        assert((nx * nx) % m == ((0 - x0) * (0 - x0)) % m);
        assert((0 - x0) * (0 - x0) == x0 * x0) by {
            vstd::arithmetic::mul::lemma_mul_cancels_negatives(x0, x0);
        }
        vstd::arithmetic::div_mod::lemma_mod_twice(x0 * x0, m);
        vstd::arithmetic::mul::lemma_mul_by_zero_is_zero(0);
    }
    let nx30 = (nx * nxx0 - 0 * 0) % m;
    assert(ext_pow_spec(ext_canon(nx, 0), 3, m) == ext_mul_spec(
        ext_canon(nx % m, 0int % m),
        ext_canon(nxx0, 0),
        m,
    ));
    assert(ext_canon(nx % m, 0int % m) == ext_canon(nx, 0)) by {
        vstd::arithmetic::div_mod::lemma_small_mod(nx as nat, m as nat);
    }
    assert(ext_c0(ext_pow_spec(ext_canon(nx, 0), 3, m)) == nx30 && ext_c1(ext_pow_spec(
        ext_canon(nx, 0),
        3,
        m,
    )) == 0) by {
        super::field_extension_element::lemma_ext_components(
            (nx * nxx0 - 0 * 0) % m,
            (nx * 0 + 0 * nxx0) % m,
        );
        vstd::arithmetic::mul::lemma_mul_by_zero_is_zero(nx);
        vstd::arithmetic::mul::lemma_mul_by_zero_is_zero(nxx0);
        vstd::arithmetic::mul::lemma_mul_by_zero_is_zero(0);
    }
    // the cube of the negation stands for minus the cube
    assert(nx30 % m == (0 - x30) % m) by {
        vstd::arithmetic::mul::lemma_mul_by_zero_is_zero(0);
        lemma_congruent_mul(nx, 0 - x0, nxx0, x0 * x0, m);
        assert((nx * nxx0) % m == ((0 - x0) * (x0 * x0)) % m) by {
            vstd::arithmetic::div_mod::lemma_mod_twice(x0 * x0, m);
        }
        assert((0 - x0) * (x0 * x0) == 0 - x0 * (x0 * x0)) by {
            vstd::arithmetic::mul::lemma_mul_unary_negation(x0, x0 * x0);
        }
        assert((0 - (x0 * (x0 * x0))) % m == (0 - ((x0 * (x0 * x0)) % m)) % m) by {
            vstd::arithmetic::div_mod::lemma_sub_mod_noop_right(0, x0 * (x0 * x0), m);
        }
        vstd::arithmetic::div_mod::lemma_mod_twice(nx * nxx0, m);
    }
    // the square of the rotated y coordinate stands for minus the square
    let nyy0 = (0 * 0 - y0 * y0) % m;
    assert(ext_pow_spec(ext_canon(0, y0), 2, m) == ext_canon(nyy0, (0 * y0 + y0 * 0) % m));
    assert((0 * y0 + y0 * 0) % m == 0) by {
        vstd::arithmetic::mul::lemma_mul_by_zero_is_zero(y0);
    }
    super::field_extension_element::lemma_ext_components(nyy0, 0);
    assert(nyy0 % m == (0 - yy0) % m) by {
        vstd::arithmetic::mul::lemma_mul_by_zero_is_zero(0);
        assert((0 - (y0 * y0)) % m == (0 - ((y0 * y0) % m)) % m) by {
            vstd::arithmetic::div_mod::lemma_sub_mod_noop_right(0, y0 * y0, m);
        }
        vstd::arithmetic::div_mod::lemma_mod_twice(0 - y0 * y0, m);
    }
    // fold the image equation down to one residue and cancel
    let e0p = ((nyy0 - nx30) % m - nx) % m;
    assert(ec_equation_view(ext_canon(nx, 0), ext_canon(0, y0), z) == ext_canon(e0p, 0)) by {
        assert(ext_mul_spec(ext_pow_spec(ext_canon(0, y0), 2, m), z, m) == ext_canon(
            nyy0,
            0,
        )) by {
            vstd::arithmetic::div_mod::lemma_small_mod(nyy0 as nat, m as nat);
        }
        super::field_extension_element::lemma_ext_components(nyy0, 0);
        assert(ext_sub_spec(ext_canon(nyy0, 0), ext_pow_spec(ext_canon(nx, 0), 3, m), m)
            == ext_canon((nyy0 - nx30) % m, 0));
        super::field_extension_element::lemma_ext_components((nyy0 - nx30) % m, 0);
        assert(ext_mul_spec(ext_base(ELLIPTIC_CURVE_A as int), ext_canon(nx, 0), m)
            == ext_canon(nx, 0)) by {
            vstd::arithmetic::div_mod::lemma_small_mod(nx as nat, m as nat);
        }
        assert(ext_mul_spec(ext_canon(nx, 0), ext_pow_spec(z, 2, m), m) == ext_canon(nx, 0))
            by {
            vstd::arithmetic::mul::lemma_mul_basics_3(nx);
            vstd::arithmetic::mul::lemma_mul_basics_4(nx);
            vstd::arithmetic::mul::lemma_mul_by_zero_is_zero(nx);
            vstd::arithmetic::mul::lemma_mul_by_zero_is_zero(1);
            vstd::arithmetic::mul::lemma_mul_by_zero_is_zero(0);
            vstd::arithmetic::div_mod::lemma_small_mod(nx as nat, m as nat);
            vstd::arithmetic::div_mod::lemma_small_mod(0nat, m as nat);
        }
        assert(ext_sub_spec(ext_canon((nyy0 - nx30) % m, 0), ext_canon(nx, 0), m) == ext_canon(
            e0p,
            0,
        ));
        super::field_extension_element::lemma_ext_components(e0p, 0);
        assert(ext_mul_spec(ext_base(ELLIPTIC_CURVE_B as int), ext_pow_spec(z, 3, m), m)
            == ext_canon(0, 0));
        assert(ext_sub_spec(ext_canon(e0p, 0), ext_canon(0, 0), m) == ext_canon(e0p, 0)) by {
            vstd::arithmetic::div_mod::lemma_mod_twice(e0p, m);
            vstd::arithmetic::div_mod::lemma_small_mod(0nat, m as nat);
        }
    }
    assert(e0p == 0) by {
        lemma_congruent_sub(nyy0, 0 - yy0, nx30, 0 - x30, m);
        assert((nyy0 - nx30) % m == ((0 - yy0) - (0 - x30)) % m) by {
            vstd::arithmetic::div_mod::lemma_mod_twice(nyy0 - nx30, m);
            vstd::arithmetic::div_mod::lemma_sub_mod_noop(nyy0, nx30, m);
            vstd::arithmetic::div_mod::lemma_sub_mod_noop(0 - yy0, 0 - x30, m);
        }
        lemma_congruent_sub((0 - yy0) - (0 - x30), (0 - yy0) - (0 - x30), nx, 0 - x0, m);
        assert(((nyy0 - nx30) % m - nx) % m == (((0 - yy0) - (0 - x30)) - (0 - x0)) % m) by {
            vstd::arithmetic::div_mod::lemma_sub_mod_noop((nyy0 - nx30) % m, nx, m);
            vstd::arithmetic::div_mod::lemma_sub_mod_noop(
                (0 - yy0) - (0 - x30),
                0 - x0,
                m,
            );
            vstd::arithmetic::div_mod::lemma_mod_twice((nyy0 - nx30) % m - nx, m);
            vstd::arithmetic::div_mod::lemma_mod_twice(nyy0 - nx30, m);
        }
        assert(((0 - yy0) - (0 - x30)) - (0 - x0) == 0 - ((yy0 - x30) - x0));
        assert((0 - ((yy0 - x30) - x0)) % m == (0 - (((yy0 - x30) % m) - x0)) % m) by {
            vstd::arithmetic::div_mod::lemma_sub_mod_noop_right(0, (yy0 - x30) - x0, m);
            vstd::arithmetic::div_mod::lemma_sub_mod_noop_right(0, ((yy0 - x30) % m) - x0, m);
            vstd::arithmetic::div_mod::lemma_sub_mod_noop((yy0 - x30), x0, m);
            vstd::arithmetic::div_mod::lemma_sub_mod_noop((yy0 - x30) % m, x0, m);
            vstd::arithmetic::div_mod::lemma_mod_twice(yy0 - x30, m);
        }
        assert((0 - (((yy0 - x30) % m) - x0)) % m == (0 - e0) % m) by {
            vstd::arithmetic::div_mod::lemma_sub_mod_noop_right(
                0,
                ((yy0 - x30) % m) - x0,
                m,
            );
        }
        assert((0int - 0) % m == 0);
        assert(e0p % m == 0);
        vstd::arithmetic::div_mod::lemma_small_mod(e0p as nat, m as nat);
    }
}

/// The views of a vector of bits.
pub open spec fn bit_views(s: Seq<u8>) -> Seq<int> {
    s.map(|i: int, b: u8| b as int)
}

impl GroupView for EllipticCurveElement {
    open spec fn generator_view() -> PointView {
        ec_generator_view()
    }

    open spec fn neutral_view() -> PointView {
        ec_neutral_view()
    }

    open spec fn op_view(a: PointView, b: PointView) -> PointView {
        ec_add_view(a, b)
    }

    open spec fn eq_view(a: PointView, b: PointView) -> bool {
        ec_eq_view(a, b)
    }
}

impl BilinearCyclicGroup for EllipticCurveElement {
    type PairingOutput = FieldExtensionElement;

    open spec fn pairing_view(a: PointView, b: PointView) -> Seq<int> {
        ec_pairing_view(a, b)
    }

    fn generator() -> (r: Self) {
        Self {
            x: FEE::new_base(GENERATOR_AFFINE_X as u128),
            y: FEE::new_base(GENERATOR_AFFINE_Y as u128),
            z: FEE::new_base(1),
        }
    }

    fn neutral_element() -> (r: Self) {
        Self { x: FEE::new_base(0), y: FEE::new_base(1), z: FEE::new_base(0) }
    }

    fn equals(&self, other: &Self) -> (r: bool) {
        *self == *other
    }

    /// The group law ("moonmath", Algorithm 7).
    fn operate_with(&self, other: &Self) -> (r: Self) {
        let neutral = Self::neutral_element();
        if *other == neutral {
            self.clone()
        } else if *self == neutral {
            other.clone()
        } else {
            let u1 = other.y.mul(&self.z);
            let u2 = self.y.mul(&other.z);
            let v1 = other.x.mul(&self.z);
            let v2 = self.x.mul(&other.z);
            if v1 == v2 {
                if !(u1 == u2) || self.y == FEE::new_base(0) {
                    Self::neutral_element()
                } else {
                    let w = FEE::new_base(ELLIPTIC_CURVE_A as u128).mul(&self.z.pow(2)).add(
                        &FEE::new_base(3).mul(&self.x.pow(2)),
                    );
                    let s = self.y.mul(&self.z);
                    let b = self.x.mul(&self.y).mul(&s);
                    let h = w.pow(2).sub(&FEE::new_base(8).mul(&b));
                    let xp = FEE::new_base(2).mul(&h).mul(&s);
                    let yp = w.mul(&FEE::new_base(4).mul(&b).sub(&h)).sub(
                        &FEE::new_base(8).mul(&self.y.pow(2)).mul(&s.pow(2)),
                    );
                    let zp = FEE::new_base(8).mul(&s.pow(3));
                    Self { x: xp, y: yp, z: zp }
                }
            } else {
                let u = u1.sub(&u2);
                let v = v1.sub(&v2);
                let w = self.z.mul(&other.z);
                let a = u.pow(2).mul(&w).sub(&v.pow(3)).sub(
                    &FEE::new_base(2).mul(&v.pow(2)).mul(&v2),
                );
                let xp = v.mul(&a);
                let yp = u.mul(&v.pow(2).mul(&v2).sub(&a)).sub(&v.pow(3).mul(&u2));
                let zp = v.pow(3).mul(&w);
                Self { x: xp, y: yp, z: zp }
            }
        }
    }

    fn operate_with_self(&self, times: u128) -> (r: Self) {
        let ghost b0 = self@;
        let ghost e0 = times as nat;
        let mut result = Self::neutral_element();
        let mut base = self.clone();
        let mut times = times;
        while times > 0
            invariant
                group_exp_helper::<Self>(result@, base@, times as nat) == group_exp::<Self>(
                    b0,
                    e0,
                ),
            decreases times,
        {
            let ghost e = times as nat;
            let ghost r_old = result@;
            let ghost b_old = base@;
            if times % 2 == 1 {
                result = result.operate_with(&base);
            }
            times = times / 2;
            base = base.operate_with(&base.clone());
            proof {
                assert(group_exp_helper::<Self>(r_old, b_old, e) == group_exp_helper::<Self>(
                    if e % 2 == 1 {
                        Self::op_view(r_old, b_old)
                    } else {
                        r_old
                    },
                    Self::op_view(b_old, b_old),
                    e / 2,
                ));
            }
        }
        proof {
            assert(group_exp_helper::<Self>(result@, base@, 0nat) == result@);
        }
        result
    }

    fn pairing(&self, other: &Self) -> (r: FEE) {
        let neutral = Self::neutral_element();
        let p = if !(*self == neutral) {
            self.affine()
        } else {
            self.clone()
        };
        let q = if !(*other == neutral) {
            other.affine()
        } else {
            other.clone()
        };
        Self::tate_pairing(&p, &Self::distorsion_map(&q))
    }
}

} // verus!
