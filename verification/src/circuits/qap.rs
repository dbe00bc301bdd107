//! Quadratic Arithmetic Programs: per-wire polynomials `v_k, w_k, y_k` over
//! the scalar field together with a target polynomial, such that an
//! assignment satisfies the underlying circuit exactly when the witness
//! polynomial `p = (sum c_k v_k)(sum c_k w_k) - sum c_k y_k` is divisible
//! by the target.
//!
//! The wire index space is `[0] ++ inputs ++ mid ++ outputs`, with the
//! constant-one wire at index 0.

use super::super::config::{OrderR, ORDER_R};
use super::r1cs::R1CS;
use crate::math::field_element::{FieldElement, FieldElementError, FieldOrder};
use crate::math::polynomial::{
    coeff_at, mul_coeff, poly_eval, seq_views, InterpolationError, Polynomial,
};
use vstd::arithmetic::div_mod::{
    lemma_add_mod_noop, lemma_add_mod_noop_right, lemma_mod_twice, lemma_mul_mod_noop_general,
    lemma_small_mod, lemma_sub_mod_noop,
};
use vstd::arithmetic::mul::lemma_mul_is_commutative;
use vstd::prelude::*;
use vstd::slice::slice_subrange;

verus! {

type FE = FieldElement<OrderR>;

/// A bound on the stored length of each circuit polynomial, far beyond any
/// circuit of interest, under which all intermediate products fit in a
/// `usize`.
pub const POLYNOMIAL_SIZE_BOUND: usize = 0x3FFFFFFF;

/// Failure cases of constructing a QAP.
#[derive(Clone, Copy, Debug, PartialEq, Eq, Structural)]
pub enum CreationError {
    /// The three polynomial vectors disagree in length.
    PolynomialVectorsSizeMismatch,
    /// The number of declared inputs and outputs exceeds the number of
    /// non-constant wires.
    InputOutputTooBig,
}

/// The views of a vector of polynomials.
pub open spec fn poly_views(s: Seq<Polynomial<OrderR>>) -> Seq<Seq<int>> {
    s.map(|i: int, p: Polynomial<OrderR>| p@)
}

/// The coefficient of `X^i` in the linear combination of the first `j`
/// polynomials with the matching scalars, before reduction.
pub open spec fn lc_coeff(polys: Seq<Seq<int>>, cs: Seq<int>, j: nat, i: int) -> int
    decreases j,
{
    if j == 0 {
        0
    } else {
        lc_coeff(polys, cs, (j - 1) as nat, i) + cs[j - 1] * coeff_at(polys[j - 1], i)
    }
}

/// The evaluation at `x` of the linear combination of the first `j`
/// polynomials with the matching scalars, before reduction.
pub open spec fn lc_eval(polys: Seq<Seq<int>>, cs: Seq<int>, j: nat, x: int, m: int) -> int
    decreases j,
{
    if j == 0 {
        0
    } else {
        lc_eval(polys, cs, (j - 1) as nat, x, m) + cs[j - 1] * poly_eval(polys[j - 1], x, m)
    }
}

/// Whether `s` denotes the linear combination of `polys` with scalars
/// `cs`, coefficient by coefficient.
pub open spec fn lc_matches(polys: Seq<Seq<int>>, cs: Seq<int>, s: Seq<int>, m: int) -> bool {
    forall|i: int| #[trigger] coeff_at(s, i) == lc_coeff(polys, cs, polys.len(), i) % m
}

/// Whether `p_seq` denotes the witness polynomial
/// `(sum c_k v_k)(sum c_k w_k) - sum c_k y_k` of the given circuit
/// polynomials and assignment.
pub open spec fn p_matches(
    vsv: Seq<Seq<int>>,
    wsv: Seq<Seq<int>>,
    ysv: Seq<Seq<int>>,
    cs: Seq<int>,
    p_seq: Seq<int>,
    m: int,
) -> bool {
    exists|vp: Seq<int>, wp: Seq<int>, yp: Seq<int>|
        #![trigger lc_matches(vsv, cs, vp, m), lc_matches(wsv, cs, wp, m), lc_matches(ysv, cs, yp, m)]
        lc_matches(vsv, cs, vp, m) && lc_matches(wsv, cs, wp, m) && lc_matches(ysv, cs, yp, m)
            && forall|k: int| #[trigger] coeff_at(p_seq, k) == (mul_coeff(vp, wp, k, m)
            - coeff_at(yp, k)) % m
}

/// Any two sequences denoting the witness polynomial of the same circuit
/// polynomials and assignment agree at every index.
pub proof fn lemma_p_matches_functional(
    vsv: Seq<Seq<int>>,
    wsv: Seq<Seq<int>>,
    ysv: Seq<Seq<int>>,
    cs: Seq<int>,
    x: Seq<int>,
    y: Seq<int>,
    m: int,
)
    requires
        p_matches(vsv, wsv, ysv, cs, x, m),
        p_matches(vsv, wsv, ysv, cs, y, m),
    ensures
        crate::math::polynomial::same_poly(x, y),
{
    let (vp1, wp1, yp1) = choose|vp: Seq<int>, wp: Seq<int>, yp: Seq<int>|
        #![trigger lc_matches(vsv, cs, vp, m), lc_matches(wsv, cs, wp, m), lc_matches(ysv, cs, yp, m)]
        lc_matches(vsv, cs, vp, m) && lc_matches(wsv, cs, wp, m) && lc_matches(ysv, cs, yp, m)
            && forall|k: int| #[trigger] coeff_at(x, k) == (mul_coeff(vp, wp, k, m) - coeff_at(
            yp,
            k,
        )) % m;
    let (vp2, wp2, yp2) = choose|vp: Seq<int>, wp: Seq<int>, yp: Seq<int>|
        #![trigger lc_matches(vsv, cs, vp, m), lc_matches(wsv, cs, wp, m), lc_matches(ysv, cs, yp, m)]
        lc_matches(vsv, cs, vp, m) && lc_matches(wsv, cs, wp, m) && lc_matches(ysv, cs, yp, m)
            && forall|k: int| #[trigger] coeff_at(y, k) == (mul_coeff(vp, wp, k, m) - coeff_at(
            yp,
            k,
        )) % m;
    assert(lc_matches(vsv, cs, vp1, m) && lc_matches(wsv, cs, wp1, m) && lc_matches(
        ysv,
        cs,
        yp1,
        m,
    ));
    assert(lc_matches(vsv, cs, vp2, m) && lc_matches(wsv, cs, wp2, m) && lc_matches(
        ysv,
        cs,
        yp2,
        m,
    ));
    // the combination witnesses are determined coefficient by coefficient
    assert forall|i: int| #[trigger] coeff_at(vp1, i) == coeff_at(vp2, i) by {
        assert(coeff_at(vp1, i) == lc_coeff(vsv, cs, vsv.len(), i) % m);
        assert(coeff_at(vp2, i) == lc_coeff(vsv, cs, vsv.len(), i) % m);
    }
    assert forall|i: int| #[trigger] coeff_at(wp1, i) == coeff_at(wp2, i) by {
        assert(coeff_at(wp1, i) == lc_coeff(wsv, cs, wsv.len(), i) % m);
        assert(coeff_at(wp2, i) == lc_coeff(wsv, cs, wsv.len(), i) % m);
    }
    assert forall|k: int| #[trigger] coeff_at(x, k) == coeff_at(y, k) by {
        crate::math::polynomial::lemma_conv_same_poly(vp1, vp2, wp1, wp2, k, (k + 1) as nat);
        assert(coeff_at(yp1, k) == lc_coeff(ysv, cs, ysv.len(), k) % m);
        assert(coeff_at(yp2, k) == lc_coeff(ysv, cs, ysv.len(), k) % m);
        assert(coeff_at(x, k) == (mul_coeff(vp1, wp1, k, m) - coeff_at(yp1, k)) % m);
        assert(coeff_at(y, k) == (mul_coeff(vp2, wp2, k, m) - coeff_at(yp2, k)) % m);
    }
}

/// Evaluation points that are consecutive residues, at most as many as
/// the field order, have pairwise invertible differences.
pub(crate) proof fn lemma_consecutive_nodes_invertible(sv: Seq<int>)
    requires
        sv.len() <= OrderR::spec_order(),
        forall|t: int| 0 <= t < sv.len() ==> #[trigger] sv[t] == t % (OrderR::spec_order() as int),
    ensures
        crate::math::polynomial::nodes_invertible::<OrderR>(sv),
{
    let m = OrderR::spec_order() as int;
    assert forall|i: int, j: int|
        #![trigger sv[i], sv[j]]
        0 <= i < sv.len() && 0 <= j < sv.len() && i != j implies FieldElement::<
        OrderR,
    >::invertible((sv[i] - sv[j]) % m) by {
        lemma_small_mod(i as nat, m as nat);
        lemma_small_mod(j as nat, m as nat);
        assert(sv[i] == i);
        assert(sv[j] == j);
        let d = (i - j) % m;
        if i > j {
            lemma_small_mod((i - j) as nat, m as nat);
            assert(d == i - j);
        } else {
            vstd::arithmetic::div_mod::lemma_mod_add_multiples_vanish(i - j, m);
            lemma_small_mod((i - j + m) as nat, m as nat);
            assert(d == i - j + m);
        }
        assert(0 < d < m);
        crate::config::lemma_scalar_field_inverses(d);
    }
}

/// A QAP: the per-wire polynomial vectors, the target polynomial, and the
/// input/output partition of the wires.
#[derive(Clone, Debug, PartialEq, Eq)]
pub struct Qap {
    pub vs: Vec<Polynomial<OrderR>>,
    pub ws: Vec<Polynomial<OrderR>>,
    pub ys: Vec<Polynomial<OrderR>>,
    pub target: Polynomial<OrderR>,
    pub number_of_inputs: usize,
    pub number_of_outputs: usize,
}

/// Computes the linear combination of `polys` with the scalars `cs`.
fn linear_combination(polys: &Vec<Polynomial<OrderR>>, cs: &[FE]) -> (r: Polynomial<OrderR>)
    requires
        cs@.len() == polys@.len(),
        forall|k: int| 0 <= k < polys@.len() ==> (#[trigger] polys@[k])@.len()
            <= POLYNOMIAL_SIZE_BOUND,
    ensures
        lc_matches(poly_views(polys@), seq_views(cs@), r@, FE::order_spec()),
        forall|x: int| #[trigger] poly_eval(r@, x, FE::order_spec()) == lc_eval(
            poly_views(polys@),
            seq_views(cs@),
            polys@.len() as nat,
            x,
            FE::order_spec(),
        ) % FE::order_spec(),
        r@.len() <= POLYNOMIAL_SIZE_BOUND,
{
    let ghost m = FE::order_spec();
    let ghost pv = poly_views(polys@);
    let ghost cv = seq_views(cs@);
    proof {
        OrderR::order_positive();
    }
    let n = polys.len();
    let mut acc = Polynomial::<OrderR>::zero();
    let mut j: usize = 0;
    proof {
        lemma_small_mod(0nat, m as nat);
        assert forall|x: int| #[trigger] poly_eval(acc@, x, m) == lc_eval(pv, cv, 0nat, x, m)
            % m by {
            lemma_small_mod(0nat, m as nat);
        }
    }
    while j < n
        invariant
            j <= n,
            n == polys@.len(),
            n == cs@.len(),
            pv == poly_views(polys@),
            cv == seq_views(cs@),
            m == FE::order_spec(),
            m >= 2,
            forall|k: int| 0 <= k < n ==> (#[trigger] pv[k]).len() <= POLYNOMIAL_SIZE_BOUND,
            acc@.len() <= POLYNOMIAL_SIZE_BOUND,
            forall|i: int| #[trigger] coeff_at(acc@, i) == lc_coeff(pv, cv, j as nat, i) % m,
            forall|x: int| #[trigger] poly_eval(acc@, x, m) == lc_eval(pv, cv, j as nat, x, m)
                % m,
        decreases n - j,
    {
        let ghost acc_old = acc@;
        let cj_element = cs[j];
        let scalar = Polynomial::<OrderR>::new_monomial(cj_element, 0);
        proof {
            assert(pv[j as int] == polys@[j as int]@);
        }
        let term = polys[j].mul_with_ref(&scalar);
        let next = acc.add(&term);
        proof {
            use_type_invariant(cj_element);
            use_type_invariant(&scalar);
            let cj = cv[j as int];
            assert(0 <= cj < m);
            // each coefficient of the scaled term is the matching
            // coefficient of the polynomial, scaled
            assert forall|i: int| #[trigger] coeff_at(term@, i) == (cj * coeff_at(
                pv[j as int],
                i,
            )) % m by {
                crate::math::polynomial::lemma_conv_monomial_pick(
                    pv[j as int],
                    scalar@,
                    cj,
                    0,
                    i,
                );
                lemma_mul_is_commutative(coeff_at(pv[j as int], i), cj);
                lemma_small_mod(0nat, m as nat);
                if i < 0 {
                    vstd::arithmetic::mul::lemma_mul_by_zero_is_zero(cj);
                }
            }
            assert forall|i: int| #[trigger] coeff_at(next@, i) == lc_coeff(
                pv,
                cv,
                (j + 1) as nat,
                i,
            ) % m by {
                let base = lc_coeff(pv, cv, j as nat, i);
                let delta = cj * coeff_at(pv[j as int], i);
                assert(coeff_at(next@, i) == (coeff_at(acc_old, i) + coeff_at(term@, i)) % m);
                lemma_add_mod_noop(base, delta, m);
                lemma_mod_twice(base, m);
                lemma_mod_twice(delta, m);
                assert((base % m + delta % m) % m == (base + delta) % m);
                assert(lc_coeff(pv, cv, (j + 1) as nat, i) == base + delta);
            }
            // evaluations advance by one scaled summand as well
            assert forall|x: int| #[trigger] poly_eval(next@, x, m) == lc_eval(
                pv,
                cv,
                (j + 1) as nat,
                x,
                m,
            ) % m by {
                crate::math::polynomial::lemma_eval_mul_pointwise(
                    term@,
                    pv[j as int],
                    scalar@,
                    x,
                    m,
                );
                // the constant polynomial evaluates to its constant
                assert(poly_eval(scalar@, x, m) == cj) by {
                    assert(coeff_at(scalar@, 0) == cj);
                    if cj == 0 {
                        assert(scalar@.len() == 0) by {
                            if scalar@.len() > 0 {
                                assert(coeff_at(scalar@, scalar@.len() - 1) == scalar@[scalar@.len()
                                    - 1]);
                            }
                        }
                    } else {
                        assert(scalar@.len() == 1);
                        assert(scalar@ =~= seq![cj]);
                        assert(scalar@.subrange(1, 1) =~= Seq::<int>::empty());
                        assert(poly_eval(Seq::<int>::empty(), x, m) == 0);
                        assert(poly_eval(scalar@, x, m) == (scalar@[0] + x * poly_eval(
                            scalar@.subrange(1, 1),
                            x,
                            m,
                        )) % m);
                        lemma_small_mod(cj as nat, m as nat);
                    }
                }
                crate::math::polynomial::lemma_eval_add_pointwise(next@, acc_old, term@, x, m);
                let base = lc_eval(pv, cv, j as nat, x, m);
                let ev = poly_eval(pv[j as int], x, m);
                assert(poly_eval(term@, x, m) == (ev * cj) % m);
                lemma_mul_is_commutative(ev, cj);
                assert(poly_eval(next@, x, m) == (base % m + (cj * ev) % m) % m);
                lemma_add_mod_noop(base, cj * ev, m);
                lemma_mod_twice(base, m);
                lemma_mod_twice(cj * ev, m);
                assert(lc_eval(pv, cv, (j + 1) as nat, x, m) == base + cj * ev);
            }
        }
        acc = next;
        j += 1;
    }
    acc
}

impl Qap {
    /// The three polynomial vectors agree in length, and the declared
    /// inputs and outputs leave room for the constant wire.
    pub open spec fn well_formed(self) -> bool {
        &&& self.vs@.len() == self.ws@.len()
        &&& self.vs@.len() == self.ys@.len()
        &&& self.number_of_inputs + self.number_of_outputs + 1 <= self.vs@.len()
    }

    /// Every stored polynomial is within the size bound.
    pub open spec fn sizes_bounded(self) -> bool {
        &&& forall|k: int|
            0 <= k < self.vs@.len() ==> (#[trigger] self.vs@[k])@.len() <= POLYNOMIAL_SIZE_BOUND
        &&& forall|k: int|
            0 <= k < self.ws@.len() ==> (#[trigger] self.ws@[k])@.len() <= POLYNOMIAL_SIZE_BOUND
        &&& forall|k: int|
            0 <= k < self.ys@.len() ==> (#[trigger] self.ys@[k])@.len() <= POLYNOMIAL_SIZE_BOUND
        &&& self.target@.len() <= POLYNOMIAL_SIZE_BOUND
    }

    /// Creates a new QAP from the per-wire polynomial vectors, organized as
    /// the constant wire, the inputs, the mid wires, and the outputs.
    pub fn new(
        vs: Vec<Polynomial<OrderR>>,
        ws: Vec<Polynomial<OrderR>>,
        ys: Vec<Polynomial<OrderR>>,
        target: Polynomial<OrderR>,
        number_of_inputs: usize,
        number_of_outputs: usize,
    ) -> (r: Result<Self, CreationError>)
        ensures
            r matches Ok(v) ==> v == (Qap {
                vs,
                ws,
                ys,
                target,
                number_of_inputs,
                number_of_outputs,
            }) && v.well_formed(),
            r is Ok <==> (vs@.len() == ws@.len() && vs@.len() == ys@.len() && number_of_inputs
                + number_of_outputs + 1 <= vs@.len()),
            vs@.len() != ws@.len() || vs@.len() != ys@.len() ==> r == Result::<
                Self,
                CreationError,
            >::Err(CreationError::PolynomialVectorsSizeMismatch),
    {
        if vs.len() != ws.len() || vs.len() != ys.len() || ws.len() != ys.len() {
            Err(CreationError::PolynomialVectorsSizeMismatch)
        } else if vs.len() == 0 || number_of_inputs > vs.len() - 1 || number_of_outputs > vs.len()
            - 1 - number_of_inputs {
            Err(CreationError::InputOutputTooBig)
        } else {
            Ok(Self { vs, ws, ys, target, number_of_inputs, number_of_outputs })
        }
    }

    /// The witness polynomial
    /// `p = (sum c_k v_k)(sum c_k w_k) - sum c_k y_k` of the assignment
    /// `c`, whose entry at index 0 is the constant-one wire.
    pub fn p_polynomial(&self, c: &[FE]) -> (r: Polynomial<OrderR>)
        requires
            self.well_formed(),
            self.sizes_bounded(),
            c@.len() == self.vs@.len(),
        ensures
            p_matches(
                poly_views(self.vs@),
                poly_views(self.ws@),
                poly_views(self.ys@),
                seq_views(c@),
                r@,
                FE::order_spec(),
            ),
            forall|x: int| #[trigger] poly_eval(r@, x, FE::order_spec()) == (lc_eval(
                poly_views(self.vs@),
                seq_views(c@),
                c@.len() as nat,
                x,
                FE::order_spec(),
            ) * lc_eval(poly_views(self.ws@), seq_views(c@), c@.len() as nat, x, FE::order_spec())
                - lc_eval(
                poly_views(self.ys@),
                seq_views(c@),
                c@.len() as nat,
                x,
                FE::order_spec(),
            )) % FE::order_spec(),
            r@.len() < usize::MAX,
    {
        let ghost m = FE::order_spec();
        proof {
            OrderR::order_positive();
        }
        let v = linear_combination(&self.vs, c);
        let w = linear_combination(&self.ws, c);
        let y = linear_combination(&self.ys, c);
        let vw = v.mul_with_ref(&w);
        let r = vw.sub(&y);
        proof {
            let pv = poly_views(self.vs@);
            let pw = poly_views(self.ws@);
            let py = poly_views(self.ys@);
            let cv = seq_views(c@);
            let n = c@.len() as nat;
            // the coefficient-level characterization, witnessed by the
            // three computed combinations
            assert forall|k: int| #[trigger] coeff_at(r@, k) == (mul_coeff(v@, w@, k, m)
                - coeff_at(y@, k)) % m by {
                assert(coeff_at(r@, k) == (coeff_at(vw@, k) - coeff_at(y@, k)) % m);
            }
            assert(v@.len() == v@.len());
            assert(w@.len() == w@.len());
            assert(y@.len() == y@.len());
            assert(p_matches(pv, pw, py, cv, r@, m));
            // the evaluation-level characterization
            assert forall|x: int| #[trigger] poly_eval(r@, x, m) == (lc_eval(pv, cv, n, x, m)
                * lc_eval(pw, cv, n, x, m) - lc_eval(py, cv, n, x, m)) % m by {
                crate::math::polynomial::lemma_eval_mul_pointwise(vw@, v@, w@, x, m);
                crate::math::polynomial::lemma_eval_sub_pointwise(r@, vw@, y@, x, m);
                let ev = lc_eval(pv, cv, n, x, m);
                let ew = lc_eval(pw, cv, n, x, m);
                let ey = lc_eval(py, cv, n, x, m);
                assert(poly_eval(vw@, x, m) == ((ev % m) * (ew % m)) % m);
                lemma_mul_mod_noop_general(ev, ew, m);
                assert(poly_eval(r@, x, m) == ((ev * ew) % m - ey % m) % m);
                lemma_sub_mod_noop(ev * ew, ey, m);
                lemma_mod_twice(ev * ew, m);
            }
        }
        r
    }

    /// The quotient `h = p / target` of the witness polynomial of `c` by
    /// the target polynomial, discarding the remainder. Fails when the
    /// target is the zero polynomial.
    pub fn h_polynomial(&self, c: &[FE]) -> (r: Result<Polynomial<OrderR>, FieldElementError>)
        requires
            self.well_formed(),
            self.sizes_bounded(),
            c@.len() == self.vs@.len(),
        ensures
            r is Ok <==> (self.target@.len() > 0 && FieldElement::<OrderR>::invertible(
                self.target@[self.target@.len() - 1],
            )),
            r matches Ok(h) ==> exists|p_seq: Seq<int>|
                #![trigger p_seq.len()]
                p_matches(
                    poly_views(self.vs@),
                    poly_views(self.ws@),
                    poly_views(self.ys@),
                    seq_views(c@),
                    p_seq,
                    FE::order_spec(),
                ) && exists|rem: Seq<int>|
                    #![trigger rem.len()]
                    rem.len() < self.target@.len() && forall|i: int| #[trigger] coeff_at(
                        p_seq,
                        i,
                    ) == (mul_coeff(h@, self.target@, i, FE::order_spec()) + coeff_at(rem, i))
                        % FE::order_spec(),
            r matches Err(e) ==> e == FieldElementError::DivisionByZero,
    {
        let p = self.p_polynomial(c);
        match p.long_division_with_remainder(&self.target) {
            Ok((quotient, remainder)) => {
                proof {
                    let p_seq = p@;
                    let rem = remainder@;
                    assert(p_seq.len() == p_seq.len());
                    assert(rem.len() == rem.len());
                }
                Ok(quotient)
            },
            Err(e) => Err(e),
        }
    }

    /// Divides the witness polynomial of `c` by the target, returning the
    /// witness polynomial itself, the quotient, and the remainder; the
    /// assignment satisfies the circuit exactly when the remainder is the
    /// zero polynomial.
    pub fn p_polynomial_divided(&self, c: &[FE]) -> (r: Result<
        (Polynomial<OrderR>, Polynomial<OrderR>, Polynomial<OrderR>),
        FieldElementError,
    >)
        requires
            self.well_formed(),
            self.sizes_bounded(),
            c@.len() == self.vs@.len(),
        ensures
            r is Ok <==> (self.target@.len() > 0 && FieldElement::<OrderR>::invertible(
                self.target@[self.target@.len() - 1],
            )),
            r matches Ok(phr) ==> p_matches(
                poly_views(self.vs@),
                poly_views(self.ws@),
                poly_views(self.ys@),
                seq_views(c@),
                phr.0@,
                FE::order_spec(),
            ) && phr.2@.len() < self.target@.len() && forall|i: int| #[trigger] coeff_at(
                phr.0@,
                i,
            ) == (mul_coeff(phr.1@, self.target@, i, FE::order_spec()) + coeff_at(phr.2@, i))
                % FE::order_spec(),
            r matches Err(e) ==> e == FieldElementError::DivisionByZero,
    {
        let p = self.p_polynomial(c);
        match p.long_division_with_remainder(&self.target) {
            Ok((quotient, remainder)) => Ok((p, quotient, remainder)),
            Err(e) => Err(e),
        }
    }

    /// Lowers an R1CS to a QAP: for each wire index `k`, the polynomials
    /// `v_k`, `w_k`, `y_k` interpolate the `k`-th columns of the three
    /// constraint matrices at the evaluation points `0, 1, ...`, one per
    /// constraint, and the target polynomial is the product of `X - i`
    /// over those points.
    ///
    /// Fails when the evaluation points collide in the scalar field, that
    /// is, when there are more constraints than field elements.
    pub fn from_r1cs(r1cs: &R1CS<OrderR>) -> (r: Result<Self, InterpolationError>)
        requires
            r1cs.well_formed(),
            r1cs.constraints@.len() + 2 <= usize::MAX,
            r1cs.constraints@.len() <= POLYNOMIAL_SIZE_BOUND,
        ensures
            r matches Ok(qap) ==> {
                let cs = r1cs.constraints@;
                let mcount = cs.len();
                let n = cs[0].a@.len();
                &&& qap.well_formed()
                &&& qap.sizes_bounded()
                &&& qap.vs@.len() == n
                &&& qap.number_of_inputs == r1cs.number_of_inputs
                &&& qap.number_of_outputs == r1cs.number_of_outputs
                &&& forall|k: int, i: int|
                    #![trigger poly_views(qap.vs@)[k], cs[i]]
                    0 <= k < n && 0 <= i < mcount ==> poly_eval(
                        poly_views(qap.vs@)[k],
                        i,
                        FE::order_spec(),
                    ) == seq_views(cs[i].a@)[k]
                &&& forall|k: int, i: int|
                    #![trigger poly_views(qap.ws@)[k], cs[i]]
                    0 <= k < n && 0 <= i < mcount ==> poly_eval(
                        poly_views(qap.ws@)[k],
                        i,
                        FE::order_spec(),
                    ) == seq_views(cs[i].b@)[k]
                &&& forall|k: int, i: int|
                    #![trigger poly_views(qap.ys@)[k], cs[i]]
                    0 <= k < n && 0 <= i < mcount ==> poly_eval(
                        poly_views(qap.ys@)[k],
                        i,
                        FE::order_spec(),
                    ) == seq_views(cs[i].c@)[k]
                &&& forall|i: int|
                    0 <= i < mcount ==> poly_eval(qap.target@, #[trigger] (i + 0), FE::order_spec())
                        == 0
                &&& coeff_at(qap.target@, mcount as int) == 1
                &&& qap.target@.len() == mcount + 1
            },
            r is Ok <==> r1cs.constraints@.len() <= ORDER_R,
            r matches Err(e) ==> e == InterpolationError::NonDistinctInterpolationNodes,
    {
        let ghost m = FE::order_spec();
        proof {
            OrderR::order_positive();
        }
        let mcount = r1cs.constraints.len();
        let n = r1cs.constraints[0].a.len();
        // the evaluation points, one per constraint
        let mut xs: Vec<FE> = Vec::new();
        let mut i: usize = 0;
        while i < mcount
            invariant
                i <= mcount,
                m == FE::order_spec(),
                m >= 2,
                seq_views(xs@).len() == i,
                forall|j: int| 0 <= j < i ==> #[trigger] seq_views(xs@)[j] == j % m,
            decreases mcount - i,
        {
            let ghost before = seq_views(xs@);
            let point = FE::new(i as u128);
            xs.push(point);
            proof {
                assert(seq_views(xs@) =~= before.push(point@));
            }
            i += 1;
        }
        // interpolate each column of each matrix
        let mut vs: Vec<Polynomial<OrderR>> = Vec::new();
        let mut ws: Vec<Polynomial<OrderR>> = Vec::new();
        let mut ys: Vec<Polynomial<OrderR>> = Vec::new();
        let mut k: usize = 0;
        let ghost cons = r1cs.constraints@;
        while k < n
            invariant
                k <= n,
                m == FE::order_spec(),
                m >= 2,
                cons == r1cs.constraints@,
                r1cs.well_formed(),
                mcount == cons.len(),
                n == cons[0].a@.len(),
                mcount + 2 <= usize::MAX,
                mcount <= POLYNOMIAL_SIZE_BOUND,
                seq_views(xs@).len() == mcount,
                forall|j: int| 0 <= j < mcount ==> #[trigger] seq_views(xs@)[j] == j % m,
                vs@.len() == k,
                ws@.len() == k,
                ys@.len() == k,
                k == 0 || mcount <= m,
                forall|k2: int|
                    0 <= k2 < k ==> (#[trigger] poly_views(vs@)[k2]).len() <= mcount + 1
                        && poly_views(ws@)[k2].len() <= mcount + 1 && poly_views(ys@)[k2].len()
                        <= mcount + 1,
                forall|k2: int, i2: int|
                    #![trigger poly_views(vs@)[k2], cons[i2]]
                    0 <= k2 < k && 0 <= i2 < mcount ==> poly_eval(
                        poly_views(vs@)[k2],
                        seq_views(xs@)[i2],
                        m,
                    ) == seq_views(cons[i2].a@)[k2],
                forall|k2: int, i2: int|
                    #![trigger poly_views(ws@)[k2], cons[i2]]
                    0 <= k2 < k && 0 <= i2 < mcount ==> poly_eval(
                        poly_views(ws@)[k2],
                        seq_views(xs@)[i2],
                        m,
                    ) == seq_views(cons[i2].b@)[k2],
                forall|k2: int, i2: int|
                    #![trigger poly_views(ys@)[k2], cons[i2]]
                    0 <= k2 < k && 0 <= i2 < mcount ==> poly_eval(
                        poly_views(ys@)[k2],
                        seq_views(xs@)[i2],
                        m,
                    ) == seq_views(cons[i2].c@)[k2],
            decreases n - k,
        {
            let mut col_a: Vec<FE> = Vec::new();
            let mut col_b: Vec<FE> = Vec::new();
            let mut col_c: Vec<FE> = Vec::new();
            let mut i2: usize = 0;
            while i2 < mcount
                invariant
                    i2 <= mcount,
                    k < n,
                    cons == r1cs.constraints@,
                    r1cs.well_formed(),
                    mcount == cons.len(),
                    n == cons[0].a@.len(),
                    seq_views(col_a@).len() == i2,
                    seq_views(col_b@).len() == i2,
                    seq_views(col_c@).len() == i2,
                    forall|j: int|
                        0 <= j < i2 ==> #[trigger] seq_views(col_a@)[j] == seq_views(
                            cons[j].a@,
                        )[k as int],
                    forall|j: int|
                        0 <= j < i2 ==> #[trigger] seq_views(col_b@)[j] == seq_views(
                            cons[j].b@,
                        )[k as int],
                    forall|j: int|
                        0 <= j < i2 ==> #[trigger] seq_views(col_c@)[j] == seq_views(
                            cons[j].c@,
                        )[k as int],
                decreases mcount - i2,
            {
                let constraint = &r1cs.constraints[i2];
                proof {
                    assert(cons[i2 as int].well_formed());
                    assert(cons[i2 as int].a@.len() == n);
                }
                let ghost ba = seq_views(col_a@);
                let ghost bb = seq_views(col_b@);
                let ghost bc = seq_views(col_c@);
                let ea = constraint.a[k];
                let eb = constraint.b[k];
                let ec = constraint.c[k];
                col_a.push(ea);
                col_b.push(eb);
                col_c.push(ec);
                proof {
                    assert(seq_views(col_a@) =~= ba.push(ea@));
                    assert(seq_views(col_b@) =~= bb.push(eb@));
                    assert(seq_views(col_c@) =~= bc.push(ec@));
                }
                i2 += 1;
            }
            proof {
                if mcount <= OrderR::spec_order() {
                    lemma_consecutive_nodes_invertible(seq_views(xs@));
                }
            }
            let pa = match Polynomial::<OrderR>::interpolate(xs.as_slice(), col_a.as_slice()) {
                Ok(p) => p,
                Err(e) => {
                    return Err(e);
                },
            };
            let pb = match Polynomial::<OrderR>::interpolate(xs.as_slice(), col_b.as_slice()) {
                Ok(p) => p,
                Err(e) => {
                    return Err(e);
                },
            };
            let pc = match Polynomial::<OrderR>::interpolate(xs.as_slice(), col_c.as_slice()) {
                Ok(p) => p,
                Err(e) => {
                    return Err(e);
                },
            };
            proof {
                // the interpolation succeeded, so the points are pairwise
                // distinct; with residues as points this bounds their count
                // by the field order
                if mcount > m {
                    assert(seq_views(xs@)[0] == 0int % m);
                    assert(seq_views(xs@)[m as int] == m % m);
                    lemma_small_mod(0nat, m as nat);
                    vstd::arithmetic::div_mod::lemma_mod_self_0(m);
                    assert(xs@[0]@ == seq_views(xs@)[0]);
                    assert(xs@[m as int]@ == seq_views(xs@)[m as int]);
                    assert(false);
                }
            }
            let ghost vs_before = poly_views(vs@);
            let ghost ws_before = poly_views(ws@);
            let ghost ys_before = poly_views(ys@);
            vs.push(pa);
            ws.push(pb);
            ys.push(pc);
            proof {
                assert(poly_views(vs@) =~= vs_before.push(pa@));
                assert(poly_views(ws@) =~= ws_before.push(pb@));
                assert(poly_views(ys@) =~= ys_before.push(pc@));
                assert(pa@.len() <= mcount + 1);
                assert(pb@.len() <= mcount + 1);
                assert(pc@.len() <= mcount + 1);
                assert forall|k2: int| 0 <= k2 < k + 1 implies (#[trigger] poly_views(
                    vs@,
                )[k2]).len() <= mcount + 1 && poly_views(ws@)[k2].len() <= mcount + 1
                    && poly_views(ys@)[k2].len() <= mcount + 1 by {
                    if k2 < k {
                        assert(poly_views(vs@)[k2] == vs_before[k2]);
                        assert(poly_views(ws@)[k2] == ws_before[k2]);
                        assert(poly_views(ys@)[k2] == ys_before[k2]);
                        assert(vs_before[k2].len() <= mcount + 1);
                    } else {
                        assert(poly_views(vs@)[k2] == pa@);
                        assert(poly_views(ws@)[k2] == pb@);
                        assert(poly_views(ys@)[k2] == pc@);
                    }
                }
                assert forall|i4: int| 0 <= i4 < mcount implies poly_eval(
                    pa@,
                    seq_views(xs@)[i4],
                    m,
                ) == seq_views(cons[i4].a@)[k as int] by {
                    assert(xs@[i4]@ == seq_views(xs@)[i4]);
                    assert(col_a@[i4]@ == seq_views(col_a@)[i4]);
                    assert(poly_eval(pa@, xs@[i4]@, m) == col_a@[i4]@);
                }
                assert forall|i4: int| 0 <= i4 < mcount implies poly_eval(
                    pb@,
                    seq_views(xs@)[i4],
                    m,
                ) == seq_views(cons[i4].b@)[k as int] by {
                    assert(xs@[i4]@ == seq_views(xs@)[i4]);
                    assert(col_b@[i4]@ == seq_views(col_b@)[i4]);
                    assert(poly_eval(pb@, xs@[i4]@, m) == col_b@[i4]@);
                }
                assert forall|i4: int| 0 <= i4 < mcount implies poly_eval(
                    pc@,
                    seq_views(xs@)[i4],
                    m,
                ) == seq_views(cons[i4].c@)[k as int] by {
                    assert(xs@[i4]@ == seq_views(xs@)[i4]);
                    assert(col_c@[i4]@ == seq_views(col_c@)[i4]);
                    assert(poly_eval(pc@, xs@[i4]@, m) == col_c@[i4]@);
                }
            }
            k += 1;
        }
        // the target polynomial: the product of (X - i) over the points
        let mut target = Polynomial::<OrderR>::new_monomial(FE::one(), 0);
        proof {
            use_type_invariant(&target);
            assert(coeff_at(target@, 0) == 1);
            assert(target@.len() == 1);
        }
        let mut i3: usize = 0;
        while i3 < mcount
            invariant
                i3 <= mcount,
                m == FE::order_spec(),
                m >= 2,
                mcount <= POLYNOMIAL_SIZE_BOUND,
                seq_views(xs@).len() == mcount,
                forall|j: int| 0 <= j < mcount ==> #[trigger] seq_views(xs@)[j] == j % m,
                target@.len() == i3 + 1,
                coeff_at(target@, i3 as int) == 1,
                forall|j: int|
                    0 <= j < i3 ==> poly_eval(target@, #[trigger] seq_views(xs@)[j], m) == 0,
            decreases mcount - i3,
        {
            let point = xs[i3];
            let mut factor_coeffs: Vec<FE> = Vec::new();
            factor_coeffs.push(point.neg());
            factor_coeffs.push(FE::one());
            let ghost fc = seq_views(factor_coeffs@);
            let factor = Polynomial::<OrderR>::new(factor_coeffs);
            let ghost t_old = target@;
            proof {
                assert(fc =~= seq![(m - point@) % m, 1int]);
                assert(crate::math::polynomial::is_normalized(fc));
                use_type_invariant(&factor);
                crate::math::polynomial::lemma_same_poly_canonical(factor@, fc);
            }
            let next = target.mul_with_ref(&factor);
            proof {
                use_type_invariant(&next);
                // the factor evaluates to x minus the point
                assert forall|x: int| #![trigger poly_eval(fc, x, m)] poly_eval(fc, x, m) == (x
                    - point@) % m by {
                    assert(fc.subrange(1, 2) =~= seq![1int]);
                    assert(seq![1int].subrange(1, 1) =~= Seq::<int>::empty());
                    assert(poly_eval(Seq::<int>::empty(), x, m) == 0);
                    assert(poly_eval(seq![1int], x, m) == (1int + x * 0) % m);
                    lemma_small_mod(1nat, m as nat);
                    assert(poly_eval(fc, x, m) == ((m - point@) % m + x * 1) % m);
                    lemma_add_mod_noop(m - point@, x, m);
                    lemma_mod_twice(m - point@, m);
                    lemma_mod_twice(x, m);
                    assert(((m - point@) % m + x % m) % m == (m - point@ + x) % m);
                    vstd::arithmetic::div_mod::lemma_mod_add_multiples_vanish(x - point@, m);
                    assert(((m - point@) % m + x) % m == ((m - point@) % m + x % m) % m) by {
                        lemma_add_mod_noop_right((m - point@) % m, x, m);
                    }
                }
                // the top coefficient stays one and the length grows by one
                assert(coeff_at(next@, i3 + 1) == 1) by {
                    crate::math::polynomial::lemma_conv_linear(t_old, fc, i3 + 1);
                    assert(coeff_at(t_old, i3 + 1) == 0);
                    assert(coeff_at(t_old, i3 as int) == 1);
                    lemma_small_mod(1nat, m as nat);
                }
                assert(next@.len() == i3 + 2) by {
                    assert(next@.len() <= t_old.len() + fc.len() - 1);
                    if next@.len() <= i3 + 1 {
                        assert(coeff_at(next@, i3 + 1) == 0);
                    }
                }
                // evaluations at all processed points stay zero, and the
                // new point evaluates to zero through the new factor
                assert forall|x: int| #![trigger poly_eval(next@, x, m)] poly_eval(next@, x, m)
                    == (poly_eval(t_old, x, m) * poly_eval(fc, x, m)) % m by {
                    crate::math::polynomial::lemma_eval_mul_pointwise(next@, t_old, fc, x, m);
                }
                assert(poly_eval(next@, point@, m) == 0) by {
                    assert(poly_eval(fc, point@, m) == (point@ - point@) % m);
                    lemma_small_mod(0nat, m as nat);
                    vstd::arithmetic::mul::lemma_mul_by_zero_is_zero(poly_eval(t_old, point@, m));
                }
                assert forall|j: int| 0 <= j < i3 + 1 implies poly_eval(
                    next@,
                    #[trigger] seq_views(xs@)[j],
                    m,
                ) == 0 by {
                    if j < i3 {
                        assert(poly_eval(t_old, seq_views(xs@)[j], m) == 0);
                        vstd::arithmetic::mul::lemma_mul_by_zero_is_zero(
                            poly_eval(fc, seq_views(xs@)[j], m),
                        );
                        lemma_small_mod(0nat, m as nat);
                    } else {
                        assert(seq_views(xs@)[j] == point@);
                    }
                }
            }
            target = next;
            i3 += 1;
        }
        // with at most as many points as field elements, each residue is
        // its own index
        proof {
            assert(mcount <= m);
            assert forall|j: int| 0 <= j < mcount implies #[trigger] seq_views(xs@)[j] == j by {
                lemma_small_mod(j as nat, m as nat);
            }
        }
        let ghost vsv = poly_views(vs@);
        let ghost wsv = poly_views(ws@);
        let ghost ysv = poly_views(ys@);
        let ghost tv = target@;
        match Self::new(vs, ws, ys, target, r1cs.number_of_inputs, r1cs.number_of_outputs) {
            Ok(qap) => {
                proof {
                    assert(mcount <= m);
                    assert(poly_views(qap.vs@) == vsv);
                    assert(poly_views(qap.ws@) == wsv);
                    assert(poly_views(qap.ys@) == ysv);
                    assert(qap.target@ == tv);
                    assert forall|k2: int, i4: int|
                        #![trigger poly_views(qap.vs@)[k2], cons[i4]]
                        0 <= k2 < n && 0 <= i4 < mcount implies poly_eval(
                        poly_views(qap.vs@)[k2],
                        i4,
                        m,
                    ) == seq_views(cons[i4].a@)[k2] by {
                        assert(seq_views(xs@)[i4] == i4);
                        assert(poly_eval(vsv[k2], seq_views(xs@)[i4], m) == seq_views(
                            cons[i4].a@,
                        )[k2]);
                    }
                    assert forall|k2: int, i4: int|
                        #![trigger poly_views(qap.ws@)[k2], cons[i4]]
                        0 <= k2 < n && 0 <= i4 < mcount implies poly_eval(
                        poly_views(qap.ws@)[k2],
                        i4,
                        m,
                    ) == seq_views(cons[i4].b@)[k2] by {
                        assert(seq_views(xs@)[i4] == i4);
                        assert(poly_eval(wsv[k2], seq_views(xs@)[i4], m) == seq_views(
                            cons[i4].b@,
                        )[k2]);
                    }
                    assert forall|k2: int, i4: int|
                        #![trigger poly_views(qap.ys@)[k2], cons[i4]]
                        0 <= k2 < n && 0 <= i4 < mcount implies poly_eval(
                        poly_views(qap.ys@)[k2],
                        i4,
                        m,
                    ) == seq_views(cons[i4].c@)[k2] by {
                        assert(seq_views(xs@)[i4] == i4);
                        assert(poly_eval(ysv[k2], seq_views(xs@)[i4], m) == seq_views(
                            cons[i4].c@,
                        )[k2]);
                    }
                    assert forall|i4: int| 0 <= i4 < mcount implies poly_eval(
                        qap.target@,
                        #[trigger] (i4 + 0),
                        m,
                    ) == 0 by {
                        assert(seq_views(xs@)[i4] == i4);
                        assert(poly_eval(tv, seq_views(xs@)[i4], m) == 0);
                    }
                    assert(qap.sizes_bounded()) by {
                        assert(forall|k2: int|
                            0 <= k2 < n ==> (#[trigger] poly_views(qap.vs@)[k2]).len() <= mcount
                                + 1);
                        assert(mcount + 1 <= POLYNOMIAL_SIZE_BOUND);
                        assert(forall|k2: int|
                            0 <= k2 < qap.vs@.len() ==> (#[trigger] qap.vs@[k2])@.len() <= mcount
                                + 1) by {
                            assert(forall|k2: int|
                                0 <= k2 < qap.vs@.len() ==> (#[trigger] qap.vs@[k2])@
                                    == poly_views(qap.vs@)[k2]);
                        }
                        assert forall|k2: int| 0 <= k2 < qap.ws@.len() implies (
                        #[trigger] qap.ws@[k2])@.len() <= mcount + 1 by {
                            assert(poly_views(qap.vs@)[k2].len() <= mcount + 1 && poly_views(
                                qap.ws@,
                            )[k2].len() <= mcount + 1 && poly_views(qap.ys@)[k2].len() <= mcount
                                + 1);
                            assert((qap.ws@[k2])@ == poly_views(qap.ws@)[k2]);
                        }
                        assert forall|k2: int| 0 <= k2 < qap.ys@.len() implies (
                        #[trigger] qap.ys@[k2])@.len() <= mcount + 1 by {
                            assert(poly_views(qap.vs@)[k2].len() <= mcount + 1 && poly_views(
                                qap.ws@,
                            )[k2].len() <= mcount + 1 && poly_views(qap.ys@)[k2].len() <= mcount
                                + 1);
                            assert((qap.ys@[k2])@ == poly_views(qap.ys@)[k2]);
                        }
                    }
                }
                Ok(qap)
            },
            Err(_) => {
                proof {
                    assert(false);
                }
                unreached()
            },
        }
    }

    /// The first evaluation point of the example QAP, exposed to help
    /// testing.
    pub fn test_qap_r5() -> (r: FE)
        ensures
            r@ == 0,
    {
        FE::new(0)
    }

    /// The second evaluation point of the example QAP, exposed to help
    /// testing.
    pub fn test_qap_r6() -> (r: FE)
        ensures
            r@ == 1,
    {
        FE::new(1)
    }

    /// Solves the example circuit: from the inputs `c1..c4` it returns the
    /// intermediate wire `c5 = c3 * c4` and the output
    /// `c6 = (c1 + c2) * c5`.
    pub fn test_qap_solver(inputs: [FE; 4]) -> (r: (FE, FE))
        ensures
            r.0@ == (inputs@[2]@ * inputs@[3]@) % FE::order_spec(),
            r.1@ == (((inputs@[0]@ + inputs@[1]@) % FE::order_spec()) * r.0@) % FE::order_spec(),
    {
        let c5 = inputs[2].mul(inputs[3]);
        let c6 = inputs[0].add(inputs[1]).mul(c5);
        (c5, c6)
    }

    /// The `v` polynomials of the mid wires.
    pub fn v_mid(&self) -> (r: &[Polynomial<OrderR>])
        requires
            self.well_formed(),
        ensures
            r@ == self.vs@.subrange(
                self.number_of_inputs + 1,
                self.vs@.len() - self.number_of_outputs,
            ),
    {
        let n = self.vs.len();
        slice_range(&self.vs, self.number_of_inputs + 1, n - self.number_of_outputs)
    }

    /// The `w` polynomials of the mid wires.
    pub fn w_mid(&self) -> (r: &[Polynomial<OrderR>])
        requires
            self.well_formed(),
        ensures
            r@ == self.ws@.subrange(
                self.number_of_inputs + 1,
                self.ws@.len() - self.number_of_outputs,
            ),
    {
        let n = self.ws.len();
        slice_range(&self.ws, self.number_of_inputs + 1, n - self.number_of_outputs)
    }

    /// The `y` polynomials of the mid wires.
    pub fn y_mid(&self) -> (r: &[Polynomial<OrderR>])
        requires
            self.well_formed(),
        ensures
            r@ == self.ys@.subrange(
                self.number_of_inputs + 1,
                self.ys@.len() - self.number_of_outputs,
            ),
    {
        let n = self.ys.len();
        slice_range(&self.ys, self.number_of_inputs + 1, n - self.number_of_outputs)
    }

    /// The `v` polynomials of the input wires.
    pub fn v_input(&self) -> (r: &[Polynomial<OrderR>])
        requires
            self.well_formed(),
        ensures
            r@ == self.vs@.subrange(1, self.number_of_inputs + 1),
    {
        let n = self.vs.len();
        slice_range(&self.vs, 1, self.number_of_inputs + 1)
    }

    /// The `w` polynomials of the input wires.
    pub fn w_input(&self) -> (r: &[Polynomial<OrderR>])
        requires
            self.well_formed(),
        ensures
            r@ == self.ws@.subrange(1, self.number_of_inputs + 1),
    {
        let n = self.ws.len();
        slice_range(&self.ws, 1, self.number_of_inputs + 1)
    }

    /// The `y` polynomials of the input wires.
    pub fn y_input(&self) -> (r: &[Polynomial<OrderR>])
        requires
            self.well_formed(),
        ensures
            r@ == self.ys@.subrange(1, self.number_of_inputs + 1),
    {
        let n = self.ys.len();
        slice_range(&self.ys, 1, self.number_of_inputs + 1)
    }

    /// The `v` polynomial of the constant wire.
    pub fn v0(&self) -> (r: &Polynomial<OrderR>)
        requires
            self.well_formed(),
        ensures
            r@ == self.vs@[0]@,
    {
        &self.vs[0]
    }

    /// The `w` polynomial of the constant wire.
    pub fn w0(&self) -> (r: &Polynomial<OrderR>)
        requires
            self.well_formed(),
        ensures
            r@ == self.ws@[0]@,
    {
        &self.ws[0]
    }

    /// The `y` polynomial of the constant wire.
    pub fn y0(&self) -> (r: &Polynomial<OrderR>)
        requires
            self.well_formed(),
        ensures
            r@ == self.ys@[0]@,
    {
        &self.ys[0]
    }

    /// The `v` polynomials of the output wires.
    pub fn v_output(&self) -> (r: &[Polynomial<OrderR>])
        requires
            self.well_formed(),
        ensures
            r@ == self.vs@.subrange(
                self.vs@.len() - self.number_of_outputs,
                self.vs@.len() as int,
            ),
    {
        slice_range(&self.vs, self.vs.len() - self.number_of_outputs, self.vs.len())
    }

    /// The `w` polynomials of the output wires.
    pub fn w_output(&self) -> (r: &[Polynomial<OrderR>])
        requires
            self.well_formed(),
        ensures
            r@ == self.ws@.subrange(
                self.ws@.len() - self.number_of_outputs,
                self.ws@.len() as int,
            ),
    {
        slice_range(&self.ws, self.ws.len() - self.number_of_outputs, self.ws.len())
    }

    /// The `y` polynomials of the output wires.
    pub fn y_output(&self) -> (r: &[Polynomial<OrderR>])
        requires
            self.well_formed(),
        ensures
            r@ == self.ys@.subrange(
                self.ys@.len() - self.number_of_outputs,
                self.ys@.len() as int,
            ),
    {
        slice_range(&self.ys, self.ys.len() - self.number_of_outputs, self.ys.len())
    }
}

/// The subslice of `v` from `from` to `to`.
fn slice_range<'a>(v: &'a Vec<Polynomial<OrderR>>, from: usize, to: usize) -> (r: &'a [Polynomial<
    OrderR,
>])
    requires
        from <= to <= v@.len(),
    ensures
        r@ == v@.subrange(from as int, to as int),
{
    slice_subrange(v.as_slice(), from, to)
}

} // verus!
