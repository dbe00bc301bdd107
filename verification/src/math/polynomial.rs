//! Univariate polynomials over a prime field, stored as their coefficient
//! vectors in ascending order of degree, with no trailing zero coefficient.
//!
//! The zero polynomial is the empty coefficient vector. Specifications view
//! a polynomial as the sequence of its coefficient residues; an index past
//! the end of the sequence reads as the zero coefficient.

use super::field_element::{FieldElement, FieldElementError, FieldOrder};
use vstd::arithmetic::div_mod::{
    lemma_add_mod_noop, lemma_add_mod_noop_right, lemma_mod_twice, lemma_mul_mod_noop_right,
    lemma_small_mod,
};
use vstd::arithmetic::mul::{
    lemma_mul_is_associative, lemma_mul_is_commutative, lemma_mul_is_distributive_add,
    lemma_mul_is_distributive_add_other_way,
};
use vstd::prelude::*;

verus! {

/// Failure cases of Lagrange interpolation.
#[derive(Clone, Copy, Debug, PartialEq, Eq, Structural)]
pub enum InterpolationError {
    /// Two of the supplied interpolation nodes coincide.
    NonDistinctInterpolationNodes,
}

/// The views of a sequence of field elements.
pub open spec fn seq_views<O: FieldOrder>(s: Seq<FieldElement<O>>) -> Seq<int> {
    s.map(|i: int, c: FieldElement<O>| c@)
}

/// Whether the difference of every two interpolation nodes at distinct
/// indices is invertible by exponentiation. Over a prime field order this
/// is exactly "the nodes are pairwise distinct".
pub open spec fn nodes_invertible<O: FieldOrder>(xs: Seq<int>) -> bool {
    forall|i: int, j: int|
        #![trigger xs[i], xs[j]]
        0 <= i < xs.len() && 0 <= j < xs.len() && i != j ==> FieldElement::<O>::invertible(
            (xs[i] - xs[j]) % (O::spec_order() as int),
        )
}

/// The coefficient of `X^i` in the polynomial with coefficient sequence `s`;
/// zero outside the stored range.
pub open spec fn coeff_at(s: Seq<int>, i: int) -> int {
    if 0 <= i < s.len() {
        s[i]
    } else {
        0
    }
}

/// Whether a coefficient sequence is in canonical form: empty, or with a
/// nonzero last coefficient.
pub open spec fn is_normalized(s: Seq<int>) -> bool {
    s.len() == 0 || s[s.len() - 1] != 0
}

/// Whether every coefficient of the sequence is a canonical residue.
pub open spec fn all_reduced(s: Seq<int>, m: int) -> bool {
    forall|i: int| 0 <= i < s.len() ==> 0 <= #[trigger] s[i] < m
}

/// Two coefficient sequences denote the same polynomial: they agree at every
/// index.
pub open spec fn same_poly(u: Seq<int>, v: Seq<int>) -> bool {
    forall|i: int| #[trigger] coeff_at(u, i) == coeff_at(v, i)
}

/// Horner evaluation of the polynomial `s` at `x`, with every step reduced
/// modulo `m`.
pub open spec fn poly_eval(s: Seq<int>, x: int, m: int) -> int
    decreases s.len(),
{
    if s.len() == 0 {
        0
    } else {
        (s[0] + x * poly_eval(s.subrange(1, s.len() as int), x, m)) % m
    }
}

/// The sum of the first `j` terms `a_t * b_(k-t)` of the convolution of `a`
/// and `b` at index `k`.
pub open spec fn conv_prefix(a: Seq<int>, b: Seq<int>, k: int, j: nat) -> int
    decreases j,
{
    if j == 0 {
        0
    } else {
        conv_prefix(a, b, k, (j - 1) as nat) + coeff_at(a, j - 1) * coeff_at(b, k - (j - 1))
    }
}

/// The full convolution of `a` and `b` at index `k`: the coefficient of
/// `X^k` in the product of `a` and `b`, before reduction.
pub open spec fn conv_at(a: Seq<int>, b: Seq<int>, k: int) -> int {
    conv_prefix(a, b, k, (k + 1) as nat)
}

/// The coefficient of `X^k` in the product of `a` and `b`, reduced.
pub open spec fn mul_coeff(a: Seq<int>, b: Seq<int>, k: int, m: int) -> int {
    conv_at(a, b, k) % m
}

/// Convolution terms past both the end of `a` and index `k` vanish, so the
/// prefix sum is stable from either bound on.
proof fn lemma_conv_prefix_stable(a: Seq<int>, b: Seq<int>, k: int, j1: nat, j2: nat)
    requires
        j1 <= j2,
        j1 >= a.len() || j1 >= k + 1,
    ensures
        conv_prefix(a, b, k, j2) == conv_prefix(a, b, k, j1),
    decreases j2 - j1,
{
    if j2 > j1 {
        lemma_conv_prefix_stable(a, b, k, j1, (j2 - 1) as nat);
        assert(coeff_at(a, j2 - 1) * coeff_at(b, k - (j2 - 1)) == 0) by {
            if j2 - 1 >= a.len() {
                assert(coeff_at(a, j2 - 1) == 0);
            } else {
                assert(k - (j2 - 1) < 0);
                assert(coeff_at(b, k - (j2 - 1)) == 0);
            }
        }
    }
}

/// The convolution prefix at an index `k` at or beyond the degree of the
/// product is zero.
proof fn lemma_conv_prefix_zero(a: Seq<int>, b: Seq<int>, k: int, j: nat)
    requires
        a.len() == 0 || b.len() == 0 || k < 0 || k >= a.len() + b.len() - 1,
    ensures
        conv_prefix(a, b, k, j) == 0,
    decreases j,
{
    if j > 0 {
        lemma_conv_prefix_zero(a, b, k, (j - 1) as nat);
        assert(coeff_at(a, j - 1) * coeff_at(b, k - (j - 1)) == 0) by {
            if a.len() == 0 {
                assert(coeff_at(a, j - 1) == 0);
            } else if b.len() == 0 || k < 0 {
                assert(coeff_at(b, k - (j - 1)) == 0);
            } else if j - 1 < a.len() {
                assert(k - (j - 1) >= b.len());
                assert(coeff_at(b, k - (j - 1)) == 0);
            } else {
                assert(coeff_at(a, j - 1) == 0);
            }
        }
    }
}

/// The convolution depends only on the polynomials denoted, not on the
/// stored lengths of the coefficient sequences.
pub proof fn lemma_conv_same_poly(a1: Seq<int>, a2: Seq<int>, b1: Seq<int>, b2: Seq<int>, k: int, j: nat)
    requires
        same_poly(a1, a2),
        same_poly(b1, b2),
    ensures
        conv_prefix(a1, b1, k, j) == conv_prefix(a2, b2, k, j),
    decreases j,
{
    if j > 0 {
        lemma_conv_same_poly(a1, a2, b1, b2, k, (j - 1) as nat);
    }
}

/// The convolution against a sequence of zero entries is zero.
proof fn lemma_conv_prefix_zero_entries(a: Seq<int>, b: Seq<int>, k: int, j: nat)
    requires
        forall|t: int| 0 <= t < a.len() ==> #[trigger] a[t] == 0,
    ensures
        conv_prefix(a, b, k, j) == 0,
    decreases j,
{
    if j > 0 {
        lemma_conv_prefix_zero_entries(a, b, k, (j - 1) as nat);
        assert(coeff_at(a, j - 1) == 0);
    }
}

/// A convolution against a monomial `c * X^k` picks out one term.
proof fn lemma_conv_prefix_monomial(a: Seq<int>, b: Seq<int>, c: int, k: int, i: int, j: nat)
    requires
        forall|t: int| #[trigger] coeff_at(b, t) == if t == k {
            c
        } else {
            0
        },
    ensures
        conv_prefix(a, b, i, j) == if 0 <= i - k < j {
            coeff_at(a, i - k) * c
        } else {
            0
        },
    decreases j,
{
    if j > 0 {
        lemma_conv_prefix_monomial(a, b, c, k, i, (j - 1) as nat);
        if i - (j - 1) != k {
            assert(coeff_at(b, i - (j - 1)) == 0);
        }
    }
}

/// The convolution of `a` against the monomial `c * X^k` at index `i` is
/// the coefficient of `a` at `i - k`, scaled by `c`.
pub proof fn lemma_conv_monomial_pick(a: Seq<int>, b: Seq<int>, c: int, k: int, i: int)
    requires
        k >= 0,
        forall|t: int| #[trigger] coeff_at(b, t) == if t == k {
            c
        } else {
            0
        },
    ensures
        conv_at(a, b, i) == if i >= k {
            coeff_at(a, i - k) * c
        } else {
            0
        },
{
    lemma_conv_prefix_monomial(a, b, c, k, i, (i + 1) as nat);
    if i >= k {
        assert(0 <= i - k < (i + 1) as nat);
    }
}

/// The convolution of `a` against a two-entry sequence at index `k` has
/// exactly two terms.
proof fn lemma_conv_prefix_linear(a: Seq<int>, b: Seq<int>, k: int, j: nat)
    requires
        b.len() == 2,
    ensures
        conv_prefix(a, b, k, j) == (if 0 <= k < j {
            coeff_at(a, k) * b[0]
        } else {
            0
        }) + (if 0 <= k - 1 < j {
            coeff_at(a, k - 1) * b[1]
        } else {
            0
        }),
    decreases j,
{
    if j > 0 {
        lemma_conv_prefix_linear(a, b, k, (j - 1) as nat);
        if k - (j - 1) != 0 && k - (j - 1) != 1 {
            assert(coeff_at(b, k - (j - 1)) == 0);
        }
    }
}

/// The convolution of `a` against a two-entry sequence: the coefficient at
/// `k` of the product of `a` and a linear polynomial.
pub proof fn lemma_conv_linear(a: Seq<int>, b: Seq<int>, k: int)
    requires
        b.len() == 2,
        k >= 0,
    ensures
        conv_at(a, b, k) == coeff_at(a, k) * b[0] + coeff_at(a, k - 1) * b[1],
{
    lemma_conv_prefix_linear(a, b, k, (k + 1) as nat);
    assert(0 <= k < (k + 1) as nat);
}

/// Changing one zero entry of `a` to `c` adds one term to each convolution.
proof fn lemma_conv_prefix_update(a1: Seq<int>, a2: Seq<int>, b: Seq<int>, c: int, k: int, i: int, j: nat)
    requires
        a1.len() == a2.len(),
        0 <= k < a1.len(),
        a1[k] == 0,
        a2[k] == c,
        forall|t: int| 0 <= t < a1.len() && t != k ==> #[trigger] a2[t] == a1[t],
    ensures
        conv_prefix(a2, b, i, j) == conv_prefix(a1, b, i, j) + if k < j {
            c * coeff_at(b, i - k)
        } else {
            0
        },
    decreases j,
{
    if j > 0 {
        lemma_conv_prefix_update(a1, a2, b, c, k, i, (j - 1) as nat);
        if j - 1 == k {
            assert(coeff_at(a1, j - 1) == 0);
            assert(coeff_at(a2, j - 1) == c);
        } else {
            assert(coeff_at(a2, j - 1) == coeff_at(a1, j - 1));
        }
    }
}

/// Rebalancing a reduced term between the two summands of the division
/// invariant does not change the total.
proof fn lemma_mod_redistribute(c1: int, t: int, w: int, m: int)
    requires
        m >= 1,
    ensures
        ((c1 + t) % m + (w - t % m) % m) % m == (c1 % m + w) % m,
{
    lemma_add_mod_noop(c1 + t, w - t % m, m);
    vstd::arithmetic::div_mod::lemma_fundamental_div_mod(t, m);
    assert(c1 + t + (w - t % m) == (t / m) * m + (c1 + w)) by {
        lemma_mul_is_commutative(m, t / m);
    }
    vstd::arithmetic::div_mod::lemma_mod_multiples_vanish(t / m, c1 + w, m);
    assert((c1 % m + w) % m == (c1 % m + w % m) % m) by {
        lemma_add_mod_noop_right(c1 % m, w, m);
    }
    lemma_add_mod_noop(c1, w, m);
}

/// The length of the coefficient sequence of a product.
pub open spec fn prod_len(a: Seq<int>, b: Seq<int>) -> nat {
    if a.len() == 0 || b.len() == 0 {
        0
    } else {
        (a.len() + b.len() - 1) as nat
    }
}

/// The canonical coefficient sequence of the product of `a` and `b`.
pub open spec fn prod_seq(a: Seq<int>, b: Seq<int>, m: int) -> Seq<int> {
    Seq::new(prod_len(a, b), |k: int| mul_coeff(a, b, k, m))
}

/// The canonical coefficient sequence of the sum of `a` and `b`.
pub open spec fn sum_seq(a: Seq<int>, b: Seq<int>, m: int) -> Seq<int> {
    Seq::new(
        if a.len() < b.len() {
            b.len()
        } else {
            a.len()
        },
        |k: int| (coeff_at(a, k) + coeff_at(b, k)) % m,
    )
}

/// The tail of a coefficient sequence; the empty sequence stays empty.
pub open spec fn poly_tail(s: Seq<int>) -> Seq<int> {
    if s.len() == 0 {
        s
    } else {
        s.subrange(1, s.len() as int)
    }
}

/// Appending a zero coefficient does not change the evaluation.
proof fn lemma_eval_push_zero(s: Seq<int>, x: int, m: int)
    requires
        m >= 1,
    ensures
        poly_eval(s.push(0), x, m) == poly_eval(s, x, m),
    decreases s.len(),
{
    if s.len() == 0 {
        let p = s.push(0);
        assert(p.subrange(1, 1) =~= Seq::<int>::empty());
        assert(poly_eval(Seq::<int>::empty(), x, m) == 0);
        assert(p[0] == 0);
        assert(poly_eval(p, x, m) == (p[0] + x * poly_eval(p.subrange(1, 1), x, m)) % m);
        lemma_small_mod(0nat, m as nat);
    } else {
        lemma_eval_push_zero(s.subrange(1, s.len() as int), x, m);
        assert(s.push(0).subrange(1, s.len() as int + 1) =~= s.subrange(1, s.len() as int).push(0));
    }
}

/// Evaluation only depends on the polynomial denoted, not on the number of
/// stored trailing zeros.
proof fn lemma_eval_pad(s: Seq<int>, n: nat, x: int, m: int)
    requires
        m >= 1,
        n >= s.len(),
    ensures
        poly_eval(Seq::new(n, |i: int| coeff_at(s, i)), x, m) == poly_eval(s, x, m),
    decreases n,
{
    let padded = Seq::new(n, |i: int| coeff_at(s, i));
    if n == s.len() {
        assert(padded =~= s);
    } else {
        let shorter = Seq::new((n - 1) as nat, |i: int| coeff_at(s, i));
        lemma_eval_pad(s, (n - 1) as nat, x, m);
        assert(padded =~= shorter.push(0));
        lemma_eval_push_zero(shorter, x, m);
    }
}

/// Two canonical sequences denoting the same polynomial are equal.
pub proof fn lemma_same_poly_canonical(u: Seq<int>, v: Seq<int>)
    requires
        is_normalized(u),
        is_normalized(v),
        same_poly(u, v),
    ensures
        u == v,
{
    if u.len() < v.len() {
        assert(coeff_at(u, v.len() - 1) == 0);
        assert(coeff_at(v, v.len() - 1) == v[v.len() - 1]);
        assert(false);
    } else if v.len() < u.len() {
        assert(coeff_at(v, u.len() - 1) == 0);
        assert(coeff_at(u, u.len() - 1) == u[u.len() - 1]);
        assert(false);
    } else {
        assert forall|i: int| 0 <= i < u.len() implies u[i] == v[i] by {
            assert(coeff_at(u, i) == coeff_at(v, i));
        }
        assert(u =~= v);
    }
}

/// Evaluation agrees on any two sequences denoting the same polynomial.
pub proof fn lemma_eval_same_poly(u: Seq<int>, v: Seq<int>, x: int, m: int)
    requires
        m >= 1,
        same_poly(u, v),
    ensures
        poly_eval(u, x, m) == poly_eval(v, x, m),
{
    let n = if u.len() < v.len() {
        v.len()
    } else {
        u.len()
    };
    lemma_eval_pad(u, n, x, m);
    lemma_eval_pad(v, n, x, m);
    assert(Seq::new(n, |i: int| coeff_at(u, i)) =~= Seq::new(n, |i: int| coeff_at(v, i)));
}

/// The first step of Horner evaluation, stated uniformly for the empty
/// sequence as well.
proof fn lemma_eval_unfold(s: Seq<int>, x: int, m: int)
    requires
        m >= 1,
    ensures
        poly_eval(s, x, m) == (coeff_at(s, 0) + x * poly_eval(poly_tail(s), x, m)) % m,
{
    if s.len() == 0 {
        lemma_small_mod(0nat, m as nat);
    }
}

/// Evaluation of a sum of polynomials is the sum of the evaluations.
proof fn lemma_eval_sum_seq(a: Seq<int>, b: Seq<int>, x: int, m: int)
    requires
        m >= 1,
    ensures
        poly_eval(sum_seq(a, b, m), x, m) == (poly_eval(a, x, m) + poly_eval(b, x, m)) % m,
    decreases (if a.len() < b.len() {
        b.len()
    } else {
        a.len()
    }),
{
    let n = if a.len() < b.len() {
        b.len()
    } else {
        a.len()
    };
    let u = sum_seq(a, b, m);
    if n == 0 {
        lemma_small_mod(0nat, m as nat);
    } else {
        let ta = poly_tail(a);
        let tb = poly_tail(b);
        lemma_eval_sum_seq(ta, tb, x, m);
        assert(u.subrange(1, u.len() as int) =~= sum_seq(ta, tb, m));
        let a0 = coeff_at(a, 0);
        let b0 = coeff_at(b, 0);
        let ea = poly_eval(ta, x, m);
        let eb = poly_eval(tb, x, m);
        assert(poly_eval(u, x, m) == ((a0 + b0) % m + x * ((ea + eb) % m)) % m);
        // strip the inner reductions
        assert(((a0 + b0) % m + x * ((ea + eb) % m)) % m == (a0 + b0 + x * ((ea + eb) % m)) % m)
            by {
            lemma_add_mod_noop_right((a0 + b0) % m, x * ((ea + eb) % m), m);
            lemma_add_mod_noop(a0 + b0, x * ((ea + eb) % m), m);
            lemma_mod_twice(x * ((ea + eb) % m), m);
        }
        assert((a0 + b0 + x * ((ea + eb) % m)) % m == (a0 + b0 + x * (ea + eb)) % m) by {
            lemma_add_mod_noop_right(a0 + b0, x * ((ea + eb) % m), m);
            lemma_mul_mod_noop_right(x, ea + eb, m);
            lemma_add_mod_noop_right(a0 + b0, x * (ea + eb), m);
        }
        assert(a0 + b0 + x * (ea + eb) == (a0 + x * ea) + (b0 + x * eb)) by {
            lemma_mul_is_distributive_add(x, ea, eb);
        }
        lemma_eval_unfold(a, x, m);
        lemma_eval_unfold(b, x, m);
        assert(((a0 + x * ea) % m + (b0 + x * eb) % m) % m == ((a0 + x * ea) + (b0 + x * eb)) % m)
            by {
            lemma_add_mod_noop(a0 + x * ea, b0 + x * eb, m);
        }
    }
}

/// Evaluation of a sum, stated for any result sequence with the right
/// coefficients.
pub proof fn lemma_eval_add_pointwise(r: Seq<int>, a: Seq<int>, b: Seq<int>, x: int, m: int)
    requires
        m >= 1,
        forall|i: int| #[trigger] coeff_at(r, i) == (coeff_at(a, i) + coeff_at(b, i)) % m,
    ensures
        poly_eval(r, x, m) == (poly_eval(a, x, m) + poly_eval(b, x, m)) % m,
{
    assert forall|i: int| #[trigger] coeff_at(r, i) == coeff_at(sum_seq(a, b, m), i) by {
        if !(0 <= i < sum_seq(a, b, m).len()) {
            lemma_small_mod(0nat, m as nat);
        }
    }
    lemma_eval_same_poly(r, sum_seq(a, b, m), x, m);
    lemma_eval_sum_seq(a, b, x, m);
}

/// Evaluation of a difference, stated for any result sequence with the
/// right coefficients.
pub proof fn lemma_eval_sub_pointwise(r: Seq<int>, a: Seq<int>, b: Seq<int>, x: int, m: int)
    requires
        m >= 1,
        forall|i: int| #[trigger] coeff_at(r, i) == (coeff_at(a, i) - coeff_at(b, i)) % m,
    ensures
        poly_eval(r, x, m) == (poly_eval(a, x, m) - poly_eval(b, x, m)) % m,
{
    let nb = Seq::new(b.len(), |i: int| (0 - coeff_at(b, i)) % m);
    assert forall|i: int| #[trigger] coeff_at(r, i) == (coeff_at(a, i) + coeff_at(nb, i)) % m by {
        if 0 <= i < b.len() {
            lemma_add_mod_noop_right(coeff_at(a, i), 0 - coeff_at(b, i), m);
        } else {
            assert(coeff_at(nb, i) == 0);
            assert(coeff_at(b, i) == 0);
        }
    }
    lemma_eval_add_pointwise(r, a, nb, x, m);
    lemma_eval_neg_aux(nb, b, x, m);
    lemma_add_mod_noop_right(poly_eval(a, x, m), 0 - poly_eval(b, x, m), m);
    lemma_mod_twice(0 - poly_eval(b, x, m), m);
    assert((poly_eval(a, x, m) + (0 - poly_eval(b, x, m)) % m) % m == (poly_eval(a, x, m)
        - poly_eval(b, x, m)) % m) by {
        lemma_add_mod_noop_right(poly_eval(a, x, m), 0 - poly_eval(b, x, m), m);
    }
}

/// Evaluation of the coefficient-wise negation of a polynomial.
proof fn lemma_eval_neg_aux(nb: Seq<int>, b: Seq<int>, x: int, m: int)
    requires
        m >= 1,
        nb.len() == b.len(),
        forall|i: int| 0 <= i < b.len() ==> #[trigger] nb[i] == (0 - coeff_at(b, i)) % m,
    ensures
        poly_eval(nb, x, m) == (0 - poly_eval(b, x, m)) % m,
    decreases b.len(),
{
    if b.len() == 0 {
        lemma_small_mod(0nat, m as nat);
    } else {
        let tb = b.subrange(1, b.len() as int);
        let tnb = nb.subrange(1, nb.len() as int);
        assert(forall|i: int| 0 <= i < tb.len() ==> #[trigger] tnb[i] == (0 - coeff_at(tb, i))
            % m);
        lemma_eval_neg_aux(tnb, tb, x, m);
        let b0 = b[0];
        let eb = poly_eval(tb, x, m);
        assert(poly_eval(nb, x, m) == ((0 - b0) % m + x * ((0 - eb) % m)) % m);
        assert(((0 - b0) % m + x * ((0 - eb) % m)) % m == ((0 - b0) + x * (0 - eb)) % m) by {
            lemma_add_mod_noop_right((0 - b0) % m, x * ((0 - eb) % m), m);
            lemma_mul_mod_noop_right(x, 0 - eb, m);
            lemma_add_mod_noop((0 - b0), x * (0 - eb), m);
            lemma_mod_twice(x * (0 - eb), m);
            lemma_add_mod_noop_right((0 - b0), x * (0 - eb), m);
        }
        assert((0 - b0) + x * (0 - eb) == 0 - (b0 + x * eb)) by {
            vstd::arithmetic::mul::lemma_mul_is_distributive_sub(x, 0, eb);
            vstd::arithmetic::mul::lemma_mul_basics_3(x);
        }
        assert((0 - (b0 + x * eb)) % m == (0 - (b0 + x * eb) % m) % m) by {
            vstd::arithmetic::div_mod::lemma_sub_mod_noop_right(0, b0 + x * eb, m);
        }
    }
}

/// Evaluation of a scalar multiple of a polynomial.
proof fn lemma_eval_scale(b: Seq<int>, c: int, x: int, m: int)
    requires
        m >= 1,
    ensures
        poly_eval(Seq::new(b.len(), |k: int| (c * coeff_at(b, k)) % m), x, m) == (c * poly_eval(
            b,
            x,
            m,
        )) % m,
    decreases b.len(),
{
    let u = Seq::new(b.len(), |k: int| (c * coeff_at(b, k)) % m);
    if b.len() == 0 {
        lemma_small_mod(0nat, m as nat);
        assert((c * 0) % m == 0) by {
            lemma_small_mod(0nat, m as nat);
        }
    } else {
        let tb = b.subrange(1, b.len() as int);
        lemma_eval_scale(tb, c, x, m);
        assert(u.subrange(1, u.len() as int) =~= Seq::new(
            tb.len(),
            |k: int| (c * coeff_at(tb, k)) % m,
        ));
        let b0 = b[0];
        let eb = poly_eval(tb, x, m);
        assert(poly_eval(u, x, m) == ((c * b0) % m + x * ((c * eb) % m)) % m);
        assert(((c * b0) % m + x * ((c * eb) % m)) % m == (c * b0 + x * (c * eb)) % m) by {
            lemma_add_mod_noop_right((c * b0) % m, x * ((c * eb) % m), m);
            lemma_add_mod_noop(c * b0, x * ((c * eb) % m), m);
            lemma_mod_twice(x * ((c * eb) % m), m);
            lemma_add_mod_noop_right(c * b0, x * ((c * eb) % m), m);
            lemma_mul_mod_noop_right(x, c * eb, m);
            lemma_add_mod_noop_right(c * b0, x * (c * eb), m);
        }
        assert(c * b0 + x * (c * eb) == c * (b0 + x * eb)) by {
            lemma_mul_is_associative(x, c, eb);
            lemma_mul_is_commutative(x, c);
            lemma_mul_is_associative(c, x, eb);
            lemma_mul_is_distributive_add(c, b0, x * eb);
        }
        assert((c * (b0 + x * eb)) % m == (c * ((b0 + x * eb) % m)) % m) by {
            lemma_mul_mod_noop_right(c, b0 + x * eb, m);
        }
    }
}

/// One step of splitting a convolution by the first coefficient of `a`.
proof fn lemma_conv_prefix_decompose(a: Seq<int>, b: Seq<int>, k: int, j: nat)
    requires
        a.len() >= 1,
    ensures
        conv_prefix(a, b, k, (j + 1) as nat) == a[0] * coeff_at(b, k) + conv_prefix(
            a.subrange(1, a.len() as int),
            b,
            k - 1,
            j,
        ),
    decreases j,
{
    let ta = a.subrange(1, a.len() as int);
    if j == 0 {
        assert(conv_prefix(a, b, k, 1nat) == conv_prefix(a, b, k, 0nat) + coeff_at(a, 0)
            * coeff_at(b, k));
        assert(conv_prefix(a, b, k, 0nat) == 0);
        assert(conv_prefix(ta, b, k - 1, 0nat) == 0);
        assert(coeff_at(a, 0) == a[0]);
    } else {
        lemma_conv_prefix_decompose(a, b, k, (j - 1) as nat);
        assert(conv_prefix(a, b, k, (j + 1) as nat) == conv_prefix(a, b, k, j) + coeff_at(
            a,
            j as int,
        ) * coeff_at(b, k - (j as int)));
        assert(conv_prefix(ta, b, k - 1, j) == conv_prefix(ta, b, k - 1, (j - 1) as nat)
            + coeff_at(ta, j - 1) * coeff_at(b, (k - 1) - (j - 1)));
        assert(coeff_at(a, j as int) == coeff_at(ta, j - 1));
    }
}

/// Splitting a full convolution by the first coefficient of `a`.
proof fn lemma_conv_decompose(a: Seq<int>, b: Seq<int>, k: int)
    requires
        a.len() >= 1,
    ensures
        conv_at(a, b, k) == a[0] * coeff_at(b, k) + conv_at(a.subrange(1, a.len() as int), b, k - 1),
{
    let ta = a.subrange(1, a.len() as int);
    if k < 0 {
        lemma_conv_prefix_zero(a, b, k, (k + 1) as nat);
        lemma_conv_prefix_zero(ta, b, k - 1, k as nat);
        assert(conv_at(a, b, k) == 0);
        assert(conv_at(ta, b, k - 1) == 0);
        assert(coeff_at(b, k) == 0);
    } else {
        lemma_conv_prefix_decompose(a, b, k, k as nat);
    }
}

/// Evaluation of a product of polynomials is the product of the
/// evaluations.
proof fn lemma_eval_prod_seq(a: Seq<int>, b: Seq<int>, x: int, m: int)
    requires
        m >= 1,
    ensures
        poly_eval(prod_seq(a, b, m), x, m) == (poly_eval(a, x, m) * poly_eval(b, x, m)) % m,
    decreases a.len(),
{
    let u = prod_seq(a, b, m);
    if a.len() == 0 || b.len() == 0 {
        assert(u.len() == 0);
        assert(poly_eval(a, x, m) * poly_eval(b, x, m) == 0);
        lemma_small_mod(0nat, m as nat);
    } else {
        let ta = a.subrange(1, a.len() as int);
        lemma_eval_prod_seq(ta, b, x, m);
        let scaled = Seq::new(b.len(), |k: int| (a[0] * coeff_at(b, k)) % m);
        let shifted = seq![0int] + prod_seq(ta, b, m);
        assert forall|k: int| #[trigger] coeff_at(u, k) == (coeff_at(scaled, k) + coeff_at(
            shifted,
            k,
        )) % m by {
            lemma_conv_decompose(a, b, k);
            assert(conv_at(a, b, k) == a[0] * coeff_at(b, k) + conv_at(ta, b, k - 1));
            assert(coeff_at(shifted, k) == if 1 <= k < shifted.len() {
                mul_coeff(ta, b, k - 1, m)
            } else {
                0
            });
            if k < 0 {
                assert(coeff_at(u, k) == 0);
                assert(coeff_at(scaled, k) == 0);
                assert(coeff_at(shifted, k) == 0);
                lemma_small_mod(0nat, m as nat);
                lemma_conv_prefix_zero(a, b, k, (k + 1) as nat);
                assert(conv_at(a, b, k) == 0);
            } else {
                // both sides reduce the same unreduced coefficient
                assert(coeff_at(u, k) == mul_coeff(a, b, k, m)) by {
                    if k >= u.len() {
                        lemma_conv_prefix_zero(a, b, k, (k + 1) as nat);
                        lemma_small_mod(0nat, m as nat);
                    }
                }
                assert(coeff_at(scaled, k) == (a[0] * coeff_at(b, k)) % m) by {
                    if k >= b.len() {
                        assert(coeff_at(b, k) == 0);
                        lemma_small_mod(0nat, m as nat);
                    }
                }
                assert(coeff_at(shifted, k) == conv_at(ta, b, k - 1) % m) by {
                    if k == 0 {
                        assert(conv_at(ta, b, -1) == 0);
                        lemma_small_mod(0nat, m as nat);
                    } else if k >= shifted.len() {
                        lemma_conv_prefix_zero(ta, b, k - 1, k as nat);
                        lemma_small_mod(0nat, m as nat);
                    }
                }
                assert(((a[0] * coeff_at(b, k)) % m + conv_at(ta, b, k - 1) % m) % m == (a[0]
                    * coeff_at(b, k) + conv_at(ta, b, k - 1)) % m) by {
                    lemma_add_mod_noop(a[0] * coeff_at(b, k), conv_at(ta, b, k - 1), m);
                }
            }
        }
        lemma_eval_add_pointwise(u, scaled, shifted, x, m);
        lemma_eval_scale(b, a[0], x, m);
        assert(scaled == Seq::new(b.len(), |k: int| (a[0] * coeff_at(b, k)) % m));
        // evaluation of the shifted product
        let ep = poly_eval(prod_seq(ta, b, m), x, m);
        assert(poly_eval(shifted, x, m) == (0 + x * ep) % m) by {
            assert(shifted.len() >= 1);
            assert(shifted[0] == 0);
            assert(shifted.subrange(1, shifted.len() as int) =~= prod_seq(ta, b, m));
        }
        let eb = poly_eval(b, x, m);
        let eta = poly_eval(ta, x, m);
        assert(poly_eval(u, x, m) == ((a[0] * eb) % m + (x * ((eta * eb) % m)) % m) % m);
        assert(((a[0] * eb) % m + (x * ((eta * eb) % m)) % m) % m == (a[0] * eb + x * (eta * eb))
            % m) by {
            lemma_add_mod_noop(a[0] * eb, x * ((eta * eb) % m), m);
            lemma_mul_mod_noop_right(x, eta * eb, m);
            lemma_add_mod_noop_right(a[0] * eb, x * ((eta * eb) % m), m);
            lemma_add_mod_noop_right(a[0] * eb, x * (eta * eb), m);
        }
        assert(a[0] * eb + x * (eta * eb) == (a[0] + x * eta) * eb) by {
            lemma_mul_is_associative(x, eta, eb);
            lemma_mul_is_distributive_add_other_way(eb, a[0], x * eta);
        }
        assert(((a[0] + x * eta) * eb) % m == (((a[0] + x * eta) % m) * eb) % m) by {
            vstd::arithmetic::div_mod::lemma_mul_mod_noop_left(a[0] + x * eta, eb, m);
        }
        assert(poly_eval(a, x, m) == (a[0] + x * eta) % m);
    }
}

/// Evaluation of a product, stated for any result sequence with the right
/// coefficients.
pub proof fn lemma_eval_mul_pointwise(r: Seq<int>, a: Seq<int>, b: Seq<int>, x: int, m: int)
    requires
        m >= 1,
        forall|k: int| #[trigger] coeff_at(r, k) == mul_coeff(a, b, k, m),
    ensures
        poly_eval(r, x, m) == (poly_eval(a, x, m) * poly_eval(b, x, m)) % m,
{
    assert forall|k: int| #[trigger] coeff_at(r, k) == coeff_at(prod_seq(a, b, m), k) by {
        if !(0 <= k < prod_seq(a, b, m).len()) {
            lemma_conv_prefix_zero(a, b, k, (k + 1) as nat);
            lemma_small_mod(0nat, m as nat);
        }
    }
    lemma_eval_same_poly(r, prod_seq(a, b, m), x, m);
    lemma_eval_prod_seq(a, b, x, m);
}

/// Multiplying two residues by the same invertible element gives congruent
/// products only for congruent residues.
proof fn lemma_cancel_invertible<O: FieldOrder>(x: int, y: int, dl: int)
    requires
        FieldElement::<O>::invertible(dl),
        (x * dl) % (O::spec_order() as int) == (y * dl) % (O::spec_order() as int),
    ensures
        x % (O::spec_order() as int) == y % (O::spec_order() as int),
{
    let m = O::spec_order() as int;
    O::order_positive();
    let iv = vstd::arithmetic::power::pow(dl, (O::spec_order() - 2) as nat) % m;
    assert((dl * iv) % m == 1);
    assert forall|z: int| true implies #[trigger] ((z * dl) % m * iv) % m == (z * ((dl * iv)
        % m)) % m by {
        vstd::arithmetic::div_mod::lemma_mul_mod_noop_general(z * dl, iv, m);
        lemma_mul_is_associative(z, dl, iv);
        lemma_mul_mod_noop_right(z, dl * iv, m);
    }
    assert(((x * dl) % m * iv) % m == (x * ((dl * iv) % m)) % m);
    assert(((y * dl) % m * iv) % m == (y * ((dl * iv) % m)) % m);
    assert((x * ((dl * iv) % m)) % m == x % m) by {
        lemma_mul_mod_noop_right(x, 1int, m);
        vstd::arithmetic::mul::lemma_mul_basics_3(x);
        lemma_mod_twice(x, m);
    }
    assert((y * ((dl * iv) % m)) % m == y % m) by {
        lemma_mul_mod_noop_right(y, 1int, m);
        vstd::arithmetic::mul::lemma_mul_basics_3(y);
        lemma_mod_twice(y, m);
    }
}

/// The difference of two convolutions against `d` whose first sequences
/// are congruent above index `k`, and meet only zero coefficients of `d`
/// below `k`, reduces to the single pair of terms at `k`.
proof fn lemma_conv_difference(q1: Seq<int>, q2: Seq<int>, d: Seq<int>, k: int, i: int, j: nat, m: int)
    requires
        m >= 1,
        forall|a: int| a > k ==> #[trigger] coeff_at(q1, a) % m == coeff_at(q2, a) % m,
        forall|a: int| 0 <= a < k ==> #[trigger] coeff_at(d, i - a) == 0,
    ensures
        (conv_prefix(q1, d, i, j) - conv_prefix(q2, d, i, j)) % m == if 0 <= k < j {
            ((coeff_at(q1, k) - coeff_at(q2, k)) * coeff_at(d, i - k)) % m
        } else {
            0
        },
    decreases j,
{
    if j == 0 {
        lemma_small_mod(0nat, m as nat);
    } else {
        lemma_conv_difference(q1, q2, d, k, i, (j - 1) as nat, m);
        let t = j - 1;
        let s1 = conv_prefix(q1, d, i, (j - 1) as nat);
        let s2 = conv_prefix(q2, d, i, (j - 1) as nat);
        let a1 = coeff_at(q1, t);
        let a2 = coeff_at(q2, t);
        let c = coeff_at(d, i - t);
        assert(conv_prefix(q1, d, i, j) == s1 + a1 * c);
        assert(conv_prefix(q2, d, i, j) == s2 + a2 * c);
        if 0 <= t < k {
            assert(c == 0);
            vstd::arithmetic::mul::lemma_mul_by_zero_is_zero(a1);
            vstd::arithmetic::mul::lemma_mul_by_zero_is_zero(a2);
        } else if t == k {
            // before this term the difference reduces to zero
            assert((s1 - s2) % m == 0);
            assert((s1 + a1 * c) - (s2 + a2 * c) == (s1 - s2) + (a1 - a2) * c) by {
                vstd::arithmetic::mul::lemma_mul_is_distributive_sub_other_way(c, a1, a2);
            }
            assert(((s1 - s2) + (a1 - a2) * c) % m == ((a1 - a2) * c) % m) by {
                lemma_add_mod_noop((s1 - s2), (a1 - a2) * c, m);
                lemma_small_mod(0nat, m as nat);
                lemma_mod_twice((a1 - a2) * c, m);
                lemma_add_mod_noop_right(0, (a1 - a2) * c, m);
            }
        } else {
            // t > k: the two new terms are congruent and cancel
            assert(a1 % m == a2 % m);
            assert((a1 * c) % m == (a2 * c) % m) by {
                vstd::arithmetic::div_mod::lemma_mul_mod_noop_left(a1, c, m);
                vstd::arithmetic::div_mod::lemma_mul_mod_noop_left(a2, c, m);
            }
            assert((a1 * c - a2 * c) % m == 0) by {
                vstd::arithmetic::div_mod::lemma_sub_mod_noop(a1 * c, a2 * c, m);
                assert((a1 * c) % m - (a2 * c) % m == 0);
                lemma_small_mod(0nat, m as nat);
            }
            assert((s1 + a1 * c) - (s2 + a2 * c) == (s1 - s2) + (a1 * c - a2 * c));
            assert(((s1 - s2) + (a1 * c - a2 * c)) % m == (s1 - s2) % m) by {
                lemma_add_mod_noop_right(s1 - s2, a1 * c - a2 * c, m);
                lemma_add_mod_noop(s1 - s2, a1 * c - a2 * c, m);
                lemma_mod_twice(s1 - s2, m);
            }
        }
    }
}

/// Quotient coefficients of two divisions of the same polynomial by the
/// same divisor are congruent from index `k` on.
proof fn lemma_quotients_congruent<O: FieldOrder>(
    p: Seq<int>,
    q1: Seq<int>,
    r1: Seq<int>,
    q2: Seq<int>,
    r2: Seq<int>,
    d: Seq<int>,
    k: int,
)
    requires
        k >= 0,
        d.len() >= 1,
        is_normalized(d),
        all_reduced(d, O::spec_order() as int),
        FieldElement::<O>::invertible(d[d.len() - 1]),
        r1.len() < d.len(),
        r2.len() < d.len(),
        forall|i: int| #[trigger] coeff_at(p, i) == (mul_coeff(q1, d, i, O::spec_order() as int)
            + coeff_at(r1, i)) % (O::spec_order() as int),
        forall|i: int| #[trigger] coeff_at(p, i) == (mul_coeff(q2, d, i, O::spec_order() as int)
            + coeff_at(r2, i)) % (O::spec_order() as int),
    ensures
        forall|a: int| a >= k ==> #[trigger] coeff_at(q1, a) % (O::spec_order() as int)
            == coeff_at(q2, a) % (O::spec_order() as int),
    decreases (if k < q1.len() + q2.len() {
        q1.len() + q2.len() - k
    } else {
        0
    }),
{
    let m = O::spec_order() as int;
    O::order_positive();
    let bound = q1.len() + q2.len();
    if k >= bound {
        assert forall|a: int| a >= k implies #[trigger] coeff_at(q1, a) % m == coeff_at(q2, a)
            % m by {
            assert(coeff_at(q1, a) == 0);
            assert(coeff_at(q2, a) == 0);
        }
    } else {
        lemma_quotients_congruent::<O>(p, q1, r1, q2, r2, d, k + 1);
        let i = k + d.len() - 1;
        let dl = d[d.len() - 1];
        // at this index both remainders read as zero
        assert(coeff_at(r1, i) == 0);
        assert(coeff_at(r2, i) == 0);
        assert(coeff_at(p, i) == (mul_coeff(q1, d, i, m) + 0) % m);
        assert(coeff_at(p, i) == (mul_coeff(q2, d, i, m) + 0) % m);
        assert(mul_coeff(q1, d, i, m) == mul_coeff(q2, d, i, m)) by {
            lemma_mod_twice(conv_at(q1, d, i), m);
            lemma_mod_twice(conv_at(q2, d, i), m);
        }
        assert forall|a: int| 0 <= a < k implies #[trigger] coeff_at(d, i - a) == 0 by {
            assert(i - a > d.len() - 1);
        }
        lemma_conv_difference(q1, q2, d, k, i, (i + 1) as nat, m);
        assert(0 <= k < i + 1);
        assert(coeff_at(d, i - k) == dl);
        assert((conv_at(q1, d, i) - conv_at(q2, d, i)) % m == ((coeff_at(q1, k) - coeff_at(
            q2,
            k,
        )) * dl) % m);
        assert((conv_at(q1, d, i) - conv_at(q2, d, i)) % m == 0) by {
            vstd::arithmetic::div_mod::lemma_sub_mod_noop(conv_at(q1, d, i), conv_at(q2, d, i), m);
            assert(conv_at(q1, d, i) % m == conv_at(q2, d, i) % m);
            lemma_small_mod(0nat, m as nat);
        }
        assert((coeff_at(q1, k) * dl) % m == (coeff_at(q2, k) * dl) % m) by {
            assert((coeff_at(q1, k) - coeff_at(q2, k)) * dl == coeff_at(q1, k) * dl - coeff_at(
                q2,
                k,
            ) * dl) by {
                vstd::arithmetic::mul::lemma_mul_is_distributive_sub_other_way(
                    dl,
                    coeff_at(q1, k),
                    coeff_at(q2, k),
                );
            }
            vstd::arithmetic::div_mod::lemma_sub_mod_noop(coeff_at(q1, k) * dl, coeff_at(q2, k) * dl, m);
            let u = (coeff_at(q1, k) * dl) % m;
            let v = (coeff_at(q2, k) * dl) % m;
            assert((u - v) % m == 0);
            if u != v {
                if u > v {
                    lemma_small_mod((u - v) as nat, m as nat);
                } else {
                    vstd::arithmetic::div_mod::lemma_mod_add_multiples_vanish(u - v, m);
                    lemma_small_mod((u - v + m) as nat, m as nat);
                }
            }
        }
        lemma_cancel_invertible::<O>(coeff_at(q1, k), coeff_at(q2, k), dl);
    }
}

/// The law: the remainder of polynomial division by a divisor with an
/// invertible leading coefficient is unique. Any two quotient-remainder
/// decompositions of the same polynomial have equal remainders.
pub proof fn lemma_remainder_unique<O: FieldOrder>(
    p: Seq<int>,
    q1: Seq<int>,
    r1: Seq<int>,
    q2: Seq<int>,
    r2: Seq<int>,
    d: Seq<int>,
)
    requires
        d.len() >= 1,
        is_normalized(d),
        all_reduced(d, O::spec_order() as int),
        FieldElement::<O>::invertible(d[d.len() - 1]),
        r1.len() < d.len(),
        r2.len() < d.len(),
        is_normalized(r1),
        is_normalized(r2),
        all_reduced(r1, O::spec_order() as int),
        all_reduced(r2, O::spec_order() as int),
        forall|i: int| #[trigger] coeff_at(p, i) == (mul_coeff(q1, d, i, O::spec_order() as int)
            + coeff_at(r1, i)) % (O::spec_order() as int),
        forall|i: int| #[trigger] coeff_at(p, i) == (mul_coeff(q2, d, i, O::spec_order() as int)
            + coeff_at(r2, i)) % (O::spec_order() as int),
    ensures
        r1 == r2,
{
    let m = O::spec_order() as int;
    O::order_positive();
    lemma_quotients_congruent::<O>(p, q1, r1, q2, r2, d, 0);
    assert forall|a: int| true implies #[trigger] coeff_at(q1, a) % m == coeff_at(q2, a) % m by {
        if a < 0 {
            assert(coeff_at(q1, a) == 0);
            assert(coeff_at(q2, a) == 0);
        }
    }
    assert forall|i: int| true implies #[trigger] coeff_at(r1, i) == coeff_at(r2, i) by {
        // the convolutions agree everywhere, so the remainders do too
        assert(mul_coeff(q1, d, i, m) == mul_coeff(q2, d, i, m)) by {
            lemma_conv_difference(q1, q2, d, -1, i, (i + 1) as nat, m);
            assert((conv_at(q1, d, i) - conv_at(q2, d, i)) % m == 0);
            vstd::arithmetic::div_mod::lemma_sub_mod_noop(conv_at(q1, d, i), conv_at(q2, d, i), m);
            let u = conv_at(q1, d, i) % m;
            let v = conv_at(q2, d, i) % m;
            assert((u - v) % m == 0);
            if u != v {
                if u > v {
                    lemma_small_mod((u - v) as nat, m as nat);
                } else {
                    vstd::arithmetic::div_mod::lemma_mod_add_multiples_vanish(u - v, m);
                    lemma_small_mod((u - v + m) as nat, m as nat);
                }
            }
        }
        let a = mul_coeff(q1, d, i, m);
        let x = coeff_at(r1, i);
        let y = coeff_at(r2, i);
        assert(coeff_at(p, i) == (mul_coeff(q1, d, i, m) + coeff_at(r1, i)) % m);
        assert(coeff_at(p, i) == (mul_coeff(q2, d, i, m) + coeff_at(r2, i)) % m);
        assert((a + x) % m == (a + y) % m);
        assert((x - y) % m == 0) by {
            lemma_add_mod_noop(a, x, m);
            lemma_add_mod_noop(a, y, m);
            vstd::arithmetic::div_mod::lemma_sub_mod_noop(a + x, a + y, m);
            lemma_small_mod(0nat, m as nat);
            assert((a + x) - (a + y) == x - y);
            assert((x - y) % m == ((a + x) - (a + y)) % m);
            assert(((a + x) - (a + y)) % m == ((a + x) % m - (a + y) % m) % m);
            lemma_small_mod(0nat, m as nat);
        }
        assert(0 <= x < m);
        assert(0 <= y < m);
        if x != y {
            if x > y {
                lemma_small_mod((x - y) as nat, m as nat);
            } else {
                vstd::arithmetic::div_mod::lemma_mod_add_multiples_vanish(x - y, m);
                lemma_small_mod((x - y + m) as nat, m as nat);
            }
        }
    }
    lemma_same_poly_canonical(r1, r2);
}

/// A univariate polynomial over the prime field of order `O`, in canonical
/// form.
#[derive(Debug, Eq)]
pub struct Polynomial<O: FieldOrder> {
    coefficients: Vec<FieldElement<O>>,
}

impl<O: FieldOrder> View for Polynomial<O> {
    type V = Seq<int>;

    closed spec fn view(&self) -> Seq<int> {
        seq_views(self.coefficients@)
    }
}

impl<O: FieldOrder> Clone for Polynomial<O> {
    fn clone(&self) -> (r: Self)
        ensures
            r@ == self@,
    {
        proof {
            use_type_invariant(self);
        }
        let mut coefficients: Vec<FieldElement<O>> = Vec::new();
        let mut i: usize = 0;
        while i < self.coefficients.len()
            invariant
                i <= self.coefficients@.len(),
                coefficients@ == self.coefficients@.subrange(0, i as int),
            decreases self.coefficients@.len() - i,
        {
            coefficients.push(self.coefficients[i]);
            proof {
                assert(coefficients@ =~= self.coefficients@.subrange(0, i + 1));
            }
            i += 1;
        }
        proof {
            assert(coefficients@ =~= self.coefficients@);
        }
        Self { coefficients }
    }
}

impl<O: FieldOrder> PartialEq for Polynomial<O> {
    fn eq(&self, other: &Self) -> bool {
        if self.coefficients.len() != other.coefficients.len() {
            proof {
                assert(self@.len() != other@.len());
            }
            return false;
        }
        let mut i: usize = 0;
        let mut equal = true;
        while i < self.coefficients.len()
            invariant
                i <= self.coefficients@.len(),
                self.coefficients@.len() == other.coefficients@.len(),
                equal == (forall|j: int|
                    0 <= j < i ==> #[trigger] self.coefficients@[j]@ == other.coefficients@[j]@),
            decreases self.coefficients@.len() - i,
        {
            if !(self.coefficients[i] == other.coefficients[i]) {
                equal = false;
            }
            i += 1;
        }
        proof {
            if equal {
                assert(self@ =~= other@);
            } else {
                assert(exists|j: int|
                    0 <= j < self.coefficients@.len() && #[trigger] self.coefficients@[j]@
                        != other.coefficients@[j]@);
                let j = choose|j: int|
                    0 <= j < self.coefficients@.len() && #[trigger] self.coefficients@[j]@
                        != other.coefficients@[j]@;
                assert(self@[j] != other@[j]);
            }
        }
        equal
    }
}

impl<O: FieldOrder> vstd::std_specs::cmp::PartialEqSpecImpl for Polynomial<O> {
    open spec fn obeys_eq_spec() -> bool {
        true
    }

    open spec fn eq_spec(&self, other: &Self) -> bool {
        self@ == other@
    }
}

/// States, for a vector of field elements, that every view is a canonical
/// residue; established from the elements' own invariants.
fn observe_reduced<O: FieldOrder>(v: &Vec<FieldElement<O>>)
    ensures
        all_reduced(seq_views(v@), O::spec_order() as int),
{
    let mut i: usize = 0;
    while i < v.len()
        invariant
            i <= v@.len(),
            forall|j: int| 0 <= j < i ==> 0 <= #[trigger] seq_views(v@)[j] < O::spec_order() as int,
        decreases v@.len() - i,
    {
        let c = v[i];
        proof {
            use_type_invariant(c);
            assert(seq_views(v@)[i as int] == c@);
        }
        i += 1;
    }
}

/// States, for a slice of field elements, that every view is a canonical
/// residue; established from the elements' own invariants.
fn observe_reduced_slice<O: FieldOrder>(v: &[FieldElement<O>])
    ensures
        forall|j: int| 0 <= j < v@.len() ==> 0 <= #[trigger] v@[j]@ < O::spec_order() as int,
{
    let mut i: usize = 0;
    while i < v.len()
        invariant
            i <= v@.len(),
            forall|j: int| 0 <= j < i ==> 0 <= #[trigger] v@[j]@ < O::spec_order() as int,
        decreases v@.len() - i,
    {
        let c = v[i];
        proof {
            use_type_invariant(c);
        }
        i += 1;
    }
}

impl<O: FieldOrder> Polynomial<O> {
    /// A polynomial is stored in canonical form, with every coefficient
    /// reduced.
    #[verifier::type_invariant]
    pub open spec fn canonical(self) -> bool {
        is_normalized(self@) && all_reduced(self@, O::spec_order() as int)
    }

    /// The order of the coefficient field, visible to specifications.
    pub open spec fn order_spec() -> int {
        O::spec_order() as int
    }

    /// Creates a new polynomial with the given coefficients, dropping
    /// trailing zero coefficients.
    pub fn new(coefficients: Vec<FieldElement<O>>) -> (r: Self)
        ensures
            same_poly(r@, seq_views(coefficients@)),
            r@.len() <= coefficients@.len(),
    {
        observe_reduced(&coefficients);
        let mut coefficients = coefficients;
        let ghost orig = seq_views(coefficients@);
        while coefficients.len() > 0 && coefficients[coefficients.len() - 1].representative() == 0
            invariant
                coefficients@.len() <= orig.len(),
                forall|i: int| #[trigger] coeff_at(seq_views(coefficients@), i) == coeff_at(
                    orig,
                    i,
                ),
                all_reduced(seq_views(coefficients@), O::spec_order() as int),
            decreases coefficients@.len(),
        {
            let ghost before = seq_views(coefficients@);
            let popped = coefficients.pop();
            proof {
                assert(seq_views(coefficients@) =~= before.subrange(0, before.len() - 1));
                assert(coeff_at(before, before.len() - 1) == 0);
                assert forall|i: int| #[trigger] coeff_at(seq_views(coefficients@), i) == coeff_at(
                    orig,
                    i,
                ) by {
                    if 0 <= i < seq_views(coefficients@).len() {
                        assert(coeff_at(seq_views(coefficients@), i) == coeff_at(before, i));
                    } else {
                        assert(coeff_at(seq_views(coefficients@), i) == 0);
                        assert(coeff_at(before, i) == 0);
                    }
                }
            }
        }
        Self { coefficients }
    }

    /// The monomial `coefficient * X^degree`.
    pub fn new_monomial(coefficient: FieldElement<O>, degree: usize) -> (r: Self)
        ensures
            forall|i: int| #[trigger] coeff_at(r@, i) == if i == degree {
                coefficient@
            } else {
                0
            },
            r@.len() <= degree + 1,
    {
        let mut coefficients: Vec<FieldElement<O>> = Vec::new();
        let mut i: usize = 0;
        while i < degree
            invariant
                i <= degree,
                seq_views(coefficients@).len() == i,
                forall|j: int| 0 <= j < i ==> #[trigger] seq_views(coefficients@)[j] == 0,
            decreases degree - i,
        {
            let ghost before = seq_views(coefficients@);
            let z = FieldElement::<O>::zero();
            coefficients.push(z);
            proof {
                assert(seq_views(coefficients@) =~= before.push(0));
            }
            i += 1;
        }
        let ghost before = seq_views(coefficients@);
        coefficients.push(coefficient);
        proof {
            assert(seq_views(coefficients@) =~= before.push(coefficient@));
        }
        let ghost built = seq_views(coefficients@);
        let r = Self::new(coefficients);
        proof {
            assert(forall|i: int| 0 <= i < degree ==> #[trigger] coeff_at(built, i) == 0);
            assert(coeff_at(built, degree as int) == coefficient@);
        }
        r
    }

    /// The zero polynomial.
    pub fn zero() -> (r: Self)
        ensures
            r@.len() == 0,
    {
        Self { coefficients: Vec::new() }
    }

    /// The coefficients of the polynomial, in ascending order of degree.
    pub fn coefficients(&self) -> (r: &Vec<FieldElement<O>>)
        ensures
            seq_views(r@) == self@,
    {
        &self.coefficients
    }

    /// The degree of the polynomial, with the convention that constants,
    /// including zero, have degree `0`.
    pub fn degree(&self) -> (r: usize)
        ensures
            r == if self@.len() == 0 {
                0int
            } else {
                self@.len() - 1
            },
    {
        if self.coefficients.len() == 0 {
            0
        } else {
            self.coefficients.len() - 1
        }
    }

    /// The leading coefficient, or zero for the zero polynomial.
    pub fn last_coefficient(&self) -> (r: FieldElement<O>)
        ensures
            r@ == if self@.len() == 0 {
                0int
            } else {
                self@[self@.len() - 1]
            },
    {
        if self.coefficients.len() == 0 {
            FieldElement::zero()
        } else {
            self.coefficients[self.coefficients.len() - 1]
        }
    }

    /// Evaluates the polynomial at `x` by Horner's rule.
    pub fn evaluate(&self, x: FieldElement<O>) -> (r: FieldElement<O>)
        ensures
            r@ == poly_eval(self@, x@, Self::order_spec()),
    {
        let ghost m = Self::order_spec();
        let mut acc = FieldElement::<O>::zero();
        let mut i: usize = self.coefficients.len();
        while i > 0
            invariant
                i <= self.coefficients@.len(),
                acc@ == poly_eval(self@.subrange(i as int, self@.len() as int), x@, m),
                m == Self::order_spec(),
            decreases i,
        {
            i -= 1;
            let ghost acc_old = acc@;
            acc = acc.mul(x).add(self.coefficients[i]);
            proof {
                let suffix = self@.subrange(i as int, self@.len() as int);
                assert(suffix.subrange(1, suffix.len() as int) =~= self@.subrange(
                    i + 1,
                    self@.len() as int,
                ));
                O::order_positive();
                lemma_mul_is_commutative(acc_old, x@);
                lemma_add_mod_noop_right(self@[i as int], x@ * acc_old, m);
                assert((self@[i as int] + ((x@ * acc_old) % m)) % m == (self@[i as int] + x@
                    * acc_old) % m);
                assert(acc@ == (suffix[0] + x@ * poly_eval(
                    suffix.subrange(1, suffix.len() as int),
                    x@,
                    m,
                )) % m);
            }
        }
        proof {
            assert(self@.subrange(0, self@.len() as int) =~= self@);
        }
        acc
    }

    /// Polynomial addition, coefficient-wise.
    pub fn add(&self, other: &Self) -> (r: Self)
        ensures
            forall|i: int| #[trigger] coeff_at(r@, i) == (coeff_at(self@, i) + coeff_at(
                other@,
                i,
            )) % Self::order_spec(),
            r@.len() <= self@.len() || r@.len() <= other@.len(),
    {
        let ghost m = Self::order_spec();
        proof {
            O::order_positive();
        }
        let la = self.coefficients.len();
        let lb = other.coefficients.len();
        let n = if la < lb {
            lb
        } else {
            la
        };
        let mut v: Vec<FieldElement<O>> = Vec::new();
        let mut k: usize = 0;
        while k < n
            invariant
                k <= n,
                n == if la < lb {
                    lb
                } else {
                    la
                },
                la == self@.len(),
                lb == other@.len(),
                seq_views(v@).len() == k,
                m == Self::order_spec(),
                forall|i: int| 0 <= i < k ==> #[trigger] seq_views(v@)[i] == (coeff_at(self@, i)
                    + coeff_at(other@, i)) % m,
            decreases n - k,
        {
            let a = if k < la {
                self.coefficients[k]
            } else {
                FieldElement::zero()
            };
            let b = if k < lb {
                other.coefficients[k]
            } else {
                FieldElement::zero()
            };
            let ghost before = seq_views(v@);
            let c = a.add(b);
            v.push(c);
            proof {
                assert(seq_views(v@) =~= before.push(c@));
                assert(a@ == coeff_at(self@, k as int));
                assert(b@ == coeff_at(other@, k as int));
            }
            k += 1;
        }
        let ghost built = seq_views(v@);
        let r = Self::new(v);
        proof {
            assert forall|i: int| #[trigger] coeff_at(r@, i) == (coeff_at(self@, i) + coeff_at(
                other@,
                i,
            )) % m by {
                if 0 <= i < built.len() {
                    assert(coeff_at(built, i) == built[i]);
                } else {
                    assert(coeff_at(built, i) == 0);
                    assert(coeff_at(self@, i) == 0);
                    assert(coeff_at(other@, i) == 0);
                    lemma_small_mod(0nat, m as nat);
                }
            }
        }
        r
    }

    /// The additive inverse, coefficient-wise.
    pub fn neg(&self) -> (r: Self)
        ensures
            forall|i: int| #[trigger] coeff_at(r@, i) == (Self::order_spec() - coeff_at(self@, i))
                % Self::order_spec(),
            r@.len() <= self@.len(),
    {
        let ghost m = Self::order_spec();
        proof {
            O::order_positive();
        }
        let mut v: Vec<FieldElement<O>> = Vec::new();
        let mut k: usize = 0;
        while k < self.coefficients.len()
            invariant
                k <= self@.len(),
                seq_views(v@).len() == k,
                m == Self::order_spec(),
                forall|i: int| 0 <= i < k ==> #[trigger] seq_views(v@)[i] == (m - coeff_at(
                    self@,
                    i,
                )) % m,
            decreases self@.len() - k,
        {
            let ghost before = seq_views(v@);
            let c = self.coefficients[k].neg();
            v.push(c);
            proof {
                assert(seq_views(v@) =~= before.push(c@));
            }
            k += 1;
        }
        let ghost built = seq_views(v@);
        let r = Self::new(v);
        proof {
            assert forall|i: int| #[trigger] coeff_at(r@, i) == (m - coeff_at(self@, i)) % m by {
                if 0 <= i < built.len() {
                } else {
                    assert(coeff_at(self@, i) == 0);
                    vstd::arithmetic::div_mod::lemma_mod_self_0(m);
                }
            }
        }
        r
    }

    /// Polynomial subtraction, coefficient-wise.
    pub fn sub(&self, other: &Self) -> (r: Self)
        ensures
            forall|i: int| #[trigger] coeff_at(r@, i) == (coeff_at(self@, i) - coeff_at(
                other@,
                i,
            )) % Self::order_spec(),
            r@.len() <= self@.len() || r@.len() <= other@.len(),
    {
        let ghost m = Self::order_spec();
        proof {
            O::order_positive();
        }
        let negated = other.neg();
        let r = self.add(&negated);
        proof {
            assert forall|i: int| #[trigger] coeff_at(r@, i) == (coeff_at(self@, i) - coeff_at(
                other@,
                i,
            )) % m by {
                let a = coeff_at(self@, i);
                let b = coeff_at(other@, i);
                assert(coeff_at(negated@, i) == (m - b) % m);
                lemma_add_mod_noop_right(a, m - b, m);
                vstd::arithmetic::div_mod::lemma_mod_add_multiples_vanish(a - b, m);
            }
        }
        r
    }

    /// Polynomial multiplication by schoolbook convolution.
    pub fn mul_with_ref(&self, factor: &Self) -> (r: Self)
        requires
            self@.len() + factor@.len() <= usize::MAX,
        ensures
            forall|k: int| #[trigger] coeff_at(r@, k) == mul_coeff(self@, factor@, k,
                Self::order_spec()),
            r@.len() <= prod_len(self@, factor@),
    {
        let ghost m = Self::order_spec();
        proof {
            O::order_positive();
        }
        let la = self.coefficients.len();
        let lb = factor.coefficients.len();
        if la == 0 || lb == 0 {
            let r = Self::zero();
            proof {
                assert forall|k: int| #[trigger] coeff_at(r@, k) == mul_coeff(self@, factor@, k, m)
                    by {
                    lemma_conv_prefix_zero(self@, factor@, k, (k + 1) as nat);
                    lemma_small_mod(0nat, m as nat);
                }
            }
            return r;
        }
        let n = (la - 1) + lb;
        let mut v: Vec<FieldElement<O>> = Vec::new();
        let mut k: usize = 0;
        while k < n
            invariant
                k <= n,
                n == la + lb - 1,
                la == self@.len(),
                lb == factor@.len(),
                la >= 1,
                lb >= 1,
                seq_views(v@).len() == k,
                m == Self::order_spec(),
                m >= 2,
                forall|i: int| 0 <= i < k ==> #[trigger] seq_views(v@)[i] == mul_coeff(
                    self@,
                    factor@,
                    i,
                    m,
                ),
            decreases n - k,
        {
            let mut acc = FieldElement::<O>::zero();
            let mut t: usize = 0;
            proof {
                lemma_small_mod(0nat, m as nat);
            }
            while t < la
                invariant
                    t <= la,
                    k < n,
                    n == la + lb - 1,
                    la == self@.len(),
                    lb == factor@.len(),
                    m == Self::order_spec(),
                    m >= 2,
                    acc@ == conv_prefix(self@, factor@, k as int, t as nat) % m,
                decreases la - t,
            {
                let ghost acc_old = acc@;
                if t <= k && k - t < lb {
                    let term = self.coefficients[t].mul(factor.coefficients[k - t]);
                    acc = acc.add(term);
                    proof {
                        let p = coeff_at(self@, t as int) * coeff_at(factor@, k - t);
                        assert(term@ == p % m);
                        lemma_add_mod_noop_right(
                            conv_prefix(self@, factor@, k as int, t as nat),
                            p,
                            m,
                        );
                        lemma_mod_twice(conv_prefix(self@, factor@, k as int, t as nat), m);
                        assert((acc_old + term@) % m == (conv_prefix(
                            self@,
                            factor@,
                            k as int,
                            t as nat,
                        ) + p) % m) by {
                            lemma_add_mod_noop(
                                conv_prefix(self@, factor@, k as int, t as nat),
                                p,
                                m,
                            );
                        }
                    }
                } else {
                    proof {
                        assert(coeff_at(self@, t as int) * coeff_at(factor@, k - t) == 0) by {
                            if t > k {
                                assert(coeff_at(factor@, k - t) == 0);
                            } else {
                                assert(coeff_at(factor@, k - t) == 0);
                            }
                        }
                    }
                }
                t += 1;
            }
            proof {
                if la <= k {
                    lemma_conv_prefix_stable(self@, factor@, k as int, la as nat, (k + 1) as nat);
                } else {
                    lemma_conv_prefix_stable(self@, factor@, k as int, (k + 1) as nat, la as nat);
                }
                assert(acc@ == mul_coeff(self@, factor@, k as int, m));
            }
            let ghost before = seq_views(v@);
            v.push(acc);
            proof {
                assert(seq_views(v@) =~= before.push(acc@));
            }
            k += 1;
        }
        let ghost built = seq_views(v@);
        let r = Self::new(v);
        proof {
            assert forall|i: int| #[trigger] coeff_at(r@, i) == mul_coeff(self@, factor@, i, m)
                by {
                if 0 <= i < built.len() {
                } else {
                    assert(coeff_at(built, i) == 0);
                    lemma_conv_prefix_zero(self@, factor@, i, (i + 1) as nat);
                    lemma_small_mod(0nat, m as nat);
                }
            }
        }
        r
    }

    /// Lagrange interpolation: the unique polynomial of degree below the
    /// number of nodes that passes through all points `(xs[i], ys[i])`.
    ///
    /// Repeated nodes are rejected. The same error is reported in the case,
    /// impossible for a prime field order, that the check inside a field
    /// inversion fails.
    pub fn interpolate(xs: &[FieldElement<O>], ys: &[FieldElement<O>]) -> (r: Result<
        Self,
        InterpolationError,
    >)
        requires
            xs@.len() == ys@.len(),
            xs@.len() + 2 <= usize::MAX,
        ensures
            r is Ok <==> nodes_invertible::<O>(seq_views(xs@)),
            r matches Ok(p) ==> forall|i: int| 0 <= i < xs@.len() ==> poly_eval(
                p@,
                xs@[i]@,
                Self::order_spec(),
            ) == #[trigger] ys@[i]@,
            r is Ok ==> forall|i: int, j: int|
                #![trigger xs@[i], xs@[j]]
                0 <= i < xs@.len() && 0 <= j < xs@.len() && i != j ==> xs@[i]@ != xs@[j]@,
            r matches Err(e) ==> e == InterpolationError::NonDistinctInterpolationNodes,
            r matches Ok(p) ==> p@.len() <= xs@.len(),
    {
        let ghost m = Self::order_spec();
        proof {
            O::order_positive();
        }
        let n = xs.len();
        observe_reduced_slice(ys);
        observe_reduced_slice(xs);
        let mut result = Self::zero();
        let mut i: usize = 0;
        while i < n
            invariant
                m == Self::order_spec(),
                m >= 2,
                n == xs@.len(),
                n == ys@.len(),
                forall|j: int| 0 <= j < n ==> 0 <= #[trigger] ys@[j]@ < m,
                n + 2 <= usize::MAX,
                i <= n,
                result@.len() <= n,
                forall|j: int| 0 <= j < n ==> 0 <= #[trigger] xs@[j]@ < m,
                forall|j: int| 0 <= j < i ==> poly_eval(result@, xs@[j]@, m) == #[trigger] ys@[j]@,
                forall|j: int| i <= j < n ==> poly_eval(result@, #[trigger] xs@[j]@, m) == 0,
                forall|i2: int, j2: int|
                    #![trigger xs@[i2], xs@[j2]]
                    0 <= i2 < i && 0 <= j2 < n && i2 != j2 ==> xs@[i2]@ != xs@[j2]@
                        && FieldElement::<O>::invertible((xs@[i2]@ - xs@[j2]@) % m),
            decreases n - i,
        {
            let yi = ys[i];
            proof {
                use_type_invariant(yi);
            }
            let mut term_coeffs: Vec<FieldElement<O>> = Vec::new();
            term_coeffs.push(yi);
            let ghost tc = seq_views(term_coeffs@);
            let mut y_term = Self::new(term_coeffs);
            proof {
                assert(tc =~= seq![yi@]);
                assert forall|x: int| #![trigger poly_eval(y_term@, x, m)] poly_eval(
                    y_term@,
                    x,
                    m,
                ) == yi@ by {
                    lemma_eval_same_poly(y_term@, tc, x, m);
                    assert(tc.subrange(1, 1) =~= Seq::<int>::empty());
                    assert(poly_eval(Seq::<int>::empty(), x, m) == 0);
                    assert(poly_eval(tc, x, m) == (tc[0] + x * poly_eval(
                        tc.subrange(1, 1),
                        x,
                        m,
                    )) % m);
                    assert(poly_eval(tc, x, m) == (yi@ + x * 0) % m);
                    lemma_small_mod(yi@ as nat, m as nat);
                }
            }
            let mut j: usize = 0;
            while j < n
                invariant
                    m == Self::order_spec(),
                    m >= 2,
                    n == xs@.len(),
                    n == ys@.len(),
                    n + 2 <= usize::MAX,
                    i < n,
                    j <= n,
                    yi == ys@[i as int],
                    j <= i ==> y_term@.len() <= j + 1,
                    j > i ==> y_term@.len() <= j,
                    forall|t: int| 0 <= t < n ==> 0 <= #[trigger] xs@[t]@ < m,
                    poly_eval(y_term@, xs@[i as int]@, m) == yi@,
                    forall|t: int|
                        0 <= t < j && t != i ==> poly_eval(y_term@, #[trigger] xs@[t]@, m) == 0,
                    forall|t: int|
                        0 <= t < j && t != i ==> xs@[i as int]@ != #[trigger] xs@[t]@
                            && FieldElement::<O>::invertible((xs@[i as int]@ - xs@[t]@) % m),
                decreases n - j,
            {
                if j != i {
                    let xi = xs[i];
                    let xj = xs[j];
                    proof {
                        use_type_invariant(xi);
                        use_type_invariant(xj);
                    }
                    let diff = xi.sub(xj);
                    let dinv = match diff.inv() {
                        Ok(v) => v,
                        Err(_) => {
                            proof {
                                let sv = seq_views(xs@);
                                assert(sv[i as int] == xs@[i as int]@);
                                assert(sv[j as int] == xs@[j as int]@);
                                assert(!FieldElement::<O>::invertible(
                                    (sv[i as int] - sv[j as int]) % (O::spec_order() as int),
                                ));
                            }
                            return Err(InterpolationError::NonDistinctInterpolationNodes);
                        },
                    };
                    proof {
                        use_type_invariant(dinv);
                        // inversion succeeded, so the difference is
                        // invertible, nonzero, and the two nodes differ
                        assert(FieldElement::<O>::invertible((xs@[i as int]@ - xs@[j as int]@)
                            % m));
                        assert(diff@ != 0);
                        assert(xi@ != xj@) by {
                            if xi@ == xj@ {
                                assert(diff@ == 0int % m);
                                lemma_small_mod(0nat, m as nat);
                            }
                        }
                    }
                    let mut factor_coeffs: Vec<FieldElement<O>> = Vec::new();
                    factor_coeffs.push(xj.neg().mul(dinv));
                    factor_coeffs.push(dinv);
                    let ghost fc = seq_views(factor_coeffs@);
                    let factor = Self::new(factor_coeffs);
                    let ghost f0 = ((m - xj@) % m * dinv@) % m;
                    proof {
                        assert(fc =~= seq![f0, dinv@]);
                    }
                    let ghost y_old = y_term@;
                    y_term = y_term.mul_with_ref(&factor);
                    proof {
                        // the factor evaluates to (x - xj) * dinv
                        assert forall|x: int| #![trigger poly_eval(factor@, x, m)] poly_eval(
                            factor@,
                            x,
                            m,
                        ) == ((x - xj@) * dinv@) % m by {
                            lemma_eval_same_poly(factor@, fc, x, m);
                            assert(fc.subrange(1, 2) =~= seq![dinv@]);
                            assert(seq![dinv@].subrange(1, 1) =~= Seq::<int>::empty());
                            assert(poly_eval(Seq::<int>::empty(), x, m) == 0);
                            assert(poly_eval(seq![dinv@], x, m) == (seq![dinv@][0] + x
                                * poly_eval(seq![dinv@].subrange(1, 1), x, m)) % m);
                            assert(poly_eval(seq![dinv@], x, m) == (dinv@ + x * 0) % m);
                            lemma_small_mod(dinv@ as nat, m as nat);
                            assert(poly_eval(fc, x, m) == (fc[0] + x * poly_eval(
                                fc.subrange(1, 2),
                                x,
                                m,
                            )) % m);
                            assert(poly_eval(fc, x, m) == (f0 + x * dinv@) % m);
                            // (f0 + x*dinv) == ((-xj + x) * dinv) mod m
                            assert((f0 + x * dinv@) % m == ((m - xj@) * dinv@ + x * dinv@) % m)
                                by {
                                vstd::arithmetic::div_mod::lemma_mul_mod_noop_left(
                                    m - xj@,
                                    dinv@,
                                    m,
                                );
                                lemma_add_mod_noop((m - xj@) % m * dinv@, x * dinv@, m);
                                lemma_add_mod_noop((m - xj@) * dinv@, x * dinv@, m);
                                lemma_mod_twice((m - xj@) % m * dinv@, m);
                                lemma_add_mod_noop_right(
                                    ((m - xj@) % m * dinv@) % m,
                                    x * dinv@,
                                    m,
                                );
                                lemma_add_mod_noop_right(
                                    ((m - xj@) * dinv@) % m,
                                    x * dinv@,
                                    m,
                                );
                            }
                            assert((m - xj@) * dinv@ + x * dinv@ == (m - xj@ + x) * dinv@) by {
                                lemma_mul_is_distributive_add_other_way(dinv@, m - xj@, x);
                            }
                            assert(((m - xj@ + x) * dinv@) % m == ((x - xj@) * dinv@) % m) by {
                                vstd::arithmetic::div_mod::lemma_mod_multiples_vanish(
                                    dinv@,
                                    (x - xj@) * dinv@,
                                    m,
                                );
                                lemma_mul_is_distributive_add_other_way(dinv@, x - xj@, m);
                                lemma_mul_is_commutative(m, dinv@);
                            }
                        }
                        // multiplying updates all tracked evaluations
                        assert forall|x: int| #![trigger poly_eval(y_term@, x, m)] poly_eval(
                            y_term@,
                            x,
                            m,
                        ) == (poly_eval(y_old, x, m) * poly_eval(factor@, x, m)) % m by {
                            lemma_eval_mul_pointwise(y_term@, y_old, factor@, x, m);
                        }
                        let xiv = xs@[i as int]@;
                        assert(poly_eval(factor@, xiv, m) == ((xiv - xj@) * dinv@) % m);
                        assert((diff@ * dinv@) % m == 1);
                        // at the node i the factor evaluates to one
                        assert(((xiv - xj@) * dinv@) % m == 1) by {
                            vstd::arithmetic::div_mod::lemma_mul_mod_noop_left(
                                xiv - xj@,
                                dinv@,
                                m,
                            );
                            vstd::arithmetic::div_mod::lemma_mul_mod_noop_left(diff@, dinv@, m);
                            lemma_mod_twice(xiv - xj@, m);
                        }
                        assert(poly_eval(y_term@, xiv, m) == (yi@ * 1) % m);
                        lemma_small_mod(yi@ as nat, m as nat);
                        // at the node j the factor evaluates to zero
                        let xjv = xs@[j as int]@;
                        assert(poly_eval(factor@, xjv, m) == ((xjv - xj@) * dinv@) % m);
                        assert(((xjv - xj@) * dinv@) % m == 0) by {
                            vstd::arithmetic::mul::lemma_mul_by_zero_is_zero(dinv@);
                            lemma_small_mod(0nat, m as nat);
                        }
                        assert(poly_eval(y_term@, xjv, m) == (poly_eval(y_old, xjv, m) * 0) % m);
                        lemma_small_mod(0nat, m as nat);
                        // earlier zeros are preserved
                        assert forall|t: int| 0 <= t < j && t != i implies poly_eval(
                            y_term@,
                            #[trigger] xs@[t]@,
                            m,
                        ) == 0 by {
                            assert(poly_eval(y_old, xs@[t]@, m) == 0);
                            assert(poly_eval(y_term@, xs@[t]@, m) == (0 * poly_eval(
                                factor@,
                                xs@[t]@,
                                m,
                            )) % m);
                            lemma_small_mod(0nat, m as nat);
                        }
                    }
                }
                j += 1;
            }
            let ghost result_old = result@;
            result = result.add(&y_term);
            proof {
                assert forall|x: int| #![trigger poly_eval(result@, x, m)] poly_eval(
                    result@,
                    x,
                    m,
                ) == (poly_eval(result_old, x, m) + poly_eval(y_term@, x, m)) % m by {
                    lemma_eval_add_pointwise(result@, result_old, y_term@, x, m);
                }
                assert forall|t: int| 0 <= t < i + 1 implies poly_eval(
                    result@,
                    xs@[t]@,
                    m,
                ) == #[trigger] ys@[t]@ by {
                    if t < i {
                        assert(poly_eval(result_old, xs@[t]@, m) == ys@[t]@);
                        assert(poly_eval(y_term@, xs@[t]@, m) == 0);
                        assert(0 <= ys@[t]@ < m);
                        lemma_small_mod(ys@[t]@ as nat, m as nat);
                    } else {
                        assert(poly_eval(result_old, xs@[t]@, m) == 0);
                        assert(poly_eval(y_term@, xs@[t]@, m) == yi@);
                        lemma_small_mod(yi@ as nat, m as nat);
                    }
                }
                assert forall|t: int| i + 1 <= t < n implies poly_eval(
                    result@,
                    #[trigger] xs@[t]@,
                    m,
                ) == 0 by {
                    assert(poly_eval(result_old, xs@[t]@, m) == 0);
                    assert(poly_eval(y_term@, xs@[t]@, m) == 0);
                    lemma_small_mod(0nat, m as nat);
                }
            }
            i += 1;
        }
        proof {
            let sv = seq_views(xs@);
            assert forall|i2: int, j2: int|
                #![trigger sv[i2], sv[j2]]
                0 <= i2 < sv.len() && 0 <= j2 < sv.len() && i2 != j2 implies FieldElement::<
                O,
            >::invertible((sv[i2] - sv[j2]) % (O::spec_order() as int)) by {
                assert(sv[i2] == xs@[i2]@);
                assert(sv[j2] == xs@[j2]@);
                assert(FieldElement::<O>::invertible((xs@[i2]@ - xs@[j2]@) % m));
            }
        }
        Ok(result)
    }

    /// Classical polynomial long division: for a nonzero divisor returns
    /// `(quotient, remainder)` with
    /// `self == quotient * divisor + remainder` and
    /// `degree(remainder) < degree(divisor)`.
    ///
    /// Division by the zero polynomial fails; so does division when the
    /// check inside the field inversion of the leading coefficient fails,
    /// which cannot happen for a prime field order.
    pub fn long_division_with_remainder(&self, divisor: &Self) -> (r: Result<
        (Self, Self),
        FieldElementError,
    >)
        requires
            self@.len() < usize::MAX,
        ensures
            r is Ok <==> (divisor@.len() > 0 && FieldElement::<O>::invertible(
                divisor@[divisor@.len() - 1],
            )),
            r matches Ok(qr) ==> forall|i: int| #[trigger] coeff_at(self@, i) == (mul_coeff(
                qr.0@,
                divisor@,
                i,
                Self::order_spec(),
            ) + coeff_at(qr.1@, i)) % Self::order_spec(),
            r matches Ok(qr) ==> qr.1@.len() < divisor@.len(),
            r matches Ok(qr) ==> qr.0@.len() + divisor@.len() <= self@.len() + 1 || qr.0@.len()
                == 0,
            r matches Ok(qr) ==> (self@.len() < divisor@.len() ==> qr.1@ == self@
                && qr.0@.len() == 0),
            r matches Err(e) ==> e == FieldElementError::DivisionByZero,
    {
        let ghost m = Self::order_spec();
        proof {
            O::order_positive();
            use_type_invariant(self);
            use_type_invariant(divisor);
        }
        let dd = divisor.coefficients.len();
        if dd == 0 {
            return Err(FieldElementError::DivisionByZero);
        }
        let dlast = divisor.last_coefficient();
        let dinv = match dlast.inv() {
            Ok(v) => v,
            Err(e) => {
                return Err(e);
            },
        };
        if self.coefficients.len() < dd {
            let quotient = Self::zero();
            let remainder = self.clone();
            proof {
                assert forall|i: int| #[trigger] coeff_at(self@, i) == (mul_coeff(
                    quotient@,
                    divisor@,
                    i,
                    m,
                ) + coeff_at(remainder@, i)) % m by {
                    lemma_conv_prefix_zero(quotient@, divisor@, i, (i + 1) as nat);
                    lemma_small_mod(0nat, m as nat);
                    if 0 <= i < self@.len() {
                        lemma_small_mod(coeff_at(self@, i) as nat, m as nat);
                    } else {
                        lemma_small_mod(0nat, m as nat);
                    }
                }
            }
            return Ok((quotient, remainder));
        }
        let ghost p = self@;
        let qlen = self.coefficients.len() - dd + 1;
        let mut q: Vec<FieldElement<O>> = Vec::new();
        let mut i: usize = 0;
        while i < qlen
            invariant
                i <= qlen,
                seq_views(q@).len() == i,
                forall|t: int| 0 <= t < i ==> #[trigger] seq_views(q@)[t] == 0,
            decreases qlen - i,
        {
            let ghost before = seq_views(q@);
            let z = FieldElement::<O>::zero();
            q.push(z);
            proof {
                assert(seq_views(q@) =~= before.push(0));
            }
            i += 1;
        }
        let mut n = self.clone();
        proof {
            assert forall|t: int| #[trigger] coeff_at(p, t) == (mul_coeff(
                seq_views(q@),
                divisor@,
                t,
                m,
            ) + coeff_at(n@, t)) % m by {
                lemma_conv_prefix_zero_entries(seq_views(q@), divisor@, t, (t + 1) as nat);
                lemma_small_mod(0nat, m as nat);
                if 0 <= t < p.len() {
                    lemma_small_mod(coeff_at(p, t) as nat, m as nat);
                } else {
                    lemma_small_mod(0nat, m as nat);
                }
            }
        }
        while n.coefficients.len() >= dd
            invariant
                m == Self::order_spec(),
                m >= 2,
                dd == divisor@.len(),
                dd >= 1,
                qlen == p.len() - dd + 1,
                p.len() < usize::MAX,
                seq_views(q@).len() == qlen,
                all_reduced(seq_views(q@), m),
                n@.len() <= p.len(),
                is_normalized(n@),
                all_reduced(n@, m),
                (dlast@ * dinv@) % m == 1,
                dlast@ == divisor@[divisor@.len() - 1],
                forall|t: int| 0 <= t <= n@.len() - dd ==> #[trigger] seq_views(q@)[t] == 0,
                forall|t: int| #[trigger] coeff_at(p, t) == (mul_coeff(
                    seq_views(q@),
                    divisor@,
                    t,
                    m,
                ) + coeff_at(n@, t)) % m,
            decreases n@.len(),
        {
            let ghost q_old = seq_views(q@);
            let ghost n_old = n@;
            let k = n.coefficients.len() - dd;
            let c = n.last_coefficient().mul(dinv);
            let ghost nlast = n@[n@.len() - 1];
            q.set(k, c);
            proof {
                assert(seq_views(q@) =~= q_old.update(k as int, c@));
            }
            let mono = Self::new_monomial(c, k);
            let prod = divisor.mul_with_ref(&mono);
            let n_new = n.sub(&prod);
            proof {
                use_type_invariant(&n_new);
                let qs = seq_views(q@);
                // each product coefficient is a single divisor term scaled
                // by c
                assert forall|t: int| #[trigger] coeff_at(prod@, t) == (coeff_at(
                    divisor@,
                    t - k,
                ) * c@) % m by {
                    lemma_conv_prefix_monomial(divisor@, mono@, c@, k as int, t, (t + 1) as nat);
                    if t >= 0 {
                        if !(0 <= t - k < t + 1) {
                            assert(coeff_at(divisor@, t - k) == 0);
                            lemma_small_mod(0nat, m as nat);
                        }
                    } else {
                        assert(coeff_at(divisor@, t - k) == 0) by {
                            assert(t - k < 0);
                        }
                        lemma_small_mod(0nat, m as nat);
                    }
                }
                // the division invariant is preserved
                assert forall|t: int| #[trigger] coeff_at(p, t) == (mul_coeff(
                    qs,
                    divisor@,
                    t,
                    m,
                ) + coeff_at(n_new@, t)) % m by {
                    lemma_conv_prefix_update(
                        q_old,
                        qs,
                        divisor@,
                        c@,
                        k as int,
                        t,
                        (t + 1) as nat,
                    );
                    let delta = if k < t + 1 {
                        c@ * coeff_at(divisor@, t - k)
                    } else {
                        0int
                    };
                    assert(conv_at(qs, divisor@, t) == conv_at(q_old, divisor@, t) + delta);
                    if k < t + 1 {
                        assert(coeff_at(n_new@, t) == (coeff_at(n_old, t) - (coeff_at(
                            divisor@,
                            t - k,
                        ) * c@) % m) % m);
                        lemma_mul_is_commutative(c@, coeff_at(divisor@, t - k));
                        lemma_mod_redistribute(
                            conv_at(q_old, divisor@, t),
                            c@ * coeff_at(divisor@, t - k),
                            coeff_at(n_old, t),
                            m,
                        );
                    } else {
                        assert(t - k < 0);
                        assert(coeff_at(divisor@, t - k) == 0);
                        assert(coeff_at(prod@, t) == 0) by {
                            lemma_small_mod(0nat, m as nat);
                        }
                        assert(coeff_at(n_new@, t) == (coeff_at(n_old, t) - 0) % m);
                        if 0 <= t < n_old.len() {
                            lemma_small_mod(coeff_at(n_old, t) as nat, m as nat);
                        } else {
                            lemma_small_mod(0nat, m as nat);
                        }
                    }
                }
                // the leading term cancels, so the working remainder shrinks
                assert(coeff_at(n_new@, n_old.len() - 1) == 0) by {
                    let t = n_old.len() - 1;
                    assert(coeff_at(prod@, t) == (coeff_at(divisor@, t - k) * c@) % m);
                    assert(coeff_at(divisor@, t - k) == dlast@);
                    assert(c@ == (nlast * dinv@) % m);
                    assert((dlast@ * ((nlast * dinv@) % m)) % m == nlast) by {
                        lemma_mul_mod_noop_right(dlast@, nlast * dinv@, m);
                        assert((dlast@ * (nlast * dinv@)) == (nlast * (dlast@ * dinv@))) by {
                            lemma_mul_is_associative(dlast@, nlast, dinv@);
                            lemma_mul_is_commutative(dlast@, nlast);
                            lemma_mul_is_associative(nlast, dlast@, dinv@);
                        }
                        lemma_mul_mod_noop_right(nlast, dlast@ * dinv@, m);
                        assert((nlast * ((dlast@ * dinv@) % m)) % m == (nlast * 1) % m) by {
                            lemma_mul_mod_noop_right(nlast, dlast@ * dinv@, m);
                        }
                        assert(0 <= nlast < m);
                        lemma_small_mod(nlast as nat, m as nat);
                    }
                    assert(coeff_at(n_new@, t) == (nlast - nlast) % m);
                    lemma_small_mod(0nat, m as nat);
                }
                assert forall|t: int| t >= n_old.len() - 1 implies #[trigger] coeff_at(n_new@, t)
                    == 0 by {
                    if t >= n_old.len() {
                        assert(coeff_at(n_old, t) == 0);
                        assert(coeff_at(prod@, t) == 0) by {
                            assert(coeff_at(divisor@, t - k) == 0);
                            lemma_small_mod(0nat, m as nat);
                        }
                        lemma_small_mod(0nat, m as nat);
                    }
                }
                assert(n_new@.len() < n_old.len()) by {
                    if n_new@.len() >= n_old.len() {
                        assert(coeff_at(n_new@, n_new@.len() - 1) == 0);
                        assert(n_new@[n_new@.len() - 1] == 0);
                    }
                }
                // the frontier entries of the quotient stay zero
                assert forall|t: int| 0 <= t <= n_new@.len() - dd implies #[trigger] seq_views(
                    q@,
                )[t] == 0 by {
                    assert(t < k);
                    assert(q_old[t] == 0);
                }
            }
            n = n_new;
        }
        let ghost q_built = seq_views(q@);
        let quotient = Self::new(q);
        proof {
            assert forall|t: int| #[trigger] coeff_at(p, t) == (mul_coeff(
                quotient@,
                divisor@,
                t,
                m,
            ) + coeff_at(n@, t)) % m by {
                lemma_conv_same_poly(quotient@, q_built, divisor@, divisor@, t, (t + 1) as nat);
            }
        }
        Ok((quotient, n))
    }

    /// The quotient of polynomial long division, discarding the remainder.
    pub fn div_with_ref(&self, divisor: &Self) -> (r: Result<Self, FieldElementError>)
        requires
            self@.len() < usize::MAX,
        ensures
            r is Ok <==> (divisor@.len() > 0 && FieldElement::<O>::invertible(
                divisor@[divisor@.len() - 1],
            )),
            r matches Ok(q) ==> exists|rem: Seq<int>|
                #![trigger rem.len()]
                rem.len() < divisor@.len() && forall|i: int| #[trigger] coeff_at(self@, i) == (
                mul_coeff(q@, divisor@, i, Self::order_spec()) + coeff_at(rem, i))
                    % Self::order_spec(),
            r matches Err(e) ==> e == FieldElementError::DivisionByZero,
    {
        match self.long_division_with_remainder(divisor) {
            Ok((quotient, remainder)) => {
                proof {
                    let rem = remainder@;
                    assert(rem.len() < divisor@.len() && forall|i: int| #[trigger] coeff_at(
                        self@,
                        i,
                    ) == (mul_coeff(quotient@, divisor@, i, Self::order_spec()) + coeff_at(
                        rem,
                        i,
                    )) % Self::order_spec());
                }
                Ok(quotient)
            },
            Err(e) => Err(e),
        }
    }

    /// Returns the coefficient vectors of the two polynomials, the shorter
    /// padded with zeros to the length of the longer.
    pub fn pad_with_zero_coefficients(pa: &Self, pb: &Self) -> (r: (
        Vec<FieldElement<O>>,
        Vec<FieldElement<O>>,
    ))
        ensures
            seq_views(r.0@).len() == seq_views(r.1@).len(),
            same_poly(seq_views(r.0@), pa@),
            same_poly(seq_views(r.1@), pb@),
    {
        let la = pa.coefficients.len();
        let lb = pb.coefficients.len();
        let n = if la < lb {
            lb
        } else {
            la
        };
        let mut va: Vec<FieldElement<O>> = Vec::new();
        let mut vb: Vec<FieldElement<O>> = Vec::new();
        let mut k: usize = 0;
        while k < n
            invariant
                k <= n,
                n == if la < lb {
                    lb
                } else {
                    la
                },
                la == pa@.len(),
                lb == pb@.len(),
                seq_views(va@).len() == k,
                seq_views(vb@).len() == k,
                forall|i: int| 0 <= i < k ==> #[trigger] seq_views(va@)[i] == coeff_at(pa@, i),
                forall|i: int| 0 <= i < k ==> #[trigger] seq_views(vb@)[i] == coeff_at(pb@, i),
            decreases n - k,
        {
            let a = if k < la {
                pa.coefficients[k]
            } else {
                FieldElement::zero()
            };
            let b = if k < lb {
                pb.coefficients[k]
            } else {
                FieldElement::zero()
            };
            let ghost beforea = seq_views(va@);
            let ghost beforeb = seq_views(vb@);
            va.push(a);
            vb.push(b);
            proof {
                assert(seq_views(va@) =~= beforea.push(a@));
                assert(seq_views(vb@) =~= beforeb.push(b@));
            }
            k += 1;
        }
        (va, vb)
    }
}

} // verus!
