//! Fixtures for exercising the protocol: the example circuit of the
//! Pinocchio paper, `out = (c1 + c2) * c5` with `c5 = c3 * c4`, as an R1CS
//! and as a QAP, together with a solver for its wires.

use super::super::config::OrderR;
use super::qap::Qap;
use super::r1cs::{Constraint, R1CS};
use crate::math::field_element::{FieldElement, FieldOrder};
use crate::math::polynomial::{coeff_at, poly_eval, seq_views, InterpolationError, Polynomial};
use vstd::prelude::*;

verus! {

type FE = FieldElement<OrderR>;

/// The first evaluation point of the example QAP.
pub fn test_qap_r5() -> (r: FE)
    ensures
        r@ == 0,
{
    FE::new(0)
}

/// The second evaluation point of the example QAP.
pub fn test_qap_r6() -> (r: FE)
    ensures
        r@ == 1,
{
    FE::new(1)
}

/// Solves the example circuit: from the four inputs it returns the
/// intermediate wire `c5 = c3 * c4` and the output `c6 = (c1 + c2) * c5`.
pub fn test_qap_solver(inputs: [FE; 4]) -> (r: (FE, FE))
    ensures
        r.0@ == (inputs@[2]@ * inputs@[3]@) % FE::order_spec(),
        r.1@ == (((inputs@[0]@ + inputs@[1]@) % FE::order_spec()) * r.0@) % FE::order_spec(),
{
    Qap::test_qap_solver(inputs)
}

/// The value of the `v` polynomial of wire `k` of the example QAP at an
/// evaluation point.
pub open spec fn example_v_at(k: int, point: int) -> int {
    if point == 0 {
        if k == 3 {
            1
        } else {
            0
        }
    } else {
        if k == 1 || k == 2 {
            1
        } else {
            0
        }
    }
}

/// The value of the `w` polynomial of wire `k` of the example QAP at an
/// evaluation point.
pub open spec fn example_w_at(k: int, point: int) -> int {
    if point == 0 {
        if k == 4 {
            1
        } else {
            0
        }
    } else {
        if k == 5 {
            1
        } else {
            0
        }
    }
}

/// The value of the `y` polynomial of wire `k` of the example QAP at an
/// evaluation point.
pub open spec fn example_y_at(k: int, point: int) -> int {
    if point == 0 {
        if k == 5 {
            1
        } else {
            0
        }
    } else {
        if k == 6 {
            1
        } else {
            0
        }
    }
}

/// The interpolation values of the `v` polynomial of wire `k` at the two
/// evaluation points.
fn example_v_values(k: usize) -> (r: (u128, u128))
    requires
        k < 7,
    ensures
        r.0 as int == example_v_at(k as int, 0),
        r.1 as int == example_v_at(k as int, 1),
{
    if k == 3 {
        (1, 0)
    } else if k == 1 || k == 2 {
        (0, 1)
    } else {
        (0, 0)
    }
}

/// The interpolation values of the `w` polynomial of wire `k` at the two
/// evaluation points.
fn example_w_values(k: usize) -> (r: (u128, u128))
    requires
        k < 7,
    ensures
        r.0 as int == example_w_at(k as int, 0),
        r.1 as int == example_w_at(k as int, 1),
{
    if k == 4 {
        (1, 0)
    } else if k == 5 {
        (0, 1)
    } else {
        (0, 0)
    }
}

/// The interpolation values of the `y` polynomial of wire `k` at the two
/// evaluation points.
fn example_y_values(k: usize) -> (r: (u128, u128))
    requires
        k < 7,
    ensures
        r.0 as int == example_y_at(k as int, 0),
        r.1 as int == example_y_at(k as int, 1),
{
    if k == 5 {
        (1, 0)
    } else if k == 6 {
        (0, 1)
    } else {
        (0, 0)
    }
}

/// The example QAP of the Pinocchio paper: seven wires, four inputs, one
/// mid wire, one output, with the per-wire polynomials interpolated at the
/// two evaluation points and the target `(X - 0)(X - 1)`.
pub fn new_test_qap() -> (r: Result<Qap, InterpolationError>)
    ensures
        r is Ok,
        r matches Ok(qap) ==> {
            &&& qap.well_formed()
            &&& qap.sizes_bounded()
            &&& qap.vs@.len() == 7
            &&& qap.number_of_inputs == 4
            &&& qap.number_of_outputs == 1
            &&& forall|k: int|
                0 <= k < 7 ==> poly_eval(
                    (#[trigger] qap.vs@[k])@,
                    0,
                    FE::order_spec(),
                ) == example_v_at(k, 0) && poly_eval(qap.vs@[k]@, 1, FE::order_spec())
                    == example_v_at(k, 1)
            &&& forall|k: int|
                0 <= k < 7 ==> poly_eval(
                    (#[trigger] qap.ws@[k])@,
                    0,
                    FE::order_spec(),
                ) == example_w_at(k, 0) && poly_eval(qap.ws@[k]@, 1, FE::order_spec())
                    == example_w_at(k, 1)
            &&& forall|k: int|
                0 <= k < 7 ==> poly_eval(
                    (#[trigger] qap.ys@[k])@,
                    0,
                    FE::order_spec(),
                ) == example_y_at(k, 0) && poly_eval(qap.ys@[k]@, 1, FE::order_spec())
                    == example_y_at(k, 1)
            &&& qap.target@ == seq![0int, 4int, 1int]
        },
{
    let ghost m = FE::order_spec();
    let r5 = test_qap_r5();
    let r6 = test_qap_r6();
    let mut xs: Vec<FE> = Vec::new();
    xs.push(r5);
    xs.push(r6);
    proof {
        assert(seq_views(xs@) =~= seq![0int, 1int]);
        assert forall|t: int| 0 <= t < seq_views(xs@).len() implies #[trigger] seq_views(
            xs@,
        )[t] == t % (OrderR::spec_order() as int) by {
            vstd::arithmetic::div_mod::lemma_small_mod(t as nat, OrderR::spec_order() as nat);
        }
        crate::circuits::qap::lemma_consecutive_nodes_invertible(seq_views(xs@));
    }

    let factor_r5 = Polynomial::<OrderR>::new_monomial(FE::new(1), 1).sub(
        &Polynomial::new_monomial(r5, 0),
    );
    let factor_r6 = Polynomial::<OrderR>::new_monomial(FE::new(1), 1).sub(
        &Polynomial::new_monomial(r6, 0),
    );
    let t = factor_r5.mul_with_ref(&factor_r6);
    proof {
        use_type_invariant(&factor_r6);
        // the factors are X and X - 1, so the target is X^2 - X, which is
        // [0, 4, 1] over the order-5 field
        assert(coeff_at(factor_r5@, 0) == 0 && coeff_at(factor_r5@, 1) == 1);
        assert(coeff_at(factor_r6@, 0) == 4 && coeff_at(factor_r6@, 1) == 1);
        assert(factor_r6@.len() == 2) by {
            if factor_r6@.len() < 2 {
                assert(coeff_at(factor_r6@, 1) == 0);
            }
        }
        assert(factor_r6@[0] == 4 && factor_r6@[1] == 1);
        assert forall|k: int| 0 <= k implies #[trigger] coeff_at(t@, k) == coeff_at(
            seq![0int, 4int, 1int],
            k,
        ) by {
            crate::math::polynomial::lemma_conv_linear(factor_r5@, factor_r6@, k);
            vstd::arithmetic::div_mod::lemma_small_mod(0nat, m as nat);
            vstd::arithmetic::div_mod::lemma_small_mod(4nat, m as nat);
            vstd::arithmetic::div_mod::lemma_small_mod(1nat, m as nat);
        }
        assert forall|k: int| true implies #[trigger] coeff_at(t@, k) == coeff_at(
            seq![0int, 4int, 1int],
            k,
        ) by {
            if k < 0 {
                assert(coeff_at(t@, k) == 0);
                assert(coeff_at(seq![0int, 4int, 1int], k) == 0);
            }
        }
        use_type_invariant(&t);
        assert(crate::math::polynomial::is_normalized(seq![0int, 4int, 1int]));
        crate::math::polynomial::lemma_same_poly_canonical(t@, seq![0int, 4int, 1int]);
    }

    let mut vs: Vec<Polynomial<OrderR>> = Vec::new();
    let mut ws: Vec<Polynomial<OrderR>> = Vec::new();
    let mut ys: Vec<Polynomial<OrderR>> = Vec::new();

    let mut k: usize = 0;
    while k < 7
        invariant
            k <= 7,
            m == FE::order_spec(),
            seq_views(xs@) == seq![0int, 1int],
            xs@.len() == 2,
            crate::math::polynomial::nodes_invertible::<OrderR>(seq_views(xs@)),
            vs@.len() == k,
            ws@.len() == k,
            ys@.len() == k,
            forall|i: int|
                0 <= i < k ==> (#[trigger] vs@[i])@.len() <= 3 && ws@[i]@.len() <= 3
                    && ys@[i]@.len() <= 3,
            forall|i: int|
                0 <= i < k ==> poly_eval((#[trigger] vs@[i])@, 0, m) == example_v_at(i, 0)
                    && poly_eval(vs@[i]@, 1, m) == example_v_at(i, 1),
            forall|i: int|
                0 <= i < k ==> poly_eval((#[trigger] ws@[i])@, 0, m) == example_w_at(i, 0)
                    && poly_eval(ws@[i]@, 1, m) == example_w_at(i, 1),
            forall|i: int|
                0 <= i < k ==> poly_eval((#[trigger] ys@[i])@, 0, m) == example_y_at(i, 0)
                    && poly_eval(ys@[i]@, 1, m) == example_y_at(i, 1),
        decreases 7 - k,
    {
        let vv = example_v_values(k);
        let wv = example_w_values(k);
        let yv = example_y_values(k);
        let mut ysv: Vec<FE> = Vec::new();
        ysv.push(FE::new(vv.0));
        ysv.push(FE::new(vv.1));
        let mut ysw: Vec<FE> = Vec::new();
        ysw.push(FE::new(wv.0));
        ysw.push(FE::new(wv.1));
        let mut ysy: Vec<FE> = Vec::new();
        ysy.push(FE::new(yv.0));
        ysy.push(FE::new(yv.1));
        proof {
            assert(OrderR::spec_order() == 5);
            vstd::arithmetic::div_mod::lemma_small_mod(0nat, 5nat);
            vstd::arithmetic::div_mod::lemma_small_mod(1nat, 5nat);
            assert((ysv@[0])@ == example_v_at(k as int, 0));
            assert((ysv@[1])@ == example_v_at(k as int, 1));
            assert((ysw@[0])@ == example_w_at(k as int, 0));
            assert((ysw@[1])@ == example_w_at(k as int, 1));
            assert((ysy@[0])@ == example_y_at(k as int, 0));
            assert((ysy@[1])@ == example_y_at(k as int, 1));
        }
        let pv = match Polynomial::<OrderR>::interpolate(xs.as_slice(), ysv.as_slice()) {
            Ok(p) => p,
            Err(_) => {
                proof {
                    assert(false);
                }
                unreached()
            },
        };
        let pw = match Polynomial::<OrderR>::interpolate(xs.as_slice(), ysw.as_slice()) {
            Ok(p) => p,
            Err(_) => {
                proof {
                    assert(false);
                }
                unreached()
            },
        };
        let py = match Polynomial::<OrderR>::interpolate(xs.as_slice(), ysy.as_slice()) {
            Ok(p) => p,
            Err(_) => {
                proof {
                    assert(false);
                }
                unreached()
            },
        };
        let ghost vsb = vs@;
        let ghost wsb = ws@;
        let ghost ysb = ys@;
        vs.push(pv);
        ws.push(pw);
        ys.push(py);
        proof {
            assert(vs@ =~= vsb.push(pv));
            assert(ws@ =~= wsb.push(pw));
            assert(ys@ =~= ysb.push(py));
            assert(xs@[0]@ == 0 && xs@[1]@ == 1);
            assert(poly_eval(pv@, 0, m) == example_v_at(k as int, 0));
            assert(poly_eval(pv@, 1, m) == example_v_at(k as int, 1));
            assert(poly_eval(pw@, 0, m) == example_w_at(k as int, 0));
            assert(poly_eval(pw@, 1, m) == example_w_at(k as int, 1));
            assert(poly_eval(py@, 0, m) == example_y_at(k as int, 0));
            assert(poly_eval(py@, 1, m) == example_y_at(k as int, 1));
        }
        k += 1;
    }

    let ghost vsg = vs@;
    let ghost wsg = ws@;
    let ghost ysg = ys@;
    match Qap::new(vs, ws, ys, t, 4, 1) {
        Ok(qap) => {
            proof {
                assert(qap.vs@ == vsg);
                assert(qap.ws@ == wsg);
                assert(qap.ys@ == ysg);
                assert forall|i: int| 0 <= i < qap.vs@.len() implies (#[trigger] qap.vs@[i])@.len()
                    <= crate::circuits::qap::POLYNOMIAL_SIZE_BOUND by {
                    assert((vsg[i])@.len() <= 3 && wsg[i]@.len() <= 3 && ysg[i]@.len() <= 3);
                }
                assert forall|i: int| 0 <= i < qap.ws@.len() implies (#[trigger] qap.ws@[i])@.len()
                    <= crate::circuits::qap::POLYNOMIAL_SIZE_BOUND by {
                    assert((vsg[i])@.len() <= 3 && wsg[i]@.len() <= 3 && ysg[i]@.len() <= 3);
                }
                assert forall|i: int| 0 <= i < qap.ys@.len() implies (#[trigger] qap.ys@[i])@.len()
                    <= crate::circuits::qap::POLYNOMIAL_SIZE_BOUND by {
                    assert((vsg[i])@.len() <= 3 && wsg[i]@.len() <= 3 && ysg[i]@.len() <= 3);
                }
                assert(qap.sizes_bounded());
            }
            Ok(qap)
        },
        Err(_) => {
            proof {
                assert(false);
            }
            unreached()
        },
    }
}

/// One row of the example circuit: seven field elements with a single one
/// at the given index.
fn unit_row<O: FieldOrder>(index: usize) -> (r: Vec<FieldElement<O>>)
    requires
        index < 7,
    ensures
        r@.len() == 7,
        forall|i: int|
            0 <= i < 7 ==> (#[trigger] r@[i])@ == if i == index {
                1int
            } else {
                0int
            },
{
    proof {
        O::order_positive();
    }
    let mut row: Vec<FieldElement<O>> = Vec::new();
    let mut i: usize = 0;
    while i < 7
        invariant
            i <= 7,
            row@.len() == i,
            forall|j: int|
                0 <= j < i ==> (#[trigger] row@[j])@ == if j == index {
                    1int
                } else {
                    0int
                },
        decreases 7 - i,
    {
        if i == index {
            let e = FieldElement::<O>::new(1);
            proof {
                O::order_positive();
                vstd::arithmetic::div_mod::lemma_small_mod(1nat, O::spec_order() as nat);
            }
            row.push(e);
        } else {
            let e = FieldElement::<O>::new(0);
            proof {
                O::order_positive();
                vstd::arithmetic::div_mod::lemma_small_mod(0nat, O::spec_order() as nat);
            }
            row.push(e);
        }
        i += 1;
    }
    row
}

/// The first constraint of the example circuit: `c3 * c4 = c5`.
pub fn new_test_first_constraint<O: FieldOrder>() -> (r: Constraint<O>)
    ensures
        r.well_formed(),
        r.a@.len() == 7,
        forall|i: int|
            0 <= i < 7 ==> (#[trigger] r.a@[i])@ == if i == 3 {
                1int
            } else {
                0int
            },
        forall|i: int|
            0 <= i < 7 ==> (#[trigger] r.b@[i])@ == if i == 4 {
                1int
            } else {
                0int
            },
        forall|i: int|
            0 <= i < 7 ==> (#[trigger] r.c@[i])@ == if i == 5 {
                1int
            } else {
                0int
            },
{
    Constraint { a: unit_row(3), b: unit_row(4), c: unit_row(5) }
}

/// The second constraint of the example circuit:
/// `(c1 + c2) * c5 = c6`.
pub fn new_test_second_constraint<O: FieldOrder>() -> (r: Constraint<
    O,
>)
    ensures
        r.well_formed(),
        r.a@.len() == 7,
        forall|i: int|
            0 <= i < 7 ==> (#[trigger] r.a@[i])@ == if i == 1 || i == 2 {
                1int
            } else {
                0int
            },
        forall|i: int|
            0 <= i < 7 ==> (#[trigger] r.b@[i])@ == if i == 5 {
                1int
            } else {
                0int
            },
        forall|i: int|
            0 <= i < 7 ==> (#[trigger] r.c@[i])@ == if i == 6 {
                1int
            } else {
                0int
            },
{
    let mut a: Vec<FieldElement<O>> = Vec::new();
    a.push(FieldElement::<O>::new(0));
    a.push(FieldElement::<O>::new(1));
    a.push(FieldElement::<O>::new(1));
    a.push(FieldElement::<O>::new(0));
    a.push(FieldElement::<O>::new(0));
    a.push(FieldElement::<O>::new(0));
    a.push(FieldElement::<O>::new(0));
    proof {
        O::order_positive();
        vstd::arithmetic::div_mod::lemma_small_mod(0nat, O::spec_order() as nat);
        vstd::arithmetic::div_mod::lemma_small_mod(1nat, O::spec_order() as nat);
        assert(a@.len() == 7);
        assert((a@[0])@ == 0);
        assert((a@[1])@ == 1);
        assert((a@[2])@ == 1);
        assert((a@[3])@ == 0);
        assert((a@[4])@ == 0);
        assert((a@[5])@ == 0);
        assert((a@[6])@ == 0);
    }
    Constraint { a, b: unit_row(5), c: unit_row(6) }
}

/// The example circuit as an R1CS: two constraints over seven wires, with
/// four inputs and one output.
pub fn new_test_r1cs<O: FieldOrder>() -> (r: R1CS<O>)
    ensures
        r.well_formed(),
        r.number_of_inputs == 4,
        r.number_of_outputs == 1,
        r.constraints@.len() == 2,
        r.constraints@[0].a@.len() == 7,
        forall|i: int|
            0 <= i < 7 ==> ((#[trigger] r.constraints@[0].a@[i])@ == if i == 3 {
                1int
            } else {
                0int
            } && (r.constraints@[0].b@[i])@ == if i == 4 {
                1int
            } else {
                0int
            } && (r.constraints@[0].c@[i])@ == if i == 5 {
                1int
            } else {
                0int
            }),
        forall|i: int|
            0 <= i < 7 ==> ((#[trigger] r.constraints@[1].a@[i])@ == if i == 1 || i == 2 {
                1int
            } else {
                0int
            } && (r.constraints@[1].b@[i])@ == if i == 5 {
                1int
            } else {
                0int
            } && (r.constraints@[1].c@[i])@ == if i == 6 {
                1int
            } else {
                0int
            }),
{
    let mut constraints: Vec<Constraint<O>> = Vec::new();
    let first = new_test_first_constraint();
    let second = new_test_second_constraint();
    constraints.push(first);
    constraints.push(second);
    proof {
        assert(constraints@[0] == first);
        assert(constraints@[1] == second);
    }
    match R1CS::new(constraints, 4, 1) {
        Ok(r1cs) => r1cs,
        Err(_) => {
            proof {
                assert(false);
            }
            unreached()
        },
    }
}

} // verus!
