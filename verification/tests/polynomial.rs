/*
    Some of these tests work when the finite field has order greater than 2.
*/
use pinocchio_vm::math::field_element::{FieldElement, OrderLarge, ORDER};
use pinocchio_vm::math::polynomial::{InterpolationError, Polynomial};

type FE = FieldElement<OrderLarge>;
type Poly = Polynomial<OrderLarge>;

fn polynomial_a() -> Poly {
    Poly::new(vec![FE::new(1), FE::new(2), FE::new(3)])
}

fn polynomial_minus_a() -> Poly {
    Poly::new(vec![FE::new(ORDER - 1), FE::new(ORDER - 2), FE::new(ORDER - 3)])
}

fn polynomial_b() -> Poly {
    Poly::new(vec![FE::new(3), FE::new(4), FE::new(5)])
}

fn polynomial_a_plus_b() -> Poly {
    Poly::new(vec![FE::new(4), FE::new(6), FE::new(8)])
}

fn polynomial_b_minus_a() -> Poly {
    Poly::new(vec![FE::new(2), FE::new(2), FE::new(2)])
}

#[test]
fn adding_a_and_b_equals_a_plus_b() {
    assert_eq!(polynomial_a().add(&polynomial_b()), polynomial_a_plus_b());
}

#[test]
fn adding_a_and_a_plus_b_does_not_equal_b() {
    assert_ne!(polynomial_a().add(&polynomial_a_plus_b()), polynomial_b());
}

#[test]
fn add_5_to_0_is_5() {
    let p1 = Poly::new(vec![FE::new(5)]);
    let p2 = Poly::new(vec![FE::new(0)]);
    assert_eq!(p1.add(&p2), Poly::new(vec![FE::new(5)]));
}

#[test]
fn add_0_to_5_is_5() {
    let p1 = Poly::new(vec![FE::new(5)]);
    let p2 = Poly::new(vec![FE::new(0)]);
    assert_eq!(p2.add(&p1), Poly::new(vec![FE::new(5)]));
}

#[test]
fn negating_0_returns_0() {
    let p1 = Poly::new(vec![FE::zero()]);
    assert_eq!(p1.neg(), Poly::new(vec![FE::zero()]));
}

#[test]
fn negating_a_is_equal_to_minus_a() {
    assert_eq!(polynomial_a().neg(), polynomial_minus_a());
}

#[test]
fn negating_a_is_not_equal_to_a() {
    assert_ne!(polynomial_a().neg(), polynomial_a());
}

#[test]
fn substracting_5_5_gives_0() {
    let p1 = Poly::new(vec![FE::new(5)]);
    let p2 = Poly::new(vec![FE::new(5)]);
    let p3 = Poly::new(vec![FE::zero()]);
    assert_eq!(p1.sub(&p2), p3);
}

#[test]
fn substracting_b_and_a_equals_b_minus_a() {
    assert_eq!(polynomial_b().sub(&polynomial_a()), polynomial_b_minus_a());
}

#[test]
fn constructor_removes_zeros_at_the_end_of_polynomial() {
    let p1 = Poly::new(vec![FE::new(3), FE::new(4), FE::zero()]);
    assert_eq!(p1.coefficients(), &vec![FE::new(3), FE::new(4)]);
}

#[test]
fn pad_with_zero_coefficients_returns_polynomials_with_zeros_until_matching_size() {
    let p1 = Poly::new(vec![FE::new(3), FE::new(4)]);
    let p2 = Poly::new(vec![FE::new(3)]);

    assert_eq!(p2.coefficients(), &vec![FE::new(3)]);
    let (pp1, pp2) = Poly::pad_with_zero_coefficients(&p1, &p2);
    assert_eq!(&pp1, p1.coefficients());
    assert_eq!(pp2, vec![FE::new(3), FE::zero()]);
}

#[test]
fn multiply_5_and_0_is_0() {
    let p1 = Poly::new(vec![FE::new(5)]);
    let p2 = Poly::new(vec![FE::new(0)]);
    assert_eq!(p1.mul_with_ref(&p2), Poly::new(vec![FE::new(0)]));
}

#[test]
fn multiply_0_and_x_is_0() {
    let p1 = Poly::new(vec![FE::new(0)]);
    let p2 = Poly::new(vec![FE::new(0), FE::new(1)]);
    assert_eq!(p1.mul_with_ref(&p2), Poly::new(vec![FE::new(0)]));
}

#[test]
fn multiply_2_by_3_is_6() {
    let p1 = Poly::new(vec![FE::new(2)]);
    let p2 = Poly::new(vec![FE::new(3)]);
    assert_eq!(p1.mul_with_ref(&p2), Poly::new(vec![FE::new(6)]));
}

#[test]
fn multiply_2xx_3x_3_times_x_4() {
    let p1 = Poly::new(vec![FE::new(3), FE::new(3), FE::new(2)]);
    let p2 = Poly::new(vec![FE::new(4), FE::new(1)]);
    assert_eq!(
        p1.mul_with_ref(&p2),
        Poly::new(vec![FE::new(12), FE::new(15), FE::new(11), FE::new(2)])
    );
}

#[test]
fn multiply_x_4_times_2xx_3x_3() {
    let p1 = Poly::new(vec![FE::new(3), FE::new(3), FE::new(2)]);
    let p2 = Poly::new(vec![FE::new(4), FE::new(1)]);
    assert_eq!(
        p2.mul_with_ref(&p1),
        Poly::new(vec![FE::new(12), FE::new(15), FE::new(11), FE::new(2)])
    );
}

#[test]
fn division_works() {
    let p1 = Poly::new(vec![FE::new(1), FE::new(3)]);
    let p2 = Poly::new(vec![FE::new(1), FE::new(3)]);
    let p3 = p1.mul_with_ref(&p2);
    assert_eq!(p3.div_with_ref(&p2).unwrap(), p1);
}

#[test]
fn division_by_zero_degree_polynomial_works() {
    let four = FE::new(4);
    let two = FE::new(2);
    let p1 = Poly::new(vec![four, four]);
    let p2 = Poly::new(vec![two]);
    assert_eq!(Poly::new(vec![two, two]), p1.div_with_ref(&p2).unwrap());
}

#[test]
fn evaluate_constant_polynomial_returns_constant() {
    let three = FE::new(3);
    let p = Poly::new(vec![three]);
    assert_eq!(p.evaluate(FE::new(10)), three);
}

#[test]
fn create_degree_0_new_monomial() {
    assert_eq!(Poly::new_monomial(FE::new(3), 0), Poly::new(vec![FE::new(3)]));
}

#[test]
fn evaluate_degree_1_new_monomial() {
    let two = FE::new(2);
    let four = FE::new(4);
    let p = Poly::new_monomial(two, 1);
    assert_eq!(p.evaluate(two), four);
}

#[test]
fn evaluate_degree_2_monomyal() {
    let two = FE::new(2);
    let eight = FE::new(8);
    let p = Poly::new_monomial(two, 2);
    assert_eq!(p.evaluate(two), eight);
}

#[test]
fn evaluate_3_term_polynomial() {
    let p = Poly::new(vec![FE::new(3), FE::new(2).neg(), FE::new(4)]);
    assert_eq!(p.evaluate(FE::new(2)), FE::new(15));
}

#[test]
fn simple_interpolating_polynomial_by_hand_works() {
    let denominator = Poly::new(vec![FE::one().div(FE::new(2).sub(FE::new(4))).unwrap()]);
    let numerator = Poly::new(vec![FE::new(4).neg(), FE::one()]);
    let interpolating = numerator.mul_with_ref(&denominator);
    assert_eq!(
        FE::new(2).sub(FE::new(4)).mul(FE::one().div(FE::new(2).sub(FE::new(4))).unwrap()),
        FE::one()
    );
    assert_eq!(interpolating.evaluate(FE::new(2)), FE::one());
    assert_eq!(interpolating.evaluate(FE::new(4)), FE::zero());
}

#[test]
fn interpolate_x_2_y_3() {
    let p = Poly::interpolate(&[FE::new(2)], &[FE::new(3)]).unwrap();
    assert_eq!(FE::new(3), p.evaluate(FE::new(2)));
}

#[test]
fn interpolate_x_0_2_y_3_4() {
    let p = Poly::interpolate(&[FE::new(0), FE::new(2)], &[FE::new(3), FE::new(4)]).unwrap();
    assert_eq!(FE::new(3), p.evaluate(FE::new(0)));
    assert_eq!(FE::new(4), p.evaluate(FE::new(2)));
}

#[test]
fn interpolate_x_2_5_7_y_10_19_43() {
    let p = Poly::interpolate(
        &[FE::new(2), FE::new(5), FE::new(7)],
        &[FE::new(10), FE::new(19), FE::new(43)],
    )
    .unwrap();

    assert_eq!(FE::new(10), p.evaluate(FE::new(2)));
    assert_eq!(FE::new(19), p.evaluate(FE::new(5)));
    assert_eq!(FE::new(43), p.evaluate(FE::new(7)));
}

#[test]
fn interpolate_x_0_0_y_1_1() {
    let p = Poly::interpolate(&[FE::new(0), FE::new(1)], &[FE::new(0), FE::new(1)]).unwrap();

    assert_eq!(FE::new(0), p.evaluate(FE::new(0)));
    assert_eq!(FE::new(1), p.evaluate(FE::new(1)));
}

#[test]
fn interpolate_x_0_y_0() {
    let p = Poly::interpolate(&[FE::new(0)], &[FE::new(0)]).unwrap();
    assert_eq!(FE::new(0), p.evaluate(FE::new(0)));
}

#[test]
fn interpolate_with_repeated_nodes_is_rejected() {
    let r = Poly::interpolate(&[FE::new(2), FE::new(2)], &[FE::new(3), FE::new(4)]);
    assert_eq!(r.unwrap_err(), InterpolationError::NonDistinctInterpolationNodes);
}

#[test]
fn division_recombines_to_the_dividend() {
    let p = Poly::new(vec![FE::new(7), FE::new(0), FE::new(5), FE::new(1), FE::new(9)]);
    let d = Poly::new(vec![FE::new(2), FE::new(3), FE::new(1)]);
    let (q, rem) = p.long_division_with_remainder(&d).unwrap();
    assert!(rem.degree() < d.degree() || rem.coefficients().is_empty());
    assert_eq!(q.mul_with_ref(&d).add(&rem), p);
}

#[test]
fn division_of_smaller_degree_returns_the_dividend_as_remainder() {
    let p = Poly::new(vec![FE::new(7), FE::new(3)]);
    let d = Poly::new(vec![FE::new(2), FE::new(3), FE::new(1)]);
    let (q, rem) = p.long_division_with_remainder(&d).unwrap();
    assert!(q.coefficients().is_empty());
    assert_eq!(rem, p);
}
