use pinocchio_vm::config::{OrderP, ORDER_R};
use pinocchio_vm::math::cyclic_group::BilinearCyclicGroup;
use pinocchio_vm::math::elliptic_curve::{EllipticCurveElement, EllipticCurveError};
use pinocchio_vm::math::field_element::FieldElement;
use pinocchio_vm::math::field_extension_element::FieldExtensionElement;
use pinocchio_vm::math::polynomial::Polynomial;

type FE = FieldElement<OrderP>;
type FEE = FieldExtensionElement;

// Tiny Jub Jub
#[test]
fn create_valid_point_works() {
    let point =
        EllipticCurveElement::new(FEE::new_base(35), FEE::new_base(31), FEE::new_base(1)).unwrap();
    assert_eq!(point.x(), &FEE::new_base(35));
    assert_eq!(point.y(), &FEE::new_base(31));
    assert_eq!(point.z(), &FEE::new_base(1));
}

#[test]
fn create_invalid_point_is_rejected() {
    let result = EllipticCurveElement::new(FEE::new_base(0), FEE::new_base(1), FEE::new_base(1));
    assert_eq!(result.unwrap_err(), EllipticCurveError::NotOnCurve);
}

#[test]
fn operate_with_self_works() {
    let mut point_1 = EllipticCurveElement::generator();
    point_1 = point_1.operate_with_self(ORDER_R as u128);
    assert_eq!(point_1, EllipticCurveElement::neutral_element());
}

#[test]
fn doubling_a_point_works() {
    let point =
        EllipticCurveElement::new(FEE::new_base(35), FEE::new_base(31), FEE::new_base(1)).unwrap();
    let expected_result =
        EllipticCurveElement::new(FEE::new_base(25), FEE::new_base(29), FEE::new_base(1)).unwrap();
    assert_eq!(point.operate_with_self(2).affine(), expected_result);
}

#[test]
fn test_weil_pairing() {
    let pa =
        EllipticCurveElement::new(FEE::new_base(35), FEE::new_base(31), FEE::new_base(1)).unwrap();
    let pb = EllipticCurveElement::new(
        FEE::new(Polynomial::new(vec![FE::new(24)])),
        FEE::new(Polynomial::new(vec![FE::new(0), FE::new(31)])),
        FEE::new_base(1),
    )
    .unwrap();
    let expected_result = FEE::new(Polynomial::new(vec![FE::new(46), FE::new(3)]));

    let result_weil = EllipticCurveElement::weil_pairing(&pa, &pb);
    assert_eq!(result_weil, expected_result);
}

#[test]
fn test_tate_pairing() {
    let pa =
        EllipticCurveElement::new(FEE::new_base(35), FEE::new_base(31), FEE::new_base(1)).unwrap();
    let pb = EllipticCurveElement::new(
        FEE::new(Polynomial::new(vec![FE::new(24)])),
        FEE::new(Polynomial::new(vec![FE::new(0), FE::new(31)])),
        FEE::new_base(1),
    )
    .unwrap();
    let expected_result = FEE::new(Polynomial::new(vec![FE::new(42), FE::new(19)]));

    let result_weil = EllipticCurveElement::tate_pairing(&pa, &pb);
    assert_eq!(result_weil, expected_result);
}

#[test]
fn pairing_is_bilinear_on_the_generator() {
    let g = EllipticCurveElement::generator();
    let base = g.pairing(&g);
    // e(aP, bQ) == e(P, Q)^(a*b) for a = 2, b = 3
    let lhs = g.operate_with_self(2).pairing(&g.operate_with_self(3));
    assert_eq!(lhs, base.pow(6));
}

#[test]
fn pairing_with_the_neutral_element_is_one() {
    let g = EllipticCurveElement::generator();
    let o = EllipticCurveElement::neutral_element();
    assert_eq!(g.pairing(&o), FEE::new_base(1));
    assert_eq!(o.pairing(&g), FEE::new_base(1));
}
