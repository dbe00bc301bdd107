use pinocchio_vm::math::cyclic_group::BilinearCyclicGroup;
use pinocchio_vm::math::field_element::{FieldElement, FieldElementError, OrderLarge, ORDER};

type FE = FieldElement<OrderLarge>;

#[test]
fn order_must_small_as_to_not_allow_overflows() {
    // ORDER*ORDER < u128::MAX
    assert!(ORDER <= u64::MAX.into());
}

#[test]
fn two_plus_one_is_three() {
    assert_eq!(FE::new(2).add(FE::new(1)), FE::new(3));
}

#[test]
fn max_order_plus_1_is_0() {
    assert_eq!(FE::new(ORDER - 1).add(FE::new(1)), FE::new(0));
}

#[test]
fn when_comparing_13_and_13_they_are_equal() {
    let a: FE = FE::new(13);
    let b: FE = FE::new(13);
    assert_eq!(a, b);
}

#[test]
fn when_comparing_13_and_8_they_are_different() {
    let a: FE = FE::new(13);
    let b: FE = FE::new(8);
    assert_ne!(a, b);
}

#[test]
fn mul_neutral_element() {
    let a: FE = FE::new(1);
    let b: FE = FE::new(2);
    assert_eq!(a.mul(b), FE::new(2));
}

#[test]
fn mul_2_3_is_6() {
    let a: FE = FE::new(2);
    let b: FE = FE::new(3);
    assert_eq!(a.mul(b), FE::new(6));
}

#[test]
fn mul_order_minus_1() {
    let a: FE = FE::new(ORDER - 1);
    let b: FE = FE::new(ORDER - 1);
    assert_eq!(a.mul(b), FE::new(1));
}

#[test]
fn inv_0_error() {
    let a: FE = FE::new(0);
    assert_eq!(a.inv().unwrap_err(), FieldElementError::DivisionByZero);
}

#[test]
fn inv_2() {
    let a: FE = FE::new(2);
    assert_eq!(a.mul(a.inv().unwrap()), FE::new(1));
}

#[test]
fn pow_2_3() {
    assert_eq!(FE::new(2).pow(3), FE::new(8))
}

#[test]
fn pow_p_minus_1() {
    assert_eq!(FE::new(2).pow(ORDER - 1), FE::new(1))
}

#[test]
fn div_1() {
    assert_eq!(FE::new(2).div(FE::new(1)).unwrap(), FE::new(2))
}

#[test]
fn div_4_2() {
    assert_eq!(FE::new(4).div(FE::new(2)).unwrap(), FE::new(2))
}

#[test]
fn div_4_3() {
    assert_eq!(FE::new(4).div(FE::new(3)).unwrap().mul(FE::new(3)), FE::new(4))
}

#[test]
fn two_plus_its_additive_inv_is_0() {
    let two = FE::new(2);

    assert_eq!(two.add(two.neg()), FE::new(0))
}

#[test]
fn four_minus_three_is_1() {
    let four = FE::new(4);
    let three = FE::new(3);

    assert_eq!(four.sub(three), FE::new(1))
}

#[test]
fn zero_minus_1_is_order_minus_1() {
    let zero = FE::new(0);
    let one = FE::new(1);

    assert_eq!(zero.sub(one), FE::new(ORDER - 1))
}

#[test]
fn neg_zero_is_zero() {
    let zero = FE::new(0);

    assert_eq!(zero.neg(), zero);
}

#[test]
fn zero_constructor_returns_zero() {
    assert_eq!(FE::new(0), FE::new(0));
}

#[test]
fn field_element_field_element_as_group_element_generator_returns_one() {
    assert_eq!(FE::generator(), FE::new(1));
}

#[test]
fn field_element_field_element_as_group_element_multiplication_by_scalar_works_as_multiplication_in_finite_fields(
) {
    let a = FE::new(3);
    let b = FE::new(12);
    assert_eq!(a.mul(b), a.operate_with_self(b.representative()));
}

#[test]
fn field_element_field_element_as_group_element_pairing_works_as_multiplication_in_finite_fields() {
    let a = FE::new(3);
    let b = FE::new(12);
    assert_eq!(a.mul(b), a.pairing(&b));
}

#[test]
fn group_element_field_element_as_group_element_generator_returns_one() {
    assert_eq!(FE::generator(), FE::new(1));
}

#[test]
fn group_element_field_element_as_group_element_multiplication_by_scalar_works_as_multiplication_in_finite_fields(
) {
    let a = FE::new(3);
    let b = FE::new(12);
    assert_eq!(a.mul(b), a.operate_with_self(b.representative()));
}

#[test]
fn group_element_field_element_as_group_element_pairing_works_as_multiplication_in_finite_fields() {
    let a = FE::new(3);
    let b = FE::new(12);
    assert_eq!(a.mul(b), a.pairing(&b));
}

#[test]
fn addition_is_associative_on_sample_values() {
    let x = FE::new(ORDER - 2);
    let y = FE::new(7);
    let z = FE::new(ORDER - 5);
    assert_eq!(x.add(y).add(z), x.add(y.add(z)));
}

#[test]
fn multiplication_distributes_over_addition_on_sample_values() {
    let x = FE::new(3);
    let y = FE::new(ORDER - 4);
    let z = FE::new(11);
    assert_eq!(x.mul(y.add(z)), x.mul(y).add(x.mul(z)));
}

#[test]
fn random_elements_are_canonical_residues() {
    for _ in 0..32 {
        let r = FE::random();
        assert!(r.representative() < ORDER);
    }
}

#[test]
fn nonzero_element_to_the_order_minus_one_is_one() {
    let a = FE::new(123456789);
    assert_eq!(a.pow(ORDER - 1), FE::new(1));
}
