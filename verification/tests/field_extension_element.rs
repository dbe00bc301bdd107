use pinocchio_vm::config::OrderP;
use pinocchio_vm::math::field_element::{FieldElement, FieldElementError};
use pinocchio_vm::math::field_extension_element::FieldExtensionElement;
use pinocchio_vm::math::polynomial::Polynomial;

type FE = FieldElement<OrderP>;
type FEE = FieldExtensionElement;

#[test]
fn extension_elements_are_reduced_to_degree_below_two() {
    // X^2 reduces to -1 modulo the defining polynomial 1 + X^2
    let x_squared = FEE::new(Polynomial::new_monomial(FE::new(1), 2));
    assert_eq!(x_squared, FEE::new_base(58));
}

#[test]
fn product_of_extension_elements_has_degree_below_two() {
    let a = FEE::new(Polynomial::new(vec![FE::new(3), FE::new(4)]));
    let b = FEE::new(Polynomial::new(vec![FE::new(7), FE::new(8)]));
    let product = a.mul(&b);
    // (3 + 4X)(7 + 8X) = 21 + 52X + 32X^2 = (21 - 32) + 52X = 48 + 52X
    assert_eq!(product, FEE::new(Polynomial::new(vec![FE::new(48), FE::new(52)])));
}

#[test]
fn nonzero_extension_element_times_its_inverse_is_one() {
    let a = FEE::new(Polynomial::new(vec![FE::new(12), FE::new(5)]));
    let inverse = a.inv().unwrap();
    assert_eq!(a.mul(&inverse), FEE::new_base(1));
}

#[test]
fn inverting_the_zero_extension_element_fails() {
    let zero = FEE::new_base(0);
    assert_eq!(zero.inv().unwrap_err(), FieldElementError::DivisionByZero);
}

#[test]
fn extension_addition_is_coefficient_wise() {
    let a = FEE::new(Polynomial::new(vec![FE::new(50), FE::new(30)]));
    let b = FEE::new(Polynomial::new(vec![FE::new(20), FE::new(40)]));
    assert_eq!(a.add(&b), FEE::new(Polynomial::new(vec![FE::new(11), FE::new(11)])));
}

#[test]
fn extension_division_recovers_the_dividend() {
    let a = FEE::new(Polynomial::new(vec![FE::new(9), FE::new(2)]));
    let b = FEE::new(Polynomial::new(vec![FE::new(5), FE::new(44)]));
    let quotient = a.div(&b).unwrap();
    assert_eq!(quotient.mul(&b), a);
}
