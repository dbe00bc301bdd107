use pinocchio_vm::circuits::qap::{CreationError, Qap};
use pinocchio_vm::circuits::r1cs::R1CS;
use pinocchio_vm::circuits::test_utils::{new_test_first_constraint, new_test_qap};
use pinocchio_vm::math::polynomial::InterpolationError;
use pinocchio_vm::config::OrderR;
use pinocchio_vm::math::field_element::FieldElement;
use pinocchio_vm::math::polynomial::Polynomial;

type FE = FieldElement<OrderR>;

#[test]
fn qap_with_different_amount_of_polynomials_should_error() {
    let v = vec![
        Polynomial::new(vec![FE::new(1), FE::new(2)]),
        Polynomial::new(vec![FE::new(2), FE::new(3)]),
    ];

    let u = v.clone();
    let w = vec![Polynomial::new(vec![FE::new(1), FE::new(2)])];
    let t = Polynomial::new(vec![FE::new(3)]);
    assert_eq!(
        Err(CreationError::PolynomialVectorsSizeMismatch),
        Qap::new(v, u, w, t, 2, 1)
    );
}

#[test]
fn qap_with_too_many_ios_should_error() {
    let v = vec![
        Polynomial::new(vec![FE::new(1), FE::new(2)]),
        Polynomial::new(vec![FE::new(2), FE::new(3)]),
    ];
    let u = v.clone();
    let w = v.clone();
    let t = Polynomial::new(vec![FE::new(3)]);
    assert_eq!(Err(CreationError::InputOutputTooBig), Qap::new(v, u, w, t, 1, 1));
}

#[test]
fn test_circuit_v_w_y_have_7_elements() {
    let test_circuit = new_test_qap().unwrap();
    assert_eq!(test_circuit.vs.len(), 7);
    assert_eq!(test_circuit.ws.len(), 7);
    assert_eq!(test_circuit.ys.len(), 7);
}

//_mid polynomials of test circuit contains only one polynomial
#[test]
fn v_mid_test_circuit_on_r6_is_0() {
    let test_circuit = new_test_qap().unwrap();
    let r6 = Qap::test_qap_r6();
    assert_eq!(test_circuit.y_mid()[0].evaluate(r6), FE::new(0));
}

#[test]
fn w_mid_test_circuit_has_one_element() {
    let test_circuit = new_test_qap().unwrap();
    assert_eq!(test_circuit.v_mid().len(), 1);
}

#[test]
fn w_mid_test_circuit_on_r5_is_0() {
    let test_circuit = new_test_qap().unwrap();
    let r5 = Qap::test_qap_r5();
    assert_eq!(test_circuit.w_mid()[0].evaluate(r5), FE::new(0));
}

#[test]
fn w_mid_test_circuit_on_r6_is_1() {
    let test_circuit = new_test_qap().unwrap();
    let r6 = Qap::test_qap_r6();
    assert_eq!(test_circuit.w_mid()[0].evaluate(r6), FE::new(1));
}

#[test]
fn y_mid_test_circuit_on_r5_is_1() {
    let test_circuit = new_test_qap().unwrap();
    let r5 = Qap::test_qap_r5();
    assert_eq!(test_circuit.y_mid()[0].evaluate(r5), FE::new(1));
}

#[test]
fn y_mid_test_circuit_on_r6_is_0() {
    let test_circuit = new_test_qap().unwrap();
    let r6 = Qap::test_qap_r6();
    assert_eq!(test_circuit.y_mid()[0].evaluate(r6), FE::new(0));
}

#[test]
fn v_input_test_circuit_has_length_4() {
    let test_circuit = new_test_qap().unwrap();
    assert_eq!(test_circuit.v_input().len(), 4);
}

#[test]
fn w_input_test_circuit_has_length_4() {
    let test_circuit = new_test_qap().unwrap();
    assert_eq!(test_circuit.w_input().len(), 4);
}

#[test]
fn y_input_test_circuit_has_length_4() {
    let test_circuit = new_test_qap().unwrap();
    assert_eq!(test_circuit.y_input().len(), 4);
}

#[test]
fn v_output_test_circuit_has_length_1() {
    let test_circuit = new_test_qap().unwrap();
    assert_eq!(test_circuit.v_output().len(), 1);
}

#[test]
fn w_output_test_circuit_has_length_1() {
    let test_circuit = new_test_qap().unwrap();
    assert_eq!(test_circuit.w_output().len(), 1);
}

#[test]
fn y_output_test_circuit_has_length_1() {
    let test_circuit = new_test_qap().unwrap();
    assert_eq!(test_circuit.y_output().len(), 1);
}

#[test]
/// This test runs multiple cases calculated in paper
/// t polynomial is tested implicitly by calculating h = p / t
fn test_polynomial_h_cases() {
    let test_circuit = new_test_qap().unwrap();

    let inputs = [FE::new(1), FE::new(2), FE::new(3), FE::new(4)];

    let (c5, c6) = Qap::test_qap_solver(inputs);

    let mut c_vector = vec![FE::new(1)];
    c_vector.extend(inputs.to_vec());
    c_vector.append(&mut vec![c5, c6]);

    assert_eq!(
        test_circuit.h_polynomial(&c_vector).unwrap(),
        Polynomial::new_monomial(FE::new(0), 0)
    );

    let inputs = [FE::new(2), FE::new(2), FE::new(2), FE::new(2)];

    let (c5, c6) = Qap::test_qap_solver(inputs);

    let mut c_vector = vec![FE::new(1)];
    c_vector.extend(inputs.to_vec());
    c_vector.append(&mut vec![c5, c6]);

    assert_eq!(
        test_circuit.h_polynomial(&c_vector).unwrap(),
        Polynomial::new_monomial(FE::new(4), 0)
    );

    let inputs = [FE::new(3), FE::new(3), FE::new(3), FE::new(3)];

    let (c5, c6) = Qap::test_qap_solver(inputs);

    let mut c_vector = vec![FE::new(1)];
    c_vector.extend(inputs.to_vec());
    c_vector.append(&mut vec![c5, c6]);

    assert_eq!(
        test_circuit.h_polynomial(&c_vector).unwrap(),
        Polynomial::new_monomial(FE::new(18), 0)
    );

    let inputs = [FE::new(4), FE::new(3), FE::new(2), FE::new(1)];

    let (c5, c6) = Qap::test_qap_solver(inputs);

    let mut c_vector = vec![FE::new(1)];
    c_vector.extend(inputs.to_vec());
    c_vector.append(&mut vec![c5, c6]);

    assert_eq!(
        test_circuit.h_polynomial(&c_vector).unwrap(),
        Polynomial::new_monomial(FE::new(5), 0)
    );
}

#[test]
fn test_circuit_solver_on_2_2_2_2_outputs_4_and_16() {
    let inputs = [FE::new(2), FE::new(2), FE::new(2), FE::new(2)];

    let (c5, c6) = Qap::test_qap_solver(inputs);
    assert_eq!(c5, FE::new(4));
    assert_eq!(c6, FE::new(16));
}

#[test]
fn test_circuit_solver_on_1_2_3_4_outputs_12_and_36() {
    let inputs = [FE::new(1), FE::new(2), FE::new(3), FE::new(4)];

    let (c5, c6) = Qap::test_qap_solver(inputs);
    assert_eq!(c5, FE::new(12));
    assert_eq!(c6, FE::new(36));
}

#[test]
fn qap_from_r1cs_rejects_more_constraints_than_field_elements() {
    // six constraints need six distinct evaluation points, one more than
    // the scalar field holds
    let mut constraints = Vec::new();
    for _ in 0..6 {
        constraints.push(new_test_first_constraint());
    }
    let r1cs: R1CS<OrderR> = R1CS::new(constraints, 4, 1).unwrap();
    let r = Qap::from_r1cs(&r1cs);
    assert_eq!(r.unwrap_err(), InterpolationError::NonDistinctInterpolationNodes);
}

#[test]
fn qap_from_r1cs_interpolates_the_constraint_columns() {
    let r1cs = pinocchio_vm::circuits::test_utils::new_test_r1cs();
    let qap = Qap::from_r1cs(&r1cs).unwrap();
    assert_eq!(qap.vs.len(), 7);
    assert_eq!(qap.number_of_inputs, 4);
    assert_eq!(qap.number_of_outputs, 1);
    // the columns of the first matrix, read at the first evaluation point
    assert_eq!(qap.vs[3].evaluate(FE::new(0)), FE::new(1));
    assert_eq!(qap.vs[1].evaluate(FE::new(1)), FE::new(1));
    assert_eq!(qap.ws[4].evaluate(FE::new(0)), FE::new(1));
    assert_eq!(qap.ys[5].evaluate(FE::new(0)), FE::new(1));
    assert_eq!(qap.ys[6].evaluate(FE::new(1)), FE::new(1));
    // the target vanishes at both evaluation points
    assert_eq!(qap.target.evaluate(FE::new(0)), FE::new(0));
    assert_eq!(qap.target.evaluate(FE::new(1)), FE::new(0));
    assert_eq!(qap.target.degree(), 2);
}
