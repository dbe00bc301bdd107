use pinocchio_vm::circuits::r1cs::{multiply_vectors, Constraint, CreationError, R1CS};
use pinocchio_vm::circuits::test_utils::{
    new_test_first_constraint, new_test_r1cs, new_test_second_constraint,
};
use pinocchio_vm::math::field_element::{FieldElement, OrderLarge};

type FE = FieldElement<OrderLarge>;

fn test_solution() -> Vec<FE> {
    vec![
        FE::new(0),
        FE::new(1),
        FE::new(2),
        FE::new(3),
        FE::new(4),
        FE::new(12),
        FE::new(36),
    ]
}

#[test]
fn mul_vectors_2_2_3_3_equals_12() {
    let v1 = &[FE::new(2), FE::new(2)];
    let v2 = &[FE::new(3), FE::new(3)];

    assert_eq!(multiply_vectors(v1, v2), FE::new(12));
}

#[test]
fn mul_vectors_3_5_equals_15() {
    let v1 = &[FE::new(3)];
    let v2 = &[FE::new(5)];

    assert_eq!(multiply_vectors(v1, v2), FE::new(15));
}

#[test]
fn verify_solution_with_test_circuit_c5_constraints() {
    assert!(new_test_second_constraint().verify_solution(&test_solution()));
}

#[test]
fn verify_solution_with_test_circuit_c6_constraints() {
    assert!(new_test_second_constraint().verify_solution(&test_solution()));
}

#[test]
fn verify_bad_solution_with_test_circuit_c5_constraints() {
    let solution = vec![
        FE::new(0),
        FE::new(0),
        FE::new(0),
        FE::new(4),
        FE::new(5),
        FE::new(0),
        FE::new(0),
    ];
    assert!(!new_test_first_constraint().verify_solution(&solution));
}

#[test]
fn verify_bad_solution_with_test_circuit_c6_constraints() {
    let solution = vec![
        FE::new(0),
        FE::new(2),
        FE::new(1),
        FE::new(4),
        FE::new(5),
        FE::new(2),
        FE::new(2),
    ];
    assert!(!new_test_second_constraint().verify_solution(&solution));
}

#[test]
fn verify_solution_with_new_test_r1cs() {
    assert!(new_test_r1cs().verify_solution(&test_solution()))
}

#[test]
fn verify_bad_solution_with_new_test_r1cs() {
    let solution = vec![
        FE::new(0),
        FE::new(2),
        FE::new(1),
        FE::new(4),
        FE::new(5),
        FE::new(2),
        FE::new(2),
    ];

    assert!(!new_test_r1cs().verify_solution(&solution))
}

#[test]
fn verify_bad_solution_because_of_second_constraint_with_new_test_r1cs() {
    let solution = vec![
        FE::new(0),  // c0
        FE::new(2),  // c1
        FE::new(1),  // c2
        FE::new(5),  // c3
        FE::new(10), // c4
        FE::new(50), // c5 = c4 * c3
        FE::new(2),  // c6 != c5 * (c1+c2), so this should fail
    ];
    assert!(!new_test_r1cs().verify_solution(&solution))
}

#[test]
fn verify_bad_solution_because_of_first_constraint_with_new_test_r1cs() {
    let solution = vec![
        FE::new(0),  // c0
        FE::new(1),  // c1
        FE::new(1),  // c2
        FE::new(5),  // c3
        FE::new(10), // c4
        FE::new(10), // c5 != c4 * c3
        FE::new(20), // c6 = c5 * (c1+c2), so this should fail
    ];
    assert!(!new_test_r1cs().verify_solution(&solution))
}

#[test]
fn constraint_with_mismatched_rows_is_rejected() {
    let r = Constraint::new(vec![FE::new(1)], vec![FE::new(1), FE::new(2)], vec![FE::new(1)]);
    assert_eq!(r.unwrap_err(), CreationError::VectorsSizeMismatch);
}

#[test]
fn r1cs_with_too_many_ios_is_rejected() {
    let constraint: Constraint<OrderLarge> = new_test_first_constraint();
    let r = pinocchio_vm::circuits::r1cs::R1CS::new(vec![constraint], 4, 3);
    assert_eq!(r.unwrap_err(), CreationError::InputOutputTooBig);
}

#[test]
fn r1cs_from_matrixes_carries_the_given_rows() {
    let a = vec![vec![FE::new(1), FE::new(0)], vec![FE::new(0), FE::new(2)]];
    let b = vec![vec![FE::new(3), FE::new(0)], vec![FE::new(0), FE::new(4)]];
    let c = vec![vec![FE::new(5), FE::new(0)], vec![FE::new(0), FE::new(6)]];
    let r1cs = R1CS::new_with_matrixes(a, b, c, 1, 0).unwrap();
    assert_eq!(r1cs.constraints.len(), 2);
    assert_eq!(r1cs.constraints[0].a, vec![FE::new(1), FE::new(0)]);
    assert_eq!(r1cs.constraints[1].b, vec![FE::new(0), FE::new(4)]);
    assert_eq!(r1cs.number_of_inputs, 1);
    assert_eq!(r1cs.number_of_outputs, 0);
}

#[test]
fn r1cs_from_mismatched_matrixes_is_rejected() {
    let a = vec![vec![FE::new(1), FE::new(0)]];
    let b = vec![vec![FE::new(3)]];
    let c = vec![vec![FE::new(5), FE::new(0)]];
    let r = R1CS::new_with_matrixes(a, b, c, 1, 0);
    assert_eq!(r.unwrap_err(), CreationError::VectorsSizeMismatch);
}
