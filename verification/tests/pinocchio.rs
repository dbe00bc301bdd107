/// Integration test with the happy path: Setup -> Proof generation -> Proof verification.
use pinocchio_vm::circuits::qap::Qap;
use pinocchio_vm::circuits::test_utils::{new_test_r1cs, test_qap_solver};
use pinocchio_vm::config::OrderR;
use pinocchio_vm::math::cyclic_group::BilinearCyclicGroup;
use pinocchio_vm::math::elliptic_curve::EllipticCurveElement;
use pinocchio_vm::math::field_element::FieldElement;
use pinocchio_vm::pinocchio::prover;
use pinocchio_vm::pinocchio::setup::{setup, EvaluationKey, ToxicWaste, VerificationKey};
use pinocchio_vm::pinocchio::verification;

type FE = FieldElement<OrderR>;

fn test_pinocchio(toxic_waste: ToxicWaste) {
    // Get example circuit.
    let test_qap = Qap::from_r1cs(&new_test_r1cs()).unwrap();

    // Construct the evaluation and veryfing key.
    let (evaluation_key, verification_key): (
        EvaluationKey<EllipticCurveElement>,
        VerificationKey<EllipticCurveElement>,
    ) = setup(&test_qap, &toxic_waste);

    // Declare inputs to the circuit. Here we choose the ones from the example
    // of the paper.
    let inputs = [FE::new(1), FE::new(2), FE::new(3), FE::new(4)];

    // Execute the circuit with the above inputs.
    // Get the output and all the intermediate values,
    // that is, the values of the circuit wires.
    let (c_mid, c_output) = test_qap_solver(inputs);

    // Construct the witness. In the context of Pinocchio
    // this means the tuple of all the values corresponding
    // to the inputs, the outputs and the values of the
    // circuit wires. The prover needs all this to construct
    // the proof. The constant-one wire stands at index 0.
    let mut c_vector = vec![FE::new(1)];
    c_vector.extend(inputs.to_vec());
    c_vector.push(c_mid);
    c_vector.push(c_output);

    // Generate the proof of execution.
    let proof = prover::generate_proof(&evaluation_key, &test_qap, &c_vector).unwrap();

    // Collect all inputs and ouputs of the circuit.
    let mut c_io_vector = inputs.to_vec();
    c_io_vector.push(c_output);

    // Verify the proof.
    let accepted = verification::verify(&verification_key, &proof, &c_io_vector);

    // Accept or reject the proof.
    assert!(accepted);
}

#[test]
fn test_pinocchio_random_toxic_wate() {
    let toxic_waste = ToxicWaste::sample();
    test_pinocchio(toxic_waste);
}

#[test]
fn test_pinocchio_2() {
    let toxic_waste = ToxicWaste::new(
        FE::new(2),
        FE::new(3),
        FE::new(3),
        FE::new(4),
        FE::new(2),
        FE::new(3),
        FE::new(2),
        FE::new(3),
    );
    test_pinocchio(toxic_waste);
}

fn run_example_circuit(
    inputs: [FE; 4],
    c_mid: FE,
    c_output: FE,
    io_output: FE,
    checked: bool,
    toxic_waste: ToxicWaste,
) -> bool {
    let test_qap = Qap::from_r1cs(&new_test_r1cs()).unwrap();
    let (evaluation_key, verification_key): (
        EvaluationKey<EllipticCurveElement>,
        VerificationKey<EllipticCurveElement>,
    ) = setup(&test_qap, &toxic_waste);

    let mut c_vector = vec![FE::new(1)];
    c_vector.extend(inputs.to_vec());
    c_vector.push(c_mid);
    c_vector.push(c_output);

    let proof = if checked {
        prover::generate_proof(&evaluation_key, &test_qap, &c_vector).unwrap()
    } else {
        prover::generate_proof_unchecked(&evaluation_key, &test_qap, &c_vector).unwrap()
    };

    let mut c_io_vector = inputs.to_vec();
    c_io_vector.push(io_output);

    verification::verify(&verification_key, &proof, &c_io_vector)
}

fn generic_toxic_waste() -> ToxicWaste {
    ToxicWaste::new(
        FE::new(2),
        FE::new(3),
        FE::new(3),
        FE::new(4),
        FE::new(2),
        FE::new(3),
        FE::new(2),
        FE::new(3),
    )
}

#[test]
fn example_circuit_accepts_1_2_3_4() {
    let inputs = [FE::new(1), FE::new(2), FE::new(3), FE::new(4)];
    let (c_mid, c_output) = test_qap_solver(inputs);
    // (12 mod 5, 36 mod 5) = (2, 1)
    assert_eq!(c_mid, FE::new(2));
    assert_eq!(c_output, FE::new(1));
    assert!(run_example_circuit(inputs, c_mid, c_output, c_output, true, ToxicWaste::sample()));
}

#[test]
fn example_circuit_accepts_2_2_2_2() {
    let inputs = [FE::new(2), FE::new(2), FE::new(2), FE::new(2)];
    let (c_mid, c_output) = test_qap_solver(inputs);
    // (4, 16 mod 5) = (4, 1)
    assert_eq!(c_mid, FE::new(4));
    assert_eq!(c_output, FE::new(1));
    assert!(run_example_circuit(inputs, c_mid, c_output, c_output, true, ToxicWaste::sample()));
}

#[test]
fn example_circuit_rejects_3_3_3_3_with_wrong_mid_wire() {
    let inputs = [FE::new(3), FE::new(3), FE::new(3), FE::new(3)];
    let (_c_mid, c_output) = test_qap_solver(inputs);
    // claim c_mid = 0 instead of the correct value
    assert!(!run_example_circuit(inputs, FE::new(0), c_output, c_output, false, generic_toxic_waste()));
}

#[test]
fn example_circuit_rejects_1_2_3_4_with_swapped_output() {
    let inputs = [FE::new(1), FE::new(2), FE::new(3), FE::new(4)];
    let (c_mid, c_output) = test_qap_solver(inputs);
    // hand the verifier output 2 instead of the correct 1
    assert!(!run_example_circuit(inputs, c_mid, c_output, FE::new(2), true, generic_toxic_waste()));
}

#[test]
fn example_circuit_accepts_0_3_0_0_with_zero_mid_wire() {
    let inputs = [FE::new(0), FE::new(3), FE::new(0), FE::new(0)];
    let (c_mid, c_output) = test_qap_solver(inputs);
    // corner case: the mid wire is zero
    assert_eq!(c_mid, FE::new(0));
    assert_eq!(c_output, FE::new(0));
    assert!(run_example_circuit(inputs, c_mid, c_output, c_output, true, ToxicWaste::sample()));
}

#[test]
fn verification_rejects_a_proof_with_neutral_primed_hiding() {
    let test_qap = Qap::from_r1cs(&new_test_r1cs()).unwrap();
    let toxic_waste = generic_toxic_waste();
    let (evaluation_key, verification_key): (
        EvaluationKey<EllipticCurveElement>,
        VerificationKey<EllipticCurveElement>,
    ) = setup(&test_qap, &toxic_waste);

    let inputs = [FE::new(1), FE::new(2), FE::new(3), FE::new(4)];
    let (c_mid, c_output) = test_qap_solver(inputs);
    let mut c_vector = vec![FE::new(1)];
    c_vector.extend(inputs.to_vec());
    c_vector.push(c_mid);
    c_vector.push(c_output);

    let mut proof = prover::generate_proof(&evaluation_key, &test_qap, &c_vector).unwrap();
    proof.g_alpha_ws = EllipticCurveElement::neutral_element();

    let mut c_io_vector = inputs.to_vec();
    c_io_vector.push(c_output);

    assert!(!verification::verify(&verification_key, &proof, &c_io_vector));
}
