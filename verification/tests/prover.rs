use pinocchio_vm::circuits::qap::Qap;
use pinocchio_vm::config::OrderR;
use pinocchio_vm::math::cyclic_group::BilinearCyclicGroup;
use pinocchio_vm::math::elliptic_curve::EllipticCurveElement;
use pinocchio_vm::math::field_element::FieldElement;
use pinocchio_vm::math::polynomial::Polynomial;
use pinocchio_vm::pinocchio::prover::{generate_proof, ProverError};
use pinocchio_vm::pinocchio::setup::EvaluationKey;

type FE = FieldElement<OrderR>;

// This test runs the proof algorithms with some easy inputs
// to check operations are correct
// The evaluation key and polynomials have dummy values and do
// not correspond to any circuit.
#[test]
fn test_proof_is_generated_correctly_when_using_raw_values_instead_of_hidings() {
    // In this test we do not hide elements. We work with the raw values instead.
    // These are easier to handle and computations can be done with pen and paper.

    // We choose a dummy `target_qap` to be t = X + 1
    let target_qap = Polynomial::new(vec![FE::new(1), FE::new(1)]);

    // We choose vs = [t, t, t, t, t]. The same for ws, and ys.
    let vs = vec![target_qap.clone(); 5];
    let ws = vec![target_qap.clone(); 5];
    let ys = vec![target_qap.clone(); 5];

    // There is 1 input and 1 output. So there are 2 middle values.
    let easy_qap = Qap {
        vs,
        ws,
        ys,
        target: target_qap,
        number_of_inputs: 1,
        number_of_outputs: 1,
    };
    // Dummy evaluation key assuming
    // (s, r_v, r_w, alpha_v, alpha_w, alpha_y, beta, gamma) = (1, 1, 1, 2, 2, 2, 3, 1)
    let evaluation_key = EvaluationKey {
        gv_ks: vec![FE::new(2), FE::new(2)],
        gw_ks: vec![FE::new(2), FE::new(2)],
        gy_ks: vec![FE::new(2), FE::new(2)],
        gv_alphaks: vec![FE::new(4), FE::new(4)],
        gw_alphaks: vec![FE::new(4), FE::new(4)],
        gy_alphaks: vec![FE::new(4), FE::new(4)],
        g_s_i: vec![FE::new(1), FE::new(1)],
        g_beta: vec![FE::new(18), FE::new(18)],
    };

    let c_coefficients = vec![
        // the constant-one wire
        FE::new(1),
        // c1
        FE::new(3),
        // c_mids:
        // c_2
        FE::new(2),
        // c_3
        FE::new(1),
        // output:
        // c4
        FE::new(1),
    ];

    let proof = generate_proof(&evaluation_key, &easy_qap, &c_coefficients).unwrap();

    // For this choice of dummy polynomials and circuit wire values, we obtain
    // v = t + c_1 * t + c_2 * t + c_3 * t + c_4 * t, and v_{mid} = c_2 * t + c_3 * t.
    // And similarly for v and w.
    // Since in our evaluation key we are assuming that the component `s`
    // of the toxic waste is 1, we have v_{mid}(s) = 2 * t(1) + 1 * t(1) = 6.
    assert_eq!(proof.g_vs, FE::new(6));
    assert_eq!(proof.g_ws, FE::new(6));
    assert_eq!(proof.g_ys, FE::new(6));
    assert_eq!(proof.g_alpha_vs, FE::new(2 * 6));
    assert_eq!(proof.g_alpha_ws, FE::new(2 * 6));
    assert_eq!(proof.g_alpha_ws, FE::new(2 * 6));

    // On the other hand p = vw - y = r^2 * t^2 - r * t,
    // where r = 1 + c_1 + c_2 + c_3 + c_4 = 8.
    // Therefore h = p / t = r^2 * t - r = 64 * t - 8.
    // we have h(s) = h(1) = 64 * t(1) - 8 = 64 * 2 - 8 = 120.
    assert_eq!(proof.g_hs, FE::new(120));

    assert_eq!(proof.g_beta_vwy, FE::new(3 * 6 + 3 * 6 + 3 * 6));
}

#[test]
fn test_proof_is_generated_correctly_when_hiding_in_elliptic_curves() {
    // Same test as before, but this time hiding points in elliptic curves
    let target_qap = Polynomial::new(vec![FE::new(1), FE::new(1)]);
    let vs = vec![target_qap.clone(); 5];
    let ws = vec![target_qap.clone(); 5];
    let ys = vec![target_qap.clone(); 5];

    let easy_qap = Qap {
        vs,
        ws,
        ys,
        target: target_qap,
        number_of_inputs: 1,
        number_of_outputs: 1,
    };

    let g = EllipticCurveElement::generator();

    let evaluation_key = EvaluationKey {
        gv_ks: vec![g.operate_with_self(2), g.operate_with_self(2)],
        gw_ks: vec![g.operate_with_self(2), g.operate_with_self(2)],
        gy_ks: vec![g.operate_with_self(2), g.operate_with_self(2)],
        gv_alphaks: vec![g.operate_with_self(4), g.operate_with_self(4)],
        gw_alphaks: vec![g.operate_with_self(4), g.operate_with_self(4)],
        gy_alphaks: vec![g.operate_with_self(4), g.operate_with_self(4)],
        g_s_i: vec![g.clone(), g.clone()],
        g_beta: vec![g.operate_with_self(18), g.operate_with_self(18)],
    };

    let c_coefficients = vec![FE::new(1), FE::new(3), FE::new(2), FE::new(1), FE::new(1)];

    let proof = generate_proof(&evaluation_key, &easy_qap, &c_coefficients).unwrap();

    assert_eq!(proof.g_vs, g.operate_with_self(6));
    assert_eq!(proof.g_ws, g.operate_with_self(6));
    assert_eq!(proof.g_ys, g.operate_with_self(6));
    assert_eq!(proof.g_alpha_vs, g.operate_with_self(2 * 6));
    assert_eq!(proof.g_alpha_ws, g.operate_with_self(2 * 6));
    assert_eq!(proof.g_alpha_ws, g.operate_with_self(2 * 6));

    assert_eq!(proof.g_hs, g.operate_with_self(120));

    assert_eq!(proof.g_beta_vwy, g.operate_with_self(3 * 6 + 3 * 6 + 3 * 6));
}

#[test]
fn proving_an_unsatisfying_assignment_is_rejected() {
    let test_qap = pinocchio_vm::circuits::test_utils::new_test_qap().unwrap();
    let toxic_waste = pinocchio_vm::pinocchio::setup::ToxicWaste::sample();
    let (evaluation_key, _verification_key): (
        EvaluationKey<EllipticCurveElement>,
        pinocchio_vm::pinocchio::setup::VerificationKey<EllipticCurveElement>,
    ) = pinocchio_vm::pinocchio::setup::setup(&test_qap, &toxic_waste);

    // c5 should be 9 for the inputs (3, 3, 3, 3); claim 0 instead
    let c_vector = vec![
        FE::new(1),
        FE::new(3),
        FE::new(3),
        FE::new(3),
        FE::new(3),
        FE::new(0),
        FE::new(4),
    ];
    let result = generate_proof(&evaluation_key, &test_qap, &c_vector);
    assert_eq!(result.unwrap_err(), ProverError::AssignmentUnsatisfiesCircuit);
}
