use pinocchio_vm::config::OrderR;
use pinocchio_vm::math::cyclic_group::BilinearCyclicGroup;
use pinocchio_vm::math::elliptic_curve::EllipticCurveElement;
use pinocchio_vm::math::field_element::FieldElement;
use pinocchio_vm::pinocchio::prover::Proof;
use pinocchio_vm::pinocchio::setup::VerificationKey;
use pinocchio_vm::pinocchio::verification::{
    check_appropiate_spans, check_divisibility, check_same_linear_combinations,
};

type FE = FieldElement<OrderR>;

// In this tests we do not hide elements. We work with the raw values instead.
// These are easier to handle and computations can be done with pen and paper.
// Check out the prover tests to see where most of these values come from.
fn dummy_verifying_data_without_hidings() -> (VerificationKey<FE>, Proof<FE>, Vec<FE>) {
    // Dummy verifying key assuming
    // (s, r_v, r_w, alpha_v, alpha_w, alpha_y, beta, gamma) = (1, 1, 1, 2, 2, 2, 3, 1)
    let verifying_key = VerificationKey {
        g_1: FE::new(1),
        g_alpha_v: FE::new(2),
        g_alpha_w: FE::new(2),
        g_alpha_y: FE::new(2),
        g_gamma: FE::new(3),
        g_beta_gamma: FE::new(3),
        gy_target_on_s: FE::new(2),
        gv_ks: vec![FE::new(0), FE::new(6), FE::new(6)],
        gw_ks: vec![FE::new(0), FE::new(6), FE::new(6)],
        gy_ks: vec![FE::new(0), FE::new(6), FE::new(6)],
    };

    let input_output = vec![
        // One input value
        FE::new(3),
        // One output value
        FE::new(1),
    ];

    // This is a valid proof for the above input and output values.
    // See the prover tests to see where this comes from.
    let proof = Proof {
        g_vs: FE::new(6),
        g_ws: FE::new(6),
        g_ys: FE::new(6),
        g_hs: FE::new(120),
        g_alpha_vs: FE::new(12),
        g_alpha_ws: FE::new(12),
        g_alpha_ys: FE::new(12),
        g_beta_vwy: FE::new(18),
    };

    (verifying_key, proof, input_output)
}

#[test]
fn test_divisibility_check_on_correct_proof_without_hidings() {
    let (verifying_key, proof, input_output) = dummy_verifying_data_without_hidings();
    assert!(check_divisibility(&verifying_key, &proof, &input_output));
}

#[test]
fn test_appropiate_spans_on_correct_proof_without_hidings() {
    let (verifying_key, proof, _) = dummy_verifying_data_without_hidings();
    assert!(check_appropiate_spans(&verifying_key, &proof));
}

#[test]
fn test_same_linear_combinations_on_correct_proof_without_hidings() {
    let (verifying_key, proof, _) = dummy_verifying_data_without_hidings();
    assert!(check_same_linear_combinations(&verifying_key, &proof));
}

#[test]
fn test_divisibility_check_correct_on_incorrect_input_output_without_hidings() {
    let (verifying_key, proof, _) = dummy_verifying_data_without_hidings();
    let input_output = vec![FE::new(0), FE::new(0)];
    assert!(!check_divisibility(&verifying_key, &proof, &input_output));
}

#[test]
fn test_appropiate_spans_correct_on_incorrect_proof_without_hidings() {
    let (verifying_key, mut proof, _) = dummy_verifying_data_without_hidings();
    proof.g_alpha_vs = FE::new(0);
    assert!(!check_appropiate_spans(&verifying_key, &proof));
}

#[test]
fn test_same_linear_combinations_on_incorrect_proof_without_hidings() {
    let (verifying_key, mut proof, _) = dummy_verifying_data_without_hidings();
    proof.g_beta_vwy = FE::new(0);
    assert!(!check_same_linear_combinations(&verifying_key, &proof));
}

// The following is the same as before but with hidings on elliptic curves.
fn dummy_verifying_data_with_elliptic_curve_hidings() -> (
    VerificationKey<EllipticCurveElement>,
    Proof<EllipticCurveElement>,
    Vec<FE>,
) {
    let g = EllipticCurveElement::generator();
    // Dummy verifying key assuming
    // (s, r_v, r_w, alpha_v, alpha_w, alpha_y, beta, gamma) = (1, 1, 1, 2, 2, 2, 3, 1)
    let verifying_key = VerificationKey {
        g_1: g.operate_with_self(1),
        g_alpha_v: g.operate_with_self(2),
        g_alpha_w: g.operate_with_self(2),
        g_alpha_y: g.operate_with_self(2),
        g_gamma: g.operate_with_self(3),
        g_beta_gamma: g.operate_with_self(3),
        gy_target_on_s: g.operate_with_self(2),
        gv_ks: vec![
            g.operate_with_self(0),
            g.operate_with_self(6),
            g.operate_with_self(6),
        ],
        gw_ks: vec![
            g.operate_with_self(0),
            g.operate_with_self(6),
            g.operate_with_self(6),
        ],
        gy_ks: vec![
            g.operate_with_self(0),
            g.operate_with_self(6),
            g.operate_with_self(6),
        ],
    };

    let input_output = vec![
        // One input value
        FE::new(3),
        // One output value
        FE::new(1),
    ];

    // This is a valid proof for the above input and output values.
    // See the prover tests to see where this comes from.
    let proof = Proof {
        g_vs: g.operate_with_self(6),
        g_ws: g.operate_with_self(6),
        g_ys: g.operate_with_self(6),
        g_hs: g.operate_with_self(120),
        g_alpha_vs: g.operate_with_self(12),
        g_alpha_ws: g.operate_with_self(12),
        g_alpha_ys: g.operate_with_self(12),
        g_beta_vwy: g.operate_with_self(18),
    };

    (verifying_key, proof, input_output)
}

#[test]
fn test_divisibility_check_correct_on_correct_proof_with_elliptic_curve_hidings() {
    let (verifying_key, proof, input_output) = dummy_verifying_data_with_elliptic_curve_hidings();
    assert!(check_divisibility(&verifying_key, &proof, &input_output));
}

#[test]
fn test_appropiate_spans_correct_on_correct_proof_with_elliptic_curve_hidings() {
    let (verifying_key, proof, _) = dummy_verifying_data_with_elliptic_curve_hidings();
    assert!(check_appropiate_spans(&verifying_key, &proof));
}

#[test]
fn test_same_linear_combinations_on_correct_proof_with_elliptic_curve_hidings() {
    let (verifying_key, proof, _) = dummy_verifying_data_with_elliptic_curve_hidings();
    assert!(check_same_linear_combinations(&verifying_key, &proof));
}

#[test]
fn test_divisibility_check_correct_on_incorrect_input_output_with_elliptic_curve_hidings() {
    let (verifying_key, proof, _) = dummy_verifying_data_with_elliptic_curve_hidings();
    let input_output = vec![FE::new(0), FE::new(1)];
    assert!(!check_divisibility(&verifying_key, &proof, &input_output));
}

#[test]
fn test_appropiate_spans_correct_on_incorrect_proof_with_elliptic_curve_hidings() {
    let (verifying_key, mut proof, _) = dummy_verifying_data_with_elliptic_curve_hidings();
    proof.g_alpha_vs = EllipticCurveElement::neutral_element();
    assert!(!check_appropiate_spans(&verifying_key, &proof));
}

#[test]
fn test_same_linear_combinations_on_incorrect_proof_with_elliptic_curve_hidings() {
    let (verifying_key, mut proof, _) = dummy_verifying_data_with_elliptic_curve_hidings();
    proof.g_beta_vwy = EllipticCurveElement::neutral_element();
    assert!(!check_same_linear_combinations(&verifying_key, &proof));
}
