use pinocchio_vm::circuits::test_utils::new_test_qap;
use pinocchio_vm::config::OrderR;
use pinocchio_vm::math::cyclic_group::BilinearCyclicGroup;
use pinocchio_vm::math::field_element::FieldElement;
use pinocchio_vm::pinocchio::setup::{setup, EvaluationKey, ToxicWaste, VerificationKey};

type FE = FieldElement<OrderR>;

fn identity_toxic_waste() -> ToxicWaste {
    ToxicWaste::new(
        FE::new(1),
        FE::new(1),
        FE::new(1),
        FE::new(1),
        FE::new(1),
        FE::new(1),
        FE::new(1),
        FE::new(1),
    )
}

#[test]
fn evaluation_keys_size_for_test_circuit_is_1_for_each_key() {
    let (eval_key, _): (EvaluationKey<FE>, VerificationKey<FE>) =
        setup(&new_test_qap().unwrap(), &identity_toxic_waste());
    assert_eq!(eval_key.gv_ks.len(), 1);
    assert_eq!(eval_key.gw_ks.len(), 1);
    assert_eq!(eval_key.gy_ks.len(), 1);
    assert_eq!(eval_key.gv_alphaks.len(), 1);
    assert_eq!(eval_key.gw_alphaks.len(), 1);
    assert_eq!(eval_key.gy_alphaks.len(), 1);
    assert_eq!(eval_key.g_beta.len(), 1);
}

// This test makes a manual computation of each field and compares it
// with the given values of the eval key
#[test]
fn eval_key_returns_appropiate_values() {
    let r5 = FE::new(2);
    let tw = ToxicWaste::new(
        FE::new(2),
        FE::new(2),
        FE::new(2),
        FE::new(2),
        FE::new(2),
        FE::new(2),
        FE::new(2),
        FE::new(1),
    );

    let g = FE::generator();
    let test_circuit = new_test_qap().unwrap();

    let (eval_key, _): (EvaluationKey<FE>, VerificationKey<FE>) = setup(&test_circuit, &tw);

    // These keys should be the same evaluation * rv, which is two
    assert_eq!(
        eval_key.gv_ks[0],
        g.operate_with_self(
            test_circuit.v_mid()[0].evaluate(r5).mul(FE::new(2)).representative()
        )
    );
    assert_eq!(
        eval_key.gw_ks[0],
        g.operate_with_self(
            test_circuit.w_mid()[0].evaluate(r5).mul(FE::new(2)).representative()
        )
    );
    // These keys should be the same evaluation * ys, which is two
    // Since the whole thing is 0
    assert_eq!(
        eval_key.gy_ks[0],
        g.operate_with_self(
            test_circuit.y_mid()[0].evaluate(r5).mul(FE::new(4)).representative()
        )
    );

    // alpha * rv and alpha * rw is 4
    assert_eq!(
        eval_key.gv_alphaks[0],
        g.operate_with_self(
            test_circuit.v_mid()[0].evaluate(r5).mul(FE::new(4)).representative()
        )
    );
    assert_eq!(
        eval_key.gv_alphaks[0],
        g.operate_with_self(
            test_circuit.v_mid()[0].evaluate(r5).mul(FE::new(4)).representative()
        )
    );
    // alpha * ry and alpha * rw is 8
    assert_eq!(
        eval_key.gv_alphaks[0],
        g.operate_with_self(
            test_circuit.v_mid()[0].evaluate(r5).mul(FE::new(8)).representative()
        )
    );

    assert_eq!(
        eval_key.g_beta[0],
        // beta * rv is 4
        g.operate_with_self(
            test_circuit.v_mid()[0]
                .evaluate(r5)
                .mul(FE::new(4))
                .add(
                    test_circuit.w_mid()[0].evaluate(r5).mul(FE::new(4)).add(
                        // beta * ry is 8
                        test_circuit.y_mid()[0].evaluate(r5).mul(FE::new(8))
                    )
                )
                .representative()
        )
    )
}

#[test]
fn verification_key_gvks_has_length_6_for_test_circuit() {
    let (_, vk): (EvaluationKey<FE>, VerificationKey<FE>) =
        setup(&new_test_qap().unwrap(), &identity_toxic_waste());
    assert_eq!(vk.gv_ks.len(), 6);
    assert_eq!(vk.gw_ks.len(), 6);
    assert_eq!(vk.gy_ks.len(), 6);
}
