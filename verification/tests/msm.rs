use pinocchio_vm::config::OrderR;
use pinocchio_vm::math::cyclic_group::BilinearCyclicGroup;
use pinocchio_vm::math::elliptic_curve::EllipticCurveElement;
use pinocchio_vm::math::field_element::FieldElement;
use pinocchio_vm::math::msm::msm;

type FE = FieldElement<OrderR>;
pub type CyclicBilinearGroupType = EllipticCurveElement;

//MSM tests require the CyclicBilinearGroupType to be a FieldElement
#[test]
fn msm_11_is_1() {
    let c = [FE::new(1)];
    let hiding = [CyclicBilinearGroupType::generator()];
    assert_eq!(msm(&c, &hiding), CyclicBilinearGroupType::generator());
}

#[test]
fn msm_23_is_6() {
    let c = [FE::new(3)];
    let hiding = [FE::new(2)];
    assert_eq!(msm(&c, &hiding), FE::new(6));
}

#[test]
fn msm_with_c_2_3_hiding_3_4_is_18() {
    let c = [FE::new(2), FE::new(3)];
    let hiding = [FE::new(3), FE::new(4)];
    assert_eq!(msm(&c, &hiding), FE::new(18));
}

#[test]
fn msm_with_empty_c_is_none() {
    let c: [FE; 0] = [];
    let hiding = [FE::new(3), FE::new(4)];
    assert_eq!(msm(&c, &hiding), FE::new(0));
}

#[test]
fn msm_with_emtpy_hiding_is_none() {
    let c = [FE::new(0)];
    let hiding: Vec<FE> = Vec::new();
    assert_eq!(msm(&c, &hiding), FE::new(0));
}

#[test]
fn msm_with_empty_arguments_is_none() {
    let c: [FE; 0] = [];
    let hiding: Vec<FE> = Vec::new();
    assert_eq!(msm(&c, &hiding), FE::new(0));
}

#[test]
fn msm_of_two_generators_with_scalars_2_3_is_5_times_the_generator() {
    let g = EllipticCurveElement::generator();
    let hidings = [g.clone(), g.clone()];
    let scalars = [FE::new(2), FE::new(3)];
    assert_eq!(msm(&scalars, &hidings), g.operate_with_self(5));
}

#[test]
fn msm_with_both_arrays_empty_is_the_group_identity() {
    let scalars: [FE; 0] = [];
    let hidings: Vec<EllipticCurveElement> = Vec::new();
    assert_eq!(msm(&scalars, &hidings), EllipticCurveElement::neutral_element());
}
