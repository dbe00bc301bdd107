//! The Pinocchio verifier: three pairing checks decide whether a proof is
//! accepted for the given public inputs and outputs. The constant wire is
//! handled separately through the first entry of each verification key
//! vector, so the IO slice holds the inputs followed by the outputs.

use super::super::config::OrderR;
use super::prover::Proof;
use super::setup::VerificationKey;
use crate::math::cyclic_group::{BilinearCyclicGroup, PairingTarget};
use crate::math::field_element::FieldElement;
use crate::math::msm::{group_views, msm, msm_view};
use crate::math::polynomial::seq_views;
use vstd::prelude::*;
use vstd::slice::slice_subrange;

verus! {

type FE = FieldElement<OrderR>;

/// The hiding of a full linear combination: the constant-wire entry of a
/// key vector, combined with the multi-scalar multiplication of the IO
/// slice against the rest of the vector, combined with the mid-wire hiding
/// from the proof.
pub open spec fn io_hiding<T: BilinearCyclicGroup>(
    keys: Seq<<T as View>::V>,
    io: Seq<int>,
    mid: <T as View>::V,
) -> <T as View>::V {
    T::op_view(T::op_view(keys[0], msm_view::<T>(io, keys.subrange(1, keys.len() as int))), mid)
}

/// The divisibility check: the pairing of the hidden `v` and `w`
/// combinations equals the pairing of the hidden target with `h` times the
/// pairing of the hidden `y` combination with the generator.
pub open spec fn divisibility_holds<T: BilinearCyclicGroup>(
    vk: VerificationKey<T>,
    proof: Proof<T>,
    io: Seq<int>,
) -> bool {
    let hiding_v = io_hiding::<T>(group_views(vk.gv_ks@), io, proof.g_vs@);
    let hiding_w = io_hiding::<T>(group_views(vk.gw_ks@), io, proof.g_ws@);
    let hiding_y = io_hiding::<T>(group_views(vk.gy_ks@), io, proof.g_ys@);
    let lhs = T::pairing_view(hiding_v, hiding_w);
    let rhs_1 = T::pairing_view(vk.gy_target_on_s@, proof.g_hs@);
    let rhs_2 = T::pairing_view(hiding_y, vk.g_1@);
    <T::PairingOutput as PairingTarget>::eq_view(
        lhs,
        <T::PairingOutput as PairingTarget>::mul_view(rhs_1, rhs_2),
    )
}

/// The polynomial restriction checks: each primed mid hiding pairs with
/// the generator as the unprimed one pairs with the matching alpha hiding.
pub open spec fn spans_hold<T: BilinearCyclicGroup>(
    vk: VerificationKey<T>,
    proof: Proof<T>,
) -> bool {
    let b1 = <T::PairingOutput as PairingTarget>::eq_view(
        T::pairing_view(proof.g_alpha_vs@, vk.g_1@),
        T::pairing_view(proof.g_vs@, vk.g_alpha_v@),
    );
    let b2 = <T::PairingOutput as PairingTarget>::eq_view(
        T::pairing_view(proof.g_alpha_ws@, vk.g_1@),
        T::pairing_view(proof.g_ws@, vk.g_alpha_w@),
    );
    let b3 = <T::PairingOutput as PairingTarget>::eq_view(
        T::pairing_view(proof.g_alpha_ys@, vk.g_1@),
        T::pairing_view(proof.g_ys@, vk.g_alpha_y@),
    );
    b1 && b2 && b3
}

/// The same-linear-combination check: the beta hiding pairs with the gamma
/// hiding as the combined `v`, `w`, `y` mid hidings pair with the
/// beta-gamma hiding.
pub open spec fn linear_combinations_hold<T: BilinearCyclicGroup>(
    vk: VerificationKey<T>,
    proof: Proof<T>,
) -> bool {
    <T::PairingOutput as PairingTarget>::eq_view(
        T::pairing_view(proof.g_beta_vwy@, vk.g_gamma@),
        T::pairing_view(
            T::op_view(T::op_view(proof.g_vs@, proof.g_ws@), proof.g_ys@),
            vk.g_beta_gamma@,
        ),
    )
}

/// The divisibility check of the verifier.
pub fn check_divisibility<T: BilinearCyclicGroup>(
    verifying_key: &VerificationKey<T>,
    proof: &Proof<T>,
    input_output: &[FE],
) -> (r: bool)
    requires
        verifying_key.gv_ks@.len() >= 1,
        verifying_key.gw_ks@.len() >= 1,
        verifying_key.gy_ks@.len() >= 1,
    ensures
        r == divisibility_holds(*verifying_key, *proof, seq_views(input_output@)),
{
    let vk = verifying_key;
    let gv_rest = slice_subrange(vk.gv_ks.as_slice(), 1, vk.gv_ks.len());
    let gw_rest = slice_subrange(vk.gw_ks.as_slice(), 1, vk.gw_ks.len());
    let gy_rest = slice_subrange(vk.gy_ks.as_slice(), 1, vk.gy_ks.len());
    proof {
        assert(group_views(gv_rest@) =~= group_views(vk.gv_ks@).subrange(
            1,
            group_views(vk.gv_ks@).len() as int,
        ));
        assert(group_views(gw_rest@) =~= group_views(vk.gw_ks@).subrange(
            1,
            group_views(vk.gw_ks@).len() as int,
        ));
        assert(group_views(gy_rest@) =~= group_views(vk.gy_ks@).subrange(
            1,
            group_views(vk.gy_ks@).len() as int,
        ));
    }
    let hiding_v = vk.gv_ks[0].operate_with(&msm(input_output, gv_rest)).operate_with(
        &proof.g_vs,
    );
    let hiding_w = vk.gw_ks[0].operate_with(&msm(input_output, gw_rest)).operate_with(
        &proof.g_ws,
    );
    let hiding_y = vk.gy_ks[0].operate_with(&msm(input_output, gy_rest)).operate_with(
        &proof.g_ys,
    );
    let lhs = hiding_v.pairing(&hiding_w);
    let rhs_1 = verifying_key.gy_target_on_s.pairing(&proof.g_hs);
    let rhs_2 = hiding_y.pairing(&vk.g_1);
    lhs.equals(&rhs_1.times(&rhs_2))
}

/// The polynomial restriction checks of the verifier.
pub fn check_appropiate_spans<T: BilinearCyclicGroup>(
    verifying_key: &VerificationKey<T>,
    proof: &Proof<T>,
) -> (r: bool)
    ensures
        r == spans_hold(*verifying_key, *proof),
{
    let vk = verifying_key;
    let b1 = proof.g_alpha_vs.pairing(&vk.g_1).equals(&proof.g_vs.pairing(&vk.g_alpha_v));
    let b2 = proof.g_alpha_ws.pairing(&vk.g_1).equals(&proof.g_ws.pairing(&vk.g_alpha_w));
    let b3 = proof.g_alpha_ys.pairing(&vk.g_1).equals(&proof.g_ys.pairing(&vk.g_alpha_y));
    b1 && b2 && b3
}

/// The same-linear-combination check of the verifier.
pub fn check_same_linear_combinations<T: BilinearCyclicGroup>(
    verifying_key: &VerificationKey<T>,
    proof: &Proof<T>,
) -> (r: bool)
    ensures
        r == linear_combinations_hold(*verifying_key, *proof),
{
    let vk = verifying_key;
    proof.g_beta_vwy.pairing(&vk.g_gamma).equals(
        &proof.g_vs.operate_with(&proof.g_ws).operate_with(&proof.g_ys).pairing(
            &vk.g_beta_gamma,
        ),
    )
}

/// Pinocchio's verification algorithm: accepts exactly when all three
/// pairing checks hold of the proof and the public inputs and outputs.
pub fn verify<T: BilinearCyclicGroup>(
    verifying_key: &VerificationKey<T>,
    proof: &Proof<T>,
    c_input_output: &[FE],
) -> (r: bool)
    requires
        verifying_key.gv_ks@.len() >= 1,
        verifying_key.gw_ks@.len() >= 1,
        verifying_key.gy_ks@.len() >= 1,
    ensures
        r == (divisibility_holds(*verifying_key, *proof, seq_views(c_input_output@))
            && spans_hold(*verifying_key, *proof) && linear_combinations_hold(
            *verifying_key,
            *proof,
        )),
{
    let b1 = check_divisibility(verifying_key, proof, c_input_output);
    let b2 = check_appropiate_spans(verifying_key, proof);
    let b3 = check_same_linear_combinations(verifying_key, proof);
    b1 && b2 && b3
}

} // verus!
