//! The Pinocchio prover: from the evaluation key, the QAP, and the full
//! wire assignment it computes the eight group elements of a proof by
//! multi-scalar multiplications over the mid wires and the coefficients of
//! the quotient polynomial `h = p / t`.

use super::super::config::OrderR;
use super::setup::EvaluationKey;
use crate::circuits::qap::{p_matches, poly_views, Qap};
use crate::math::cyclic_group::BilinearCyclicGroup;
use crate::math::field_element::FieldElement;
use crate::math::msm::{group_views, msm, msm_view};
use crate::math::polynomial::{coeff_at, mul_coeff, seq_views};
use vstd::prelude::*;
use vstd::slice::slice_subrange;

verus! {

type FE = FieldElement<OrderR>;

/// Failure cases of proof generation.
#[derive(Clone, Copy, Debug, PartialEq, Eq, Structural)]
pub enum ProverError {
    /// The witness polynomial of the assignment is not divisible by the
    /// target polynomial: the assignment does not satisfy the circuit.
    AssignmentUnsatisfiesCircuit,
}

/// Pinocchio's proof: the hidings of `v_mid(s)`, `w_mid(s)`, `y_mid(s)`
/// and `h(s)`, and the redundant hidings for the consistency checks of the
/// verifier.
#[derive(Clone, Debug, PartialEq, Eq)]
pub struct Proof<T: BilinearCyclicGroup> {
    pub g_vs: T,
    pub g_ws: T,
    pub g_ys: T,
    pub g_hs: T,
    pub g_alpha_vs: T,
    pub g_alpha_ws: T,
    pub g_alpha_ys: T,
    pub g_beta_vwy: T,
}

/// Whether a proof consists exactly of the multi-scalar multiplications of
/// the mid-wire slice of the assignment against the evaluation key
/// vectors, and of the coefficients `h_seq` of the quotient polynomial
/// against the hidings of the powers of the secret point.
pub open spec fn proof_matches<T: BilinearCyclicGroup>(
    pf: Proof<T>,
    ek: EvaluationKey<T>,
    c_mid: Seq<int>,
    h_seq: Seq<int>,
) -> bool {
    &&& pf.g_vs@ == msm_view::<T>(c_mid, group_views(ek.gv_ks@))
    &&& pf.g_ws@ == msm_view::<T>(c_mid, group_views(ek.gw_ks@))
    &&& pf.g_ys@ == msm_view::<T>(c_mid, group_views(ek.gy_ks@))
    &&& pf.g_alpha_vs@ == msm_view::<T>(c_mid, group_views(ek.gv_alphaks@))
    &&& pf.g_alpha_ws@ == msm_view::<T>(c_mid, group_views(ek.gw_alphaks@))
    &&& pf.g_alpha_ys@ == msm_view::<T>(c_mid, group_views(ek.gy_alphaks@))
    &&& pf.g_beta_vwy@ == msm_view::<T>(c_mid, group_views(ek.g_beta@))
    &&& pf.g_hs@ == msm_view::<T>(h_seq, group_views(ek.g_s_i@))
}

/// Whether `h_seq` and `rem` are the quotient and remainder of the witness
/// polynomial of the assignment by the target polynomial.
pub open spec fn divides_p(
    qap: Qap,
    cs: Seq<int>,
    h_seq: Seq<int>,
    rem: Seq<int>,
) -> bool {
    exists|p_seq: Seq<int>|
        #![trigger p_matches(
            poly_views(qap.vs@),
            poly_views(qap.ws@),
            poly_views(qap.ys@),
            cs,
            p_seq,
            FE::order_spec(),
        )]
        p_matches(
            poly_views(qap.vs@),
            poly_views(qap.ws@),
            poly_views(qap.ys@),
            cs,
            p_seq,
            FE::order_spec(),
        ) && rem.len() < qap.target@.len() && forall|i: int| #[trigger] coeff_at(p_seq, i) == (
        mul_coeff(h_seq, qap.target@, i, FE::order_spec()) + coeff_at(rem, i)) % FE::order_spec()
}

/// Generates a proof from the evaluation key, the QAP, and the full wire
/// assignment `c`, whose entry at index 0 is the constant-one wire.
///
/// An assignment whose witness polynomial is not divisible by the target
/// is rejected; this also covers a degenerate target.
pub fn generate_proof<T: BilinearCyclicGroup>(
    evaluation_key: &EvaluationKey<T>,
    qap: &Qap,
    qap_c_coefficients: &[FE],
) -> (r: Result<Proof<T>, ProverError>)
    requires
        qap.well_formed(),
        qap.sizes_bounded(),
        qap_c_coefficients@.len() == qap.vs@.len(),
    ensures
        r is Ok <==> (qap.target@.len() > 0 && FieldElement::<OrderR>::invertible(
            qap.target@[qap.target@.len() - 1],
        ) && exists|h_seq: Seq<int>|
            #![trigger h_seq.len()]
            divides_p(*qap, seq_views(qap_c_coefficients@), h_seq, Seq::<int>::empty())),
        r matches Ok(pf) ==> exists|h_seq: Seq<int>|
            #![trigger h_seq.len()]
            divides_p(
                *qap,
                seq_views(qap_c_coefficients@),
                h_seq,
                Seq::<int>::empty(),
            ) && proof_matches(
                pf,
                *evaluation_key,
                seq_views(qap_c_coefficients@).subrange(
                    qap.number_of_inputs + 1,
                    qap_c_coefficients@.len() - qap.number_of_outputs,
                ),
                h_seq,
            ),
        r matches Err(e) ==> e == ProverError::AssignmentUnsatisfiesCircuit,
    {
    let ghost cs = seq_views(qap_c_coefficients@);
    let h = match qap.p_polynomial_divided(qap_c_coefficients) {
        Ok((p, quotient, remainder)) => {
            if remainder.coefficients().len() != 0 {
                proof {
                    // were there an exact divisor, the remainder of the
                    // division would be unique, hence empty
                    let m = FE::order_spec();
                    if exists|h_seq: Seq<int>|
                        #![trigger h_seq.len()]
                        divides_p(*qap, cs, h_seq, Seq::<int>::empty()) {
                        let h_other = choose|h_seq: Seq<int>|
                            #![trigger h_seq.len()]
                            divides_p(*qap, cs, h_seq, Seq::<int>::empty());
                        let p_other = choose|p_seq: Seq<int>|
                            #![trigger p_matches(
                                poly_views(qap.vs@),
                                poly_views(qap.ws@),
                                poly_views(qap.ys@),
                                cs,
                                p_seq,
                                FE::order_spec(),
                            )]
                            p_matches(
                                poly_views(qap.vs@),
                                poly_views(qap.ws@),
                                poly_views(qap.ys@),
                                cs,
                                p_seq,
                                FE::order_spec(),
                            ) && Seq::<int>::empty().len() < qap.target@.len() && forall|i: int|
                                #[trigger] coeff_at(p_seq, i) == (mul_coeff(
                                h_other,
                                qap.target@,
                                i,
                                FE::order_spec(),
                            ) + coeff_at(Seq::<int>::empty(), i)) % FE::order_spec();
                        crate::circuits::qap::lemma_p_matches_functional(
                            poly_views(qap.vs@),
                            poly_views(qap.ws@),
                            poly_views(qap.ys@),
                            cs,
                            p@,
                            p_other,
                            m,
                        );
                        assert forall|i: int| #[trigger] coeff_at(p@, i) == (mul_coeff(
                            h_other,
                            qap.target@,
                            i,
                            m,
                        ) + coeff_at(Seq::<int>::empty(), i)) % m by {
                            assert(coeff_at(p@, i) == coeff_at(p_other, i));
                        }
                        use_type_invariant(&remainder);
                        use_type_invariant(&qap.target);
                        crate::math::polynomial::lemma_remainder_unique::<OrderR>(
                            p@,
                            quotient@,
                            remainder@,
                            h_other,
                            Seq::<int>::empty(),
                            qap.target@,
                        );
                        assert(remainder@ =~= Seq::<int>::empty());
                        assert(false);
                    }
                }
                return Err(ProverError::AssignmentUnsatisfiesCircuit);
            }
            proof {
                assert(remainder@ =~= Seq::<int>::empty());
                assert(p@.len() == p@.len());
                assert(p_matches(
                    poly_views(qap.vs@),
                    poly_views(qap.ws@),
                    poly_views(qap.ys@),
                    cs,
                    p@,
                    FE::order_spec(),
                ));
                assert(forall|i: int| #[trigger] coeff_at(p@, i) == (mul_coeff(
                    quotient@,
                    qap.target@,
                    i,
                    FE::order_spec(),
                ) + coeff_at(remainder@, i)) % FE::order_spec());
                assert(forall|i: int| #[trigger] coeff_at(Seq::<int>::empty(), i) == coeff_at(
                    remainder@,
                    i,
                ));
                assert(forall|i: int| #[trigger] coeff_at(p@, i) == (mul_coeff(
                    quotient@,
                    qap.target@,
                    i,
                    FE::order_spec(),
                ) + coeff_at(Seq::<int>::empty(), i)) % FE::order_spec());
                assert(divides_p(*qap, cs, quotient@, Seq::<int>::empty()));
            }
            quotient
        },
        Err(_) => {
            return Err(ProverError::AssignmentUnsatisfiesCircuit);
        },
    };
    proof {
        assert(divides_p(*qap, cs, h@, Seq::<int>::empty()));
    }
    let n = qap_c_coefficients.len();
    let c_mid = slice_subrange(
        qap_c_coefficients,
        qap.number_of_inputs + 1,
        n - qap.number_of_outputs,
    );
    proof {
        assert(seq_views(c_mid@) =~= seq_views(qap_c_coefficients@).subrange(
            qap.number_of_inputs + 1,
            qap_c_coefficients@.len() - qap.number_of_outputs,
        ));
    }
    let h_coefficients = h.coefficients();
    let proof_value = Proof {
        g_vs: msm(c_mid, evaluation_key.gv_ks.as_slice()),
        g_ws: msm(c_mid, evaluation_key.gw_ks.as_slice()),
        g_ys: msm(c_mid, evaluation_key.gy_ks.as_slice()),
        g_alpha_vs: msm(c_mid, evaluation_key.gv_alphaks.as_slice()),
        g_alpha_ws: msm(c_mid, evaluation_key.gw_alphaks.as_slice()),
        g_alpha_ys: msm(c_mid, evaluation_key.gy_alphaks.as_slice()),
        g_beta_vwy: msm(c_mid, evaluation_key.g_beta.as_slice()),
        g_hs: msm(h_coefficients.as_slice(), evaluation_key.g_s_i.as_slice()),
    };
    proof {
        assert(h@.len() == h@.len());
        assert(divides_p(*qap, cs, h@, Seq::<int>::empty()) && proof_matches(
            proof_value,
            *evaluation_key,
            seq_views(c_mid@),
            h@,
        ));
    }
    Ok(proof_value)
}

/// Generates a proof without checking that the assignment satisfies the
/// circuit: the remainder of the division of the witness polynomial by the
/// target is discarded. Tests of the negative path of the verifier rely on
/// this bypass.
pub fn generate_proof_unchecked<T: BilinearCyclicGroup>(
    evaluation_key: &EvaluationKey<T>,
    qap: &Qap,
    qap_c_coefficients: &[FE],
) -> (r: Result<Proof<T>, ProverError>)
    requires
        qap.well_formed(),
        qap.sizes_bounded(),
        qap_c_coefficients@.len() == qap.vs@.len(),
    ensures
        r is Ok <==> (qap.target@.len() > 0 && FieldElement::<OrderR>::invertible(
            qap.target@[qap.target@.len() - 1],
        )),
        r matches Ok(pf) ==> exists|h_seq: Seq<int>, rem: Seq<int>|
            #![trigger h_seq.len(), rem.len()]
            divides_p(*qap, seq_views(qap_c_coefficients@), h_seq, rem) && proof_matches(
                pf,
                *evaluation_key,
                seq_views(qap_c_coefficients@).subrange(
                    qap.number_of_inputs + 1,
                    qap_c_coefficients@.len() - qap.number_of_outputs,
                ),
                h_seq,
            ),
        r matches Err(e) ==> e == ProverError::AssignmentUnsatisfiesCircuit,
    {
    let ghost cs = seq_views(qap_c_coefficients@);
    let ghost mut rem_view: Seq<int> = Seq::<int>::empty();
    let h = match qap.p_polynomial_divided(qap_c_coefficients) {
        Ok((p, quotient, remainder)) => {
            proof {
                rem_view = remainder@;
                assert(p@.len() == p@.len());
                assert(p_matches(
                    poly_views(qap.vs@),
                    poly_views(qap.ws@),
                    poly_views(qap.ys@),
                    cs,
                    p@,
                    FE::order_spec(),
                ));
                assert(forall|i: int| #[trigger] coeff_at(p@, i) == (mul_coeff(
                    quotient@,
                    qap.target@,
                    i,
                    FE::order_spec(),
                ) + coeff_at(remainder@, i)) % FE::order_spec());
                assert(divides_p(*qap, cs, quotient@, remainder@));
            }
            quotient
        },
        Err(_) => {
            return Err(ProverError::AssignmentUnsatisfiesCircuit);
        },
    };
    proof {
        assert(divides_p(*qap, cs, h@, rem_view));
    }
    let n = qap_c_coefficients.len();
    let c_mid = slice_subrange(
        qap_c_coefficients,
        qap.number_of_inputs + 1,
        n - qap.number_of_outputs,
    );
    proof {
        assert(seq_views(c_mid@) =~= seq_views(qap_c_coefficients@).subrange(
            qap.number_of_inputs + 1,
            qap_c_coefficients@.len() - qap.number_of_outputs,
        ));
    }
    let h_coefficients = h.coefficients();
    let proof_value = Proof {
        g_vs: msm(c_mid, evaluation_key.gv_ks.as_slice()),
        g_ws: msm(c_mid, evaluation_key.gw_ks.as_slice()),
        g_ys: msm(c_mid, evaluation_key.gy_ks.as_slice()),
        g_alpha_vs: msm(c_mid, evaluation_key.gv_alphaks.as_slice()),
        g_alpha_ws: msm(c_mid, evaluation_key.gw_alphaks.as_slice()),
        g_alpha_ys: msm(c_mid, evaluation_key.gy_alphaks.as_slice()),
        g_beta_vwy: msm(c_mid, evaluation_key.g_beta.as_slice()),
        g_hs: msm(h_coefficients.as_slice(), evaluation_key.g_s_i.as_slice()),
    };
    proof {
        assert(h@.len() == h@.len());
        assert(rem_view.len() == rem_view.len());
        assert(divides_p(*qap, cs, h@, rem_view) && proof_matches(
            proof_value,
            *evaluation_key,
            seq_views(c_mid@),
            h@,
        ));
    }
    Ok(proof_value)
}

} // verus!
