//! The trusted setup of Pinocchio: from a QAP and freshly sampled toxic
//! waste it derives the evaluation key handed to the prover and the
//! verification key handed to the verifier. Both consist of hidings
//! `g^e`: group elements whose exponents evaluate the circuit polynomials
//! at the secret point.

use super::super::config::OrderR;
use crate::circuits::qap::Qap;
use crate::math::cyclic_group::{group_exp, BilinearCyclicGroup, GroupView};
use crate::math::field_element::FieldElement;
use crate::math::msm::group_views;
use crate::math::polynomial::{poly_eval, Polynomial};
use vstd::prelude::*;

verus! {

pub type FE = FieldElement<OrderR>;

/// The hiding of the exponent `e`, assumed reduced: the generator combined
/// with itself `e` times.
pub open spec fn hiding<T: GroupView>(e: int) -> <T as View>::V {
    group_exp::<T>(T::generator_view(), e as nat)
}

/// Shorthand for the views of the polynomials of a vector.
pub open spec fn poly_views(s: Seq<Polynomial<OrderR>>) -> Seq<Seq<int>> {
    crate::circuits::qap::poly_views(s)
}

/// Evaluation key for Pinocchio: hidings over the mid wires, and hidings
/// of the powers of the secret point.
#[derive(Clone, Debug, PartialEq, Eq)]
pub struct EvaluationKey<T: BilinearCyclicGroup> {
    pub gv_ks: Vec<T>,
    pub gw_ks: Vec<T>,
    pub gy_ks: Vec<T>,
    pub gv_alphaks: Vec<T>,
    pub gw_alphaks: Vec<T>,
    pub gy_alphaks: Vec<T>,
    pub g_s_i: Vec<T>,
    pub g_beta: Vec<T>,
}

/// Verification key for Pinocchio: hidings of the secret scalars, and of
/// the circuit polynomials at the constant and IO wires.
#[derive(Clone, Debug, PartialEq, Eq)]
pub struct VerificationKey<T: BilinearCyclicGroup> {
    pub g_1: T,
    pub g_alpha_v: T,
    pub g_alpha_w: T,
    pub g_alpha_y: T,
    pub g_gamma: T,
    pub g_beta_gamma: T,
    pub gy_target_on_s: T,
    pub gv_ks: Vec<T>,
    pub gw_ks: Vec<T>,
    pub gy_ks: Vec<T>,
}

/// The eight secret scalars of the trusted setup, live only while the keys
/// are generated.
#[derive(Clone, Copy, Debug, PartialEq, Eq)]
pub struct ToxicWaste {
    s: FE,
    alpha_v: FE,
    alpha_w: FE,
    alpha_y: FE,
    beta: FE,
    rv: FE,
    rw: FE,
    gamma: FE,
}

impl ToxicWaste {
    /// The secret evaluation point.
    pub closed spec fn s_spec(self) -> int {
        self.s@
    }

    /// The consistency scalar for the `v` polynomials.
    pub closed spec fn alpha_v_spec(self) -> int {
        self.alpha_v@
    }

    /// The consistency scalar for the `w` polynomials.
    pub closed spec fn alpha_w_spec(self) -> int {
        self.alpha_w@
    }

    /// The consistency scalar for the `y` polynomials.
    pub closed spec fn alpha_y_spec(self) -> int {
        self.alpha_y@
    }

    /// The scalar of the same-linear-combination check.
    pub closed spec fn beta_spec(self) -> int {
        self.beta@
    }

    /// The blinding scalar of the `v` hidings.
    pub closed spec fn rv_spec(self) -> int {
        self.rv@
    }

    /// The blinding scalar of the `w` hidings.
    pub closed spec fn rw_spec(self) -> int {
        self.rw@
    }

    /// The blinding scalar of the `gamma` hidings.
    pub closed spec fn gamma_spec(self) -> int {
        self.gamma@
    }

    /// The derived blinding scalar of the `y` hidings.
    pub fn ry(self) -> (r: FE)
        ensures
            r@ == (self.rv_spec() * self.rw_spec()) % FE::order_spec(),
    {
        self.rv.mul(self.rw)
    }

    /// Assembles a toxic waste from its eight scalars.
    pub fn new(
        s: FE,
        alpha_v: FE,
        alpha_w: FE,
        alpha_y: FE,
        beta: FE,
        rv: FE,
        rw: FE,
        gamma: FE,
    ) -> (r: Self)
        ensures
            r.s_spec() == s@,
            r.alpha_v_spec() == alpha_v@,
            r.alpha_w_spec() == alpha_w@,
            r.alpha_y_spec() == alpha_y@,
            r.beta_spec() == beta@,
            r.rv_spec() == rv@,
            r.rw_spec() == rw@,
            r.gamma_spec() == gamma@,
    {
        Self { s, alpha_v, alpha_w, alpha_y, beta, rv, rw, gamma }
    }

    /// Samples a fresh toxic waste from the randomness source; each scalar
    /// is a canonical residue of the scalar field.
    pub fn sample() -> (r: Self)
        ensures
            0 <= r.s_spec() < FE::order_spec(),
            0 <= r.alpha_v_spec() < FE::order_spec(),
            0 <= r.alpha_w_spec() < FE::order_spec(),
            0 <= r.alpha_y_spec() < FE::order_spec(),
            0 <= r.beta_spec() < FE::order_spec(),
            0 <= r.rv_spec() < FE::order_spec(),
            0 <= r.rw_spec() < FE::order_spec(),
            0 <= r.gamma_spec() < FE::order_spec(),
    {
        Self {
            s: FE::random(),
            alpha_v: FE::random(),
            alpha_w: FE::random(),
            alpha_y: FE::random(),
            beta: FE::random(),
            rv: FE::random(),
            rw: FE::random(),
            gamma: FE::random(),
        }
    }
}

/// The polynomial views at the constant and IO wire indices:
/// `[0] ++ inputs ++ outputs`.
pub open spec fn io_polys(polys: Seq<Seq<int>>, n_inputs: int, n_outputs: int) -> Seq<Seq<int>> {
    seq![polys[0]] + polys.subrange(1, n_inputs + 1) + polys.subrange(
        polys.len() - n_outputs,
        polys.len() as int,
    )
}

/// The verification key that the setup owes for a QAP and a toxic waste.
pub open spec fn vk_matches<T: BilinearCyclicGroup>(
    r: VerificationKey<T>,
    qap: Qap,
    tw: ToxicWaste,
) -> bool {
    let m = FE::order_spec();
    let s = tw.s_spec();
    let rv = tw.rv_spec();
    let rw = tw.rw_spec();
    let ry = (tw.rv_spec() * tw.rw_spec()) % m;
    let n_io = 1 + qap.number_of_inputs + qap.number_of_outputs;
    let iov = io_polys(poly_views(qap.vs@), qap.number_of_inputs as int, qap.number_of_outputs as int);
    let iow = io_polys(poly_views(qap.ws@), qap.number_of_inputs as int, qap.number_of_outputs as int);
    let ioy = io_polys(poly_views(qap.ys@), qap.number_of_inputs as int, qap.number_of_outputs as int);
    &&& r.g_1@ == T::generator_view()
    &&& r.g_alpha_v@ == hiding::<T>(tw.alpha_v_spec())
    &&& r.g_alpha_w@ == hiding::<T>(tw.alpha_w_spec())
    &&& r.g_alpha_y@ == hiding::<T>(tw.alpha_y_spec())
    &&& r.g_gamma@ == hiding::<T>(tw.gamma_spec())
    &&& r.g_beta_gamma@ == hiding::<T>((tw.beta_spec() * tw.gamma_spec()) % m)
    &&& r.gy_target_on_s@ == hiding::<T>((ry * poly_eval(qap.target@, s, m)) % m)
    &&& r.gv_ks@.len() == n_io
    &&& r.gw_ks@.len() == n_io
    &&& r.gy_ks@.len() == n_io
    &&& forall|k: int|
        0 <= k < n_io ==> #[trigger] group_views(r.gv_ks@)[k] == hiding::<T>(
            (rv * poly_eval(iov[k], s, m)) % m,
        )
    &&& forall|k: int|
        0 <= k < n_io ==> #[trigger] group_views(r.gw_ks@)[k] == hiding::<T>(
            (rw * poly_eval(iow[k], s, m)) % m,
        )
    &&& forall|k: int|
        0 <= k < n_io ==> #[trigger] group_views(r.gy_ks@)[k] == hiding::<T>(
            (ry * poly_eval(ioy[k], s, m)) % m,
        )
}

/// The exponent hidden at index `k` of the `g_beta` vector: the
/// beta-scaled combination of the three blinded polynomial evaluations.
pub open spec fn beta_exponent(
    rv: int,
    rw: int,
    ry: int,
    beta: int,
    ev: int,
    ew: int,
    ey: int,
    m: int,
) -> int {
    ((((rv * beta) % m) * ev) % m + ((((rw * beta) % m) * ew) % m + ((((ry * beta) % m) * ey) % m))
        % m) % m
}

/// Generates the verification key: hidings of the secret scalars and of
/// the circuit polynomials at the constant and IO wires.
fn generate_verification_key<T: BilinearCyclicGroup>(
    qap: &Qap,
    toxic_waste: &ToxicWaste,
    generator: &T,
) -> (r: VerificationKey<T>)
    requires
        qap.well_formed(),
        generator@ == T::generator_view(),
    ensures
        vk_matches(r, *qap, *toxic_waste),
{
    let ghost m = FE::order_spec();
    let s = toxic_waste.s;
    let alpha_v = toxic_waste.alpha_v;
    let alpha_w = toxic_waste.alpha_w;
    let alpha_y = toxic_waste.alpha_y;
    let beta = toxic_waste.beta;
    let rv = toxic_waste.rv;
    let rw = toxic_waste.rw;
    let gamma = toxic_waste.gamma;
    let ry = toxic_waste.ry();
    let g = generator;

    let ghost n = qap.vs@.len();
    let ghost io_polys_v = io_polys(
        poly_views(qap.vs@),
        qap.number_of_inputs as int,
        qap.number_of_outputs as int,
    );
    let ghost io_polys_w = io_polys(
        poly_views(qap.ws@),
        qap.number_of_inputs as int,
        qap.number_of_outputs as int,
    );
    let ghost io_polys_y = io_polys(
        poly_views(qap.ys@),
        qap.number_of_inputs as int,
        qap.number_of_outputs as int,
    );

    let mut gv_ks_io: Vec<T> = Vec::new();
    let mut gw_ks_io: Vec<T> = Vec::new();
    let mut gy_ks_io: Vec<T> = Vec::new();

    let ghost before_v = group_views(gv_ks_io@);
    let ghost before_w = group_views(gw_ks_io@);
    let ghost before_y = group_views(gy_ks_io@);
    let ev0 = g.operate_with_self(rv.mul(qap.v0().evaluate(s)).representative());
    let ew0 = g.operate_with_self(rw.mul(qap.w0().evaluate(s)).representative());
    let ey0 = g.operate_with_self(ry.mul(qap.y0().evaluate(s)).representative());
    gv_ks_io.push(ev0);
    gw_ks_io.push(ew0);
    gy_ks_io.push(ey0);
    proof {
        assert(group_views(gv_ks_io@) =~= before_v.push(ev0@));
        assert(group_views(gw_ks_io@) =~= before_w.push(ew0@));
        assert(group_views(gy_ks_io@) =~= before_y.push(ey0@));
        assert(io_polys_v[0] == poly_views(qap.vs@)[0]);
        assert(io_polys_w[0] == poly_views(qap.ws@)[0]);
        assert(io_polys_y[0] == poly_views(qap.ys@)[0]);
    }

    let v_input = qap.v_input();
    let w_input = qap.w_input();
    let y_input = qap.y_input();
    let n_inputs = v_input.len();
    let mut k: usize = 0;
    while k < n_inputs
        invariant
            k <= n_inputs,
            qap.well_formed(),
            m == FE::order_spec(),
            n == qap.vs@.len(),
            n_inputs == qap.number_of_inputs,
            v_input@ == qap.vs@.subrange(1, qap.number_of_inputs + 1),
            w_input@ == qap.ws@.subrange(1, qap.number_of_inputs + 1),
            y_input@ == qap.ys@.subrange(1, qap.number_of_inputs + 1),
            io_polys_v == io_polys(
                poly_views(qap.vs@),
                qap.number_of_inputs as int,
                qap.number_of_outputs as int,
            ),
            io_polys_w == io_polys(
                poly_views(qap.ws@),
                qap.number_of_inputs as int,
                qap.number_of_outputs as int,
            ),
            io_polys_y == io_polys(
                poly_views(qap.ys@),
                qap.number_of_inputs as int,
                qap.number_of_outputs as int,
            ),
            s == toxic_waste.s,
            rv == toxic_waste.rv,
            rw == toxic_waste.rw,
            ry@ == (toxic_waste.rv_spec() * toxic_waste.rw_spec()) % m,
            g@ == T::generator_view(),
            group_views(gv_ks_io@).len() == k + 1,
            group_views(gw_ks_io@).len() == k + 1,
            group_views(gy_ks_io@).len() == k + 1,
            forall|k2: int|
                0 <= k2 < k + 1 ==> #[trigger] group_views(gv_ks_io@)[k2] == hiding::<T>(
                    (toxic_waste.rv_spec() * poly_eval(io_polys_v[k2], toxic_waste.s_spec(), m))
                        % m,
                ),
            forall|k2: int|
                0 <= k2 < k + 1 ==> #[trigger] group_views(gw_ks_io@)[k2] == hiding::<T>(
                    (toxic_waste.rw_spec() * poly_eval(io_polys_w[k2], toxic_waste.s_spec(), m))
                        % m,
                ),
            forall|k2: int|
                0 <= k2 < k + 1 ==> #[trigger] group_views(gy_ks_io@)[k2] == hiding::<T>(
                    (ry@ * poly_eval(io_polys_y[k2], toxic_waste.s_spec(), m)) % m,
                ),
        decreases n_inputs - k,
    {
        let ghost bv = group_views(gv_ks_io@);
        let ghost bw = group_views(gw_ks_io@);
        let ghost by = group_views(gy_ks_io@);
        let hv = g.operate_with_self(rv.mul(v_input[k].evaluate(s)).representative());
        let hw = g.operate_with_self(rw.mul(w_input[k].evaluate(s)).representative());
        let hy = g.operate_with_self(ry.mul(y_input[k].evaluate(s)).representative());
        gv_ks_io.push(hv);
        gw_ks_io.push(hw);
        gy_ks_io.push(hy);
        proof {
            assert(group_views(gv_ks_io@) =~= bv.push(hv@));
            assert(group_views(gw_ks_io@) =~= bw.push(hw@));
            assert(group_views(gy_ks_io@) =~= by.push(hy@));
            assert(v_input@[k as int]@ == io_polys_v[k + 1]);
            assert(w_input@[k as int]@ == io_polys_w[k + 1]);
            assert(y_input@[k as int]@ == io_polys_y[k + 1]);
        }
        k += 1;
    }

    let v_output = qap.v_output();
    let w_output = qap.w_output();
    let y_output = qap.y_output();
    let n_outputs = v_output.len();
    let mut k2: usize = 0;
    while k2 < n_outputs
        invariant
            k2 <= n_outputs,
            qap.well_formed(),
            m == FE::order_spec(),
            n == qap.vs@.len(),
            n_outputs == qap.number_of_outputs,
            v_output@ == qap.vs@.subrange(n - qap.number_of_outputs, n as int),
            w_output@ == qap.ws@.subrange(n - qap.number_of_outputs, n as int),
            y_output@ == qap.ys@.subrange(n - qap.number_of_outputs, n as int),
            io_polys_v == io_polys(
                poly_views(qap.vs@),
                qap.number_of_inputs as int,
                qap.number_of_outputs as int,
            ),
            io_polys_w == io_polys(
                poly_views(qap.ws@),
                qap.number_of_inputs as int,
                qap.number_of_outputs as int,
            ),
            io_polys_y == io_polys(
                poly_views(qap.ys@),
                qap.number_of_inputs as int,
                qap.number_of_outputs as int,
            ),
            s == toxic_waste.s,
            rv == toxic_waste.rv,
            rw == toxic_waste.rw,
            ry@ == (toxic_waste.rv_spec() * toxic_waste.rw_spec()) % m,
            g@ == T::generator_view(),
            group_views(gv_ks_io@).len() == qap.number_of_inputs + 1 + k2,
            group_views(gw_ks_io@).len() == qap.number_of_inputs + 1 + k2,
            group_views(gy_ks_io@).len() == qap.number_of_inputs + 1 + k2,
            forall|k3: int|
                0 <= k3 < qap.number_of_inputs + 1 + k2 ==> #[trigger] group_views(gv_ks_io@)[k3]
                    == hiding::<T>(
                    (toxic_waste.rv_spec() * poly_eval(io_polys_v[k3], toxic_waste.s_spec(), m))
                        % m,
                ),
            forall|k3: int|
                0 <= k3 < qap.number_of_inputs + 1 + k2 ==> #[trigger] group_views(gw_ks_io@)[k3]
                    == hiding::<T>(
                    (toxic_waste.rw_spec() * poly_eval(io_polys_w[k3], toxic_waste.s_spec(), m))
                        % m,
                ),
            forall|k3: int|
                0 <= k3 < qap.number_of_inputs + 1 + k2 ==> #[trigger] group_views(gy_ks_io@)[k3]
                    == hiding::<T>(
                    (ry@ * poly_eval(io_polys_y[k3], toxic_waste.s_spec(), m)) % m,
                ),
        decreases n_outputs - k2,
    {
        let ghost bv = group_views(gv_ks_io@);
        let ghost bw = group_views(gw_ks_io@);
        let ghost by = group_views(gy_ks_io@);
        let hv = g.operate_with_self(rv.mul(v_output[k2].evaluate(s)).representative());
        let hw = g.operate_with_self(rw.mul(w_output[k2].evaluate(s)).representative());
        let hy = g.operate_with_self(ry.mul(y_output[k2].evaluate(s)).representative());
        gv_ks_io.push(hv);
        gw_ks_io.push(hw);
        gy_ks_io.push(hy);
        proof {
            assert(group_views(gv_ks_io@) =~= bv.push(hv@));
            assert(group_views(gw_ks_io@) =~= bw.push(hw@));
            assert(group_views(gy_ks_io@) =~= by.push(hy@));
            assert(v_output@[k2 as int]@ == io_polys_v[qap.number_of_inputs + 1 + k2]);
            assert(w_output@[k2 as int]@ == io_polys_w[qap.number_of_inputs + 1 + k2]);
            assert(y_output@[k2 as int]@ == io_polys_y[qap.number_of_inputs + 1 + k2]);
        }
        k2 += 1;
    }

    VerificationKey {
        g_1: T::generator(),
        g_alpha_v: g.operate_with_self(alpha_v.representative()),
        g_alpha_w: g.operate_with_self(alpha_w.representative()),
        g_alpha_y: g.operate_with_self(alpha_y.representative()),
        g_gamma: g.operate_with_self(gamma.representative()),
        g_beta_gamma: g.operate_with_self(beta.mul(gamma).representative()),
        gy_target_on_s: g.operate_with_self(ry.mul(qap.target.evaluate(s)).representative()),
        gv_ks: gv_ks_io,
        gw_ks: gw_ks_io,
        gy_ks: gy_ks_io,
    }
}

/// The evaluation key that the setup owes for a QAP and a toxic waste.
pub open spec fn ek_matches<T: BilinearCyclicGroup>(
    r: EvaluationKey<T>,
    qap: Qap,
    tw: ToxicWaste,
) -> bool {
    let m = FE::order_spec();
    let s = tw.s_spec();
    let rv = tw.rv_spec();
    let rw = tw.rw_spec();
    let ry = (tw.rv_spec() * tw.rw_spec()) % m;
    let n = poly_views(qap.vs@).len();
    let midv = poly_views(qap.vs@).subrange(
        qap.number_of_inputs + 1,
        n - qap.number_of_outputs,
    );
    let midw = poly_views(qap.ws@).subrange(
        qap.number_of_inputs + 1,
        n - qap.number_of_outputs,
    );
    let midy = poly_views(qap.ys@).subrange(
        qap.number_of_inputs + 1,
        n - qap.number_of_outputs,
    );
    let n_mid = midv.len();
    let degree = if qap.target@.len() == 0 {
        0int
    } else {
        qap.target@.len() - 1
    };
    &&& r.gv_ks@.len() == n_mid
    &&& r.gw_ks@.len() == n_mid
    &&& r.gy_ks@.len() == n_mid
    &&& r.gv_alphaks@.len() == n_mid
    &&& r.gw_alphaks@.len() == n_mid
    &&& r.gy_alphaks@.len() == n_mid
    &&& r.g_beta@.len() == n_mid
    &&& r.g_s_i@.len() == degree
    &&& forall|k: int|
        0 <= k < n_mid ==> #[trigger] group_views(r.gv_ks@)[k] == hiding::<T>(
            (rv * poly_eval(midv[k], s, m)) % m,
        )
    &&& forall|k: int|
        0 <= k < n_mid ==> #[trigger] group_views(r.gw_ks@)[k] == hiding::<T>(
            (rw * poly_eval(midw[k], s, m)) % m,
        )
    &&& forall|k: int|
        0 <= k < n_mid ==> #[trigger] group_views(r.gy_ks@)[k] == hiding::<T>(
            (ry * poly_eval(midy[k], s, m)) % m,
        )
    &&& forall|k: int|
        0 <= k < n_mid ==> #[trigger] group_views(r.gv_alphaks@)[k] == hiding::<T>(
            (((rv * tw.alpha_v_spec()) % m) * poly_eval(midv[k], s, m)) % m,
        )
    &&& forall|k: int|
        0 <= k < n_mid ==> #[trigger] group_views(r.gw_alphaks@)[k] == hiding::<T>(
            (((rw * tw.alpha_w_spec()) % m) * poly_eval(midw[k], s, m)) % m,
        )
    &&& forall|k: int|
        0 <= k < n_mid ==> #[trigger] group_views(r.gy_alphaks@)[k] == hiding::<T>(
            (((ry * tw.alpha_y_spec()) % m) * poly_eval(midy[k], s, m)) % m,
        )
    &&& forall|k: int|
        0 <= k < n_mid ==> #[trigger] group_views(r.g_beta@)[k] == hiding::<T>(
            beta_exponent(
                rv,
                rw,
                ry,
                tw.beta_spec(),
                poly_eval(midv[k], s, m),
                poly_eval(midw[k], s, m),
                poly_eval(midy[k], s, m),
                m,
            ),
        )
    &&& forall|i: int|
        0 <= i < degree ==> #[trigger] group_views(r.g_s_i@)[i] == hiding::<T>(
            vstd::arithmetic::power::pow(s, i as nat) % m,
        )
}

/// Generates the evaluation key: hidings over the mid wires of the blinded
/// polynomial evaluations, their consistency companions, the beta
/// combinations, and the powers of the secret point.
fn generate_evaluation_key<T: BilinearCyclicGroup>(
    qap: &Qap,
    toxic_waste: &ToxicWaste,
    generator: &T,
) -> (r: EvaluationKey<T>)
    requires
        qap.well_formed(),
        generator@ == T::generator_view(),
    ensures
        ek_matches(r, *qap, *toxic_waste),
{
    let ghost m = FE::order_spec();
    let vs_mid = qap.v_mid();
    let ws_mid = qap.w_mid();
    let ys_mid = qap.y_mid();

    let s = toxic_waste.s;
    let alpha_v = toxic_waste.alpha_v;
    let alpha_w = toxic_waste.alpha_w;
    let alpha_y = toxic_waste.alpha_y;
    let beta = toxic_waste.beta;
    let rv = toxic_waste.rv;
    let rw = toxic_waste.rw;
    let ry = toxic_waste.ry();
    let g = generator;

    let ghost n = poly_views(qap.vs@).len();
    let ghost midv = poly_views(qap.vs@).subrange(
        qap.number_of_inputs + 1,
        n - qap.number_of_outputs,
    );
    let ghost midw = poly_views(qap.ws@).subrange(
        qap.number_of_inputs + 1,
        n - qap.number_of_outputs,
    );
    let ghost midy = poly_views(qap.ys@).subrange(
        qap.number_of_inputs + 1,
        n - qap.number_of_outputs,
    );

    let degree = qap.target.degree();

    let n_mid = vs_mid.len();
    let mut gv_ks_mid: Vec<T> = Vec::new();
    let mut gw_ks_mid: Vec<T> = Vec::new();
    let mut gy_ks_mid: Vec<T> = Vec::new();
    let mut gv_alphaks_mid: Vec<T> = Vec::new();
    let mut gw_alphaks_mid: Vec<T> = Vec::new();
    let mut gy_alphaks_mid: Vec<T> = Vec::new();
    let mut g_beta_mid: Vec<T> = Vec::new();
    let mut g_s_i: Vec<T> = Vec::new();

    let mut k: usize = 0;
    while k < n_mid
        invariant
            k <= n_mid,
            qap.well_formed(),
            m == FE::order_spec(),
            n == qap.vs@.len(),
            n_mid == midv.len(),
            vs_mid@.len() == n_mid,
            ws_mid@.len() == n_mid,
            ys_mid@.len() == n_mid,
            forall|k2: int| 0 <= k2 < n_mid ==> (#[trigger] vs_mid@[k2])@ == midv[k2],
            forall|k2: int| 0 <= k2 < n_mid ==> (#[trigger] ws_mid@[k2])@ == midw[k2],
            forall|k2: int| 0 <= k2 < n_mid ==> (#[trigger] ys_mid@[k2])@ == midy[k2],
            s == toxic_waste.s,
            alpha_v == toxic_waste.alpha_v,
            alpha_w == toxic_waste.alpha_w,
            alpha_y == toxic_waste.alpha_y,
            beta == toxic_waste.beta,
            rv == toxic_waste.rv,
            rw == toxic_waste.rw,
            ry@ == (toxic_waste.rv_spec() * toxic_waste.rw_spec()) % m,
            g@ == T::generator_view(),
            group_views(gv_ks_mid@).len() == k,
            group_views(gw_ks_mid@).len() == k,
            group_views(gy_ks_mid@).len() == k,
            group_views(gv_alphaks_mid@).len() == k,
            group_views(gw_alphaks_mid@).len() == k,
            group_views(gy_alphaks_mid@).len() == k,
            group_views(g_beta_mid@).len() == k,
            forall|k2: int|
                0 <= k2 < k ==> #[trigger] group_views(gv_ks_mid@)[k2] == hiding::<T>(
                    (toxic_waste.rv_spec() * poly_eval(midv[k2], toxic_waste.s_spec(), m)) % m,
                ),
            forall|k2: int|
                0 <= k2 < k ==> #[trigger] group_views(gw_ks_mid@)[k2] == hiding::<T>(
                    (toxic_waste.rw_spec() * poly_eval(midw[k2], toxic_waste.s_spec(), m)) % m,
                ),
            forall|k2: int|
                0 <= k2 < k ==> #[trigger] group_views(gy_ks_mid@)[k2] == hiding::<T>(
                    (ry@ * poly_eval(midy[k2], toxic_waste.s_spec(), m)) % m,
                ),
            forall|k2: int|
                0 <= k2 < k ==> #[trigger] group_views(gv_alphaks_mid@)[k2] == hiding::<T>(
                    (((toxic_waste.rv_spec() * toxic_waste.alpha_v_spec()) % m) * poly_eval(
                        midv[k2],
                        toxic_waste.s_spec(),
                        m,
                    )) % m,
                ),
            forall|k2: int|
                0 <= k2 < k ==> #[trigger] group_views(gw_alphaks_mid@)[k2] == hiding::<T>(
                    (((toxic_waste.rw_spec() * toxic_waste.alpha_w_spec()) % m) * poly_eval(
                        midw[k2],
                        toxic_waste.s_spec(),
                        m,
                    )) % m,
                ),
            forall|k2: int|
                0 <= k2 < k ==> #[trigger] group_views(gy_alphaks_mid@)[k2] == hiding::<T>(
                    (((ry@ * toxic_waste.alpha_y_spec()) % m) * poly_eval(
                        midy[k2],
                        toxic_waste.s_spec(),
                        m,
                    )) % m,
                ),
            forall|k2: int|
                0 <= k2 < k ==> #[trigger] group_views(g_beta_mid@)[k2] == hiding::<T>(
                    beta_exponent(
                        toxic_waste.rv_spec(),
                        toxic_waste.rw_spec(),
                        ry@,
                        toxic_waste.beta_spec(),
                        poly_eval(midv[k2], toxic_waste.s_spec(), m),
                        poly_eval(midw[k2], toxic_waste.s_spec(), m),
                        poly_eval(midy[k2], toxic_waste.s_spec(), m),
                        m,
                    ),
                ),
        decreases n_mid - k,
    {
        let ghost bv = group_views(gv_ks_mid@);
        let ghost bw = group_views(gw_ks_mid@);
        let ghost by = group_views(gy_ks_mid@);
        let ghost bva = group_views(gv_alphaks_mid@);
        let ghost bwa = group_views(gw_alphaks_mid@);
        let ghost bya = group_views(gy_alphaks_mid@);
        let ghost bb = group_views(g_beta_mid@);
        let ev = vs_mid[k].evaluate(s);
        let ew = ws_mid[k].evaluate(s);
        let ey = ys_mid[k].evaluate(s);
        let hv = g.operate_with_self(rv.mul(ev).representative());
        let hw = g.operate_with_self(rw.mul(ew).representative());
        let hy = g.operate_with_self(ry.mul(ey).representative());
        let hva = g.operate_with_self(rv.mul(alpha_v).mul(ev).representative());
        let hwa = g.operate_with_self(rw.mul(alpha_w).mul(ew).representative());
        let hya = g.operate_with_self(ry.mul(alpha_y).mul(ey).representative());
        let hb = g.operate_with_self(
            rv.mul(beta).mul(ev).add(rw.mul(beta).mul(ew).add(ry.mul(beta).mul(ey))).representative(),
        );
        gv_ks_mid.push(hv);
        gw_ks_mid.push(hw);
        gy_ks_mid.push(hy);
        gv_alphaks_mid.push(hva);
        gw_alphaks_mid.push(hwa);
        gy_alphaks_mid.push(hya);
        g_beta_mid.push(hb);
        proof {
            assert(group_views(gv_ks_mid@) =~= bv.push(hv@));
            assert(group_views(gw_ks_mid@) =~= bw.push(hw@));
            assert(group_views(gy_ks_mid@) =~= by.push(hy@));
            assert(group_views(gv_alphaks_mid@) =~= bva.push(hva@));
            assert(group_views(gw_alphaks_mid@) =~= bwa.push(hwa@));
            assert(group_views(gy_alphaks_mid@) =~= bya.push(hya@));
            assert(group_views(g_beta_mid@) =~= bb.push(hb@));
        }
        k += 1;
    }

    let mut i: usize = 0;
    while i < degree
        invariant
            i <= degree,
            m == FE::order_spec(),
            s == toxic_waste.s,
            g@ == T::generator_view(),
            group_views(g_s_i@).len() == i,
            forall|i2: int|
                0 <= i2 < i ==> #[trigger] group_views(g_s_i@)[i2] == hiding::<T>(
                    vstd::arithmetic::power::pow(toxic_waste.s_spec(), i2 as nat) % m,
                ),
        decreases degree - i,
    {
        let ghost bs = group_views(g_s_i@);
        let hs = g.operate_with_self(s.pow(i as u128).representative());
        g_s_i.push(hs);
        proof {
            assert(group_views(g_s_i@) =~= bs.push(hs@));
        }
        i += 1;
    }

    EvaluationKey {
        gv_ks: gv_ks_mid,
        gw_ks: gw_ks_mid,
        gy_ks: gy_ks_mid,
        gv_alphaks: gv_alphaks_mid,
        gw_alphaks: gw_alphaks_mid,
        gy_alphaks: gy_alphaks_mid,
        g_s_i,
        g_beta: g_beta_mid,
    }
}

/// The trusted setup: derives the evaluation and verification keys from a
/// QAP and a toxic waste.
pub fn setup<T: BilinearCyclicGroup>(qap: &Qap, toxic_waste: &ToxicWaste) -> (r: (
    EvaluationKey<T>,
    VerificationKey<T>,
))
    requires
        qap.well_formed(),
    ensures
        ek_matches(r.0, *qap, *toxic_waste),
        vk_matches(r.1, *qap, *toxic_waste),
{
    let generator = T::generator();
    (
        generate_evaluation_key(qap, toxic_waste, &generator),
        generate_verification_key(qap, toxic_waste, &generator),
    )
}

} // verus!
