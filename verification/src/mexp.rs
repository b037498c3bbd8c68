//! The multi-exponentiation argument of the Bayer-Groth shuffle proof: the re-masked deck,
//! raised to the committed powers `x^π(i)`, equals the previous deck raised to `x^(i+1)`.
use vstd::prelude::*;
use vstd::arithmetic::power::pow;
use vstd::string::StringSliceAdditionalSpecFns;
use crate::math::{
    dot, lemma_cong_add, lemma_cong_mul, lemma_dot_combination, lemma_mod_add_both, lemma_mod_add_right,
    lemma_mod_mod, lemma_mod_small, n,
};
use crate::msm::{ct_msm, scalar_dot};
use crate::pedersen::{commit_dlog, vcommit_dlog, PedersonCommitKey, PedersonCommitment};
use crate::point::{c1_dlogs, c2_dlogs, dlog, Ciphertext, Point};
use crate::scalar::{order, random_scalar, values, Scalar};
use crate::transcript::{absorb_spec, challenge_spec, encode_ciphertext, Transcript};
use crate::point::encode_point;

verus! {

/// The multi-exponentiation argument.
#[derive(Debug, Clone, Copy, PartialEq, Eq)]
pub struct MultiExpArg<const N: usize> {
    /// Commitment to the blinding vector α.
    pub c_alpha: PedersonCommitment,
    /// Commitment to the blinding scalar β.
    pub c_beta: PedersonCommitment,
    /// The blinding ciphertext `ℰ(β·G; τ0)·∏ next[i]^α(i)`.
    pub ct_mxp0: Ciphertext,
    /// The anchoring ciphertext `ℰ(1; ρ_agg)·∏ next[i]^x^π(i)`.
    pub ct_mxp1: Ciphertext,
    /// Opening `α + x·x^π`.
    pub o_alpha: [Scalar; N],
    /// Opening of the commitment randomness.
    pub o_r: Scalar,
    /// The blinding scalar β.
    pub beta: Scalar,
    /// Randomness of the commitment to β.
    pub o_beta: Scalar,
    /// `τ0 + x·ρ_agg`.
    pub tau: Scalar,
}

/// Domain tag of the multi-exponentiation challenge.
pub open spec fn mexp_dst() -> Seq<u8> {
    "ziffle/BG12MultiExpArgX/v1".spec_bytes()
}

/// The challenge of the argument: the transcript extended with its commitments and
/// ciphertexts.
pub open spec fn mexp_challenge_of(
    ts: Seq<u8>,
    c_alpha: Point,
    c_beta: Point,
    ct_mxp0: Ciphertext,
    ct_mxp1: Ciphertext,
) -> int {
    challenge_spec(
        mexp_dst(),
        absorb_spec(
            absorb_spec(
                absorb_spec(
                    absorb_spec(ts, "c_alpha".spec_bytes(), encode_point(c_alpha)),
                    "c_beta".spec_bytes(),
                    encode_point(c_beta),
                ),
                "ct_mxp0".spec_bytes(),
                encode_ciphertext(ct_mxp0),
            ),
            "ct_mxp1".spec_bytes(),
            encode_ciphertext(ct_mxp1),
        ),
    ).value() as int
}

/// The challenge of an argument under a transcript state.
pub open spec fn mexp_challenge<const N: usize>(arg: MultiExpArg<N>, ts: Seq<u8>) -> int {
    mexp_challenge_of(ts, arg.c_alpha.0, arg.c_beta.0, arg.ct_mxp0, arg.ct_mxp1)
}

/// The powers `x^1, ..., x^k` modulo the order.
pub open spec fn powers(x: int, k: nat) -> Seq<int> {
    Seq::new(k, |i: int| pow(x, (i + 1) as nat) % n())
}

/// First check: the previous deck raised to `x^(i+1)` is the anchoring ciphertext.
pub open spec fn mexp_check1<const N: usize>(arg: MultiExpArg<N>, prev: Seq<Ciphertext>, x_base: int) -> bool {
    &&& dlog(arg.ct_mxp1.0) == dot(c1_dlogs(prev), powers(x_base, N as nat)) % n()
    &&& dlog(arg.ct_mxp1.1) == dot(c2_dlogs(prev), powers(x_base, N as nat)) % n()
}

/// Second check: `x·comm(x^π) + comm(α) == comm(𝒪α; 𝒪r)`, for the commitment to the
/// powers with discrete logarithm `c_xpi`.
pub open spec fn mexp_check2<const N: usize>(
    arg: MultiExpArg<N>,
    ck: PedersonCommitKey<N>,
    c_xpi: int,
    x: int,
) -> bool {
    (c_xpi * x + dlog(arg.c_alpha.0)) % n() == vcommit_dlog(ck, values(arg.o_alpha@), arg.o_r.value() as int)
}

/// Third check: `comm(β) == comm(β; 𝒪β)`.
pub open spec fn mexp_check3<const N: usize>(arg: MultiExpArg<N>, ck: PedersonCommitKey<N>) -> bool {
    dlog(arg.c_beta.0) == commit_dlog(ck, arg.beta.value() as int, arg.o_beta.value() as int)
}

/// Fourth check: `𝒞mxp0 + x·𝒞mxp1 == ℰ(β·G; τ) + Σ next[i]·𝒪α(i)`.
pub open spec fn mexp_check4<const N: usize>(
    arg: MultiExpArg<N>,
    pk: Point,
    next: Seq<Ciphertext>,
    x: int,
) -> bool {
    let o = values(arg.o_alpha@);
    &&& (dlog(arg.ct_mxp0.0) + dlog(arg.ct_mxp1.0) * x) % n() == (arg.tau.value() + dot(
        c1_dlogs(next),
        o,
    )) % n()
    &&& (dlog(arg.ct_mxp0.1) + dlog(arg.ct_mxp1.1) * x) % n() == (arg.beta.value() + dlog(pk)
        * arg.tau.value() + dot(c2_dlogs(next), o)) % n()
}

/// Whether the verifier accepts the argument.
pub open spec fn mexp_accepts<const N: usize>(
    arg: MultiExpArg<N>,
    ck: PedersonCommitKey<N>,
    pk: Point,
    prev: Seq<Ciphertext>,
    next: Seq<Ciphertext>,
    x_base: int,
    c_xpi: Point,
    ts: Seq<u8>,
) -> bool {
    let x = mexp_challenge(arg, ts);
    &&& mexp_check1(arg, prev, x_base)
    &&& mexp_check2(arg, ck, dlog(c_xpi) as int, x)
    &&& mexp_check3(arg, ck)
    &&& mexp_check4(arg, pk, next, x)
}

impl<const N: usize> MultiExpArg<N> {
    /// The Fiat-Shamir challenge of the argument.
    fn challenge_x(
        ts: &Transcript,
        c_alpha: &PedersonCommitment,
        c_beta: &PedersonCommitment,
        ct_mxp0: &Ciphertext,
        ct_mxp1: &Ciphertext,
    ) -> (x: Scalar)
        ensures
            x.value() == mexp_challenge_of(ts.state@, c_alpha.0, c_beta.0, *ct_mxp0, *ct_mxp1),
    {
        ts.append_point("c_alpha".as_bytes(), &c_alpha.0).append_point(
            "c_beta".as_bytes(),
            &c_beta.0,
        ).append_ciphertext("ct_mxp0".as_bytes(), ct_mxp0).append_ciphertext(
            "ct_mxp1".as_bytes(),
            ct_mxp1,
        ).challenge("ziffle/BG12MultiExpArgX/v1".as_bytes())
    }

    /// Proves that `next` re-masks the deck under `apk` with randomness `rho` and that
    /// `xpi` are the committed powers (opened by `w_xpi`), with blinding from `rng`.
    pub fn new<R: ark_std::rand::RngCore + ?Sized>(
        rng: &mut R,
        ck: &PedersonCommitKey<N>,
        apk: &Point,
        xpi: &[Scalar; N],
        w_xpi: &Scalar,
        next: &[Ciphertext; N],
        rho: &[Scalar; N],
        ts: &Transcript,
    ) -> (res: MultiExpArg<N>)
        ensures
            mexp_check2(
                res,
                *ck,
                vcommit_dlog(*ck, values(xpi@), w_xpi.value() as int),
                mexp_challenge(res, ts.state@),
            ),
            mexp_check3(res, *ck),
            mexp_check4(res, *apk, next@, mexp_challenge(res, ts.state@)),
            dlog(res.ct_mxp1.0) == (dot(c1_dlogs(next@), values(xpi@)) - dot(
                values(rho@),
                values(xpi@),
            )) % n(),
            dlog(res.ct_mxp1.1) == (dot(c2_dlogs(next@), values(xpi@)) - dlog(*apk) * dot(
                values(rho@),
                values(xpi@),
            )) % n(),
    {
        // Step 1: sample a random vector α and scalar β and commit to them
        let zero = Scalar::zero();
        let mut alpha = [zero; N];
        let mut i: usize = 0;
        while i < N
            invariant
                i <= N,
            decreases N - i,
        {
            alpha[i] = random_scalar(rng);
            i = i + 1;
        }
        let beta = random_scalar(rng);
        let (c_alpha, w_alpha) = ck.vector_commit(rng, &alpha);
        let (c_beta, w_beta) = ck.commit(rng, &beta);
        // Step 2: the blinding ciphertext ℰ(β·G; τ0)·∏ next[i]^α(i)
        let tau0 = random_scalar(rng);
        let (a1, a2) = ct_msm(next, &alpha);
        let ct_mxp0 = (
            Point::mul_base(&tau0).add(&a1),
            Point::mul_base(&beta).add(&apk.mul(&tau0)).add(&a2),
        );
        // the anchoring ciphertext ℰ(1; ρ_agg)·∏ next[i]^x^π(i), ρ_agg = -Σ ρ(i)·x^π(i)
        let rho_agg = scalar_dot(rho, xpi).neg();
        let (p1, p2) = ct_msm(next, xpi);
        let ct_mxp1 = (Point::mul_base(&rho_agg).add(&p1), apk.mul(&rho_agg).add(&p2));
        // Step 3: the challenge
        let x = MultiExpArg::<N>::challenge_x(ts, &c_alpha, &c_beta, &ct_mxp0, &ct_mxp1);
        // Step 4: the openings
        let mut o_alpha = [zero; N];
        let mut j: usize = 0;
        while j < N
            invariant
                j <= N,
                forall|k: int|
                    0 <= k < j ==> #[trigger] o_alpha[k].value() as int % n() == ((alpha[k].value()
                        + x.value() * xpi[k].value()) as int) % n(),
            decreases N - j,
        {
            o_alpha[j] = alpha[j].add(&x.mul(&xpi[j]));
            proof {
                crate::math::lemma_mod_add_right(alpha[j as int].value() as int, (x.value() * xpi[j as int].value()) as int);
                lemma_mod_mod((alpha[j as int].value() + x.value() * xpi[j as int].value()) as int);
            }
            j = j + 1;
        }
        let o_r = w_alpha.0.add(&x.mul(w_xpi));
        let tau = tau0.add(&x.mul(&rho_agg));
        let res = MultiExpArg {
            c_alpha,
            c_beta,
            ct_mxp0,
            ct_mxp1,
            o_alpha,
            o_r,
            beta,
            o_beta: w_beta.0,
            tau,
        };
        proof {
            let xv = x.value() as int;
            let gs = crate::point::dlogs(ck.gs@);
            let h = dlog(ck.h) as int;
            let va = values(alpha@);
            let vx = values(xpi@);
            let vo = values(o_alpha@);
            assert forall|k: int| 0 <= k < gs.len() implies #[trigger] vo[k] % n() == (va[k] + xv * vx[k]) % n() by {
                assert(o_alpha[k].value() as int % n() == ((alpha[k].value() + x.value() * xpi[k].value()) as int) % n());
            }
            lemma_dot_combination(gs, vo, va, vx, xv);
            lemma_mod_add_right(w_alpha.0.value() as int, xv * w_xpi.value());
            lemma_check2(
                vcommit_dlog(*ck, vx, w_xpi.value() as int),
                dlog(c_alpha.0) as int,
                dot(gs, vo),
                o_r.value() as int,
                h,
                dot(gs, vx),
                dot(gs, va),
                w_xpi.value() as int,
                w_alpha.0.value() as int,
                xv,
            );
            // the fourth check, componentwise
            let c1n = c1_dlogs(next@);
            let c2n = c2_dlogs(next@);
            assert forall|k: int| 0 <= k < c1n.len() implies #[trigger] vo[k] % n() == (va[k] + xv * vx[k]) % n() by {
                assert(o_alpha[k].value() as int % n() == ((alpha[k].value() + x.value() * xpi[k].value()) as int) % n());
            }
            lemma_dot_combination(c1n, vo, va, vx, xv);
            lemma_dot_combination(c2n, vo, va, vx, xv);
            let s = dot(values(rho@), vx);
            let ragg = rho_agg.value() as int;
            let pk = dlog(*apk) as int;
            tau0.lemma_value_bound();
            beta.lemma_value_bound();
            rho_agg.lemma_value_bound();
            lemma_mod_small(tau0.value() as int);
            lemma_mod_small(beta.value() as int);
            lemma_mod_small(ragg);
            lemma_check4(
                dlog(ct_mxp0.0) as int,
                dlog(ct_mxp0.1) as int,
                dlog(ct_mxp1.0) as int,
                dlog(ct_mxp1.1) as int,
                tau0.value() as int,
                tau.value() as int,
                beta.value() as int,
                ragg,
                pk,
                dot(c1n, va),
                dot(c2n, va),
                dot(c1n, vx),
                dot(c2n, vx),
                dot(c1n, vo),
                dot(c2n, vo),
                xv,
            );
            lemma_anchor(dlog(ct_mxp1.0) as int, dlog(ct_mxp1.1) as int, ragg, s, pk, dot(c1n, vx), dot(c2n, vx));
        }
        res
    }

    /// Verifies the argument for the decks `prev` and `next` under `apk`, the challenge
    /// base `x_base` and the commitment `c_xpi` to the powers.
    pub fn verify(
        &self,
        ck: &PedersonCommitKey<N>,
        apk: &Point,
        prev: &[Ciphertext; N],
        next: &[Ciphertext; N],
        x_base: &Scalar,
        c_xpi: &PedersonCommitment,
        ts: &Transcript,
    ) -> (res: bool)
        ensures
            res == mexp_accepts(*self, *ck, *apk, prev@, next@, x_base.value() as int, c_xpi.0, ts.state@),
    {
        // Step 1: derive the challenge scalar x
        let x = MultiExpArg::<N>::challenge_x(ts, &self.c_alpha, &self.c_beta, &self.ct_mxp0, &self.ct_mxp1);
        let ghost xv = x.value() as int;
        // Step 2: check that Σ prev[i]·x^(i + 1) == 𝒞mxp1
        let zero = Scalar::zero();
        let mut xs = [zero; N];
        let mut i: usize = 0;
        while i < N
            invariant
                i <= N,
                forall|k: int| 0 <= k < i ==> #[trigger] xs[k].value() as int == pow(x_base.value() as int, (k + 1) as nat) % n(),
            decreases N - i,
        {
            xs[i] = x_base.pow(i as u64 + 1);
            i = i + 1;
        }
        proof {
            assert(values(xs@) =~= powers(x_base.value() as int, N as nat));
        }
        let (q1, q2) = ct_msm(prev, &xs);
        if !(q1.equals(&self.ct_mxp1.0) && q2.equals(&self.ct_mxp1.1)) {
            return false;
        }
        // Step 3: check x·comm(x^π) + comm(α) == comm(𝒪α; 𝒪r)
        let lhs = c_xpi.0.mul(&x).add(&self.c_alpha.0);
        let rhs = ck.vector_commit_with_r(&self.o_alpha, &self.o_r);
        proof {
            crate::math::lemma_mod_add_step((dlog(c_xpi.0) * x.value()) as int, dlog(self.c_alpha.0) as int);
        }
        if !lhs.equals(&rhs) {
            return false;
        }
        // Step 4: check that comm(β) == comm(β; 𝒪β)
        if !self.c_beta.0.equals(&ck.commit_with_r(&self.beta, &self.o_beta)) {
            return false;
        }
        // Step 5: check 𝒞mxp0 + x·𝒞mxp1 == ℰ(β·G; τ) + Σ next[i]·𝒪α(i)
        let (n1, n2) = ct_msm(next, &self.o_alpha);
        let lhs1 = self.ct_mxp0.0.add(&self.ct_mxp1.0.mul(&x));
        let lhs2 = self.ct_mxp0.1.add(&self.ct_mxp1.1.mul(&x));
        let rhs1 = Point::mul_base(&self.tau).add(&n1);
        let rhs2 = Point::mul_base(&self.beta).add(&apk.mul(&self.tau)).add(&n2);
        proof {
            let o = values(self.o_alpha@);
            let d1 = dot(c1_dlogs(next@), o);
            let d2 = dot(c2_dlogs(next@), o);
            crate::math::lemma_mod_add_right(dlog(self.ct_mxp0.0) as int, dlog(self.ct_mxp1.0) as int * xv);
            crate::math::lemma_mod_add_right(dlog(self.ct_mxp0.1) as int, dlog(self.ct_mxp1.1) as int * xv);
            crate::math::lemma_mod_add_right(self.tau.value() as int, d1);
            crate::math::lemma_mod_add_right(self.beta.value() as int, (dlog(*apk) * self.tau.value()) as int);
            crate::math::lemma_mod_add_step((self.beta.value() + dlog(*apk) * self.tau.value()) as int, d1);
            lemma_mod_add_both((self.beta.value() + dlog(*apk) * self.tau.value()) as int, d2);
            lemma_mod_mod((self.beta.value() + dlog(*apk) * self.tau.value()) as int);
        }
        lhs1.equals(&rhs1) && lhs2.equals(&rhs2)
    }
}

/// Arithmetic of the second check for an honestly made argument.
proof fn lemma_check2(
    cxd: int,
    ca: int,
    od: int,
    o_r: int,
    h: int,
    gx: int,
    ga: int,
    wx: int,
    wa: int,
    x: int,
)
    requires
        cxd == (gx + h * wx) % n(),
        ca == (ga + h * wa) % n(),
        od % n() == (ga + x * gx) % n(),
        o_r % n() == (wa + x * wx) % n(),
    ensures
        (cxd * x + ca) % n() == (od + h * o_r) % n(),
{
    lemma_mod_mod(gx + h * wx);
    lemma_mod_mod(ga + h * wa);
    lemma_cong_mul(cxd, gx + h * wx, x);
    lemma_cong_add(cxd * x, (gx + h * wx) * x, ca, ga + h * wa);
    lemma_cong_mul(o_r, wa + x * wx, h);
    lemma_cong_add(od, ga + x * gx, h * o_r, h * (wa + x * wx));
    assert((gx + h * wx) * x + (ga + h * wa) == (ga + x * gx) + h * (wa + x * wx)) by (nonlinear_arith);
}

/// Arithmetic of the fourth check for an honestly made argument.
proof fn lemma_check4(
    m0: int,
    m0b: int,
    m1: int,
    m1b: int,
    tau0: int,
    tau: int,
    beta: int,
    ragg: int,
    pk: int,
    d1a: int,
    d2a: int,
    d1x: int,
    d2x: int,
    d1o: int,
    d2o: int,
    x: int,
)
    requires
        m0 == (tau0 + d1a % n()) % n(),
        m0b == ((beta + (pk * tau0) % n()) % n() + d2a % n()) % n(),
        m1 == (ragg + d1x % n()) % n(),
        m1b == ((pk * ragg) % n() + d2x % n()) % n(),
        tau == (tau0 + (x * ragg) % n()) % n(),
        d1o % n() == (d1a + x * d1x) % n(),
        d2o % n() == (d2a + x * d2x) % n(),
    ensures
        (m0 + m1 * x) % n() == (tau + d1o) % n(),
        (m0b + m1b * x) % n() == (beta + pk * tau + d2o) % n(),
{
    // every reduced quantity is congruent to its unreduced form
    crate::math::lemma_mod_add_right(tau0, d1a);
    lemma_mod_mod(tau0 + d1a);
    crate::math::lemma_mod_add_right(ragg, d1x);
    lemma_mod_mod(ragg + d1x);
    crate::math::lemma_mod_add_right(tau0, x * ragg);
    lemma_mod_mod(tau0 + x * ragg);
    crate::math::lemma_mod_add_right(beta, pk * tau0);
    crate::math::lemma_mod_add_step(beta + pk * tau0, d2a % n());
    crate::math::lemma_mod_add_right(beta + pk * tau0, d2a);
    lemma_mod_mod(beta + pk * tau0 + d2a);
    lemma_mod_add_both(pk * ragg, d2x);
    lemma_mod_mod(pk * ragg + d2x);
    // first component
    lemma_cong_mul(m1, ragg + d1x, x);
    lemma_cong_add(m0, tau0 + d1a, m1 * x, (ragg + d1x) * x);
    lemma_cong_add(tau, tau0 + x * ragg, d1o, d1a + x * d1x);
    assert(tau0 + d1a + (ragg + d1x) * x == tau0 + x * ragg + (d1a + x * d1x)) by (nonlinear_arith);
    // second component
    lemma_cong_mul(m1b, pk * ragg + d2x, x);
    lemma_cong_add(m0b, beta + pk * tau0 + d2a, m1b * x, (pk * ragg + d2x) * x);
    lemma_cong_mul(tau, tau0 + x * ragg, pk);
    lemma_cong_add(beta, beta, pk * tau, pk * (tau0 + x * ragg));
    lemma_cong_add(beta + pk * tau, beta + pk * (tau0 + x * ragg), d2o, d2a + x * d2x);
    assert(beta + pk * tau0 + d2a + (pk * ragg + d2x) * x == beta + pk * (tau0 + x * ragg) + (d2a
        + x * d2x)) by (nonlinear_arith);
}

/// Arithmetic of the anchoring ciphertext: with `ρ_agg = -s` it carries the powers of
/// the re-masked deck minus the re-masking.
proof fn lemma_anchor(m1: int, m1b: int, ragg: int, s: int, pk: int, d1x: int, d2x: int)
    requires
        ragg == (0 - s % n()) % n(),
        m1 == (ragg + d1x % n()) % n(),
        m1b == ((pk * ragg) % n() + d2x % n()) % n(),
    ensures
        m1 == (d1x - s) % n(),
        m1b == (d2x - pk * s) % n(),
{
    crate::math::lemma_mod_sub_right(0, s);
    lemma_mod_mod(0 - s);
    crate::math::lemma_mod_add_right(ragg, d1x);
    lemma_cong_add(ragg, 0 - s, d1x, d1x);
    lemma_mod_add_both(pk * ragg, d2x);
    lemma_cong_mul(ragg, 0 - s, pk);
    lemma_cong_add(pk * ragg, pk * (0 - s), d2x, d2x);
    assert(pk * (0 - s) + d2x == d2x - pk * s) by (nonlinear_arith);
}

} // verus!
