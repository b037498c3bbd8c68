//! The single-value product argument of the Bayer-Groth shuffle proof: the committed
//! vector `a(i) = y·π(i) + x^π(i) - z` multiplies up to the public value
//! `∏ (y·i + x^i - z)` over `i = 1..N`.
use vstd::prelude::*;
use vstd::arithmetic::power::pow;
use vstd::string::StringSliceAdditionalSpecFns;
use crate::math::{
    dot, lemma_cong_add, lemma_cong_mul, lemma_dot_combination, lemma_mod_add_both, lemma_mod_add_right,
    lemma_mod_add_step, lemma_mod_mod, lemma_mod_mul_right, lemma_mod_small, lemma_mod_sub_right, n, product,
};
use crate::pedersen::{vcommit_dlog, PedersonCommitKey, PedersonCommitment};
use crate::point::{dlog, dlogs, encode_point, Point};
use crate::scalar::{order, random_scalar, values, Scalar};
use crate::transcript::{absorb_spec, challenge_spec, Transcript};

verus! {

/// The single-value product argument.
#[derive(Debug, Clone, Copy, PartialEq, Eq)]
pub struct SingleValueProductArg<const N: usize> {
    /// Commitment to the blinding vector d.
    pub c_d: PedersonCommitment,
    /// Commitment to `[-δ(i)·d(i + 1)]`.
    pub c_sdelta: PedersonCommitment,
    /// Commitment to `[δ(i + 1) - a(i + 1)·δ(i) - b(i)·d(i + 1)]`.
    pub c_cdelta: PedersonCommitment,
    /// Response `x·a + d`.
    pub a_tilde: [Scalar; N],
    /// Response `x·b + δ`.
    pub b_tilde: [Scalar; N],
    /// Opening of the commitment to `a~`.
    pub r_tilde: Scalar,
    /// Opening of the commitment to the check vector.
    pub s_tilde: Scalar,
}

/// Domain tag of the product-argument challenge.
pub open spec fn svp_dst() -> Seq<u8> {
    "ziffle/BG12ProductArgX/v1".spec_bytes()
}

/// The challenge of the argument: the transcript extended with its three commitments.
pub open spec fn svp_challenge_of(ts: Seq<u8>, c_d: Point, c_sdelta: Point, c_cdelta: Point) -> int {
    challenge_spec(
        svp_dst(),
        absorb_spec(
            absorb_spec(
                absorb_spec(ts, "c_d".spec_bytes(), encode_point(c_d)),
                "c_sdelta".spec_bytes(),
                encode_point(c_sdelta),
            ),
            "c_cdelta".spec_bytes(),
            encode_point(c_cdelta),
        ),
    ).value() as int
}

/// The challenge of an argument under a transcript state.
pub open spec fn svp_challenge<const N: usize>(arg: SingleValueProductArg<N>, ts: Seq<u8>) -> int {
    svp_challenge_of(ts, arg.c_d.0, arg.c_sdelta.0, arg.c_cdelta.0)
}

/// The constant vector `[-z; N]`.
pub open spec fn neg_z_vec(z: int, len: nat) -> Seq<int> {
    Seq::new(len, |i: int| (0 - z) % n())
}

/// First check: `comm(d) + (comm(a) + comm(-z))·x == comm(a~; r~)`, where
/// `comm(a) = y·comm(π) + comm(x^π)` for commitments with discrete logarithms `c_pi` and
/// `c_xpi`.
pub open spec fn svp_check1<const N: usize>(
    arg: SingleValueProductArg<N>,
    ck: PedersonCommitKey<N>,
    c_pi: int,
    c_xpi: int,
    y: int,
    z: int,
    x: int,
) -> bool {
    (dlog(arg.c_d.0) + (c_pi * y + c_xpi + vcommit_dlog(ck, neg_z_vec(z, N as nat), 0)) * x) % n()
        == vcommit_dlog(ck, values(arg.a_tilde@), arg.r_tilde.value() as int)
}

/// The vector `[x·b~(i + 1) - b~(i)·a~(i + 1)]` for `i < N - 1`, ending in 0.
pub open spec fn svp_check_vector<const N: usize>(arg: SingleValueProductArg<N>, x: int) -> Seq<int> {
    Seq::new(
        N as nat,
        |i: int|
            if i + 1 < N {
                (x * arg.b_tilde[i + 1].value() - arg.b_tilde[i].value() * arg.a_tilde[i
                    + 1].value()) % n()
            } else {
                0
            },
    )
}

/// Second check: `comm(δ) + comm(𝛥)·x == comm(check vector; s~)`.
pub open spec fn svp_check2<const N: usize>(
    arg: SingleValueProductArg<N>,
    ck: PedersonCommitKey<N>,
    x: int,
) -> bool {
    (dlog(arg.c_sdelta.0) + dlog(arg.c_cdelta.0) * x) % n() == vcommit_dlog(
        ck,
        svp_check_vector(arg, x),
        arg.s_tilde.value() as int,
    )
}

/// Third check: `b~(0) == a~(0)`.
pub open spec fn svp_check3<const N: usize>(arg: SingleValueProductArg<N>) -> bool {
    arg.b_tilde[0].value() == arg.a_tilde[0].value()
}

/// The public factors `y·i + x^i - z` for `i = 1..len`.
pub open spec fn svp_factors(y: int, z: int, x_base: int, len: nat) -> Seq<int> {
    Seq::new(len, |i: int| (y * (i + 1) + pow(x_base, (i + 1) as nat) - z) % n())
}

/// Fourth check: `b~(N - 1) == x·∏ (y·i + x^i - z)`.
pub open spec fn svp_check4<const N: usize>(
    arg: SingleValueProductArg<N>,
    y: int,
    z: int,
    x_base: int,
    x: int,
) -> bool {
    arg.b_tilde[N - 1].value() == (x * product(svp_factors(y, z, x_base, N as nat))) % n()
}

/// Whether the verifier accepts the argument.
pub open spec fn svp_accepts<const N: usize>(
    arg: SingleValueProductArg<N>,
    ck: PedersonCommitKey<N>,
    x_base: int,
    y: int,
    z: int,
    c_pi: Point,
    c_xpi: Point,
    ts: Seq<u8>,
) -> bool {
    let x = svp_challenge(arg, ts);
    &&& svp_check1(arg, ck, dlog(c_pi) as int, dlog(c_xpi) as int, y, z, x)
    &&& svp_check2(arg, ck, x)
    &&& svp_check3(arg)
    &&& svp_check4(arg, y, z, x_base, x)
}

impl<const N: usize> SingleValueProductArg<N> {
    /// The Fiat-Shamir challenge of the argument.
    fn challenge_x(
        ts: &Transcript,
        c_d: &PedersonCommitment,
        c_sdelta: &PedersonCommitment,
        c_cdelta: &PedersonCommitment,
    ) -> (x: Scalar)
        ensures
            x.value() == svp_challenge_of(ts.state@, c_d.0, c_sdelta.0, c_cdelta.0),
    {
        ts.append_point("c_d".as_bytes(), &c_d.0).append_point("c_sdelta".as_bytes(), &c_sdelta.0).append_point(
            "c_cdelta".as_bytes(),
            &c_cdelta.0,
        ).challenge("ziffle/BG12ProductArgX/v1".as_bytes())
    }

    /// Proves that the vector `a(i) = y·π(i) + x^π(i) - z`, committed through the
    /// commitments to `pi` (opened by `w_pi`) and `xpi` (opened by `w_xpi`), multiplies up
    /// to the last entry of its running products, with blinding from `rng`.
    #[verifier::loop_isolation(false)]
    pub fn new<R: ark_std::rand::RngCore + ?Sized>(
        rng: &mut R,
        ck: &PedersonCommitKey<N>,
        y: &Scalar,
        z: &Scalar,
        pi: &[Scalar; N],
        xpi: &[Scalar; N],
        w_pi: &Scalar,
        w_xpi: &Scalar,
        ts: &Transcript,
    ) -> (res: SingleValueProductArg<N>)
        requires
            N > 1,
        ensures
            svp_check1(
                res,
                *ck,
                vcommit_dlog(*ck, values(pi@), w_pi.value() as int),
                vcommit_dlog(*ck, values(xpi@), w_xpi.value() as int),
                y.value() as int,
                z.value() as int,
                svp_challenge(res, ts.state@),
            ),
            svp_check2(res, *ck, svp_challenge(res, ts.state@)),
            svp_check3(res),
            res.b_tilde[N - 1].value() == (svp_challenge(res, ts.state@) * product(
                svp_a(y.value() as int, z.value() as int, values(pi@), values(xpi@)),
            )) % n(),
    {
        let zero = Scalar::zero();
        let ghost yv = y.value() as int;
        let ghost zv = z.value() as int;
        // Step 1: sample a random vector d and commit to it
        let mut d = [zero; N];
        let mut i: usize = 0;
        while i < N
            invariant
                i <= N,
            decreases N - i,
        {
            d[i] = random_scalar(rng);
            i = i + 1;
        }
        let (c_d, w_d) = ck.vector_commit(rng, &d);
        // Step 2: the semi-random vector δ with δ(0) == d(0) and δ(N - 1) == 0
        let mut sdelta = [zero; N];
        sdelta[0] = d[0];
        let mut i: usize = 1;
        while i + 1 < N
            invariant
                1 <= i,
                i + 1 <= N,
                sdelta[0] == d[0],
                sdelta[N - 1].value() == 0,
            decreases N - i,
        {
            sdelta[i] = random_scalar(rng);
            i = i + 1;
        }
        // commit to [-δ(i)·d(i + 1)] for i < N - 1
        let mut vs = [zero; N];
        let mut i: usize = 0;
        while i + 1 < N
            invariant
                i + 1 <= N,
                forall|k: int|
                    0 <= k < i ==> #[trigger] vs[k].value() as int == (((0 - sdelta[k].value())
                        % n()) * d[k + 1].value()) % n(),
                forall|k: int| i <= k < N ==> #[trigger] vs[k].value() == 0,
            decreases N - i,
        {
            vs[i] = sdelta[i].neg().mul(&d[i + 1]);
            i = i + 1;
        }
        let (c_sdelta, w_sdelta) = ck.vector_commit(rng, &vs);
        // Step 3: a = [y·π(i) + x^π(i) - z] and its running products b
        let mut a = [zero; N];
        let mut i: usize = 0;
        while i < N
            invariant
                i <= N,
                forall|k: int|
                    0 <= k < i ==> #[trigger] a[k].value() as int == svp_a(yv, zv, values(pi@), values(xpi@))[k],
            decreases N - i,
        {
            a[i] = y.mul(&pi[i]).add(&xpi[i]).sub(z);
            proof {
                lemma_factor_a(yv, zv, pi[i as int].value() as int, xpi[i as int].value() as int, a[i as int].value() as int);
            }
            i = i + 1;
        }
        let ghost av = svp_a(yv, zv, values(pi@), values(xpi@));
        let one = Scalar::one();
        let mut b = [one; N];
        b[0] = a[0];
        let mut i: usize = 1;
        proof {
            crate::math::lemma_product_push(av, 0);
            assert(av.subrange(0, 0) =~= Seq::<int>::empty());
            lemma_a_reduced(av, 0);
        }
        while i < N
            invariant
                1 <= i <= N,
                b[0] == a[0],
                forall|k: int| 0 <= k < i ==> #[trigger] b[k].value() as int == product(av.subrange(0, k + 1)) % n(),
            decreases N - i,
        {
            b[i] = b[i - 1].mul(&a[i]);
            proof {
                crate::math::lemma_product_push(av, i as int);
                crate::math::lemma_mod_mul_step(product(av.subrange(0, i as int)), av[i as int]);
            }
            i = i + 1;
        }
        // commit to [δ(i + 1) - a(i + 1)·δ(i) - b(i)·d(i + 1)] for i < N - 1
        let mut vc = [zero; N];
        let mut i: usize = 0;
        while i + 1 < N
            invariant
                i + 1 <= N,
                forall|k: int|
                    0 <= k < i ==> #[trigger] vc[k].value() as int == (((sdelta[k + 1].value() as int - ((a[k
                        + 1].value() * sdelta[k].value()) as int) % n()) % n()) - ((b[k].value()
                        * d[k + 1].value()) as int) % n()) % n(),
                forall|k: int| i <= k < N ==> #[trigger] vc[k].value() == 0,
            decreases N - i,
        {
            vc[i] = sdelta[i + 1].sub(&a[i + 1].mul(&sdelta[i])).sub(&b[i].mul(&d[i + 1]));
            i = i + 1;
        }
        let (c_cdelta, w_cdelta) = ck.vector_commit(rng, &vc);
        // Step 4: the challenge
        let x = SingleValueProductArg::<N>::challenge_x(ts, &c_d, &c_sdelta, &c_cdelta);
        // Step 5: the responses
        let mut a_tilde = [zero; N];
        let mut b_tilde = [zero; N];
        let mut i: usize = 0;
        while i < N
            invariant
                i <= N,
                forall|k: int|
                    0 <= k < i ==> #[trigger] a_tilde[k].value() as int == ((((x.value() * a[k].value()) as int)
                        % n()) + d[k].value()) % n(),
                forall|k: int|
                    0 <= k < i ==> #[trigger] b_tilde[k].value() as int == ((((x.value() * b[k].value()) as int)
                        % n()) + sdelta[k].value()) % n(),
            decreases N - i,
        {
            a_tilde[i] = x.mul(&a[i]).add(&d[i]);
            b_tilde[i] = x.mul(&b[i]).add(&sdelta[i]);
            i = i + 1;
        }
        let w_a = y.mul(w_pi).add(w_xpi);
        let r_tilde = x.mul(&w_a).add(&w_d.0);
        let s_tilde = x.mul(&w_cdelta.0).add(&w_sdelta.0);
        let res = SingleValueProductArg { c_d, c_sdelta, c_cdelta, a_tilde, b_tilde, r_tilde, s_tilde };
        proof {
            let xv = x.value() as int;
            let vb = values(b@);
            let va = values(a@);
            assert forall|k: int| 0 <= k && k + 1 < N implies #[trigger] vb[k + 1] % n() == (vb[k] * va[k
                + 1]) % n() by {
                crate::math::lemma_product_push(av, k + 1);
                crate::math::lemma_mod_mul_step(product(av.subrange(0, k + 1)), av[k + 1]);
                lemma_mod_mod(product(av.subrange(0, k + 1)) * av[k + 1]);
            }
            lemma_svp_new_check1(
                *ck,
                values(a_tilde@),
                va,
                values(d@),
                values(pi@),
                values(xpi@),
                xv,
                yv,
                zv,
                dlog(c_d.0) as int,
                r_tilde.value() as int,
                w_a.value() as int,
                w_d.0.value() as int,
                w_pi.value() as int,
                w_xpi.value() as int,
            );
            lemma_svp_new_check2(
                *ck,
                values(b_tilde@),
                values(a_tilde@),
                vb,
                va,
                values(sdelta@),
                values(d@),
                values(vs@),
                values(vc@),
                xv,
                dlog(c_sdelta.0) as int,
                dlog(c_cdelta.0) as int,
                s_tilde.value() as int,
                w_sdelta.0.value() as int,
                w_cdelta.0.value() as int,
            );
            assert(svp_check_vector(res, xv) =~= check_vector_of(values(b_tilde@), values(a_tilde@), xv));
            // the last running product
            assert(av.subrange(0, N as int) =~= av);
            lemma_mod_mul_right(xv, product(av));
            lemma_mod_mod(xv * product(av));
            assert(b_tilde[N - 1].value() as int == (((xv * b[N - 1].value()) as int) % n() + sdelta[N - 1].value()) % n());
        }
        res
    }

    /// Verifies the argument for the challenges `x_base`, `y`, `z` and the commitments
    /// `c_pi` to the permutation and `c_xpi` to the powers.
    #[verifier::loop_isolation(false)]
    pub fn verify(
        &self,
        ck: &PedersonCommitKey<N>,
        x_base: &Scalar,
        y: &Scalar,
        z: &Scalar,
        c_pi: &PedersonCommitment,
        c_xpi: &PedersonCommitment,
        ts: &Transcript,
    ) -> (res: bool)
        requires
            N > 0,
        ensures
            res == svp_accepts(
                *self,
                *ck,
                x_base.value() as int,
                y.value() as int,
                z.value() as int,
                c_pi.0,
                c_xpi.0,
                ts.state@,
            ),
    {
        // Step 1: derive the challenge scalar x
        let x = SingleValueProductArg::<N>::challenge_x(ts, &self.c_d, &self.c_sdelta, &self.c_cdelta);
        let ghost xv = x.value() as int;
        let ghost yv = y.value() as int;
        let ghost zv = z.value() as int;
        // Step 2: the constant vector commitment comm([-z; N], 0)
        let mz = z.neg();
        let mzs = [mz; N];
        let zero = Scalar::zero();
        let c_mz = ck.vector_commit_with_r(&mzs, &zero);
        proof {
            assert(values(mzs@) =~= neg_z_vec(zv, N as nat));
        }
        // Step 3: comm(a) = y·comm(π) + comm(x^π)
        let c_a = c_pi.0.mul(y).add(&c_xpi.0);
        // Step 4: check comm(d) + (comm(a) + comm(-z))·x == comm(a~; r~)
        let lhs1 = self.c_d.0.add(&c_a.add(&c_mz).mul(&x));
        let rhs1 = ck.vector_commit_with_r(&self.a_tilde, &self.r_tilde);
        proof {
            let cpi = dlog(c_pi.0) as int;
            let cx = dlog(c_xpi.0) as int;
            let cmz = dlog(c_mz) as int;
            lemma_mod_add_step(cpi * yv, cx);
            lemma_mod_add_step(cpi * yv + cx, cmz);
            lemma_mod_mul_step_cong((cpi * yv + cx + cmz), xv);
            lemma_mod_add_right(dlog(self.c_d.0) as int, (cpi * yv + cx + cmz) * xv);
        }
        if !lhs1.equals(&rhs1) {
            return false;
        }
        // Step 5: check comm(δ) + comm(𝛥)·x == comm([x·b~(i + 1) - b~(i)·a~(i + 1)]; s~)
        let lhs2 = self.c_sdelta.0.add(&self.c_cdelta.0.mul(&x));
        let mut v = [zero; N];
        let mut i: usize = 0;
        while i + 1 < N
            invariant
                i + 1 <= N,
                forall|k: int| 0 <= k < i ==> #[trigger] v[k].value() as int == (xv
                    * self.b_tilde[k + 1].value() - self.b_tilde[k].value() * self.a_tilde[k
                    + 1].value()) % n(),
                forall|k: int| i <= k < N ==> #[trigger] v[k].value() == 0,
            decreases N - i,
        {
            v[i] = x.mul(&self.b_tilde[i + 1]).sub(&self.b_tilde[i].mul(&self.a_tilde[i + 1]));
            proof {
                vstd::arithmetic::div_mod::lemma_sub_mod_noop(
                    xv * self.b_tilde[i + 1].value(),
                    (self.b_tilde[i as int].value() * self.a_tilde[i + 1].value()) as int,
                    n(),
                );
            }
            i = i + 1;
        }
        proof {
            assert(values(v@) =~= svp_check_vector(*self, xv));
            lemma_mod_add_right(dlog(self.c_sdelta.0) as int, dlog(self.c_cdelta.0) as int * xv);
        }
        let rhs2 = ck.vector_commit_with_r(&v, &self.s_tilde);
        if !lhs2.equals(&rhs2) {
            return false;
        }
        // Step 6: check b~(0) == a~(0)
        if !self.b_tilde[0].equals(&self.a_tilde[0]) {
            return false;
        }
        // Step 7: check b~(N - 1) == x·∏ (y·i + x^i - z) for i in 1..N
        let ghost f = svp_factors(yv, zv, x_base.value() as int, N as nat);
        let mut public_prod = Scalar::one();
        let mut j: usize = 0;
        proof {
            assert(f.subrange(0, 0) =~= Seq::<int>::empty());
            lemma_mod_small(1);
        }
        while j < N
            invariant
                j <= N,
                f == svp_factors(yv, zv, x_base.value() as int, N as nat),
                public_prod.value() as int == product(f.subrange(0, j as int)) % n(),
            decreases N - j,
        {
            let e = j as u64 + 1;
            let factor = y.mul(&Scalar::from_u64(e)).add(&x_base.pow(e)).sub(z);
            proof {
                lemma_factor(
                    yv,
                    zv,
                    x_base.value() as int,
                    e as int,
                    factor.value() as int,
                );
                crate::math::lemma_product_push(f, j as int);
                crate::math::lemma_mod_mul_step(product(f.subrange(0, j as int)), f[j as int]);
            }
            public_prod = public_prod.mul(&factor);
            j = j + 1;
        }
        proof {
            assert(f.subrange(0, N as int) =~= f);
            lemma_mod_mul_right(xv, product(f));
        }
        self.b_tilde[N - 1].equals(&x.mul(&public_prod))
    }
}

/// The vector `a(i) = y·π(i) + x^π(i) - z` modulo the order.
pub open spec fn svp_a(y: int, z: int, pi: Seq<int>, xpi: Seq<int>) -> Seq<int> {
    Seq::new(pi.len(), |i: int| (y * pi[i] + xpi[i] - z) % n())
}

/// Entries of `svp_a` are reduced, so its one-element prefix multiplies to itself.
proof fn lemma_a_reduced(av: Seq<int>, k: int)
    requires
        0 <= k < av.len(),
        0 <= av[k] < n(),
    ensures
        av[k] % n() == av[k],
{
    lemma_mod_small(av[k]);
}

/// The computed entry `((y·π mod n) + x^π) mod n - z) mod n` of `a`.
proof fn lemma_factor_a(y: int, z: int, p: int, xp: int, a: int)
    requires
        a == (((y * p) % n() + xp) % n() - z) % n(),
    ensures
        a == (y * p + xp - z) % n(),
{
    lemma_mod_add_step(y * p, xp);
    lemma_mod_mod(y * p + xp);
    lemma_cong_add(((y * p) % n() + xp) % n(), y * p + xp, 0 - z, 0 - z);
}

/// An entry of `a` splits into the powers, the constant `-z` and `y` times the permutation.
proof fn lemma_a_entry(y: int, z: int, p: int, xp: int, a: int, mz: int)
    requires
        a == (y * p + xp - z) % n(),
        mz == (0 - z) % n(),
    ensures
        a % n() == ((xp + mz) + y * p) % n(),
{
    lemma_mod_mod(y * p + xp - z);
    lemma_mod_mod(0 - z);
    lemma_cong_add(xp + y * p, xp + y * p, mz, 0 - z);
}

/// The check vector of the second check, over the values of the responses.
pub open spec fn check_vector_of(bt: Seq<int>, at: Seq<int>, x: int) -> Seq<int> {
    Seq::new(
        bt.len(),
        |i: int|
            if i + 1 < bt.len() {
                (x * bt[i + 1] - bt[i] * at[i + 1]) % n()
            } else {
                0
            },
    )
}

/// The first check holds for the responses of an honest prover.
proof fn lemma_svp_new_check1<const N: usize>(
    ck: PedersonCommitKey<N>,
    vat: Seq<int>,
    va: Seq<int>,
    vd: Seq<int>,
    vpi: Seq<int>,
    vx: Seq<int>,
    xv: int,
    yv: int,
    zv: int,
    cd: int,
    rt: int,
    wa: int,
    wd: int,
    wpi: int,
    wx: int,
)
    requires
        vat.len() == N,
        va.len() == N,
        vd.len() == N,
        vpi.len() == N,
        vx.len() == N,
        forall|k: int| 0 <= k < N ==> #[trigger] vat[k] == ((xv * va[k]) % n() + vd[k]) % n(),
        forall|k: int| 0 <= k < N ==> #[trigger] va[k] == svp_a(yv, zv, vpi, vx)[k],
        cd == vcommit_dlog(ck, vd, wd),
        rt == ((xv * wa) % n() + wd) % n(),
        wa == ((yv * wpi) % n() + wx) % n(),
    ensures
        (cd + (vcommit_dlog(ck, vpi, wpi) * yv + vcommit_dlog(ck, vx, wx) + vcommit_dlog(
            ck,
            neg_z_vec(zv, N as nat),
            0,
        )) * xv) % n() == vcommit_dlog(ck, vat, rt),
{
    let gs = dlogs(ck.gs@);
    let h = dlog(ck.h) as int;
    let mz = neg_z_vec(zv, N as nat);
    let u = Seq::new(N as nat, |k: int| vx[k] + mz[k]);
    // a~ = d + x·a,  a = u + y·π,  u = x^π + (-z)
    assert forall|k: int| 0 <= k < gs.len() implies #[trigger] vat[k] % n() == (vd[k] + xv * va[k]) % n() by {
        lemma_mod_add_step(xv * va[k], vd[k]);
        lemma_mod_mod(xv * va[k] + vd[k]);
    }
    lemma_dot_combination(gs, vat, vd, va, xv);
    assert forall|k: int| 0 <= k < gs.len() implies #[trigger] va[k] % n() == (u[k] + yv * vpi[k]) % n() by {
        lemma_a_entry(yv, zv, vpi[k], vx[k], va[k], mz[k]);
    }
    lemma_dot_combination(gs, va, u, vpi, yv);
    assert forall|k: int| 0 <= k < gs.len() implies #[trigger] u[k] % n() == (vx[k] + 1 * mz[k]) % n() by {}
    lemma_dot_combination(gs, u, vx, mz, 1);
    lemma_svp_check1(
        cd,
        vcommit_dlog(ck, vpi, wpi),
        vcommit_dlog(ck, vx, wx),
        vcommit_dlog(ck, mz, 0),
        dot(gs, vat),
        rt,
        wa,
        h,
        dot(gs, vd),
        dot(gs, va),
        dot(gs, u),
        dot(gs, vpi),
        dot(gs, vx),
        dot(gs, mz),
        wd,
        wpi,
        wx,
        xv,
        yv,
    );
}

/// The second check holds for the responses of an honest prover.
proof fn lemma_svp_new_check2<const N: usize>(
    ck: PedersonCommitKey<N>,
    vbt: Seq<int>,
    vat: Seq<int>,
    vb: Seq<int>,
    va: Seq<int>,
    vsd: Seq<int>,
    vd: Seq<int>,
    vvs: Seq<int>,
    vvc: Seq<int>,
    xv: int,
    cs: int,
    cc: int,
    st: int,
    wsd: int,
    wcd: int,
)
    requires
        vbt.len() == N,
        vat.len() == N,
        vb.len() == N,
        va.len() == N,
        vsd.len() == N,
        vd.len() == N,
        vvs.len() == N,
        vvc.len() == N,
        forall|k: int| 0 <= k < N ==> #[trigger] vat[k] == ((xv * va[k]) % n() + vd[k]) % n(),
        forall|k: int| 0 <= k < N ==> #[trigger] vbt[k] == ((xv * vb[k]) % n() + vsd[k]) % n(),
        forall|k: int| 0 <= k && k + 1 < N ==> #[trigger] vb[k + 1] % n() == (vb[k] * va[k + 1]) % n(),
        forall|k: int|
            0 <= k && k + 1 < N ==> #[trigger] vvs[k] == (((0 - vsd[k]) % n()) * vd[k + 1]) % n(),
        forall|k: int|
            0 <= k && k + 1 < N ==> #[trigger] vvc[k] == (((vsd[k + 1] - (va[k + 1] * vsd[k]) % n())
                % n()) - (vb[k] * vd[k + 1]) % n()) % n(),
        N > 0 ==> vvs[N - 1] == 0,
        N > 0 ==> vvc[N - 1] == 0,
        cs == vcommit_dlog(ck, vvs, wsd),
        cc == vcommit_dlog(ck, vvc, wcd),
        st == ((xv * wcd) % n() + wsd) % n(),
    ensures
        (cs + cc * xv) % n() == vcommit_dlog(ck, check_vector_of(vbt, vat, xv), st),
{
    let gs = dlogs(ck.gs@);
    let h = dlog(ck.h) as int;
    let big_v = check_vector_of(vbt, vat, xv);
    assert forall|k: int| 0 <= k < gs.len() implies #[trigger] big_v[k] % n() == (vvs[k] + xv * vvc[k]) % n() by {
        if k + 1 < N {
            lemma_svp_index(
                xv,
                vbt[k + 1],
                vbt[k],
                vat[k + 1],
                vb[k + 1],
                vb[k],
                va[k + 1],
                vsd[k + 1],
                vsd[k],
                vd[k + 1],
                vvs[k],
                vvc[k],
                big_v[k],
            );
        } else {
            lemma_mod_small(0);
        }
    }
    lemma_dot_combination(gs, big_v, vvs, vvc, xv);
    lemma_svp_check2(cs, cc, dot(gs, big_v), st, h, dot(gs, vvs), dot(gs, vvc), wsd, wcd, xv);
}

/// Arithmetic of the first check for an honestly made argument.
proof fn lemma_svp_check1(
    cd: int,
    cpi: int,
    cx: int,
    cmz: int,
    dat: int,
    rt: int,
    wa: int,
    h: int,
    gd: int,
    ga: int,
    gu: int,
    gpi: int,
    gx: int,
    gmz: int,
    wd: int,
    wpi: int,
    wx: int,
    x: int,
    y: int,
)
    requires
        cd == (gd + h * wd) % n(),
        cpi == (gpi + h * wpi) % n(),
        cx == (gx + h * wx) % n(),
        cmz == (gmz + h * 0) % n(),
        dat % n() == (gd + x * ga) % n(),
        ga % n() == (gu + y * gpi) % n(),
        gu % n() == (gx + 1 * gmz) % n(),
        rt == ((x * wa) % n() + wd) % n(),
        wa == ((y * wpi) % n() + wx) % n(),
    ensures
        (cd + (cpi * y + cx + cmz) * x) % n() == (dat + h * rt) % n(),
{
    lemma_mod_mod(gd + h * wd);
    lemma_mod_mod(gpi + h * wpi);
    lemma_mod_mod(gx + h * wx);
    lemma_mod_mod(gmz + h * 0);
    // left-hand side
    lemma_cong_mul(cpi, gpi + h * wpi, y);
    lemma_cong_add(cpi * y, (gpi + h * wpi) * y, cx, gx + h * wx);
    lemma_cong_add(cpi * y + cx, (gpi + h * wpi) * y + (gx + h * wx), cmz, gmz + h * 0);
    lemma_cong_mul(cpi * y + cx + cmz, (gpi + h * wpi) * y + (gx + h * wx) + (gmz + h * 0), x);
    lemma_cong_add(
        cd,
        gd + h * wd,
        (cpi * y + cx + cmz) * x,
        ((gpi + h * wpi) * y + (gx + h * wx) + (gmz + h * 0)) * x,
    );
    // right-hand side
    lemma_mod_add_step(y * wpi, wx);
    lemma_mod_mod(y * wpi + wx);
    lemma_cong_mul(wa, y * wpi + wx, x);
    lemma_mod_add_step(x * wa, wd);
    lemma_mod_add_step(x * (y * wpi + wx), wd);
    lemma_mod_mod(x * (y * wpi + wx) + wd);
    lemma_cong_add(x * wa, x * (y * wpi + wx), wd, wd);
    lemma_cong_mul(rt, x * (y * wpi + wx) + wd, h);
    lemma_cong_mul(ga, gu + y * gpi, x);
    lemma_cong_mul(gu, gx + 1 * gmz, x);
    lemma_cong_add(x * gu, x * (gx + 1 * gmz), x * y * gpi, x * y * gpi);
    assert(x * (gu + y * gpi) == x * gu + x * y * gpi) by (nonlinear_arith);
    lemma_cong_add(gd, gd, x * ga, x * (gu + y * gpi));
    lemma_cong_add(dat, gd + x * ga, h * rt, h * (x * (y * wpi + wx) + wd));
    lemma_cong_add(gd + x * ga, gd + x * (gu + y * gpi), h * rt, h * (x * (y * wpi + wx) + wd));
    lemma_cong_add(x * gu + x * y * gpi, x * (gx + 1 * gmz) + x * y * gpi, gd + h * (x * (y * wpi + wx) + wd), gd + h * (x * (y * wpi + wx) + wd));
    assert(gd + x * (gu + y * gpi) + h * (x * (y * wpi + wx) + wd) == x * gu + x * y * gpi + (gd
        + h * (x * (y * wpi + wx) + wd))) by (nonlinear_arith);
    assert(x * (gx + 1 * gmz) == x * gx + x * gmz) by (nonlinear_arith);
    assert(h * (x * (y * wpi + wx) + wd) == h * x * y * wpi + h * x * wx + h * wd) by (nonlinear_arith);
    assert((gpi + h * wpi) * y == gpi * y + h * wpi * y) by (nonlinear_arith);
    assert(((gpi + h * wpi) * y + (gx + h * wx) + (gmz + h * 0)) * x == ((gpi + h * wpi) * y) * x
        + (gx + h * wx) * x + gmz * x) by (nonlinear_arith);
    assert((gpi * y + h * wpi * y) * x == x * y * gpi + h * x * y * wpi) by (nonlinear_arith);
    assert((gx + h * wx) * x == x * gx + h * x * wx) by (nonlinear_arith);
}

/// Arithmetic of one entry of the second check for an honestly made argument.
proof fn lemma_svp_index(
    x: int,
    bt1: int,
    bt0: int,
    at1: int,
    b1: int,
    b0: int,
    a1: int,
    sd1: int,
    sd0: int,
    d1: int,
    vs: int,
    vc: int,
    v: int,
)
    requires
        bt1 == ((x * b1) % n() + sd1) % n(),
        bt0 == ((x * b0) % n() + sd0) % n(),
        at1 == ((x * a1) % n() + d1) % n(),
        b1 % n() == (b0 * a1) % n(),
        vs == (((0 - sd0) % n()) * d1) % n(),
        vc == (((sd1 - (a1 * sd0) % n()) % n()) - (b0 * d1) % n()) % n(),
        v == (x * bt1 - bt0 * at1) % n(),
    ensures
        v % n() == (vs + x * vc) % n(),
{
    lemma_mod_add_step(x * b1, sd1);
    lemma_mod_mod(x * b1 + sd1);
    lemma_mod_add_step(x * b0, sd0);
    lemma_mod_mod(x * b0 + sd0);
    lemma_mod_add_step(x * a1, d1);
    lemma_mod_mod(x * a1 + d1);
    // x·b~(k + 1) ≡ x·(x·b(k)·a(k + 1) + δ(k + 1))
    lemma_cong_mul(b1, b0 * a1, x * x);
    lemma_cong_add(x * x * b1, x * x * (b0 * a1), x * sd1, x * sd1);
    lemma_cong_mul(bt1, x * b1 + sd1, x);
    assert(x * (x * b1 + sd1) == x * x * b1 + x * sd1) by (nonlinear_arith);
    // b~(k)·a~(k + 1) ≡ (x·b(k) + δ(k))·(x·a(k + 1) + d(k + 1))
    lemma_cong_mul(bt0, x * b0 + sd0, at1);
    lemma_cong_mul(at1, x * a1 + d1, x * b0 + sd0);
    lemma_cong_mul(bt0 * at1, (x * b0 + sd0) * (x * a1 + d1), -1);
    lemma_cong_add(x * bt1, x * x * (b0 * a1) + x * sd1, bt0 * at1 * -1, (x * b0 + sd0) * (x * a1
        + d1) * -1);
    assert(x * bt1 - bt0 * at1 == x * bt1 + bt0 * at1 * -1) by (nonlinear_arith);
    lemma_mod_mod(x * bt1 - bt0 * at1);
    // the two committed vectors
    lemma_mod_mod(0 - sd0);
    lemma_cong_mul((0 - sd0) % n(), 0 - sd0, d1);
    lemma_mod_sub_right(sd1, a1 * sd0);
    lemma_mod_mod(sd1 - a1 * sd0);
    lemma_mod_sub_right(0, b0 * d1);
    lemma_mod_mod(0 - b0 * d1);
    lemma_cong_add((sd1 - (a1 * sd0) % n()) % n(), sd1 - a1 * sd0, 0 - (b0 * d1) % n(), 0 - b0 * d1);
    lemma_mod_sub_right((sd1 - (a1 * sd0) % n()) % n(), b0 * d1);
    lemma_mod_mod(sd1 - a1 * sd0 - b0 * d1);
    lemma_cong_mul(vc, sd1 - a1 * sd0 - b0 * d1, x);
    lemma_cong_add(vs, (0 - sd0) * d1, x * vc, x * (sd1 - a1 * sd0 - b0 * d1));
    assert((x * b0 + sd0) * (x * a1 + d1) == (x * b0) * (x * a1 + d1) + sd0 * (x * a1 + d1)) by (nonlinear_arith);
    assert((x * b0) * (x * a1 + d1) == x * x * (b0 * a1) + x * (b0 * d1)) by (nonlinear_arith);
    assert(sd0 * (x * a1 + d1) == x * (sd0 * a1) + sd0 * d1) by (nonlinear_arith);
    assert(x * (sd1 - a1 * sd0 - b0 * d1) == x * sd1 - x * (sd0 * a1) - x * (b0 * d1)) by (nonlinear_arith);
    assert((0 - sd0) * d1 == -(sd0 * d1)) by (nonlinear_arith);
    assert(((x * b0 + sd0) * (x * a1 + d1)) * -1 == -((x * b0 + sd0) * (x * a1 + d1))) by (nonlinear_arith);
}

/// Arithmetic of the second check for an honestly made argument.
proof fn lemma_svp_check2(
    cs: int,
    cc: int,
    dv: int,
    st: int,
    h: int,
    gs: int,
    gc: int,
    ws: int,
    wc: int,
    x: int,
)
    requires
        cs == (gs + h * ws) % n(),
        cc == (gc + h * wc) % n(),
        dv % n() == (gs + x * gc) % n(),
        st == ((x * wc) % n() + ws) % n(),
    ensures
        (cs + cc * x) % n() == (dv + h * st) % n(),
{
    lemma_mod_mod(gs + h * ws);
    lemma_mod_mod(gc + h * wc);
    lemma_cong_mul(cc, gc + h * wc, x);
    lemma_cong_add(cs, gs + h * ws, cc * x, (gc + h * wc) * x);
    lemma_mod_add_step(x * wc, ws);
    lemma_mod_mod(x * wc + ws);
    lemma_cong_mul(st, x * wc + ws, h);
    lemma_cong_add(dv, gs + x * gc, h * st, h * (x * wc + ws));
    assert(gs + h * ws + (gc + h * wc) * x == gs + x * gc + h * (x * wc + ws)) by (nonlinear_arith);
}

/// Multiplying a reduced sum by the challenge.
proof fn lemma_mod_mul_step_cong(s: int, x: int)
    ensures
        ((s % n()) * x) % n() == (s * x) % n(),
{
    crate::math::lemma_mod_mul_step(s, x);
}

/// The computed factor `((y·e mod n) + (x^e mod n) mod n - z) mod n` is the public factor.
proof fn lemma_factor(y: int, z: int, xb: int, e: int, factor: int)
    requires
        e >= 1,
        factor == (((y * e) % n() + pow(xb, e as nat) % n()) % n() - z) % n(),
    ensures
        factor == (y * e + pow(xb, e as nat) - z) % n(),
{
    lemma_mod_add_both(y * e, pow(xb, e as nat));
    lemma_mod_mod(y * e + pow(xb, e as nat));
    lemma_cong_add((((y * e) % n() + pow(xb, e as nat) % n()) % n()), y * e + pow(xb, e as nat), 0 - z, 0 - z);
}

} // verus!
