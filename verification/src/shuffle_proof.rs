//! The Bayer-Groth (2012) zero-knowledge argument that a deck is a shuffle of another.
//!
//! The prover knows a permutation π and re-masking randomness ρ such that
//! `next[i] = prev[π(i)] + ℰ(1; ρ(i))`. It commits to `π(i) + 1` and, for a Fiat-Shamir
//! challenge `x`, to `x^(π(i) + 1)`; the multi-exponentiation argument shows that the
//! decks agree on these powers, and the product argument shows that the committed values
//! form a permutation. The deck is handled as a single row (m = 1 in the paper).
use vstd::prelude::*;
use vstd::arithmetic::power::pow;
use vstd::string::StringSliceAdditionalSpecFns;
use crate::cards::MaskedDeck;
use crate::keys::AggregatePublicKey;
use crate::mexp::{mexp_accepts, mexp_challenge, mexp_check2, mexp_check3, mexp_check4, MultiExpArg};
use crate::pedersen::{vcommit_dlog, PedersonCommitKey, PedersonCommitment};
use crate::point::{encode_point, Ciphertext, Point};
use crate::product::{svp_accepts, svp_challenge, svp_check1, svp_check2, svp_check3, SingleValueProductArg};
use crate::scalar::{order, values, Scalar};
use crate::transcript::{
    absorb_ciphertexts_spec, absorb_spec, challenge_spec, spec_hash_to_scalars, spec_sha256, Transcript,
};
use crate::verified::Verified;
use crate::math::{dot, lemma_cong_add, lemma_dot_combination, lemma_mod_add_right, lemma_mod_mod, n, product};
use crate::mexp::powers;
use crate::perm::{is_permutation, lemma_permutation_bounded, lemma_dot_comm, lemma_dot_permuted, lemma_product_permuted, permuted};
use crate::point::{c1_dlogs, c2_dlogs, dlog};
use crate::product::{svp_a, svp_factors};

verus! {

/// `next[i]` is `prev[perm[i]]` re-masked with `rho[i]` under the key with discrete
/// logarithm `apk`: `next[i] = prev[perm[i]] + (ρ(i)·G, ρ(i)·apk)`.
pub open spec fn remasks(
    prev: Seq<Ciphertext>,
    next: Seq<Ciphertext>,
    apk: int,
    perm: Seq<usize>,
    rho: Seq<int>,
) -> bool {
    &&& next.len() == prev.len()
    &&& perm.len() == prev.len()
    &&& rho.len() == prev.len()
    &&& forall|i: int| 0 <= i < prev.len() ==> #[trigger] perm[i] < prev.len()
    &&& forall|i: int|
        0 <= i < prev.len() ==> dlog(#[trigger] next[i].0) == (dlog(prev[perm[i] as int].0) + rho[i])
            % n()
    &&& forall|i: int|
        0 <= i < prev.len() ==> dlog(#[trigger] next[i].1) == (dlog(prev[perm[i] as int].1) + apk
            * rho[i]) % n()
}

/// `next` is `prev` permuted and re-masked under the key with discrete logarithm `apk`.
pub open spec fn is_shuffle(prev: Seq<Ciphertext>, next: Seq<Ciphertext>, apk: int) -> bool {
    exists|perm: Seq<usize>, rho: Seq<int>|
        is_permutation(perm, prev.len()) && #[trigger] remasks(prev, next, apk, perm, rho)
}

/// A zero-knowledge proof that a masked deck is a shuffle and re-masking of another.
#[derive(Debug, Clone, Copy, PartialEq, Eq)]
pub struct ShuffleProof<const N: usize> {
    /// Commitment to the permutation `[π(i) + 1]`.
    pub c_pi: PedersonCommitment,
    /// Commitment to the powers `[x^(π(i) + 1)]`.
    pub c_xpi: PedersonCommitment,
    /// Multi-exponentiation argument.
    pub mexp_arg: MultiExpArg<N>,
    /// Product argument.
    pub prod_arg: SingleValueProductArg<N>,
}

/// The transcript state after absorbing the context, the key, both decks and the
/// commitment to the permutation.
pub open spec fn shuffle_transcript(
    apk: Point,
    prev: Seq<Ciphertext>,
    next: Seq<Ciphertext>,
    c_pi: Point,
    ctx: Seq<u8>,
) -> Seq<u8> {
    absorb_spec(
        absorb_ciphertexts_spec(
            absorb_ciphertexts_spec(
                absorb_spec(spec_sha256(ctx), "apk".spec_bytes(), encode_point(apk)),
                "prev".spec_bytes(),
                prev,
            ),
            "next".spec_bytes(),
            next,
        ),
        "c_pi".spec_bytes(),
        encode_point(c_pi),
    )
}

/// The transcript state of a shuffle proof when it starts at `state`: the key, both decks
/// and the commitment to the permutation are absorbed into it.
pub open spec fn shuffle_transcript_at(
    state: Seq<u8>,
    apk: Point,
    prev: Seq<Ciphertext>,
    next: Seq<Ciphertext>,
    c_pi: Point,
) -> Seq<u8> {
    let s1 = absorb_spec(state, "apk".spec_bytes(), encode_point(apk));
    let s2 = absorb_ciphertexts_spec(s1, "prev".spec_bytes(), prev);
    let s3 = absorb_ciphertexts_spec(s2, "next".spec_bytes(), next);
    absorb_spec(s3, "c_pi".spec_bytes(), encode_point(c_pi))
}

/// Domain tag of the challenge `x`.
pub open spec fn x_dst() -> Seq<u8> {
    "ziffle/BG12X/v1".spec_bytes()
}

/// Domain tag of the challenges `y` and `z`.
pub open spec fn yz_dst() -> Seq<u8> {
    "ziffle/BG12YZ/v1".spec_bytes()
}

/// The challenge `x` of a shuffle proof with the commitment `c_pi` to the permutation.
pub open spec fn shuffle_challenge(
    apk: Point,
    prev: Seq<Ciphertext>,
    next: Seq<Ciphertext>,
    c_pi: Point,
    ctx: Seq<u8>,
) -> int {
    challenge_spec(x_dst(), shuffle_transcript(apk, prev, next, c_pi, ctx)).value() as int
}

/// The committed form of a permutation: the 1-based entries `perm[i] + 1`.
pub open spec fn perm_values(perm: Seq<usize>) -> Seq<int> {
    perm.map_values(|p: usize| p + 1)
}

/// The transcript state after also absorbing the commitment to the powers.
pub open spec fn shuffle_transcript_yz(ts: Seq<u8>, c_xpi: Point) -> Seq<u8> {
    absorb_spec(ts, "c_xpi".spec_bytes(), encode_point(c_xpi))
}

/// Whether the verifier accepts the proof for the decks `prev` and `next`.
pub closed spec fn shuffle_accepts<const N: usize>(
    proof: ShuffleProof<N>,
    ck: PedersonCommitKey<N>,
    apk: Point,
    prev: Seq<Ciphertext>,
    next: Seq<Ciphertext>,
    ctx: Seq<u8>,
) -> bool {
    let ts = shuffle_transcript(apk, prev, next, proof.c_pi.0, ctx);
    let x = challenge_spec(x_dst(), ts).value() as int;
    let ts2 = shuffle_transcript_yz(ts, proof.c_xpi.0);
    let y = spec_hash_to_scalars(yz_dst(), ts2, 2)[0].value() as int;
    let z = spec_hash_to_scalars(yz_dst(), ts2, 2)[1].value() as int;
    &&& mexp_accepts(proof.mexp_arg, ck, apk, prev, next, x, proof.c_xpi.0, ts2)
    &&& svp_accepts(proof.prod_arg, ck, x, y, z, proof.c_pi.0, proof.c_xpi.0, ts2)
}

impl<const N: usize> ShuffleProof<N> {
    /// The transcript and the challenge `x`.
    fn challenge_x(
        apk: &AggregatePublicKey,
        prev: &[Ciphertext; N],
        next: &[Ciphertext; N],
        c_pi: &PedersonCommitment,
        ctx: &[u8],
    ) -> (res: (Transcript, Scalar))
        ensures
            res.0.state@ == shuffle_transcript(apk.key(), prev@, next@, c_pi.0, ctx@),
            res.1 == challenge_spec(x_dst(), res.0.state@),
    {
        let ts = Transcript::init(ctx).append_point("apk".as_bytes(), &apk.point()).append_ciphertexts(
            "prev".as_bytes(),
            prev,
        ).append_ciphertexts("next".as_bytes(), next).append_point("c_pi".as_bytes(), &c_pi.0);
        let x = ts.challenge("ziffle/BG12X/v1".as_bytes());
        (ts, x)
    }

    /// The transcript extended with the commitment to the powers, and the challenges
    /// `y` and `z`.
    fn challenge_yz(ts: &Transcript, c_xpi: &PedersonCommitment) -> (res: (Transcript, Scalar, Scalar))
        ensures
            res.0.state@ == shuffle_transcript_yz(ts.state@, c_xpi.0),
            res.1 == spec_hash_to_scalars(yz_dst(), res.0.state@, 2)[0],
            res.2 == spec_hash_to_scalars(yz_dst(), res.0.state@, 2)[1],
    {
        let ts2 = ts.append_point("c_xpi".as_bytes(), &c_xpi.0);
        let (y, z) = ts2.challenge_pair("ziffle/BG12YZ/v1".as_bytes());
        (ts2, y, z)
    }

    /// Proves that `next` is `prev` permuted by `perm` and re-masked under `apk` with the
    /// randomness `rho`, with blinding from `rng`. When that is so, the proof is accepted.
    pub fn new<R: ark_std::rand::RngCore + ?Sized>(
        rng: &mut R,
        ck: &PedersonCommitKey<N>,
        apk: &AggregatePublicKey,
        perm: &[usize; N],
        prev: &[Ciphertext; N],
        next: &[Ciphertext; N],
        rho: &[Scalar; N],
        ctx: &[u8],
    ) -> (res: ShuffleProof<N>)
        requires
            N > 1,
            forall|i: int| 0 <= i < N ==> #[trigger] perm[i] < N,
        ensures
            exists|w: int| #[trigger] vcommit_dlog(*ck, perm_values(perm@), w) == dlog(res.c_pi.0),
            exists|w: int|
                #[trigger] vcommit_dlog(
                    *ck,
                    permuted(powers(shuffle_challenge(apk.key(), prev@, next@, res.c_pi.0, ctx@), N as nat), perm@),
                    w,
                ) == dlog(res.c_xpi.0),
            is_permutation(perm@, N as nat) && remasks(prev@, next@, dlog(apk.key()) as int, perm@, values(rho@))
                ==> shuffle_accepts(res, *ck, apk.key(), prev@, next@, ctx@),
    {
        // Step 1: the 1-based permutation as scalars, and a commitment to it
        let zero = Scalar::zero();
        let mut pi = [zero; N];
        let mut i: usize = 0;
        while i < N
            invariant
                i <= N,
                forall|k: int| 0 <= k < N ==> #[trigger] perm[k] < N,
                forall|k: int| 0 <= k < i ==> #[trigger] pi[k].value() == perm[k] + 1,
            decreases N - i,
        {
            pi[i] = Scalar::from_u64(perm[i] as u64 + 1);
            i = i + 1;
        }
        let (c_pi, w_pi) = ck.vector_commit(rng, &pi);
        // Step 2: the transcript and the challenge x
        let (ts, x) = ShuffleProof::<N>::challenge_x(apk, prev, next, &c_pi, ctx);
        // Step 3: commit to [x^(π(i) + 1)]
        let mut xpi = [zero; N];
        let mut i: usize = 0;
        while i < N
            invariant
                i <= N,
                forall|k: int| 0 <= k < N ==> #[trigger] perm[k] < N,
                forall|k: int|
                    0 <= k < i ==> #[trigger] xpi[k].value() as int == pow(x.value() as int, (perm[k] + 1) as nat)
                        % (order() as int),
            decreases N - i,
        {
            xpi[i] = x.pow(perm[i] as u64 + 1);
            i = i + 1;
        }
        let (c_xpi, w_xpi) = ck.vector_commit(rng, &xpi);
        // Step 4: the challenges y and z
        let (ts, y, z) = ShuffleProof::<N>::challenge_yz(&ts, &c_xpi);
        // Step 5: the multi-exponentiation argument (on a fork of the transcript)
        let mexp_arg = MultiExpArg::new(rng, ck, &apk.point(), &xpi, &w_xpi.0, next, rho, &ts);
        // Step 6: the product argument
        let prod_arg = SingleValueProductArg::new(rng, ck, &y, &z, &pi, &xpi, &w_pi.0, &w_xpi.0, &ts);
        let res = ShuffleProof { c_pi, c_xpi, mexp_arg, prod_arg };
        proof {
            let xv = x.value() as int;
            assert(values(xpi@) =~= permuted(powers(xv, N as nat), perm@));
            assert(values(pi@) =~= perm_values(perm@));
            assert(vcommit_dlog(*ck, perm_values(perm@), w_pi.0.value() as int) == dlog(res.c_pi.0));
            assert(vcommit_dlog(
                *ck,
                permuted(powers(shuffle_challenge(apk.key(), prev@, next@, res.c_pi.0, ctx@), N as nat), perm@),
                w_xpi.0.value() as int,
            ) == dlog(res.c_xpi.0));
            if is_permutation(perm@, N as nat) && remasks(prev@, next@, dlog(apk.key()) as int, perm@, values(rho@)) {
                lemma_mexp_complete(
                    mexp_arg,
                    *ck,
                    apk.key(),
                    prev@,
                    next@,
                    perm@,
                    values(rho@),
                    xv,
                    values(xpi@),
                    w_xpi.0.value() as int,
                    c_xpi.0,
                    ts.state@,
                );
                lemma_svp_complete(
                    prod_arg,
                    *ck,
                    perm@,
                    xv,
                    y.value() as int,
                    z.value() as int,
                    w_pi.0.value() as int,
                    w_xpi.0.value() as int,
                    c_pi.0,
                    c_xpi.0,
                    ts.state@,
                );
            }
        }
        res
    }

    /// Verifies the proof that `next` is a shuffle of `prev`; on success the deck `next`
    /// is verified.
    pub fn verify(
        &self,
        ck: &PedersonCommitKey<N>,
        apk: &AggregatePublicKey,
        prev: &[Ciphertext; N],
        next: &[Ciphertext; N],
        ctx: &[u8],
    ) -> (res: Option<Verified<MaskedDeck<N>>>)
        requires
            N > 0,
        ensures
            res is Some <==> shuffle_accepts(*self, *ck, apk.key(), prev@, next@, ctx@),
            res matches Some(v) ==> v.inner() == MaskedDeck(*next),
    {
        let (ts, x) = ShuffleProof::<N>::challenge_x(apk, prev, next, &self.c_pi, ctx);
        let (ts, y, z) = ShuffleProof::<N>::challenge_yz(&ts, &self.c_xpi);
        if !self.mexp_arg.verify(ck, &apk.point(), prev, next, &x, &self.c_xpi, &ts) {
            return None;
        }
        if !self.prod_arg.verify(ck, &x, &y, &z, &self.c_pi, &self.c_xpi, &ts) {
            return None;
        }
        Some(Verified::new(MaskedDeck(*next)))
    }
}

/// For an honest shuffle, the anchoring ciphertext of the multi-exponentiation argument
/// (the re-masked deck raised to the permuted powers, minus the re-masking) is the
/// previous deck raised to the powers `x^(i+1)`.
proof fn lemma_anchor_is_previous_deck(
    prev: Seq<Ciphertext>,
    next: Seq<Ciphertext>,
    pk: int,
    perm: Seq<usize>,
    rho: Seq<int>,
    x: int,
    vx: Seq<int>,
    m1: int,
    m1b: int,
)
    requires
        remasks(prev, next, pk, perm, rho),
        is_permutation(perm, prev.len()),
        prev.len() <= usize::MAX,
        vx == permuted(powers(x, prev.len()), perm),
        m1 == (dot(c1_dlogs(next), vx) - dot(rho, vx)) % n(),
        m1b == (dot(c2_dlogs(next), vx) - pk * dot(rho, vx)) % n(),
    ensures
        m1 == dot(c1_dlogs(prev), powers(x, prev.len())) % n(),
        m1b == dot(c2_dlogs(prev), powers(x, prev.len())) % n(),
{
    let len = prev.len();
    let pw = powers(x, len);
    let c1n = c1_dlogs(next);
    let c2n = c2_dlogs(next);
    let q1 = permuted(c1_dlogs(prev), perm);
    let q2 = permuted(c2_dlogs(prev), perm);
    let s = dot(rho, vx);
    assert forall|k: int| 0 <= k < vx.len() implies #[trigger] c1n[k] % n() == (q1[k] + 1 * rho[k]) % n() by {
        lemma_mod_mod(dlog(prev[perm[k] as int].0) + rho[k]);
    }
    assert forall|k: int| 0 <= k < vx.len() implies #[trigger] c2n[k] % n() == (q2[k] + pk * rho[k]) % n() by {
        lemma_mod_mod(dlog(prev[perm[k] as int].1) + pk * rho[k]);
    }
    lemma_dot_combination(vx, c1n, q1, rho, 1);
    lemma_dot_combination(vx, c2n, q2, rho, pk);
    lemma_dot_comm(vx, c1n);
    lemma_dot_comm(vx, c2n);
    lemma_dot_comm(vx, q1);
    lemma_dot_comm(vx, q2);
    lemma_dot_comm(vx, rho);
    lemma_dot_permuted(c1_dlogs(prev), pw, perm);
    lemma_dot_permuted(c2_dlogs(prev), pw, perm);
    let d1 = dot(c1_dlogs(prev), pw);
    let d2 = dot(c2_dlogs(prev), pw);
    lemma_cong_add(dot(c1n, vx), d1 + s, 0 - s, 0 - s);
    lemma_cong_add(dot(c2n, vx), d2 + pk * s, 0 - pk * s, 0 - pk * s);
}

/// For an honest shuffle, the committed vector `y·π(i) + x^π(i) - z` is the public
/// factor vector reordered by the permutation, so both multiply to the same value.
proof fn lemma_committed_product(
    perm: Seq<usize>,
    pi: Seq<int>,
    xpi: Seq<int>,
    x: int,
    y: int,
    z: int,
)
    requires
        is_permutation(perm, perm.len()),
        perm.len() <= usize::MAX,
        pi.len() == perm.len(),
        xpi == permuted(powers(x, perm.len()), perm),
        forall|i: int| 0 <= i < perm.len() ==> #[trigger] perm[i] < perm.len(),
        forall|i: int| 0 <= i < perm.len() ==> #[trigger] pi[i] == perm[i] + 1,
    ensures
        product(svp_a(y, z, pi, xpi)) == product(svp_factors(y, z, x, perm.len())),
{
    let f = svp_factors(y, z, x, perm.len());
    assert forall|i: int| 0 <= i < perm.len() implies #[trigger] svp_a(y, z, pi, xpi)[i] == permuted(f, perm)[i] by {
        let p = perm[i] as int;
        lemma_mod_add_right(y * (p + 1) - z, pow(x, (p + 1) as nat));
    }
    assert(svp_a(y, z, pi, xpi) =~= permuted(f, perm));
    lemma_product_permuted(f, perm);
}

/// The responses of an accepted proof are fixed by its commitments: changing the
/// blinding scalar `β` of the multi-exponentiation argument, and nothing else, makes the
/// proof rejected.
pub proof fn lemma_changed_beta_rejected<const N: usize>(
    proof: ShuffleProof<N>,
    other: ShuffleProof<N>,
    ck: PedersonCommitKey<N>,
    apk: Point,
    prev: Seq<Ciphertext>,
    next: Seq<Ciphertext>,
    ctx: Seq<u8>,
)
    requires
        shuffle_accepts(proof, ck, apk, prev, next, ctx),
        other == (ShuffleProof { mexp_arg: MultiExpArg { beta: other.mexp_arg.beta, ..proof.mexp_arg }, ..proof }),
        other.mexp_arg.beta.value() != proof.mexp_arg.beta.value(),
    ensures
        !shuffle_accepts(other, ck, apk, prev, next, ctx),
{
    let h = dlog(ck.h) as int;
    let b1 = proof.mexp_arg.beta.value() as int;
    let b2 = other.mexp_arg.beta.value() as int;
    let o = proof.mexp_arg.o_beta.value() as int;
    proof.mexp_arg.beta.lemma_value_bound();
    other.mexp_arg.beta.lemma_value_bound();
    if shuffle_accepts(other, ck, apk, prev, next, ctx) {
        // both openings of the commitment to β agree, so the two values are congruent
        lemma_cong_add(b1 + h * o, b2 + h * o, 0 - h * o, 0 - h * o);
        crate::math::lemma_mod_small(b1);
        crate::math::lemma_mod_small(b2);
    }
}

/// Changing the response `τ` of the multi-exponentiation argument of an accepted proof,
/// and nothing else, makes the proof rejected.
pub proof fn lemma_changed_tau_rejected<const N: usize>(
    proof: ShuffleProof<N>,
    other: ShuffleProof<N>,
    ck: PedersonCommitKey<N>,
    apk: Point,
    prev: Seq<Ciphertext>,
    next: Seq<Ciphertext>,
    ctx: Seq<u8>,
)
    requires
        shuffle_accepts(proof, ck, apk, prev, next, ctx),
        other == (ShuffleProof { mexp_arg: MultiExpArg { tau: other.mexp_arg.tau, ..proof.mexp_arg }, ..proof }),
        other.mexp_arg.tau.value() != proof.mexp_arg.tau.value(),
    ensures
        !shuffle_accepts(other, ck, apk, prev, next, ctx),
{
    let t1 = proof.mexp_arg.tau.value() as int;
    let t2 = other.mexp_arg.tau.value() as int;
    let d = dot(c1_dlogs(next), values(proof.mexp_arg.o_alpha@));
    proof.mexp_arg.tau.lemma_value_bound();
    other.mexp_arg.tau.lemma_value_bound();
    if shuffle_accepts(other, ck, apk, prev, next, ctx) {
        // the first component of the fourth check fixes τ
        lemma_cong_add(t1 + d, t2 + d, 0 - d, 0 - d);
        crate::math::lemma_mod_small(t1);
        crate::math::lemma_mod_small(t2);
    }
}

/// Changing only one of the first responses `a~(0)`, `b~(0)` of the product argument of
/// an accepted proof makes the proof rejected.
pub proof fn lemma_changed_first_response_rejected<const N: usize>(
    proof: ShuffleProof<N>,
    other: ShuffleProof<N>,
    ck: PedersonCommitKey<N>,
    apk: Point,
    prev: Seq<Ciphertext>,
    next: Seq<Ciphertext>,
    ctx: Seq<u8>,
)
    requires
        N > 0,
        shuffle_accepts(proof, ck, apk, prev, next, ctx),
        other.c_pi == proof.c_pi,
        other.c_xpi == proof.c_xpi,
        other.mexp_arg == proof.mexp_arg,
        other.prod_arg.c_d == proof.prod_arg.c_d,
        other.prod_arg.c_sdelta == proof.prod_arg.c_sdelta,
        other.prod_arg.c_cdelta == proof.prod_arg.c_cdelta,
        (other.prod_arg.a_tilde[0].value() == proof.prod_arg.a_tilde[0].value()) != (other.prod_arg.b_tilde[0].value()
            == proof.prod_arg.b_tilde[0].value()),
    ensures
        !shuffle_accepts(other, ck, apk, prev, next, ctx),
{
}

/// What the verifier accepts, spelled out: the transcript and the challenges `x`, `y`, `z`
/// are recomputed from the proof's commitments, and both arguments must be accepted.
pub proof fn lemma_shuffle_accepts_unfold<const N: usize>(
    proof: ShuffleProof<N>,
    ck: PedersonCommitKey<N>,
    apk: Point,
    prev: Seq<Ciphertext>,
    next: Seq<Ciphertext>,
    ctx: Seq<u8>,
)
    ensures
        shuffle_accepts(proof, ck, apk, prev, next, ctx) <==> ({
            let ts = shuffle_transcript(apk, prev, next, proof.c_pi.0, ctx);
            let x = challenge_spec(x_dst(), ts).value() as int;
            let ts2 = shuffle_transcript_yz(ts, proof.c_xpi.0);
            let y = spec_hash_to_scalars(yz_dst(), ts2, 2)[0].value() as int;
            let z = spec_hash_to_scalars(yz_dst(), ts2, 2)[1].value() as int;
            &&& mexp_accepts(proof.mexp_arg, ck, apk, prev, next, x, proof.c_xpi.0, ts2)
            &&& svp_accepts(proof.prod_arg, ck, x, y, z, proof.c_pi.0, proof.c_xpi.0, ts2)
        }),
{
}

/// A shuffle proof is bound to its whole context: its transcript starts at the SHA-256
/// digest of the entire context `ctx`, and every challenge is drawn from it.
pub proof fn lemma_shuffle_transcript_binds_context(
    apk: Point,
    prev: Seq<Ciphertext>,
    next: Seq<Ciphertext>,
    c_pi: Point,
    ctx: Seq<u8>,
)
    ensures
        shuffle_transcript(apk, prev, next, c_pi, ctx) == shuffle_transcript_at(spec_sha256(ctx), apk, prev, next, c_pi),
        shuffle_challenge(apk, prev, next, c_pi, ctx) == challenge_spec(
            x_dst(),
            shuffle_transcript_at(spec_sha256(ctx), apk, prev, next, c_pi),
        ).value() as int,
{
}

/// Whether a shuffle proof is accepted depends on the context only through the digest of
/// the whole context: under two contexts with the same digest, it is accepted under both
/// or under neither.
pub proof fn lemma_shuffle_context_digest<const N: usize>(
    proof: ShuffleProof<N>,
    ck: PedersonCommitKey<N>,
    apk: Point,
    prev: Seq<Ciphertext>,
    next: Seq<Ciphertext>,
    ctx1: Seq<u8>,
    ctx2: Seq<u8>,
)
    requires
        spec_sha256(ctx1) == spec_sha256(ctx2),
    ensures
        shuffle_transcript(apk, prev, next, proof.c_pi.0, ctx1) == shuffle_transcript(apk, prev, next, proof.c_pi.0, ctx2),
        shuffle_accepts(proof, ck, apk, prev, next, ctx1) <==> shuffle_accepts(proof, ck, apk, prev, next, ctx2),
{
    lemma_shuffle_transcript_binds_context(apk, prev, next, proof.c_pi.0, ctx1);
    lemma_shuffle_transcript_binds_context(apk, prev, next, proof.c_pi.0, ctx2);
}

/// Completeness of the multi-exponentiation argument: an argument with the properties
/// that `MultiExpArg::new` ensures, made for a deck `next` that re-masks `prev` reordered
/// by the permutation `perm`, with the powers `x^(perm[i] + 1)` committed in `c_xpi`, is
/// accepted.
pub proof fn lemma_mexp_complete<const N: usize>(
    arg: MultiExpArg<N>,
    ck: PedersonCommitKey<N>,
    pk: Point,
    prev: Seq<Ciphertext>,
    next: Seq<Ciphertext>,
    perm: Seq<usize>,
    rho: Seq<int>,
    x: int,
    xpi: Seq<int>,
    w_xpi: int,
    c_xpi: Point,
    ts: Seq<u8>,
)
    requires
        prev.len() == N,
        remasks(prev, next, dlog(pk) as int, perm, rho),
        is_permutation(perm, N as nat),
        xpi == permuted(powers(x, N as nat), perm),
        dlog(c_xpi) == vcommit_dlog(ck, xpi, w_xpi),
        mexp_check2(arg, ck, vcommit_dlog(ck, xpi, w_xpi), mexp_challenge(arg, ts)),
        mexp_check3(arg, ck),
        mexp_check4(arg, pk, next, mexp_challenge(arg, ts)),
        dlog(arg.ct_mxp1.0) == (dot(c1_dlogs(next), xpi) - dot(rho, xpi)) % n(),
        dlog(arg.ct_mxp1.1) == (dot(c2_dlogs(next), xpi) - dlog(pk) * dot(rho, xpi)) % n(),
    ensures
        mexp_accepts(arg, ck, pk, prev, next, x, c_xpi, ts),
{
    lemma_anchor_is_previous_deck(
        prev,
        next,
        dlog(pk) as int,
        perm,
        rho,
        x,
        xpi,
        dlog(arg.ct_mxp1.0) as int,
        dlog(arg.ct_mxp1.1) as int,
    );
}

/// Completeness of the product argument: an argument with the properties that
/// `SingleValueProductArg::new` ensures, made for the committed permutation
/// `perm[i] + 1` and powers `x^(perm[i] + 1)` of a permutation `perm`, is accepted.
pub proof fn lemma_svp_complete<const N: usize>(
    arg: SingleValueProductArg<N>,
    ck: PedersonCommitKey<N>,
    perm: Seq<usize>,
    x: int,
    y: int,
    z: int,
    w_pi: int,
    w_xpi: int,
    c_pi: Point,
    c_xpi: Point,
    ts: Seq<u8>,
)
    requires
        N > 0,
        is_permutation(perm, N as nat),
        dlog(c_pi) == vcommit_dlog(ck, perm_values(perm), w_pi),
        dlog(c_xpi) == vcommit_dlog(ck, permuted(powers(x, N as nat), perm), w_xpi),
        svp_check1(
            arg,
            ck,
            vcommit_dlog(ck, perm_values(perm), w_pi),
            vcommit_dlog(ck, permuted(powers(x, N as nat), perm), w_xpi),
            y,
            z,
            svp_challenge(arg, ts),
        ),
        svp_check2(arg, ck, svp_challenge(arg, ts)),
        svp_check3(arg),
        arg.b_tilde[N - 1].value() == (svp_challenge(arg, ts) * product(
            svp_a(y, z, perm_values(perm), permuted(powers(x, N as nat), perm)),
        )) % n(),
    ensures
        svp_accepts(arg, ck, x, y, z, c_pi, c_xpi, ts),
{
    lemma_permutation_bounded(perm, N as nat);
    lemma_committed_product(perm, perm_values(perm), permuted(powers(x, N as nat), perm), x, y, z);
}

} // verus!
