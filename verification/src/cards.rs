//! Encrypted cards and decks, reveal tokens and their proofs.
use vstd::prelude::*;
use vstd::string::StringSliceAdditionalSpecFns;
use crate::keys::{is_key_pair, PublicKey, SecretKey};
use crate::math::{lemma_mod_add_right, lemma_mod_add_step, lemma_mod_shift, lemma_mod_small, n, sum};
use crate::point::{dlog, encode_point, lemma_dlog_bound, Ciphertext, Point};
use crate::scalar::{order, random_scalar, Scalar};
use crate::transcript::{absorb_spec, challenge_spec, spec_sha256, Transcript};
use crate::verified::Verified;

verus! {

/// Decryption share for a specific card from one player: `sk·c1`.
#[derive(Debug, Clone, Copy, PartialEq, Eq)]
pub struct RevealToken(pub Point);

/// Zero-knowledge proof that a reveal token is `sk·c1` for the key `pk = sk·G`
/// (a Chaum-Pedersen proof of equality of discrete logarithms).
#[derive(Debug, Clone, Copy, PartialEq, Eq)]
pub struct RevealTokenProof {
    /// The commitment `w·G`.
    pub t_g: Point,
    /// The commitment `w·c1`.
    pub t_c1: Point,
    /// The response `w - e·sk`.
    pub z: Scalar,
}

/// An encrypted card: an ElGamal ciphertext `(c1, c2)` under the aggregate key.
#[derive(Debug, Clone, Copy, PartialEq, Eq)]
pub struct MaskedCard(Ciphertext);

/// A deck of `N` encrypted cards.
#[derive(Debug, Clone, Copy, PartialEq, Eq)]
pub struct MaskedDeck<const N: usize>(pub [Ciphertext; N]);

impl MaskedCard {
    /// The ciphertext of the card.
    pub closed spec fn ct(self) -> Ciphertext {
        self.0
    }

    /// The card holding a ciphertext.
    pub(crate) fn from_ciphertext(c: Ciphertext) -> (res: MaskedCard)
        ensures
            res.ct() == c,
    {
        MaskedCard(c)
    }

    /// The ciphertext of the card.
    pub(crate) fn ciphertext(&self) -> (res: Ciphertext)
        ensures
            res == self.ct(),
    {
        self.0
    }

    /// Creates a reveal token and a proof for this card, with a nonce from `rng`.
    ///
    /// The token is `sk·c1`, a partial decryption of the card; the proof shows that it
    /// was computed with the secret key of `pk`.
    pub fn reveal_token<R: ark_std::rand::RngCore + ?Sized>(
        &self,
        rng: &mut R,
        sk: &SecretKey,
        pk: PublicKey,
        ctx: &[u8],
    ) -> (res: (RevealToken, RevealTokenProof))
        ensures
            dlog(res.0.0) == (dlog(self.ct().0) * sk.value()) % order(),
            reveal_proof_by(res.1, sk.value(), pk, res.0, *self, ctx@),
    {
        let c1 = self.0.0;
        let skv = sk.scalar();
        let share = c1.mul(&skv);
        let proof = RevealTokenProof::new(rng, &skv, pk, &share, &c1, ctx);
        (RevealToken(share), proof)
    }
}

/// Domain tag of the reveal-token challenge.
pub open spec fn dleq_dst() -> Seq<u8> {
    "ziffle/DLEQ/v1".spec_bytes()
}

/// The challenge of a reveal-token proof: the transcript of the context, the public key,
/// the share, the card's first component and the two commitments.
pub open spec fn reveal_challenge(
    pk: Point,
    share: Point,
    c1: Point,
    t_g: Point,
    t_c1: Point,
    ctx: Seq<u8>,
) -> nat {
    challenge_spec(
        dleq_dst(),
        absorb_spec(
            absorb_spec(
                absorb_spec(
                    absorb_spec(
                        absorb_spec(spec_sha256(ctx), "pk".spec_bytes(), encode_point(pk)),
                        "share".spec_bytes(),
                        encode_point(share),
                    ),
                    "c1".spec_bytes(),
                    encode_point(c1),
                ),
                "t_g".spec_bytes(),
                encode_point(t_g),
            ),
            "t_c1".spec_bytes(),
            encode_point(t_c1),
        ),
    ).value()
}

/// The challenge of a reveal-token proof drawn from the transcript state `state`: the
/// public key, the share, the card's first component and the two commitments are
/// absorbed into it before the challenge is derived.
pub open spec fn reveal_challenge_at(
    state: Seq<u8>,
    pk: Point,
    share: Point,
    c1: Point,
    t_g: Point,
    t_c1: Point,
) -> nat {
    let s1 = absorb_spec(state, "pk".spec_bytes(), encode_point(pk));
    let s2 = absorb_spec(s1, "share".spec_bytes(), encode_point(share));
    let s3 = absorb_spec(s2, "c1".spec_bytes(), encode_point(c1));
    let s4 = absorb_spec(s3, "t_g".spec_bytes(), encode_point(t_g));
    challenge_spec(dleq_dst(), absorb_spec(s4, "t_c1".spec_bytes(), encode_point(t_c1))).value()
}

/// The two checks of a reveal-token proof: `t_g == z·G + e·pk` and
/// `t_c1 == z·c1 + e·share`.
pub open spec fn reveal_accepts(
    proof: RevealTokenProof,
    pk: PublicKey,
    token: RevealToken,
    card: MaskedCard,
    ctx: Seq<u8>,
) -> bool {
    let c1 = card.ct().0;
    let e = reveal_challenge(pk.0, token.0, c1, proof.t_g, proof.t_c1, ctx);
    &&& dlog(proof.t_g) == (proof.z.value() + dlog(pk.0) * e) % order()
    &&& dlog(proof.t_c1) == (dlog(c1) * proof.z.value() + dlog(token.0) * e) % order()
}

/// Whether `proof` was made honestly with the secret value `sk` for the token and card:
/// its commitments are `w·G` and `w·c1` for one nonce `w`, and its response is `w - e·sk`.
pub open spec fn reveal_proof_by(
    proof: RevealTokenProof,
    sk: nat,
    pk: PublicKey,
    token: RevealToken,
    card: MaskedCard,
    ctx: Seq<u8>,
) -> bool {
    let c1 = card.ct().0;
    let e = reveal_challenge(pk.0, token.0, c1, proof.t_g, proof.t_c1, ctx);
    &&& dlog(proof.t_c1) == (dlog(c1) * dlog(proof.t_g)) % order()
    &&& proof.z.value() == (dlog(proof.t_g) - e * sk) % n()
}

impl RevealTokenProof {
    /// The Fiat-Shamir challenge of a reveal-token proof.
    fn challenge(
        pk: &PublicKey,
        share: &Point,
        c1: &Point,
        t_g: &Point,
        t_c1: &Point,
        ctx: &[u8],
    ) -> (e: Scalar)
        ensures
            e.value() == reveal_challenge(pk.0, *share, *c1, *t_g, *t_c1, ctx@),
    {
        Transcript::init(ctx).append_point("pk".as_bytes(), &pk.0).append_point(
            "share".as_bytes(),
            share,
        ).append_point("c1".as_bytes(), c1).append_point("t_g".as_bytes(), t_g).append_point(
            "t_c1".as_bytes(),
            t_c1,
        ).challenge("ziffle/DLEQ/v1".as_bytes())
    }

    /// The proof that `share` is `sk·c1` for the key `pk`, with a fresh nonce `w` from
    /// `rng`: the commitments `w·G` and `w·c1` and the response `w - e·sk`.
    pub(crate) fn new<R: ark_std::rand::RngCore + ?Sized>(
        rng: &mut R,
        sk: &Scalar,
        pk: PublicKey,
        share: &Point,
        c1: &Point,
        ctx: &[u8],
    ) -> (res: RevealTokenProof)
        ensures
            dlog(res.t_c1) == (dlog(*c1) * dlog(res.t_g)) % order(),
            res.z.value() == (dlog(res.t_g) - reveal_challenge(pk.0, *share, *c1, res.t_g, res.t_c1, ctx@) * sk.value()) % n(),
    {
        let w = random_scalar(rng);
        let t_g = Point::mul_base(&w);
        let t_c1 = c1.mul(&w);
        let e = RevealTokenProof::challenge(&pk, share, c1, &t_g, &t_c1, ctx);
        let z = w.sub(&e.mul(sk));
        proof {
            crate::math::lemma_mod_sub_right(w.value() as int, (e.value() * sk.value()) as int);
        }
        RevealTokenProof { t_g, t_c1, z }
    }

    /// Verifies that a reveal token was correctly computed for a specific card.
    ///
    /// Returns `Some(Verified<RevealToken>)` if valid, `None` otherwise.
    pub fn verify(
        &self,
        pk: Verified<PublicKey>,
        token: RevealToken,
        card: MaskedCard,
        ctx: &[u8],
    ) -> (res: Option<Verified<RevealToken>>)
        ensures
            res is Some <==> reveal_accepts(*self, pk.inner(), token, card, ctx@),
            res matches Some(v) ==> v.inner() == token,
    {
        let pk = *pk.get_ref();
        let share = token.0;
        let c1 = card.ciphertext().0;
        // reproduce the challenge scalar
        let e = RevealTokenProof::challenge(&pk, &share, &c1, &self.t_g, &self.t_c1, ctx);
        // check t_g == z·G + e·pk
        let rhs_g = Point::mul_base(&self.z).add(&pk.0.mul(&e));
        proof {
            lemma_mod_add_right(self.z.value() as int, (dlog(pk.0) * e.value()) as int);
        }
        if !self.t_g.equals(&rhs_g) {
            return None;
        }
        // check t_c1 == z·c1 + e·share
        let rhs_c1 = c1.mul(&self.z).add(&share.mul(&e));
        proof {
            crate::math::lemma_mod_add_both(
                (dlog(c1) * self.z.value()) as int,
                (dlog(share) * e.value()) as int,
            );
        }
        if !self.t_c1.equals(&rhs_c1) {
            return None;
        }
        Some(Verified::new(token))
    }
}

/// A reveal token made honestly by a key holder is accepted by `verify`.
pub proof fn lemma_reveal_token_proof_complete(
    proof: RevealTokenProof,
    sk: nat,
    pk: PublicKey,
    token: RevealToken,
    card: MaskedCard,
    ctx: Seq<u8>,
)
    requires
        is_key_pair(sk, pk),
        dlog(token.0) == (dlog(card.ct().0) * sk) % order(),
        reveal_proof_by(proof, sk, pk, token, card, ctx),
    ensures
        reveal_accepts(proof, pk, token, card, ctx),
{
    let c = dlog(card.ct().0) as int;
    let w = dlog(proof.t_g) as int;
    let e = reveal_challenge(pk.0, token.0, card.ct().0, proof.t_g, proof.t_c1, ctx) as int;
    let s = sk as int;
    let z = proof.z.value() as int;
    let q1 = (w - e * s) / n();
    let q2 = (c * s) / n();
    lemma_dlog_bound(proof.t_g);
    vstd::arithmetic::div_mod::lemma_fundamental_div_mod(w - e * s, n());
    vstd::arithmetic::div_mod::lemma_fundamental_div_mod(c * s, n());
    // first check: z + s·e == w - n·q1
    assert(z + s * e == w + n() * (-q1)) by (nonlinear_arith)
        requires z == (w - e * s) - n() * q1;
    lemma_mod_shift(w, -q1);
    lemma_mod_small(w);
    // second check: c·z + (c·s mod n)·e == c·w - n·(c·q1 + q2·e)
    let t = dlog(token.0) as int;
    assert(c * z + t * e == c * w + n() * (-(c * q1 + q2 * e))) by (nonlinear_arith)
        requires z == (w - e * s) - n() * q1, t == (c * s) - n() * q2;
    lemma_mod_shift(c * w, -(c * q1 + q2 * e));
}

/// A reveal-token proof is bound to its whole context: its challenge is drawn from the
/// transcript that starts at the SHA-256 digest of the entire context `ctx`, and `verify`
/// makes its two checks against that challenge.
pub proof fn lemma_reveal_challenge_binds_context(
    proof: RevealTokenProof,
    pk: PublicKey,
    token: RevealToken,
    card: MaskedCard,
    ctx: Seq<u8>,
)
    ensures
        reveal_challenge(pk.0, token.0, card.ct().0, proof.t_g, proof.t_c1, ctx) == reveal_challenge_at(
            spec_sha256(ctx),
            pk.0,
            token.0,
            card.ct().0,
            proof.t_g,
            proof.t_c1,
        ),
        reveal_accepts(proof, pk, token, card, ctx) <==> ({
            let e = reveal_challenge_at(spec_sha256(ctx), pk.0, token.0, card.ct().0, proof.t_g, proof.t_c1);
            &&& dlog(proof.t_g) == (proof.z.value() + dlog(pk.0) * e) % order()
            &&& dlog(proof.t_c1) == (dlog(card.ct().0) * proof.z.value() + dlog(token.0) * e) % order()
        }),
{
}

/// Whether a reveal-token proof is accepted depends on the context only through the
/// digest of the whole context: under two contexts with the same digest, it is accepted
/// under both or under neither.
pub proof fn lemma_reveal_context_digest(
    proof: RevealTokenProof,
    pk: PublicKey,
    token: RevealToken,
    card: MaskedCard,
    ctx1: Seq<u8>,
    ctx2: Seq<u8>,
)
    requires
        spec_sha256(ctx1) == spec_sha256(ctx2),
    ensures
        reveal_challenge(pk.0, token.0, card.ct().0, proof.t_g, proof.t_c1, ctx1) == reveal_challenge(
            pk.0,
            token.0,
            card.ct().0,
            proof.t_g,
            proof.t_c1,
            ctx2,
        ),
        reveal_accepts(proof, pk, token, card, ctx1) <==> reveal_accepts(proof, pk, token, card, ctx2),
{
    lemma_reveal_challenge_binds_context(proof, pk, token, card, ctx1);
    lemma_reveal_challenge_binds_context(proof, pk, token, card, ctx2);
}

/// The response of an accepted reveal-token proof is fixed by its commitments: a proof
/// with the same commitments and another response is rejected.
pub proof fn lemma_changed_reveal_response_rejected(
    proof: RevealTokenProof,
    other: RevealTokenProof,
    pk: PublicKey,
    token: RevealToken,
    card: MaskedCard,
    ctx: Seq<u8>,
)
    requires
        reveal_accepts(proof, pk, token, card, ctx),
        other.t_g == proof.t_g,
        other.t_c1 == proof.t_c1,
        other.z.value() != proof.z.value(),
    ensures
        !reveal_accepts(other, pk, token, card, ctx),
{
    let e = reveal_challenge(pk.0, token.0, card.ct().0, proof.t_g, proof.t_c1, ctx) as int;
    let k = dlog(pk.0) * e;
    proof.z.lemma_value_bound();
    other.z.lemma_value_bound();
    if reveal_accepts(other, pk, token, card, ctx) {
        crate::math::lemma_cong_add(proof.z.value() + k, other.z.value() + k, 0 - k, 0 - k);
        lemma_mod_small(proof.z.value() as int);
        lemma_mod_small(other.z.value() as int);
    }
}

/// Aggregate reveal token: the sum of all players' verified reveal tokens for a card.
#[derive(Debug, Clone, Copy, PartialEq, Eq)]
pub struct AggregateRevealToken(Point);

/// The discrete logarithms of a sequence of verified reveal tokens.
pub open spec fn verified_token_dlogs(ts: Seq<Verified<RevealToken>>) -> Seq<int> {
    ts.map_values(|v: Verified<RevealToken>| dlog(v.inner().0) as int)
}

impl AggregateRevealToken {
    /// The aggregated token point.
    pub closed spec fn token(self) -> Point {
        self.0
    }

    /// The aggregated token point.
    pub(crate) fn point(&self) -> (res: Point)
        ensures
            res == self.token(),
    {
        self.0
    }

    /// Creates an aggregate reveal token from verified individual tokens.
    pub fn new(pks: &[Verified<RevealToken>]) -> (res: AggregateRevealToken)
        ensures
            dlog(res.token()) == sum(verified_token_dlogs(pks@)) % n(),
    {
        let ghost d = verified_token_dlogs(pks@);
        let mut acc = Point::identity();
        let mut i: usize = 0;
        proof {
            assert(d.subrange(0, 0) =~= Seq::<int>::empty());
            assert(sum(d.subrange(0, 0)) == 0);
            lemma_mod_small(0);
        }
        while i < pks.len()
            invariant
                i <= pks.len(),
                d == verified_token_dlogs(pks@),
                dlog(acc) == sum(d.subrange(0, i as int)) % n(),
            decreases pks.len() - i,
        {
            let t = pks[i].get_ref();
            acc = acc.add(&t.0);
            proof {
                crate::math::lemma_sum_push(d, i as int);
                lemma_mod_add_step(sum(d.subrange(0, i as int)), d[i as int]);
            }
            i = i + 1;
        }
        proof {
            assert(d.subrange(0, pks.len() as int) =~= d);
        }
        AggregateRevealToken(acc)
    }
}

impl<const N: usize> Verified<MaskedDeck<N>> {
    /// Gets a card from the verified deck by index: `Some` for `idx < N`, `None` otherwise.
    pub fn get(&self, idx: usize) -> (res: Option<MaskedCard>)
        ensures
            res is Some <==> idx < N,
            res matches Some(c) ==> c.ct() == self.inner().0[idx as int],
    {
        let deck = self.get_ref();
        if idx < N {
            Some(MaskedCard::from_ciphertext(deck.0[idx]))
        } else {
            None
        }
    }
}

} // verus!
