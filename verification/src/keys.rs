//! Player keys, proofs of key ownership and the aggregate public key.
use vstd::prelude::*;
use vstd::string::StringSliceAdditionalSpecFns;
use crate::math::{lemma_mod_add_right, lemma_mod_add_step, lemma_mod_small, n, sum};
use crate::point::{dlog, encode_point, Point};
use crate::scalar::{order, random_scalar, Scalar};
use crate::transcript::{absorb_spec, challenge_spec, spec_sha256, Transcript};
use crate::verified::Verified;

verus! {

/// Secret key for a player.
///
/// The secret key is used to decrypt cards and create reveal tokens.
/// It must be kept private and never shared with other players.
#[derive(Clone, PartialEq, Eq)]
pub struct SecretKey(Scalar);

impl SecretKey {
    /// The secret scalar.
    pub closed spec fn value(self) -> nat {
        self.0.value()
    }

    /// A secret key holding the given scalar.
    pub(crate) fn from_scalar(s: Scalar) -> (res: SecretKey)
        ensures
            res.value() == s.value(),
    {
        SecretKey(s)
    }

    /// The secret scalar.
    pub(crate) fn scalar(&self) -> (res: Scalar)
        ensures
            res.value() == self.value(),
    {
        self.0
    }
}

/// Public key for a player, derived from their secret key as `pk = sk·G`.
#[derive(Debug, Clone, Copy, PartialEq, Eq, Hash)]
pub struct PublicKey(pub Point);

/// Whether `pk` is the public key of the secret value `sk`.
pub open spec fn is_key_pair(sk: nat, pk: PublicKey) -> bool {
    dlog(pk.0) == sk
}

/// Zero-knowledge proof of secret key ownership (a Schnorr proof made non-interactive).
#[derive(Debug, Clone, Copy, PartialEq, Eq, Hash)]
pub struct OwnershipProof {
    /// The commitment `w·G`.
    pub a: Point,
    /// The response `w + e·sk`.
    pub z: Scalar,
}

/// Domain tag of the ownership challenge.
pub open spec fn dlog_dst() -> Seq<u8> {
    "ziffle/DLOG/v1".spec_bytes()
}

/// The challenge of an ownership proof: the transcript of the context, the public key
/// and the commitment.
pub open spec fn ownership_challenge(pk: Point, a: Point, ctx: Seq<u8>) -> nat {
    challenge_spec(
        dlog_dst(),
        absorb_spec(
            absorb_spec(spec_sha256(ctx), "pk".spec_bytes(), encode_point(pk)),
            "a".spec_bytes(),
            encode_point(a),
        ),
    ).value()
}

/// The challenge of an ownership proof drawn from the transcript state `state`: the
/// public key and the commitment are absorbed into it before the challenge is derived.
pub open spec fn ownership_challenge_at(state: Seq<u8>, pk: Point, a: Point) -> nat {
    challenge_spec(
        dlog_dst(),
        absorb_spec(absorb_spec(state, "pk".spec_bytes(), encode_point(pk)), "a".spec_bytes(), encode_point(a)),
    ).value()
}

/// The check of an ownership proof: `z·G == a + e·pk`.
pub open spec fn ownership_accepts(proof: OwnershipProof, pk: PublicKey, ctx: Seq<u8>) -> bool {
    proof.z.value() == (dlog(proof.a) + dlog(pk.0) * ownership_challenge(pk.0, proof.a, ctx))
        % order()
}

/// Whether `proof` was made honestly with the secret value `sk`: its response is
/// `w + e·sk` for its commitment `w·G`.
pub open spec fn ownership_proof_by(proof: OwnershipProof, sk: nat, pk: PublicKey, ctx: Seq<u8>) -> bool {
    proof.z.value() == (dlog(proof.a) + ownership_challenge(pk.0, proof.a, ctx) * sk) % order()
}

impl OwnershipProof {
    /// The Fiat-Shamir challenge for a public key and commitment.
    fn challenge(pk: &PublicKey, a: &Point, ctx: &[u8]) -> (e: Scalar)
        ensures
            e.value() == ownership_challenge(pk.0, *a, ctx@),
    {
        Transcript::init(ctx).append_point("pk".as_bytes(), &pk.0).append_point(
            "a".as_bytes(),
            a,
        ).challenge("ziffle/DLOG/v1".as_bytes())
    }

    /// A proof of ownership of `sk` for `pk` with a fresh nonce `w` drawn from `rng`: the
    /// commitment `w·G` and the response `w + e·sk`.
    pub(crate) fn new<R: ark_std::rand::RngCore + ?Sized>(
        rng: &mut R,
        sk: &SecretKey,
        pk: PublicKey,
        ctx: &[u8],
    ) -> (res: OwnershipProof)
        ensures
            ownership_proof_by(res, sk.value(), pk, ctx@),
    {
        let w = random_scalar(rng);
        let a = Point::mul_base(&w);
        let e = OwnershipProof::challenge(&pk, &a, ctx);
        let z = w.add(&e.mul(&sk.scalar()));
        proof {
            lemma_mod_add_right(w.value() as int, (e.value() * sk.value()) as int);
        }
        OwnershipProof { a, z }
    }

    /// Verifies the ownership proof for a given public key.
    ///
    /// Returns `Some(Verified<PublicKey>)` if the proof is valid, demonstrating
    /// that the prover knows the secret key corresponding to the public key,
    /// and `None` otherwise.
    pub fn verify(&self, pk: PublicKey, ctx: &[u8]) -> (res: Option<Verified<PublicKey>>)
        ensures
            res is Some <==> ownership_accepts(*self, pk, ctx@),
            res matches Some(v) ==> v.inner() == pk,
    {
        let e = OwnershipProof::challenge(&pk, &self.a, ctx);
        // check: z·G == a + e·pk
        let lhs = Point::generator().mul(&self.z);
        let rhs = self.a.add(&pk.0.mul(&e));
        proof {
            self.z.lemma_value_bound();
            lemma_mod_small(self.z.value() as int);
            lemma_mod_add_right(dlog(self.a) as int, (dlog(pk.0) * e.value()) as int);
        }
        if lhs.equals(&rhs) {
            Some(Verified::new(pk))
        } else {
            None
        }
    }
}

/// A proof made honestly for a key pair is accepted by `verify`.
pub proof fn lemma_ownership_proof_complete(
    proof: OwnershipProof,
    sk: nat,
    pk: PublicKey,
    ctx: Seq<u8>,
)
    requires
        is_key_pair(sk, pk),
        ownership_proof_by(proof, sk, pk, ctx),
    ensures
        ownership_accepts(proof, pk, ctx),
{
    let e = ownership_challenge(pk.0, proof.a, ctx);
    assert(e * sk == sk * e) by (nonlinear_arith);
}

/// An ownership proof is bound to its whole context: its challenge is drawn from the
/// transcript that starts at the SHA-256 digest of the entire context `ctx`, so `verify`
/// checks `z·G == a + e·pk` against that challenge.
pub proof fn lemma_ownership_challenge_binds_context(proof: OwnershipProof, pk: PublicKey, ctx: Seq<u8>)
    ensures
        ownership_challenge(pk.0, proof.a, ctx) == ownership_challenge_at(spec_sha256(ctx), pk.0, proof.a),
        ownership_accepts(proof, pk, ctx) <==> proof.z.value() == (dlog(proof.a) + dlog(pk.0)
            * ownership_challenge_at(spec_sha256(ctx), pk.0, proof.a)) % order(),
{
}

/// Whether an ownership proof is accepted depends on the context only through the digest
/// of the whole context: under two contexts with the same digest, it is accepted under
/// both or under neither.
pub proof fn lemma_ownership_context_digest(proof: OwnershipProof, pk: PublicKey, ctx1: Seq<u8>, ctx2: Seq<u8>)
    requires
        spec_sha256(ctx1) == spec_sha256(ctx2),
    ensures
        ownership_challenge(pk.0, proof.a, ctx1) == ownership_challenge(pk.0, proof.a, ctx2),
        ownership_accepts(proof, pk, ctx1) <==> ownership_accepts(proof, pk, ctx2),
{
    lemma_ownership_challenge_binds_context(proof, pk, ctx1);
    lemma_ownership_challenge_binds_context(proof, pk, ctx2);
}

/// The response of an accepted ownership proof is fixed by its commitment: a proof with
/// the same commitment and another response is rejected.
pub proof fn lemma_changed_response_rejected(
    proof: OwnershipProof,
    other: OwnershipProof,
    pk: PublicKey,
    ctx: Seq<u8>,
)
    requires
        ownership_accepts(proof, pk, ctx),
        other.a == proof.a,
        other.z.value() != proof.z.value(),
    ensures
        !ownership_accepts(other, pk, ctx),
{
}

/// The aggregate public key: the sum of all players' verified public keys.
#[derive(Debug, Clone, Copy, PartialEq, Eq, Hash)]
pub struct AggregatePublicKey(Point);

/// The discrete logarithms of a sequence of verified public keys.
pub open spec fn verified_key_dlogs(pks: Seq<Verified<PublicKey>>) -> Seq<int> {
    pks.map_values(|v: Verified<PublicKey>| dlog(v.inner().0) as int)
}

impl AggregatePublicKey {
    /// The aggregated key point.
    pub closed spec fn key(self) -> Point {
        self.0
    }

    /// The aggregated key point.
    pub(crate) fn point(&self) -> (res: Point)
        ensures
            res == self.key(),
    {
        self.0
    }

    /// Creates an aggregate public key from verified individual public keys.
    pub fn new(pks: &[Verified<PublicKey>]) -> (res: AggregatePublicKey)
        ensures
            dlog(res.key()) == sum(verified_key_dlogs(pks@)) % n(),
    {
        let ghost d = verified_key_dlogs(pks@);
        let mut acc = Point::identity();
        let mut i: usize = 0;
        proof {
            assert(d.subrange(0, 0) =~= Seq::<int>::empty());
            assert(sum(d.subrange(0, 0)) == 0);
            lemma_mod_small(0);
        }
        while i < pks.len()
            invariant
                i <= pks.len(),
                d == verified_key_dlogs(pks@),
                dlog(acc) == sum(d.subrange(0, i as int)) % n(),
            decreases pks.len() - i,
        {
            let pk = pks[i].get_ref();
            acc = acc.add(&pk.0);
            proof {
                crate::math::lemma_sum_push(d, i as int);
                lemma_mod_add_step(sum(d.subrange(0, i as int)), d[i as int]);
            }
            i = i + 1;
        }
        proof {
            assert(d.subrange(0, pks.len() as int) =~= d);
        }
        AggregatePublicKey(acc)
    }
}

} // verus!
