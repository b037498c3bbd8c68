//! Fiat-Shamir transcripts.
//!
//! A transcript is a 32-byte SHA-256 state. Absorbing a labelled item hashes the old
//! state, the label and the item's compressed encoding, each preceded by its length as
//! `usize::to_be_bytes` writes it. Challenges are derived from the state with the hash-to-field
//! construction of `ark_ff` over SHA-256.
use vstd::prelude::*;
use ark_ff::field_hashers::{DefaultFieldHasher, HashToField};
use ark_ff::PrimeField;
use ark_secp256k1::Fr;
use sha2::{Digest, Sha256};
use crate::point::{encode_point, point_to_bytes, Ciphertext, Point};
use crate::scalar::Scalar;

verus! {

/// The SHA-256 digest of a message, as computed by `sha2`.
pub uninterp spec fn spec_sha256(m: Seq<u8>) -> Seq<u8>;

/// The `count` scalars that the hash-to-field construction of `ark_ff`
/// (`DefaultFieldHasher<Sha256>`) derives from `msg` under the domain tag `dst`.
pub uninterp spec fn spec_hash_to_scalars(dst: Seq<u8>, msg: Seq<u8>, count: nat) -> Seq<Scalar>;

/// The 8 big-endian bytes of a 64-bit number.
pub open spec fn be_u64(v: u64) -> Seq<u8> {
    seq![
        (v >> 56u64) as u8,
        (v >> 48u64) as u8,
        (v >> 40u64) as u8,
        (v >> 32u64) as u8,
        (v >> 24u64) as u8,
        (v >> 16u64) as u8,
        (v >> 8u64) as u8,
        v as u8,
    ]
}

/// The 4 big-endian bytes of a 32-bit number.
pub open spec fn be_u32(v: u32) -> Seq<u8> {
    seq![(v >> 24u32) as u8, (v >> 16u32) as u8, (v >> 8u32) as u8, v as u8]
}

/// The big-endian bytes of a `usize`, as `usize::to_be_bytes` writes them: 8 bytes where
/// `usize` has 64 bits, 4 where it has 32.
pub open spec fn be_usize(v: usize) -> Seq<u8> {
    if usize::BITS == 64 {
        be_u64(v as u64)
    } else {
        be_u32(v as u32)
    }
}

/// The transcript state after absorbing `data` under `label` into `state`: each is
/// preceded by its length.
pub open spec fn absorb_spec(state: Seq<u8>, label: Seq<u8>, data: Seq<u8>) -> Seq<u8> {
    spec_sha256(
        state + be_usize(label.len() as usize) + label + be_usize(data.len() as usize) + data,
    )
}

/// The compressed encoding of a ciphertext: the encodings of its two points.
pub open spec fn encode_ciphertext(c: Ciphertext) -> Seq<u8> {
    encode_point(c.0) + encode_point(c.1)
}

/// The bytes absorbed for the first `k` ciphertexts of a sequence: each is preceded by
/// its index and its encoded size.
pub open spec fn encode_indexed_ciphertexts(cts: Seq<Ciphertext>, k: nat) -> Seq<u8>
    decreases k,
{
    if k == 0 {
        Seq::empty()
    } else {
        encode_indexed_ciphertexts(cts, (k - 1) as nat) + be_usize((k - 1) as usize) + be_usize(66)
            + encode_ciphertext(cts[k - 1])
    }
}

/// The transcript state after absorbing a whole sequence of ciphertexts under `label`.
pub open spec fn absorb_ciphertexts_spec(state: Seq<u8>, label: Seq<u8>, cts: Seq<Ciphertext>) -> Seq<
    u8,
> {
    spec_sha256(
        state + be_usize(label.len() as usize) + label + encode_indexed_ciphertexts(cts, cts.len()),
    )
}

/// The first scalar derived from a transcript state under a domain tag.
pub open spec fn challenge_spec(dst: Seq<u8>, state: Seq<u8>) -> Scalar {
    spec_hash_to_scalars(dst, state, 1)[0]
}

/// A Fiat-Shamir transcript: the running hash of everything absorbed so far.
#[derive(Clone, Copy, PartialEq, Eq, Debug)]
pub struct Transcript {
    pub state: [u8; 32],
}

/// The 8 big-endian bytes of `v`.
fn be_bytes(v: u64) -> (res: [u8; 8])
    ensures
        res@ == be_u64(v),
{
    let res = [
        (v >> 56u64) as u8,
        (v >> 48u64) as u8,
        (v >> 40u64) as u8,
        (v >> 32u64) as u8,
        (v >> 24u64) as u8,
        (v >> 16u64) as u8,
        (v >> 8u64) as u8,
        v as u8,
    ];
    assert(res@ =~= be_u64(v));
    res
}

/// The 4 big-endian bytes of `v`.
fn be_bytes32(v: u32) -> (res: [u8; 4])
    ensures
        res@ == be_u32(v),
{
    let res = [(v >> 24u32) as u8, (v >> 16u32) as u8, (v >> 8u32) as u8, v as u8];
    assert(res@ =~= be_u32(v));
    res
}

/// Appends the big-endian bytes of `v`, as `usize::to_be_bytes` writes them, to `dst`.
fn extend_usize(dst: &mut Vec<u8>, v: usize)
    ensures
        final(dst)@ == old(dst)@ + be_usize(v),
{
    if usize::BITS == 64 {
        extend(dst, &be_bytes(v as u64));
    } else {
        extend(dst, &be_bytes32(v as u32));
    }
}

/// Appends all bytes of `src` to `dst`.
pub(crate) fn extend(dst: &mut Vec<u8>, src: &[u8])
    ensures
        final(dst)@ == old(dst)@ + src@,
{
    let mut i: usize = 0;
    while i < src.len()
        invariant
            i <= src.len(),
            dst@ == old(dst)@ + src@.subrange(0, i as int),
        decreases src.len() - i,
    {
        dst.push(src[i]);
        i = i + 1;
        assert(dst@ =~= old(dst)@ + src@.subrange(0, i as int));
    }
    assert(src@.subrange(0, src.len() as int) =~= src@);
}

impl Transcript {
    /// A fresh transcript bound to a user context.
    pub fn init(ctx: &[u8]) -> (res: Transcript)
        ensures
            res.state@ == spec_sha256(ctx@),
    {
        Transcript { state: sha256(ctx) }
    }

    /// Absorbs raw item bytes under a label.
    pub fn absorb(&self, label: &[u8], data: &[u8]) -> (res: Transcript)
        ensures
            res.state@ == absorb_spec(self.state@, label@, data@),
    {
        let mut m: Vec<u8> = Vec::new();
        extend(&mut m, &self.state);
        extend_usize(&mut m, label.len());
        extend(&mut m, label);
        extend_usize(&mut m, data.len());
        extend(&mut m, data);
        Transcript { state: sha256(m.as_slice()) }
    }

    /// Absorbs a point under a label.
    pub fn append_point(&self, label: &[u8], p: &Point) -> (res: Transcript)
        ensures
            res.state@ == absorb_spec(self.state@, label@, encode_point(*p)),
    {
        let bytes = point_to_bytes(p);
        self.absorb(label, &bytes)
    }

    /// Absorbs a ciphertext under a label.
    pub fn append_ciphertext(&self, label: &[u8], c: &Ciphertext) -> (res: Transcript)
        ensures
            res.state@ == absorb_spec(self.state@, label@, encode_ciphertext(*c)),
    {
        let mut data: Vec<u8> = Vec::new();
        extend(&mut data, &point_to_bytes(&c.0));
        extend(&mut data, &point_to_bytes(&c.1));
        self.absorb(label, data.as_slice())
    }

    /// Absorbs a sequence of ciphertexts under a label, each with its index.
    pub fn append_ciphertexts(&self, label: &[u8], cts: &[Ciphertext]) -> (res: Transcript)
        ensures
            res.state@ == absorb_ciphertexts_spec(self.state@, label@, cts@),
    {
        let mut m: Vec<u8> = Vec::new();
        extend(&mut m, &self.state);
        extend_usize(&mut m, label.len());
        extend(&mut m, label);
        let ghost prefix = m@;
        let mut i: usize = 0;
        while i < cts.len()
            invariant
                i <= cts.len(),
                m@ == prefix + encode_indexed_ciphertexts(cts@, i as nat),
            decreases cts.len() - i,
        {
            extend_usize(&mut m, i);
            extend_usize(&mut m, 66);
            extend(&mut m, &point_to_bytes(&cts[i].0));
            extend(&mut m, &point_to_bytes(&cts[i].1));
            i = i + 1;
            assert(m@ =~= prefix + encode_indexed_ciphertexts(cts@, i as nat));
        }
        assert(m@ =~= self.state@ + be_usize(label.len()) + label@
            + encode_indexed_ciphertexts(cts@, cts@.len()));
        Transcript { state: sha256(m.as_slice()) }
    }

    /// The first challenge scalar derived from the transcript under a domain tag.
    pub fn challenge(&self, dst: &[u8]) -> (res: Scalar)
        ensures
            res == challenge_spec(dst@, self.state@),
    {
        let c: [Scalar; 1] = hash_to_scalars(dst, &self.state);
        c[0]
    }

    /// The first two challenge scalars derived from the transcript under a domain tag.
    pub fn challenge_pair(&self, dst: &[u8]) -> (res: (Scalar, Scalar))
        ensures
            res.0 == spec_hash_to_scalars(dst@, self.state@, 2)[0],
            res.1 == spec_hash_to_scalars(dst@, self.state@, 2)[1],
    {
        let c: [Scalar; 2] = hash_to_scalars(dst, &self.state);
        (c[0], c[1])
    }
}

/// `Sha256::digest` of `sha2`.
#[verifier::external_body]
pub(crate) fn sha256(m: &[u8]) -> (res: [u8; 32])
    ensures
        res@ == spec_sha256(m@),
{
    Sha256::digest(m).into()
}

/// `HashToField::hash_to_field` of `ark_ff` with `DefaultFieldHasher<Sha256>` into the
/// scalar field: `N` scalars derived from `msg` under the domain tag `dst`.
#[verifier::external_body]
fn hash_to_scalars<const N: usize>(dst: &[u8], msg: &[u8; 32]) -> (res: [Scalar; N])
    requires
        N <= 170,
    ensures
        res@ == spec_hash_to_scalars(dst@, msg@, N as nat),
{
    let hasher = <DefaultFieldHasher<Sha256> as HashToField<Fr>>::new(dst);
    let fs: [Fr; N] = hasher.hash_to_field(msg);
    fs.map(|f| Scalar::from_limbs(f.into_bigint().0))
}

} // verus!
