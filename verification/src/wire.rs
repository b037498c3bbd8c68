//! Reading and writing the protocol's messages in their compressed encodings.
//!
//! Each message writes the encodings of its fields in order (see `serial`). Writing
//! into a buffer that is too short writes as much as fits and fails; reading takes the
//! fields in order, fails as the first one that does not fit or does not decode, and
//! otherwise returns the value that they encode.
use vstd::prelude::*;
use crate::cards::{MaskedDeck, RevealToken, RevealTokenProof};
use crate::keys::{AggregatePublicKey, OwnershipProof, PublicKey, SecretKey};
use crate::mexp::MultiExpArg;
use crate::pedersen::PedersonCommitment;
use crate::point::{Ciphertext, Point};
use crate::product::SingleValueProductArg;
use crate::scalar::{le_value, Scalar};
use crate::serial::{
    first_error, points_error, scalars_error,
    encode_points, encode_scalars, lemma_reads_points_prefix, lemma_reads_scalars_prefix, overwritten,
    points_valid, put_points, put_scalars, read_points, read_scalars, reads_points, reads_scalars,
    scalar_chunk, scalars_valid, write_prefix, SerializationError,
};
use crate::shuffle_proof::ShuffleProof;

verus! {

/// Writes a finished encoding into `out` and states the outcome.
fn finish(out: &mut [u8], buf: &Vec<u8>) -> (res: Result<(), SerializationError>)
    ensures
        final(out)@ == overwritten(old(out)@, buf@),
        res is Ok <==> buf.len() <= old(out).len(),
        res matches Err(e) ==> e == SerializationError::NotEnoughSpace,
        res is Ok ==> final(out)@.subrange(0, buf@.len() as int) == buf@,
{
    let res = write_prefix(out, buf.as_slice());
    proof {
        if res is Ok {
            assert(final(out)@.subrange(0, buf@.len() as int) =~= buf@);
        }
    }
    res
}

impl PublicKey {
    /// The encoding of the key: its point.
    pub open spec fn encoding(self) -> Seq<u8> {
        encode_points(seq![self.0])
    }

    /// Whether `b` begins with an encoding of this key.
    pub open spec fn encoded_in(self, b: Seq<u8>) -> bool {
        reads_points(b, 0, seq![self.0])
    }

    /// Whether `b` begins with the encoding of some key.
    pub open spec fn valid_encoding(b: Seq<u8>) -> bool {
        points_valid(b, 0, 1)
    }

    /// The size of the encoding in bytes.
    pub fn compressed_size(&self) -> (res: usize)
        ensures
            res == 33,
    {
        33
    }

    /// Writes the encoding of the key at the start of `out`.
    pub fn serialize_compressed(&self, out: &mut [u8]) -> (res: Result<(), SerializationError>)
        ensures
            self.encoding().len() == 33,
            final(out)@ == overwritten(old(out)@, self.encoding()),
            res is Ok <==> 33 <= old(out).len(),
            res matches Err(e) ==> e == SerializationError::NotEnoughSpace,
            res is Ok ==> self.encoded_in(final(out)@),
    {
        let mut buf: Vec<u8> = Vec::new();
        let ps = [self.0];
        put_points(&mut buf, &ps);
        proof {
            assert(ps@ =~= seq![self.0]);
            assert(buf@ =~= self.encoding());
        }
        let res = finish(out, &buf);
        proof {
            if res is Ok {
                lemma_reads_points_prefix(buf@, final(out)@, 0, seq![self.0]);
            }
        }
        res
    }

    /// Why reading a key from `b` fails, or `None` if it succeeds.
    pub open spec fn decode_error(b: Seq<u8>) -> Option<SerializationError> {
        points_error(b, 0, 1)
    }

    /// Reads a key from the start of `bytes`.
    pub fn deserialize_compressed(bytes: &[u8]) -> (res: Result<PublicKey, SerializationError>)
        ensures
            res is Ok <==> PublicKey::valid_encoding(bytes@),
            res matches Err(e) ==> PublicKey::decode_error(bytes@) == Some(e),
            res matches Ok(v) ==> v.encoded_in(bytes@),
    {
        match read_points(bytes, 0, 1) {
            Ok(ps) => {
                let v = PublicKey(ps[0]);
                assert(ps@ =~= seq![v.0]);
                Ok(v)
            },
            Err(e) => Err(e),
        }
    }
}

impl RevealToken {
    /// The encoding of the token: its point.
    pub open spec fn encoding(self) -> Seq<u8> {
        encode_points(seq![self.0])
    }

    /// Whether `b` begins with an encoding of this token.
    pub open spec fn encoded_in(self, b: Seq<u8>) -> bool {
        reads_points(b, 0, seq![self.0])
    }

    /// Whether `b` begins with the encoding of some token.
    pub open spec fn valid_encoding(b: Seq<u8>) -> bool {
        points_valid(b, 0, 1)
    }

    /// The size of the encoding in bytes.
    pub fn compressed_size(&self) -> (res: usize)
        ensures
            res == 33,
    {
        33
    }

    /// Writes the encoding of the token at the start of `out`.
    pub fn serialize_compressed(&self, out: &mut [u8]) -> (res: Result<(), SerializationError>)
        ensures
            self.encoding().len() == 33,
            final(out)@ == overwritten(old(out)@, self.encoding()),
            res is Ok <==> 33 <= old(out).len(),
            res matches Err(e) ==> e == SerializationError::NotEnoughSpace,
            res is Ok ==> self.encoded_in(final(out)@),
    {
        let mut buf: Vec<u8> = Vec::new();
        let ps = [self.0];
        put_points(&mut buf, &ps);
        proof {
            assert(ps@ =~= seq![self.0]);
            assert(buf@ =~= self.encoding());
        }
        let res = finish(out, &buf);
        proof {
            if res is Ok {
                lemma_reads_points_prefix(buf@, final(out)@, 0, seq![self.0]);
            }
        }
        res
    }

    /// Why reading a token from `b` fails, or `None` if it succeeds.
    pub open spec fn decode_error(b: Seq<u8>) -> Option<SerializationError> {
        points_error(b, 0, 1)
    }

    /// Reads a token from the start of `bytes`.
    pub fn deserialize_compressed(bytes: &[u8]) -> (res: Result<RevealToken, SerializationError>)
        ensures
            res is Ok <==> RevealToken::valid_encoding(bytes@),
            res matches Err(e) ==> RevealToken::decode_error(bytes@) == Some(e),
            res matches Ok(v) ==> v.encoded_in(bytes@),
    {
        match read_points(bytes, 0, 1) {
            Ok(ps) => {
                let v = RevealToken(ps[0]);
                assert(ps@ =~= seq![v.0]);
                Ok(v)
            },
            Err(e) => Err(e),
        }
    }
}

impl AggregatePublicKey {
    /// The encoding of the aggregate key: its point.
    pub open spec fn encoding(self) -> Seq<u8> {
        encode_points(seq![self.key()])
    }

    /// The size of the encoding in bytes.
    pub fn compressed_size(&self) -> (res: usize)
        ensures
            res == 33,
    {
        33
    }

    /// Writes the encoding of the aggregate key at the start of `out`. (An aggregate key is
    /// only ever built from verified keys, so it cannot be read back from bytes.)
    pub fn serialize_compressed(&self, out: &mut [u8]) -> (res: Result<(), SerializationError>)
        ensures
            self.encoding().len() == 33,
            final(out)@ == overwritten(old(out)@, self.encoding()),
            res is Ok <==> 33 <= old(out).len(),
            res matches Err(e) ==> e == SerializationError::NotEnoughSpace,
            res is Ok ==> reads_points(final(out)@, 0, seq![self.key()]),
    {
        let mut buf: Vec<u8> = Vec::new();
        let ps = [self.point()];
        put_points(&mut buf, &ps);
        proof {
            assert(ps@ =~= seq![self.key()]);
            assert(buf@ =~= self.encoding());
        }
        let res = finish(out, &buf);
        proof {
            if res is Ok {
                lemma_reads_points_prefix(buf@, final(out)@, 0, seq![self.key()]);
            }
        }
        res
    }
}

impl SecretKey {
    /// The encoding of the key: its scalar in 32 little-endian bytes.
    pub open spec fn encoding(self) -> Seq<u8> {
        crate::scalar::le_bytes(self.value(), 32)
    }

    /// Whether `b` begins with an encoding of this key.
    pub open spec fn encoded_in(self, b: Seq<u8>) -> bool {
        &&& 32 <= b.len()
        &&& le_value(scalar_chunk(b, 0, 0)) == self.value()
    }

    /// Whether `b` begins with the encoding of some key.
    pub open spec fn valid_encoding(b: Seq<u8>) -> bool {
        scalars_valid(b, 0, 1)
    }

    /// The size of the encoding in bytes.
    pub fn compressed_size(&self) -> (res: usize)
        ensures
            res == 32,
    {
        32
    }

    /// Writes the encoding of the key at the start of `out`.
    pub fn serialize_compressed(&self, out: &mut [u8]) -> (res: Result<(), SerializationError>)
        ensures
            self.encoding().len() == 32,
            final(out)@ == overwritten(old(out)@, self.encoding()),
            res is Ok <==> 32 <= old(out).len(),
            res matches Err(e) ==> e == SerializationError::NotEnoughSpace,
            res is Ok ==> self.encoded_in(final(out)@),
    {
        let mut buf: Vec<u8> = Vec::new();
        let ss = [self.scalar()];
        put_scalars(&mut buf, &ss);
        proof {
            assert(ss@.drop_last() =~= Seq::<Scalar>::empty());
            assert(encode_scalars(ss@.drop_last()) =~= Seq::<u8>::empty());
            assert(encode_scalars(ss@) =~= crate::serial::encode_scalar(ss@[0]));
            assert(buf@ =~= self.encoding());
        }
        let res = finish(out, &buf);
        proof {
            if res is Ok {
                lemma_reads_scalars_prefix(buf@, final(out)@, 0, ss@);
                assert(le_value(scalar_chunk(final(out)@, 0, 0)) == ss@[0].value());
            }
        }
        res
    }

    /// Why reading a key from `b` fails, or `None` if it succeeds.
    pub open spec fn decode_error(b: Seq<u8>) -> Option<SerializationError> {
        scalars_error(b, 0, 1)
    }

    /// Reads a key from the start of `bytes`.
    pub fn deserialize_compressed(bytes: &[u8]) -> (res: Result<SecretKey, SerializationError>)
        ensures
            res is Ok <==> SecretKey::valid_encoding(bytes@),
            res matches Err(e) ==> SecretKey::decode_error(bytes@) == Some(e),
            res matches Ok(v) ==> v.encoded_in(bytes@),
    {
        match read_scalars(bytes, 0, 1) {
            Ok(ss) => {
                let sk = SecretKey::from_scalar(ss[0]);
                assert(le_value(scalar_chunk(bytes@, 0, 0)) == ss@[0].value());
                Ok(sk)
            },
            Err(e) => Err(e),
        }
    }
}

impl OwnershipProof {
    /// The encoding of the proof: its commitment, then its response.
    pub open spec fn encoding(self) -> Seq<u8> {
        encode_points(seq![self.a]) + encode_scalars(seq![self.z])
    }

    /// Whether `b` begins with an encoding of this proof.
    pub open spec fn encoded_in(self, b: Seq<u8>) -> bool {
        reads_points(b, 0, seq![self.a]) && reads_scalars(b, 33, seq![self.z])
    }

    /// Whether `b` begins with the encoding of some proof.
    pub open spec fn valid_encoding(b: Seq<u8>) -> bool {
        points_valid(b, 0, 1) && scalars_valid(b, 33, 1)
    }

    /// The size of the encoding in bytes.
    pub fn compressed_size(&self) -> (res: usize)
        ensures
            res == 65,
    {
        65
    }

    /// Writes the encoding of the proof at the start of `out`.
    pub fn serialize_compressed(&self, out: &mut [u8]) -> (res: Result<(), SerializationError>)
        ensures
            self.encoding().len() == 65,
            final(out)@ == overwritten(old(out)@, self.encoding()),
            res is Ok <==> 65 <= old(out).len(),
            res matches Err(e) ==> e == SerializationError::NotEnoughSpace,
            res is Ok ==> self.encoded_in(final(out)@),
    {
        let mut buf: Vec<u8> = Vec::new();
        let ps = [self.a];
        put_points(&mut buf, &ps);
        let ghost b1 = buf@;
        let ss = [self.z];
        put_scalars(&mut buf, &ss);
        proof {
            assert(ps@ =~= seq![self.a]);
            assert(ss@ =~= seq![self.z]);
            assert(buf@ =~= self.encoding());
            assert(buf@.subrange(0, b1.len() as int) =~= b1);
            lemma_reads_points_prefix(b1, buf@, 0, ps@);
        }
        let res = finish(out, &buf);
        proof {
            if res is Ok {
                lemma_reads_points_prefix(buf@, final(out)@, 0, ps@);
                lemma_reads_scalars_prefix(buf@, final(out)@, 33, ss@);
            }
        }
        res
    }

    /// Why reading a proof from `b` fails, or `None` if it succeeds.
    pub open spec fn decode_error(b: Seq<u8>) -> Option<SerializationError> {
        first_error(points_error(b, 0, 1), scalars_error(b, 33, 1))
    }

    /// Reads a proof from the start of `bytes`.
    pub fn deserialize_compressed(bytes: &[u8]) -> (res: Result<OwnershipProof, SerializationError>)
        ensures
            res is Ok <==> OwnershipProof::valid_encoding(bytes@),
            res matches Err(e) ==> OwnershipProof::decode_error(bytes@) == Some(e),
            res matches Ok(v) ==> v.encoded_in(bytes@),
    {
        let ps = match read_points(bytes, 0, 1) {
            Ok(ps) => ps,
            Err(e) => {
                return Err(e);
            },
        };
        let ss = match read_scalars(bytes, 33, 1) {
            Ok(ss) => ss,
            Err(e) => {
                return Err(e);
            },
        };
        let proof = OwnershipProof { a: ps[0], z: ss[0] };
        assert(ps@ =~= seq![proof.a]);
        assert(ss@ =~= seq![proof.z]);
        Ok(proof)
    }
}

impl RevealTokenProof {
    /// The encoding of the proof: its two commitments, then its response.
    pub open spec fn encoding(self) -> Seq<u8> {
        encode_points(seq![self.t_g, self.t_c1]) + encode_scalars(seq![self.z])
    }

    /// Whether `b` begins with an encoding of this proof.
    pub open spec fn encoded_in(self, b: Seq<u8>) -> bool {
        reads_points(b, 0, seq![self.t_g, self.t_c1]) && reads_scalars(b, 66, seq![self.z])
    }

    /// Whether `b` begins with the encoding of some proof.
    pub open spec fn valid_encoding(b: Seq<u8>) -> bool {
        points_valid(b, 0, 2) && scalars_valid(b, 66, 1)
    }

    /// The size of the encoding in bytes.
    pub fn compressed_size(&self) -> (res: usize)
        ensures
            res == 98,
    {
        98
    }

    /// Writes the encoding of the proof at the start of `out`.
    pub fn serialize_compressed(&self, out: &mut [u8]) -> (res: Result<(), SerializationError>)
        ensures
            self.encoding().len() == 98,
            final(out)@ == overwritten(old(out)@, self.encoding()),
            res is Ok <==> 98 <= old(out).len(),
            res matches Err(e) ==> e == SerializationError::NotEnoughSpace,
            res is Ok ==> self.encoded_in(final(out)@),
    {
        let mut buf: Vec<u8> = Vec::new();
        let ps = [self.t_g, self.t_c1];
        put_points(&mut buf, &ps);
        let ghost b1 = buf@;
        let ss = [self.z];
        put_scalars(&mut buf, &ss);
        proof {
            assert(ps@ =~= seq![self.t_g, self.t_c1]);
            assert(ss@ =~= seq![self.z]);
            assert(buf@ =~= self.encoding());
            assert(buf@.subrange(0, b1.len() as int) =~= b1);
            lemma_reads_points_prefix(b1, buf@, 0, ps@);
        }
        let res = finish(out, &buf);
        proof {
            if res is Ok {
                lemma_reads_points_prefix(buf@, final(out)@, 0, ps@);
                lemma_reads_scalars_prefix(buf@, final(out)@, 66, ss@);
            }
        }
        res
    }

    /// Why reading a proof from `b` fails, or `None` if it succeeds.
    pub open spec fn decode_error(b: Seq<u8>) -> Option<SerializationError> {
        first_error(points_error(b, 0, 2), scalars_error(b, 66, 1))
    }

    /// Reads a proof from the start of `bytes`.
    pub fn deserialize_compressed(bytes: &[u8]) -> (res: Result<RevealTokenProof, SerializationError>)
        ensures
            res is Ok <==> RevealTokenProof::valid_encoding(bytes@),
            res matches Err(e) ==> RevealTokenProof::decode_error(bytes@) == Some(e),
            res matches Ok(v) ==> v.encoded_in(bytes@),
    {
        let ps = match read_points(bytes, 0, 2) {
            Ok(ps) => ps,
            Err(e) => {
                return Err(e);
            },
        };
        let ss = match read_scalars(bytes, 66, 1) {
            Ok(ss) => ss,
            Err(e) => {
                return Err(e);
            },
        };
        let proof = RevealTokenProof { t_g: ps[0], t_c1: ps[1], z: ss[0] };
        assert(ps@ =~= seq![proof.t_g, proof.t_c1]);
        assert(ss@ =~= seq![proof.z]);
        Ok(proof)
    }
}

/// The points of a deck in order: the two components of each card.
pub open spec fn deck_points(cts: Seq<Ciphertext>) -> Seq<Point> {
    Seq::new(2 * cts.len(), |i: int| if i % 2 == 0 { cts[i / 2].0 } else { cts[i / 2].1 })
}

/// Appends all entries of `a` to `v`.
fn push_all<T: Copy>(v: &mut Vec<T>, a: &[T])
    ensures
        final(v)@ == old(v)@ + a@,
{
    let mut i: usize = 0;
    while i < a.len()
        invariant
            i <= a.len(),
            v@ == old(v)@ + a@.subrange(0, i as int),
        decreases a.len() - i,
    {
        v.push(a[i]);
        i = i + 1;
        assert(v@ =~= old(v)@ + a@.subrange(0, i as int));
    }
    assert(a@.subrange(0, a.len() as int) =~= a@);
}

/// The `M` scalars of `v` from `start` on, as an array.
fn scalar_array<const M: usize>(v: &Vec<Scalar>, start: usize) -> (res: [Scalar; M])
    requires
        start + M <= v.len(),
    ensures
        res@ == v@.subrange(start as int, start + M),
{
    let zero = Scalar::zero();
    let mut a = [zero; M];
    let mut i: usize = 0;
    while i < M
        invariant
            i <= M,
            start + M <= v.len(),
            forall|k: int| 0 <= k < i ==> #[trigger] a@[k] == v@[start + k],
        decreases M - i,
    {
        a[i] = v[start + i];
        i = i + 1;
    }
    assert(a@ =~= v@.subrange(start as int, start + M));
    a
}

impl<const N: usize> MaskedDeck<N> {
    /// The encoding of the deck: the two points of each card, card by card.
    pub open spec fn encoding(self) -> Seq<u8> {
        encode_points(deck_points(self.0@))
    }

    /// Whether `b` begins with an encoding of this deck.
    pub open spec fn encoded_in(self, b: Seq<u8>) -> bool {
        reads_points(b, 0, deck_points(self.0@))
    }

    /// Whether `b` begins with the encoding of some deck of `N` cards.
    pub open spec fn valid_encoding(b: Seq<u8>) -> bool {
        points_valid(b, 0, 2 * N as nat)
    }

    /// The size of the encoding in bytes.
    pub fn compressed_size(&self) -> (res: usize)
        requires
            66 * N <= usize::MAX,
        ensures
            res == 66 * N,
    {
        66 * N
    }

    /// Writes the encoding of the deck at the start of `out`.
    pub fn serialize_compressed(&self, out: &mut [u8]) -> (res: Result<(), SerializationError>)
        requires
            66 * N <= usize::MAX,
        ensures
            self.encoding().len() == 66 * N,
            final(out)@ == overwritten(old(out)@, self.encoding()),
            res is Ok <==> 66 * N <= old(out).len(),
            res matches Err(e) ==> e == SerializationError::NotEnoughSpace,
            res is Ok ==> self.encoded_in(final(out)@),
    {
        let mut ps: Vec<Point> = Vec::new();
        let mut i: usize = 0;
        while i < N
            invariant
                i <= N,
                ps@.len() == 2 * i,
                forall|k: int| 0 <= k < 2 * i ==> #[trigger] ps@[k] == deck_points(self.0@)[k],
            decreases N - i,
        {
            ps.push(self.0[i].0);
            ps.push(self.0[i].1);
            i = i + 1;
        }
        assert(ps@ =~= deck_points(self.0@));
        let mut buf: Vec<u8> = Vec::new();
        put_points(&mut buf, ps.as_slice());
        assert(buf@ =~= self.encoding());
        let res = finish(out, &buf);
        proof {
            if res is Ok {
                lemma_reads_points_prefix(buf@, final(out)@, 0, ps@);
            }
        }
        res
    }

    /// Why reading a deck of `N` cards from `b` fails, or `None` if it succeeds.
    pub open spec fn decode_error(b: Seq<u8>) -> Option<SerializationError> {
        points_error(b, 0, 2 * N as nat)
    }

    /// Reads a deck of `N` cards from the start of `bytes`.
    pub fn deserialize_compressed(bytes: &[u8]) -> (res: Result<MaskedDeck<N>, SerializationError>)
        requires
            66 * N <= usize::MAX,
        ensures
            res is Ok <==> MaskedDeck::<N>::valid_encoding(bytes@),
            res matches Err(e) ==> MaskedDeck::<N>::decode_error(bytes@) == Some(e),
            res matches Ok(v) ==> v.encoded_in(bytes@),
    {
        let ps = match read_points(bytes, 0, 2 * N) {
            Ok(ps) => ps,
            Err(e) => {
                return Err(e);
            },
        };
        let id = Point::identity();
        let mut cts: [Ciphertext; N] = [(id, id); N];
        let mut i: usize = 0;
        while i < N
            invariant
                i <= N,
                66 * N <= usize::MAX,
                ps@.len() == 2 * N,
                forall|k: int| 0 <= k < i ==> #[trigger] cts@[k] == (ps@[2 * k], ps@[2 * k + 1]),
            decreases N - i,
        {
            cts[i] = (ps[2 * i], ps[2 * i + 1]);
            i = i + 1;
        }
        let deck = MaskedDeck(cts);
        assert(deck_points(deck.0@) =~= ps@);
        Ok(deck)
    }
}

impl<const N: usize> ShuffleProof<N> {
    /// The points at the start of the encoding: the two commitments of the proof, then the
    /// commitments and ciphertexts of the multi-exponentiation argument.
    pub open spec fn head_points(self) -> Seq<Point> {
        let m = self.mexp_arg;
        seq![self.c_pi.0, self.c_xpi.0, m.c_alpha.0, m.c_beta.0, m.ct_mxp0.0, m.ct_mxp0.1, m.ct_mxp1.0, m.ct_mxp1.1]
    }

    /// The scalars of the multi-exponentiation argument.
    pub open spec fn mexp_scalars(self) -> Seq<Scalar> {
        let m = self.mexp_arg;
        m.o_alpha@ + seq![m.o_r, m.beta, m.o_beta, m.tau]
    }

    /// The commitments of the product argument.
    pub open spec fn product_points(self) -> Seq<Point> {
        let p = self.prod_arg;
        seq![p.c_d.0, p.c_sdelta.0, p.c_cdelta.0]
    }

    /// The scalars of the product argument.
    pub open spec fn product_scalars(self) -> Seq<Scalar> {
        let p = self.prod_arg;
        p.a_tilde@ + p.b_tilde@ + seq![p.r_tilde, p.s_tilde]
    }

    /// The encoding of the proof: its fields in order.
    pub open spec fn encoding(self) -> Seq<u8> {
        encode_points(self.head_points()) + encode_scalars(self.mexp_scalars()) + encode_points(
            self.product_points(),
        ) + encode_scalars(self.product_scalars())
    }

    /// Whether `b` begins with an encoding of this proof.
    pub open spec fn encoded_in(self, b: Seq<u8>) -> bool {
        &&& reads_points(b, 0, self.head_points())
        &&& reads_scalars(b, 264, self.mexp_scalars())
        &&& reads_points(b, 392 + 32 * N, self.product_points())
        &&& reads_scalars(b, 491 + 32 * N, self.product_scalars())
    }

    /// Whether `b` begins with the encoding of some proof for `N` cards.
    pub open spec fn valid_encoding(b: Seq<u8>) -> bool {
        &&& points_valid(b, 0, 8)
        &&& scalars_valid(b, 264, N as nat + 4)
        &&& points_valid(b, 392 + 32 * N, 3)
        &&& scalars_valid(b, 491 + 32 * N, 2 * N as nat + 2)
    }

    /// The size of the encoding in bytes.
    pub fn compressed_size(&self) -> (res: usize)
        requires
            555 + 96 * N <= usize::MAX,
        ensures
            res == 555 + 96 * N,
    {
        555 + 96 * N
    }

    /// Writes the encoding of the proof at the start of `out`.
    pub fn serialize_compressed(&self, out: &mut [u8]) -> (res: Result<(), SerializationError>)
        requires
            555 + 96 * N <= usize::MAX,
        ensures
            self.encoding().len() == 555 + 96 * N,
            final(out)@ == overwritten(old(out)@, self.encoding()),
            res is Ok <==> 555 + 96 * N <= old(out).len(),
            res matches Err(e) ==> e == SerializationError::NotEnoughSpace,
            res is Ok ==> self.encoded_in(final(out)@),
    {
        let m = &self.mexp_arg;
        let p = &self.prod_arg;
        let mut buf: Vec<u8> = Vec::new();
        let g1 = [self.c_pi.0, self.c_xpi.0, m.c_alpha.0, m.c_beta.0, m.ct_mxp0.0, m.ct_mxp0.1, m.ct_mxp1.0, m.ct_mxp1.1];
        put_points(&mut buf, &g1);
        let ghost b1 = buf@;
        let mut g2: Vec<Scalar> = Vec::new();
        push_all(&mut g2, &m.o_alpha);
        push_all(&mut g2, &[m.o_r, m.beta, m.o_beta, m.tau]);
        put_scalars(&mut buf, g2.as_slice());
        let ghost b2 = buf@;
        let g3 = [p.c_d.0, p.c_sdelta.0, p.c_cdelta.0];
        put_points(&mut buf, &g3);
        let ghost b3 = buf@;
        let mut g4: Vec<Scalar> = Vec::new();
        push_all(&mut g4, &p.a_tilde);
        push_all(&mut g4, &p.b_tilde);
        push_all(&mut g4, &[p.r_tilde, p.s_tilde]);
        put_scalars(&mut buf, g4.as_slice());
        proof {
            assert(g1@ =~= self.head_points());
            assert(g2@ =~= self.mexp_scalars());
            assert(g3@ =~= self.product_points());
            assert(g4@ =~= self.product_scalars());
            assert(buf@ =~= self.encoding());
            assert(buf@.subrange(0, b1.len() as int) =~= b1);
            assert(buf@.subrange(0, b2.len() as int) =~= b2);
            assert(buf@.subrange(0, b3.len() as int) =~= b3);
            assert(b2.subrange(0, b1.len() as int) =~= b1);
            assert(b3.subrange(0, b2.len() as int) =~= b2);
            lemma_reads_points_prefix(b1, buf@, 0, g1@);
            lemma_reads_scalars_prefix(b2, buf@, 264, g2@);
            lemma_reads_points_prefix(b3, buf@, 392 + 32 * N, g3@);
        }
        let res = finish(out, &buf);
        proof {
            if res is Ok {
                lemma_reads_points_prefix(buf@, final(out)@, 0, g1@);
                lemma_reads_scalars_prefix(buf@, final(out)@, 264, g2@);
                lemma_reads_points_prefix(buf@, final(out)@, 392 + 32 * N, g3@);
                lemma_reads_scalars_prefix(buf@, final(out)@, 491 + 32 * N, g4@);
            }
        }
        res
    }

    /// Why reading a proof for `N` cards from `b` fails, or `None` if it succeeds: its
    /// groups of fields are read in order.
    pub open spec fn decode_error(b: Seq<u8>) -> Option<SerializationError> {
        first_error(
            points_error(b, 0, 8),
            first_error(
                scalars_error(b, 264, N as nat + 4),
                first_error(
                    points_error(b, 392 + 32 * N, 3),
                    scalars_error(b, 491 + 32 * N, 2 * N as nat + 2),
                ),
            ),
        )
    }

    /// Reads a proof for `N` cards from the start of `bytes`.
    pub fn deserialize_compressed(bytes: &[u8]) -> (res: Result<ShuffleProof<N>, SerializationError>)
        requires
            555 + 96 * N <= usize::MAX,
        ensures
            res is Ok <==> ShuffleProof::<N>::valid_encoding(bytes@),
            res matches Err(e) ==> ShuffleProof::<N>::decode_error(bytes@) == Some(e),
            res matches Ok(v) ==> v.encoded_in(bytes@),
    {
        let g1 = match read_points(bytes, 0, 8) {
            Ok(v) => v,
            Err(e) => {
                return Err(e);
            },
        };
        let g2 = match read_scalars(bytes, 264, N + 4) {
            Ok(v) => v,
            Err(e) => {
                return Err(e);
            },
        };
        let g3 = match read_points(bytes, 392 + 32 * N, 3) {
            Ok(v) => v,
            Err(e) => {
                return Err(e);
            },
        };
        let g4 = match read_scalars(bytes, 491 + 32 * N, 2 * N + 2) {
            Ok(v) => v,
            Err(e) => {
                return Err(e);
            },
        };
        let mexp_arg = MultiExpArg {
            c_alpha: PedersonCommitment(g1[2]),
            c_beta: PedersonCommitment(g1[3]),
            ct_mxp0: (g1[4], g1[5]),
            ct_mxp1: (g1[6], g1[7]),
            o_alpha: scalar_array(&g2, 0),
            o_r: g2[N],
            beta: g2[N + 1],
            o_beta: g2[N + 2],
            tau: g2[N + 3],
        };
        let prod_arg = SingleValueProductArg {
            c_d: PedersonCommitment(g3[0]),
            c_sdelta: PedersonCommitment(g3[1]),
            c_cdelta: PedersonCommitment(g3[2]),
            a_tilde: scalar_array(&g4, 0),
            b_tilde: scalar_array(&g4, N),
            r_tilde: g4[2 * N],
            s_tilde: g4[2 * N + 1],
        };
        let proof = ShuffleProof {
            c_pi: PedersonCommitment(g1[0]),
            c_xpi: PedersonCommitment(g1[1]),
            mexp_arg,
            prod_arg,
        };
        assert(g1@ =~= proof.head_points());
        assert(g2@ =~= proof.mexp_scalars());
        assert(g3@ =~= proof.product_points());
        assert(g4@ =~= proof.product_scalars());
        Ok(proof)
    }
}

} // verus!
