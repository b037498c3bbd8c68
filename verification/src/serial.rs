//! Compressed encodings of the protocol's values.
//!
//! A value is encoded as the concatenation of the encodings of its fields, in order:
//! a point takes 33 bytes (the compressed form of `ark_serialize`), a scalar 32
//! little-endian bytes, and arrays and pairs are the concatenation of their entries.
//! Decoding reads the same layout back, accepts only points of the group and scalars
//! below the order, and ignores any bytes after the encoding.
use vstd::prelude::*;
use crate::point::{decode_point, encode_point, point_from_bytes, point_to_bytes, Point};
use crate::scalar::{
    le_bytes, le_value, lemma_le_bytes_value, lemma_order_below_radix, order, scalar_from_bytes,
    scalar_to_bytes, Scalar,
};
use crate::transcript::extend;

verus! {

/// Why a value could not be written or read. The two length errors are the I/O errors
/// that `ark_serialize` reports on a byte slice (`WriteZero` and `UnexpectedEof`); the
/// others are its errors of the same names.
#[derive(Debug, Clone, Copy, PartialEq, Eq, Structural)]
pub enum SerializationError {
    /// The output buffer is shorter than the encoding.
    NotEnoughSpace,
    /// The input ends before the encoding does.
    UnexpectedEnd,
    /// The input does not encode a valid value.
    InvalidData,
    /// A point's flag byte sets both the infinity bit and the sign bit.
    UnexpectedFlags,
}

/// Whether the flag byte of a 33-byte point encoding sets both the sign bit (`0x80`) and
/// the infinity bit (`0x40`), which no encoding does.
pub open spec fn flags_invalid(chunk: Seq<u8>) -> bool {
    chunk[32] & 0xC0u8 == 0xC0u8
}

/// Why an invalid point encoding is refused: its flags, or else its value.
pub open spec fn point_error(chunk: Seq<u8>) -> SerializationError {
    if flags_invalid(chunk) {
        SerializationError::UnexpectedFlags
    } else {
        SerializationError::InvalidData
    }
}

/// Why reading `k` points from the slots after `pos` fails, or `None` if it succeeds: the
/// first slot that does not fit in `b` or does not decode decides, as the bytes are read
/// in order.
pub open spec fn points_error(b: Seq<u8>, pos: int, k: nat) -> Option<SerializationError>
    decreases k,
{
    if k == 0 {
        None
    } else {
        match points_error(b, pos, (k - 1) as nat) {
            Some(e) => Some(e),
            None => if pos + 33 * k > b.len() {
                Some(SerializationError::UnexpectedEnd)
            } else if decode_point(point_chunk(b, pos, k - 1)) is None {
                Some(point_error(point_chunk(b, pos, k - 1)))
            } else {
                None
            },
        }
    }
}

/// Why reading `k` scalars from the slots after `pos` fails, or `None` if it succeeds:
/// the first slot that does not fit in `b` or holds a number not below the order decides.
pub open spec fn scalars_error(b: Seq<u8>, pos: int, k: nat) -> Option<SerializationError>
    decreases k,
{
    if k == 0 {
        None
    } else {
        match scalars_error(b, pos, (k - 1) as nat) {
            Some(e) => Some(e),
            None => if pos + 32 * k > b.len() {
                Some(SerializationError::UnexpectedEnd)
            } else if le_value(scalar_chunk(b, pos, k - 1)) >= order() {
                Some(SerializationError::InvalidData)
            } else {
                None
            },
        }
    }
}

/// Once reading a prefix of the point slots fails, reading more of them fails the same way.
pub proof fn lemma_points_error_sticky(b: Seq<u8>, pos: int, m: nat, k: nat)
    requires
        m <= k,
        points_error(b, pos, m) is Some,
    ensures
        points_error(b, pos, k) == points_error(b, pos, m),
    decreases k - m,
{
    if m < k {
        lemma_points_error_sticky(b, pos, m, (k - 1) as nat);
    }
}

/// Once reading a prefix of the scalar slots fails, reading more of them fails the same way.
pub proof fn lemma_scalars_error_sticky(b: Seq<u8>, pos: int, m: nat, k: nat)
    requires
        m <= k,
        scalars_error(b, pos, m) is Some,
    ensures
        scalars_error(b, pos, k) == scalars_error(b, pos, m),
    decreases k - m,
{
    if m < k {
        lemma_scalars_error_sticky(b, pos, m, (k - 1) as nat);
    }
}

/// The first of two outcomes that is an error.
pub open spec fn first_error(a: Option<SerializationError>, b: Option<SerializationError>) -> Option<
    SerializationError,
> {
    if a is Some {
        a
    } else {
        b
    }
}

/// The encoding of a scalar: its value in 32 little-endian bytes.
pub open spec fn encode_scalar(s: Scalar) -> Seq<u8> {
    le_bytes(s.value(), 32)
}

/// The concatenated encodings of a sequence of points.
pub open spec fn encode_points(ps: Seq<Point>) -> Seq<u8>
    decreases ps.len(),
{
    if ps.len() == 0 {
        Seq::empty()
    } else {
        encode_points(ps.drop_last()) + encode_point(ps.last())
    }
}

/// The concatenated encodings of a sequence of scalars.
pub open spec fn encode_scalars(ss: Seq<Scalar>) -> Seq<u8>
    decreases ss.len(),
{
    if ss.len() == 0 {
        Seq::empty()
    } else {
        encode_scalars(ss.drop_last()) + encode_scalar(ss.last())
    }
}

/// The 33 bytes of the `i`-th point slot after `pos`.
pub open spec fn point_chunk(b: Seq<u8>, pos: int, i: int) -> Seq<u8> {
    b.subrange(pos + 33 * i, pos + 33 * i + 33)
}

/// The 32 bytes of the `i`-th scalar slot after `pos`.
pub open spec fn scalar_chunk(b: Seq<u8>, pos: int, i: int) -> Seq<u8> {
    b.subrange(pos + 32 * i, pos + 32 * i + 32)
}

/// From `pos` on, `b` holds encodings of the points `ps`.
pub open spec fn reads_points(b: Seq<u8>, pos: int, ps: Seq<Point>) -> bool {
    &&& 0 <= pos
    &&& pos + 33 * ps.len() <= b.len()
    &&& forall|i: int| 0 <= i < ps.len() ==> decode_point(#[trigger] point_chunk(b, pos, i)) == Some(ps[i])
}

/// From `pos` on, `b` holds encodings of scalars with the values of `ss`.
pub open spec fn reads_scalars(b: Seq<u8>, pos: int, ss: Seq<Scalar>) -> bool {
    &&& 0 <= pos
    &&& pos + 32 * ss.len() <= b.len()
    &&& forall|i: int| 0 <= i < ss.len() ==> le_value(#[trigger] scalar_chunk(b, pos, i)) == ss[i].value()
}

/// From `pos` on, `b` holds `k` valid point encodings.
pub open spec fn points_valid(b: Seq<u8>, pos: int, k: nat) -> bool {
    &&& 0 <= pos
    &&& pos + 33 * k <= b.len()
    &&& forall|i: int| 0 <= i < k ==> (#[trigger] decode_point(point_chunk(b, pos, i))) is Some
}

/// From `pos` on, `b` holds `k` valid scalar encodings.
pub open spec fn scalars_valid(b: Seq<u8>, pos: int, k: nat) -> bool {
    &&& 0 <= pos
    &&& pos + 32 * k <= b.len()
    &&& forall|i: int| 0 <= i < k ==> le_value(#[trigger] scalar_chunk(b, pos, i)) < order()
}

/// `out` after writing `data` at its start: as much of `data` as fits, the rest of `out`
/// unchanged.
pub open spec fn overwritten(out: Seq<u8>, data: Seq<u8>) -> Seq<u8> {
    if data.len() <= out.len() {
        data + out.subrange(data.len() as int, out.len() as int)
    } else {
        data.subrange(0, out.len() as int)
    }
}

/// Point encodings stay readable when bytes are appended.
pub proof fn lemma_reads_points_prefix(b: Seq<u8>, c: Seq<u8>, pos: int, ps: Seq<Point>)
    requires
        reads_points(b, pos, ps),
        b.len() <= c.len(),
        c.subrange(0, b.len() as int) == b,
    ensures
        reads_points(c, pos, ps),
{
    assert forall|i: int| 0 <= i < ps.len() implies decode_point(#[trigger] point_chunk(c, pos, i)) == Some(ps[i]) by {
        assert(point_chunk(c, pos, i) =~= point_chunk(b, pos, i));
    }
}

/// Scalar encodings stay readable when bytes are appended.
pub proof fn lemma_reads_scalars_prefix(b: Seq<u8>, c: Seq<u8>, pos: int, ss: Seq<Scalar>)
    requires
        reads_scalars(b, pos, ss),
        b.len() <= c.len(),
        c.subrange(0, b.len() as int) == b,
    ensures
        reads_scalars(c, pos, ss),
{
    assert forall|i: int| 0 <= i < ss.len() implies le_value(#[trigger] scalar_chunk(c, pos, i)) == ss[i].value() by {
        assert(scalar_chunk(c, pos, i) =~= scalar_chunk(b, pos, i));
    }
}

/// Bytes that encode points encode exactly those points: decoding gives them back.
pub proof fn lemma_reads_points_unique(b: Seq<u8>, pos: int, ps: Seq<Point>, qs: Seq<Point>)
    requires
        reads_points(b, pos, ps),
        reads_points(b, pos, qs),
        ps.len() == qs.len(),
    ensures
        ps == qs,
{
    assert forall|i: int| 0 <= i < ps.len() implies ps[i] == qs[i] by {
        assert(decode_point(point_chunk(b, pos, i)) == Some(ps[i]));
        assert(decode_point(point_chunk(b, pos, i)) == Some(qs[i]));
    }
    assert(ps =~= qs);
}

/// Bytes that encode scalars encode exactly their values: decoding gives them back.
pub proof fn lemma_reads_scalars_unique(b: Seq<u8>, pos: int, ss: Seq<Scalar>, ts: Seq<Scalar>)
    requires
        reads_scalars(b, pos, ss),
        reads_scalars(b, pos, ts),
        ss.len() == ts.len(),
    ensures
        forall|i: int| 0 <= i < ss.len() ==> #[trigger] ss[i].value() == ts[i].value(),
{
    assert forall|i: int| 0 <= i < ss.len() implies #[trigger] ss[i].value() == ts[i].value() by {
        assert(le_value(scalar_chunk(b, pos, i)) == ss[i].value());
        assert(le_value(scalar_chunk(b, pos, i)) == ts[i].value());
    }
}

/// Encodings are valid: bytes that encode points and scalars decode.
pub proof fn lemma_reads_valid(b: Seq<u8>, pos: int, ps: Seq<Point>, pos2: int, ss: Seq<Scalar>)
    requires
        reads_points(b, pos, ps),
        reads_scalars(b, pos2, ss),
    ensures
        points_valid(b, pos, ps.len()),
        scalars_valid(b, pos2, ss.len()),
{
    assert forall|i: int| 0 <= i < ps.len() implies (#[trigger] decode_point(point_chunk(b, pos, i))) is Some by {
        assert(decode_point(point_chunk(b, pos, i)) == Some(ps[i]));
    }
    assert forall|i: int| 0 <= i < ss.len() implies le_value(#[trigger] scalar_chunk(b, pos2, i)) < order() by {
        ss[i].lemma_value_bound();
    }
}

/// Appends the encodings of `ps` to `buf`.
pub(crate) fn put_points(buf: &mut Vec<u8>, ps: &[Point])
    ensures
        final(buf)@ == old(buf)@ + encode_points(ps@),
        encode_points(ps@).len() == 33 * ps.len(),
        reads_points(final(buf)@, old(buf)@.len() as int, ps@),
{
    let ghost start = buf@.len() as int;
    let mut i: usize = 0;
    while i < ps.len()
        invariant
            i <= ps.len(),
            start == old(buf)@.len(),
            buf@ == old(buf)@ + encode_points(ps@.subrange(0, i as int)),
            encode_points(ps@.subrange(0, i as int)).len() == 33 * i,
            forall|k: int| 0 <= k < i ==> decode_point(#[trigger] point_chunk(buf@, start, k)) == Some(ps@[k]),
        decreases ps.len() - i,
    {
        let bytes = point_to_bytes(&ps[i]);
        let ghost before = buf@;
        extend(buf, &bytes);
        proof {
            assert(ps@.subrange(0, i + 1).drop_last() =~= ps@.subrange(0, i as int));
            assert(buf@ =~= old(buf)@ + encode_points(ps@.subrange(0, i + 1)));
            assert forall|k: int| 0 <= k < i + 1 implies decode_point(#[trigger] point_chunk(buf@, start, k)) == Some(ps@[k]) by {
                if k < i {
                    assert(point_chunk(buf@, start, k) =~= point_chunk(before, start, k));
                } else {
                    assert(point_chunk(buf@, start, k) =~= bytes@);
                }
            }
        }
        i = i + 1;
    }
    proof {
        assert(ps@.subrange(0, ps.len() as int) =~= ps@);
    }
}

/// Appends the encodings of `ss` to `buf`.
pub(crate) fn put_scalars(buf: &mut Vec<u8>, ss: &[Scalar])
    ensures
        final(buf)@ == old(buf)@ + encode_scalars(ss@),
        encode_scalars(ss@).len() == 32 * ss.len(),
        reads_scalars(final(buf)@, old(buf)@.len() as int, ss@),
{
    let ghost start = buf@.len() as int;
    let mut i: usize = 0;
    while i < ss.len()
        invariant
            i <= ss.len(),
            start == old(buf)@.len(),
            buf@ == old(buf)@ + encode_scalars(ss@.subrange(0, i as int)),
            encode_scalars(ss@.subrange(0, i as int)).len() == 32 * i,
            forall|k: int| 0 <= k < i ==> le_value(#[trigger] scalar_chunk(buf@, start, k)) == ss@[k].value(),
        decreases ss.len() - i,
    {
        let bytes = scalar_to_bytes(&ss[i]);
        let ghost before = buf@;
        extend(buf, &bytes);
        proof {
            ss@[i as int].lemma_value_bound();
            lemma_order_below_radix();
            lemma_le_bytes_value(ss@[i as int].value(), 32);
            assert(ss@.subrange(0, i + 1).drop_last() =~= ss@.subrange(0, i as int));
            assert(buf@ =~= old(buf)@ + encode_scalars(ss@.subrange(0, i + 1)));
            assert forall|k: int| 0 <= k < i + 1 implies le_value(#[trigger] scalar_chunk(buf@, start, k)) == ss@[k].value() by {
                if k < i {
                    assert(scalar_chunk(buf@, start, k) =~= scalar_chunk(before, start, k));
                } else {
                    assert(scalar_chunk(buf@, start, k) =~= bytes@);
                }
            }
        }
        i = i + 1;
    }
    proof {
        assert(ss@.subrange(0, ss.len() as int) =~= ss@);
    }
}

/// Writes `data` at the start of `out`: as much as fits, failing when not all of it does.
pub(crate) fn write_prefix(out: &mut [u8], data: &[u8]) -> (res: Result<(), SerializationError>)
    ensures
        final(out)@ == overwritten(old(out)@, data@),
        res is Ok <==> data.len() <= old(out).len(),
        res matches Err(e) ==> e == SerializationError::NotEnoughSpace,
{
    let n = if data.len() <= out.len() { data.len() } else { out.len() };
    let mut i: usize = 0;
    while i < n
        invariant
            i <= n,
            n <= data.len(),
            n <= old(out).len(),
            n == data.len() || n == old(out).len(),
            out@.len() == old(out)@.len(),
            forall|k: int| 0 <= k < i ==> #[trigger] out@[k] == data@[k],
            forall|k: int| i <= k < out@.len() ==> #[trigger] out@[k] == old(out)@[k],
        decreases n - i,
    {
        out[i] = data[i];
        i = i + 1;
    }
    assert(out@ =~= overwritten(old(out)@, data@));
    if data.len() <= out.len() {
        Ok(())
    } else {
        Err(SerializationError::NotEnoughSpace)
    }
}

/// Reads the point encoded in the 33 bytes at `pos`.
fn read_point(b: &[u8], pos: usize) -> (res: Option<Point>)
    requires
        pos + 33 <= b.len(),
    ensures
        res == decode_point(b@.subrange(pos as int, pos + 33)),
{
    let mut a = [0u8; 33];
    let mut i: usize = 0;
    while i < 33
        invariant
            i <= 33,
            pos + 33 <= b.len(),
            forall|k: int| 0 <= k < i ==> #[trigger] a@[k] == b@[pos + k],
        decreases 33 - i,
    {
        a[i] = b[pos + i];
        i = i + 1;
    }
    assert(a@ =~= b@.subrange(pos as int, pos + 33));
    point_from_bytes(&a)
}

/// Reads the scalar encoded in the 32 bytes at `pos`.
fn read_scalar(b: &[u8], pos: usize) -> (res: Option<Scalar>)
    requires
        pos + 32 <= b.len(),
    ensures
        res is Some <==> le_value(b@.subrange(pos as int, pos + 32)) < order(),
        res matches Some(s) ==> s.value() == le_value(b@.subrange(pos as int, pos + 32)),
{
    let mut a = [0u8; 32];
    let mut i: usize = 0;
    while i < 32
        invariant
            i <= 32,
            pos + 32 <= b.len(),
            forall|k: int| 0 <= k < i ==> #[trigger] a@[k] == b@[pos + k],
        decreases 32 - i,
    {
        a[i] = b[pos + i];
        i = i + 1;
    }
    assert(a@ =~= b@.subrange(pos as int, pos + 32));
    scalar_from_bytes(&a)
}

/// Reads `k` points from the slots after `pos`, in order; fails as the first slot that
/// does not fit or does not decode is refused.
pub(crate) fn read_points(b: &[u8], pos: usize, k: usize) -> (res: Result<Vec<Point>, SerializationError>)
    requires
        pos + 33 * k <= usize::MAX,
        k > 0 || pos <= b.len(),
    ensures
        res is Ok <==> points_valid(b@, pos as int, k as nat),
        res is Ok ==> points_error(b@, pos as int, k as nat) is None,
        res matches Err(e) ==> points_error(b@, pos as int, k as nat) == Some(e),
        res matches Ok(ps) ==> ps@.len() == k && reads_points(b@, pos as int, ps@),
{
    let mut ps: Vec<Point> = Vec::new();
    let mut i: usize = 0;
    while i < k
        invariant
            i <= k,
            pos + 33 * k <= usize::MAX,
            ps@.len() == i,
            k > 0 || pos <= b.len(),
            i == 0 || pos + 33 * i <= b.len(),
            points_error(b@, pos as int, i as nat) is None,
            forall|j: int| 0 <= j < i ==> decode_point(#[trigger] point_chunk(b@, pos as int, j)) == Some(ps@[j]),
        decreases k - i,
    {
        assert(pos + 33 * i + 33 <= pos + 33 * k) by (nonlinear_arith)
            requires i < k;
        let at = pos + 33 * i;
        if b.len() < at + 33 {
            proof {
                lemma_points_error_sticky(b@, pos as int, (i + 1) as nat, k as nat);
            }
            return Err(SerializationError::UnexpectedEnd);
        }
        let p = read_point(b, at);
        let ghost chunk = point_chunk(b@, pos as int, i as int);
        assert(b@.subrange(at as int, at + 33) =~= chunk);
        match p {
            Some(p) => {
                ps.push(p);
            },
            None => {
                assert(chunk[32] == b@[at + 32]);
                proof {
                    lemma_points_error_sticky(b@, pos as int, (i + 1) as nat, k as nat);
                }
                if b[at + 32] & 0xC0u8 == 0xC0u8 {
                    return Err(SerializationError::UnexpectedFlags);
                } else {
                    return Err(SerializationError::InvalidData);
                }
            },
        }
        i = i + 1;
    }
    Ok(ps)
}

/// Reads `k` scalars from the slots after `pos`, in order; fails as the first slot that
/// does not fit or holds a number not below the order is refused.
pub(crate) fn read_scalars(b: &[u8], pos: usize, k: usize) -> (res: Result<Vec<Scalar>, SerializationError>)
    requires
        pos + 32 * k <= usize::MAX,
        k > 0 || pos <= b.len(),
    ensures
        res is Ok <==> scalars_valid(b@, pos as int, k as nat),
        res is Ok ==> scalars_error(b@, pos as int, k as nat) is None,
        res matches Err(e) ==> scalars_error(b@, pos as int, k as nat) == Some(e),
        res matches Ok(ss) ==> ss@.len() == k && reads_scalars(b@, pos as int, ss@),
{
    let mut ss: Vec<Scalar> = Vec::new();
    let mut i: usize = 0;
    while i < k
        invariant
            i <= k,
            pos + 32 * k <= usize::MAX,
            ss@.len() == i,
            k > 0 || pos <= b.len(),
            i == 0 || pos + 32 * i <= b.len(),
            scalars_error(b@, pos as int, i as nat) is None,
            forall|j: int| 0 <= j < i ==> le_value(#[trigger] scalar_chunk(b@, pos as int, j)) == ss@[j].value(),
            forall|j: int| 0 <= j < i ==> le_value(#[trigger] scalar_chunk(b@, pos as int, j)) < order(),
        decreases k - i,
    {
        assert(pos + 32 * i + 32 <= pos + 32 * k) by (nonlinear_arith)
            requires i < k;
        let at = pos + 32 * i;
        if b.len() < at + 32 {
            proof {
                lemma_scalars_error_sticky(b@, pos as int, (i + 1) as nat, k as nat);
            }
            return Err(SerializationError::UnexpectedEnd);
        }
        let s = read_scalar(b, at);
        assert(b@.subrange(at as int, at + 32) =~= scalar_chunk(b@, pos as int, i as int));
        match s {
            Some(s) => {
                ss.push(s);
            },
            None => {
                proof {
                    lemma_scalars_error_sticky(b@, pos as int, (i + 1) as nat, k as nat);
                }
                return Err(SerializationError::InvalidData);
            },
        }
        i = i + 1;
    }
    Ok(ss)
}

} // verus!
