//! Points of the secp256k1 group.
//!
//! A `Point` holds the canonical affine coordinates of a group element (as little-endian
//! limbs) and its point-at-infinity flag. The group has prime order `order()` and is
//! generated by the standard generator G, so every point is `k·G` for exactly one
//! `k < order()`: its discrete logarithm `dlog`. The group operations are carried out by
//! `ark_ec`; each one states its result through `dlog`, which turns the group law into
//! arithmetic modulo the order.
use vstd::prelude::*;
use ark_ec::{AffineRepr, CurveGroup};
use ark_ff::{BigInt, PrimeField, UniformRand};
use ark_secp256k1::{Affine, Fq, Fr};
use ark_std::rand::rngs::StdRng;
use ark_std::rand::SeedableRng;
use ark_serialize::{CanonicalDeserialize, CanonicalSerialize};
use crate::scalar::{le_bytes, limbs_nat, order, Scalar};

verus! {

/// `k·G` for the generator G of secp256k1, as computed by `ark_ec` and normalised to
/// affine coordinates.
pub uninterp spec fn base_point(k: nat) -> Point;

/// The order of the base field of secp256k1, over which the coordinates are taken.
pub open spec fn field_modulus() -> nat {
    0xFFFFFFFFFFFFFFFFFFFFFFFFFFFFFFFFFFFFFFFFFFFFFFFFFFFFFFFEFFFFFC2Fnat
}

/// The flag byte of a compressed encoding: `0x40` for the point at infinity, `0x80` where
/// y is the larger of `y` and `-y` in the base field, and 0 otherwise.
pub open spec fn point_flags(p: Point) -> u8 {
    if p.is_infinity() {
        0x40
    } else if p.y_coord() <= (field_modulus() - p.y_coord()) % (field_modulus() as int) {
        0
    } else {
        0x80
    }
}

/// The compressed encoding of a point written by `ark_serialize`: the x coordinate in 32
/// little-endian bytes (0 for the point at infinity), then the flag byte.
pub open spec fn encode_point(p: Point) -> Seq<u8> {
    le_bytes(if p.is_infinity() { 0 } else { p.x_coord() }, 32) + seq![point_flags(p)]
}

/// The point that `ark_serialize` reads (with validation) from a compressed encoding.
pub uninterp spec fn decode_point(b: Seq<u8>) -> Option<Point>;

/// Whether `p` is an element of the group, i.e. a multiple of the generator.
pub open spec fn in_group(p: Point) -> bool {
    exists|k: nat| k < order() && #[trigger] base_point(k) == p
}

/// The discrete logarithm of `p` to the base G: the `k < order()` with `k·G == p`.
pub open spec fn dlog(p: Point) -> nat {
    (choose|k: nat| k < order() && #[trigger] base_point(k) == p) % order()
}

/// The discrete logarithms of a sequence of points.
pub open spec fn dlogs(ps: Seq<Point>) -> Seq<int> {
    ps.map_values(|p: Point| dlog(p) as int)
}

/// The discrete logarithms of the first components of a sequence of ciphertexts.
pub open spec fn c1_dlogs(cts: Seq<Ciphertext>) -> Seq<int> {
    cts.map_values(|c: Ciphertext| dlog(c.0) as int)
}

/// The discrete logarithms of the second components of a sequence of ciphertexts.
pub open spec fn c2_dlogs(cts: Seq<Ciphertext>) -> Seq<int> {
    cts.map_values(|c: Ciphertext| dlog(c.1) as int)
}

/// An ElGamal ciphertext: a pair of points.
pub type Ciphertext = (Point, Point);

/// An element of the secp256k1 group in affine coordinates.
#[derive(Clone, Copy, PartialEq, Eq, Structural, Debug, Hash)]
pub struct Point {
    x0: u64,
    x1: u64,
    x2: u64,
    x3: u64,
    y0: u64,
    y1: u64,
    y2: u64,
    y3: u64,
    infinity: bool,
}

impl Point {
    #[verifier::type_invariant]
    closed spec fn is_group_element(self) -> bool {
        in_group(self)
    }

    /// The point with the given coordinates and flag.
    closed spec fn spec_assemble(x: [u64; 4], y: [u64; 4], infinity: bool) -> Point {
        Point {
            x0: x[0],
            x1: x[1],
            x2: x[2],
            x3: x[3],
            y0: y[0],
            y1: y[1],
            y2: y[2],
            y3: y[3],
            infinity,
        }
    }

    /// Builds a point from its coordinates and flag.
    fn assemble(x: [u64; 4], y: [u64; 4], infinity: bool) -> (res: Point)
        requires
            in_group(Point::spec_assemble(x, y, infinity)),
        ensures
            res == Point::spec_assemble(x, y, infinity),
    {
        Point {
            x0: x[0],
            x1: x[1],
            x2: x[2],
            x3: x[3],
            y0: y[0],
            y1: y[1],
            y2: y[2],
            y3: y[3],
            infinity,
        }
    }

    /// The x coordinate, as an integer below `field_modulus()`.
    pub closed spec fn x_coord(self) -> nat {
        limbs_nat(self.spec_x_limbs())
    }

    /// The y coordinate, as an integer below `field_modulus()`.
    pub closed spec fn y_coord(self) -> nat {
        limbs_nat(self.spec_y_limbs())
    }

    /// Whether this is the point at infinity, the neutral element.
    pub closed spec fn is_infinity(self) -> bool {
        self.infinity
    }

    /// The little-endian limbs of the x coordinate.
    closed spec fn spec_x_limbs(self) -> [u64; 4] {
        [self.x0, self.x1, self.x2, self.x3]
    }

    /// The little-endian limbs of the y coordinate.
    closed spec fn spec_y_limbs(self) -> [u64; 4] {
        [self.y0, self.y1, self.y2, self.y3]
    }

    /// The limbs of the x coordinate.
    fn x_limbs(&self) -> (res: [u64; 4])
        ensures
            res == self.spec_x_limbs(),
            Point::spec_assemble(res, self.spec_y_limbs(), self.infinity) == *self,
    {
        [self.x0, self.x1, self.x2, self.x3]
    }

    /// The limbs of the y coordinate.
    fn y_limbs(&self) -> (res: [u64; 4])
        ensures
            res == self.spec_y_limbs(),
            Point::spec_assemble(self.spec_x_limbs(), res, self.infinity) == *self,
    {
        [self.y0, self.y1, self.y2, self.y3]
    }

    /// Whether two points are the same group element.
    pub fn equals(&self, other: &Point) -> (res: bool)
        ensures
            res == (dlog(*self) == dlog(*other)),
    {
        proof {
            use_type_invariant(self);
            use_type_invariant(other);
            lemma_dlog_of_group_element(*self);
            lemma_dlog_of_group_element(*other);
        }
        *self == *other
    }

    /// The generator G of the group.
    pub fn generator() -> (res: Point)
        ensures
            dlog(res) == 1,
    {
        Point::mul_base(&Scalar::one())
    }

    /// `k·G`.
    pub fn mul_base(k: &Scalar) -> (res: Point)
        ensures
            res == base_point(k.value()),
            dlog(res) == k.value(),
    {
        generator_mul(k)
    }

    /// The neutral element.
    pub fn identity() -> (res: Point)
        ensures
            res == base_point(0),
            dlog(res) == 0,
    {
        point_identity()
    }

    /// The sum of two points.
    pub fn add(&self, other: &Point) -> (res: Point)
        ensures
            dlog(res) == (dlog(*self) + dlog(*other)) % order(),
    {
        point_add(self, other)
    }

    /// The difference of two points.
    pub fn sub(&self, other: &Point) -> (res: Point)
        ensures
            dlog(res) == (dlog(*self) - dlog(*other)) % (order() as int),
    {
        point_sub(self, other)
    }

    /// The point multiplied by a scalar.
    pub fn mul(&self, k: &Scalar) -> (res: Point)
        ensures
            dlog(res) == (dlog(*self) * k.value()) % order(),
    {
        point_mul(self, k)
    }
}

/// A group element is the multiple of G given by its discrete logarithm.
pub proof fn lemma_dlog_of_group_element(p: Point)
    requires
        in_group(p),
    ensures
        base_point(dlog(p)) == p,
        dlog(p) < order(),
{
    let k = choose|k: nat| k < order() && #[trigger] base_point(k) == p;
    vstd::arithmetic::div_mod::lemma_small_mod(k, order());
}

/// Every discrete logarithm lies below the group order.
pub proof fn lemma_dlog_bound(p: Point)
    ensures
        dlog(p) < order(),
{
    vstd::arithmetic::div_mod::lemma_mod_bound(
        (choose|k: nat| k < order() && #[trigger] base_point(k) == p) as int,
        order() as int,
    );
}

/// `Affine * Fr` on the generator of `ark_secp256k1`, normalised with `into_affine`:
/// the point `k·G`, whose discrete logarithm is `k` itself since G has order `order()`.
#[verifier::external_body]
fn generator_mul(k: &Scalar) -> (res: Point)
    ensures
        res == base_point(k.value()),
        dlog(res) == k.value(),
{
    let s = Fr::new(BigInt::new(k.to_limbs()));
    let r = (Affine::generator() * s).into_affine();
    Point::assemble(r.x.into_bigint().0, r.y.into_bigint().0, r.infinity)
}

/// `Affine::identity` of `ark_ec`: the neutral element, which is `0·G`.
#[verifier::external_body]
fn point_identity() -> (res: Point)
    ensures
        res == base_point(0),
        dlog(res) == 0,
{
    let r = Affine::identity();
    Point::assemble(r.x.into_bigint().0, r.y.into_bigint().0, r.infinity)
}

/// `Affine + Affine` of `ark_ec`, normalised with `into_affine`: the group law, so the
/// discrete logarithms add modulo the order.
#[verifier::external_body]
fn point_add(a: &Point, b: &Point) -> (res: Point)
    ensures
        dlog(res) == (dlog(*a) + dlog(*b)) % order(),
{
    let (ax, ay, bx, by) = (a.x_limbs(), a.y_limbs(), b.x_limbs(), b.y_limbs());
    let p = Affine { x: Fq::new(BigInt::new(ax)), y: Fq::new(BigInt::new(ay)), infinity: a.infinity };
    let q = Affine { x: Fq::new(BigInt::new(bx)), y: Fq::new(BigInt::new(by)), infinity: b.infinity };
    let r = (p + q).into_affine();
    Point::assemble(r.x.into_bigint().0, r.y.into_bigint().0, r.infinity)
}

/// `Affine - Affine` of `ark_ec`, normalised with `into_affine`: the discrete logarithms
/// subtract modulo the order.
#[verifier::external_body]
fn point_sub(a: &Point, b: &Point) -> (res: Point)
    ensures
        dlog(res) == (dlog(*a) - dlog(*b)) % (order() as int),
{
    let (ax, ay, bx, by) = (a.x_limbs(), a.y_limbs(), b.x_limbs(), b.y_limbs());
    let p = Affine { x: Fq::new(BigInt::new(ax)), y: Fq::new(BigInt::new(ay)), infinity: a.infinity };
    let q = Affine { x: Fq::new(BigInt::new(bx)), y: Fq::new(BigInt::new(by)), infinity: b.infinity };
    let r = (p - q).into_affine();
    Point::assemble(r.x.into_bigint().0, r.y.into_bigint().0, r.infinity)
}

/// `Affine * Fr` of `ark_ec`, normalised with `into_affine`: scalar multiplication, so
/// the discrete logarithm is multiplied by the scalar modulo the order.
#[verifier::external_body]
fn point_mul(a: &Point, k: &Scalar) -> (res: Point)
    ensures
        dlog(res) == (dlog(*a) * k.value()) % order(),
{
    let (ax, ay) = (a.x_limbs(), a.y_limbs());
    let p = Affine { x: Fq::new(BigInt::new(ax)), y: Fq::new(BigInt::new(ay)), infinity: a.infinity };
    let r = (p * Fr::new(BigInt::new(k.to_limbs()))).into_affine();
    Point::assemble(r.x.into_bigint().0, r.y.into_bigint().0, r.infinity)
}

/// The `i`-th point (counting from 0) that successive calls of `UniformRand::rand` for the
/// projective group of `ark_ec`, normalised with `into_affine`, draw from the generator
/// `StdRng::from_seed(seed)` of `rand`.
pub uninterp spec fn seeded_point(seed: Seq<u8>, i: nat) -> Point;

/// `N` successive draws of `UniformRand::rand` for the projective group of `ark_ec` from
/// `StdRng::from_seed(seed)`, normalised with `into_affine`: draw `i` is
/// `seeded_point(seed, i)`. Each draw is a rejection loop on the generator's output (an
/// x coordinate on the curve), which returns once the output lands on the curve.
#[verifier::external_body]
pub(crate) fn draw_seeded_points<const N: usize>(seed: &[u8; 32]) -> (res: [Point; N])
    ensures
        forall|i: int| 0 <= i < N ==> #[trigger] res[i] == seeded_point(seed@, i as nat),
{
    let mut rng = StdRng::from_seed(*seed);
    core::array::from_fn(|_| {
        let r = <Affine as AffineRepr>::Group::rand(&mut rng).into_affine();
        Point::assemble(r.x.into_bigint().0, r.y.into_bigint().0, r.infinity)
    })
}

/// `CanonicalSerialize::serialize_compressed` for `Affine` in `ark_serialize`: the
/// 33-byte compressed encoding (the x coordinate and the flag byte of `to_flags`), which
/// reads back (with validation) as the same point.
#[verifier::external_body]
pub(crate) fn point_to_bytes(a: &Point) -> (res: [u8; 33])
    ensures
        res@ == encode_point(*a),
        decode_point(res@) == Some(*a),
{
    let (ax, ay) = (a.x_limbs(), a.y_limbs());
    let p = Affine { x: Fq::new(BigInt::new(ax)), y: Fq::new(BigInt::new(ay)), infinity: a.infinity };
    let mut out = [0u8; 33];
    p.serialize_compressed(&mut out[..]).unwrap();
    out
}

/// `CanonicalDeserialize::deserialize_compressed` for `Affine` in `ark_serialize`: reads
/// a compressed encoding and accepts it only when it denotes a group element.
#[verifier::external_body]
pub(crate) fn point_from_bytes(b: &[u8; 33]) -> (res: Option<Point>)
    ensures
        res == decode_point(b@),
{
    match Affine::deserialize_compressed(&b[..]) {
        Ok(r) => Some(Point::assemble(r.x.into_bigint().0, r.y.into_bigint().0, r.infinity)),
        Err(_) => None,
    }
}

} // verus!
