//! Scalars of the secp256k1 group: integers modulo the group order.
//!
//! A `Scalar` holds the canonical little-endian 64-bit limbs of its value, which is
//! always below the group order. Arithmetic is carried out by `ark_ff` on the
//! field `ark_secp256k1::Fr`; every operation states its result exactly as modular
//! arithmetic on `value()`.
use vstd::prelude::*;
use vstd::arithmetic::power::pow;
use ark_ff::{BigInt, Field, PrimeField, UniformRand};
use ark_serialize::{CanonicalDeserialize, CanonicalSerialize};
use ark_secp256k1::Fr;
use ark_std::rand::rngs::StdRng;
use ark_std::rand::SeedableRng;

verus! {

/// The order of the secp256k1 group (and the modulus of its scalar field).
pub open spec fn order() -> nat {
    0xFFFFFFFFFFFFFFFFFFFFFFFFFFFFFFFEBAAEDCE6AF48A03BBFD25E8CD0364141nat
}

/// 2^64, the radix of a limb.
pub open spec fn limb_base() -> nat {
    0x1_0000_0000_0000_0000nat
}

/// The integer denoted by four little-endian 64-bit limbs.
pub open spec fn limbs_nat(l: [u64; 4]) -> nat {
    l[0] as nat + limb_base() * (l[1] as nat + limb_base() * (l[2] as nat + limb_base()
        * l[3] as nat))
}

/// The integer denoted by little-endian bytes.
pub open spec fn le_value(b: Seq<u8>) -> nat
    decreases b.len(),
{
    if b.len() == 0 {
        0
    } else {
        b[0] as nat + 256 * le_value(b.drop_first())
    }
}

/// `256^k`.
pub open spec fn byte_radix(k: nat) -> nat
    decreases k,
{
    if k == 0 {
        1
    } else {
        256 * byte_radix((k - 1) as nat)
    }
}

/// The `k` little-endian bytes of `v`.
pub open spec fn le_bytes(v: nat, k: nat) -> Seq<u8>
    decreases k,
{
    if k == 0 {
        Seq::empty()
    } else {
        seq![(v % 256) as u8] + le_bytes(v / 256, (k - 1) as nat)
    }
}

/// A number below `256^k` is read back from its `k` little-endian bytes.
pub proof fn lemma_le_bytes_value(v: nat, k: nat)
    requires
        v < byte_radix(k),
    ensures
        le_bytes(v, k).len() == k,
        le_value(le_bytes(v, k)) == v,
    decreases k,
{
    if k > 0 {
        let r = byte_radix((k - 1) as nat);
        assert(v / 256 < r) by (nonlinear_arith)
            requires v < 256 * r;
        lemma_le_bytes_value(v / 256, (k - 1) as nat);
        let b = le_bytes(v, k);
        assert(b.drop_first() =~= le_bytes(v / 256, (k - 1) as nat));
        vstd::arithmetic::div_mod::lemma_fundamental_div_mod(v as int, 256);
    }
}

/// Scalars fit in 32 bytes.
pub proof fn lemma_order_below_radix()
    ensures
        order() < byte_radix(32),
{
    reveal_with_fuel(byte_radix, 33);
}

/// The values of a sequence of scalars.
pub open spec fn values(ss: Seq<Scalar>) -> Seq<int> {
    ss.map_values(|s: Scalar| s.value() as int)
}

/// An element of the scalar field of secp256k1.
#[derive(Clone, Copy, PartialEq, Eq, Structural, Debug, Hash)]
pub struct Scalar {
    l0: u64,
    l1: u64,
    l2: u64,
    l3: u64,
}

impl Scalar {
    /// The limbs of the scalar, least significant first.
    pub closed spec fn spec_limbs(self) -> [u64; 4] {
        [self.l0, self.l1, self.l2, self.l3]
    }

    /// The value of the scalar, an integer below `order()`.
    pub closed spec fn value(self) -> nat {
        limbs_nat(self.spec_limbs()) % order()
    }

    #[verifier::type_invariant]
    closed spec fn reduced(self) -> bool {
        limbs_nat(self.spec_limbs()) < order()
    }

    /// Every scalar value lies below the group order.
    pub proof fn lemma_value_bound(self)
        ensures
            self.value() < order(),
    {
    }

    /// Two scalars are equal exactly when their values are.
    proof fn lemma_eq_iff_value(a: Scalar, b: Scalar)
        requires
            limbs_nat(a.spec_limbs()) < order(),
            limbs_nat(b.spec_limbs()) < order(),
        ensures
            (a == b) <==> (a.value() == b.value()),
    {
        if a.value() == b.value() {
            vstd::arithmetic::div_mod::lemma_small_mod(limbs_nat(a.spec_limbs()), order());
            vstd::arithmetic::div_mod::lemma_small_mod(limbs_nat(b.spec_limbs()), order());
            lemma_limbs_injective(a.spec_limbs(), b.spec_limbs());
        }
    }

    /// A scalar from limbs that denote a number below the order.
    pub(crate) fn from_limbs(l: [u64; 4]) -> (res: Scalar)
        requires
            limbs_nat(l) < order(),
        ensures
            res.spec_limbs() == l,
    {
        let res = Scalar { l0: l[0], l1: l[1], l2: l[2], l3: l[3] };
        assert(res.spec_limbs() =~= l);
        res
    }

    /// The limbs of the scalar, least significant first.
    pub(crate) fn to_limbs(&self) -> (res: [u64; 4])
        ensures
            res == self.spec_limbs(),
    {
        [self.l0, self.l1, self.l2, self.l3]
    }

    /// Whether two scalars are equal.
    pub fn equals(&self, other: &Scalar) -> (res: bool)
        ensures
            res == (self.value() == other.value()),
    {
        proof {
            use_type_invariant(self);
            use_type_invariant(other);
            Scalar::lemma_eq_iff_value(*self, *other);
        }
        *self == *other
    }

    /// The scalar with value `v`.
    pub fn from_u64(v: u64) -> (res: Scalar)
        ensures
            res.value() == v,
    {
        let res = Scalar { l0: v, l1: 0, l2: 0, l3: 0 };
        proof {
            assert(limbs_nat(res.spec_limbs()) == v as nat);
            vstd::arithmetic::div_mod::lemma_small_mod(v as nat, order());
        }
        res
    }

    /// The scalar zero.
    pub fn zero() -> (res: Scalar)
        ensures
            res.value() == 0,
    {
        Scalar::from_u64(0)
    }

    /// The scalar one.
    pub fn one() -> (res: Scalar)
        ensures
            res.value() == 1,
    {
        Scalar::from_u64(1)
    }

    /// The sum of two scalars.
    pub fn add(&self, other: &Scalar) -> (res: Scalar)
        ensures
            res.value() == (self.value() + other.value()) % order(),
    {
        field_add(self, other)
    }

    /// The difference of two scalars.
    pub fn sub(&self, other: &Scalar) -> (res: Scalar)
        ensures
            res.value() == (self.value() - other.value()) % (order() as int),
    {
        field_sub(self, other)
    }

    /// The product of two scalars.
    pub fn mul(&self, other: &Scalar) -> (res: Scalar)
        ensures
            res.value() == (self.value() * other.value()) % order(),
    {
        field_mul(self, other)
    }

    /// The additive inverse of a scalar.
    pub fn neg(&self) -> (res: Scalar)
        ensures
            res.value() == (0 - self.value()) % (order() as int),
    {
        field_neg(self)
    }

    /// The scalar raised to the power `e`.
    pub fn pow(&self, e: u64) -> (res: Scalar)
        ensures
            res.value() == pow(self.value() as int, e as nat) % (order() as int),
    {
        field_pow(self, e)
    }
}

/// The base-2^64 digits of a number below 2^256 are unique.
proof fn lemma_limbs_injective(a: [u64; 4], b: [u64; 4])
    requires
        limbs_nat(a) == limbs_nat(b),
    ensures
        a[0] == b[0],
        a[1] == b[1],
        a[2] == b[2],
        a[3] == b[3],
{
    let base = limb_base() as int;
    let qa2 = a[2] as int + base * a[3] as int;
    let qb2 = b[2] as int + base * b[3] as int;
    let qa1 = a[1] as int + base * qa2;
    let qb1 = b[1] as int + base * qb2;
    vstd::arithmetic::div_mod::lemma_fundamental_div_mod_converse(limbs_nat(a) as int, base, qa1, a[0] as int);
    vstd::arithmetic::div_mod::lemma_fundamental_div_mod_converse(limbs_nat(b) as int, base, qb1, b[0] as int);
    assert(qa1 * base + a[0] == limbs_nat(a)) by (nonlinear_arith)
        requires qa1 == a[1] as int + base * qa2, limbs_nat(a) == a[0] as int + base * qa1;
    assert(qb1 * base + b[0] == limbs_nat(b)) by (nonlinear_arith)
        requires qb1 == b[1] as int + base * qb2, limbs_nat(b) == b[0] as int + base * qb1;
    vstd::arithmetic::div_mod::lemma_fundamental_div_mod_converse(qa1, base, qa2, a[1] as int);
    vstd::arithmetic::div_mod::lemma_fundamental_div_mod_converse(qb1, base, qb2, b[1] as int);
    vstd::arithmetic::div_mod::lemma_fundamental_div_mod_converse(qa2, base, a[3] as int, a[2] as int);
    vstd::arithmetic::div_mod::lemma_fundamental_div_mod_converse(qb2, base, b[3] as int, b[2] as int);
}

/// `Fr + Fr` in `ark_ff`: field addition, i.e. the sum modulo the group order.
#[verifier::external_body]
fn field_add(a: &Scalar, b: &Scalar) -> (res: Scalar)
    ensures
        res.value() == (a.value() + b.value()) % order(),
{
    let x = Fr::new(BigInt::new(a.to_limbs()));
    let y = Fr::new(BigInt::new(b.to_limbs()));
    Scalar::from_limbs((x + y).into_bigint().0)
}

/// `Fr - Fr` in `ark_ff`: field subtraction, i.e. the difference modulo the group order.
#[verifier::external_body]
fn field_sub(a: &Scalar, b: &Scalar) -> (res: Scalar)
    ensures
        res.value() == (a.value() - b.value()) % (order() as int),
{
    let x = Fr::new(BigInt::new(a.to_limbs()));
    let y = Fr::new(BigInt::new(b.to_limbs()));
    Scalar::from_limbs((x - y).into_bigint().0)
}

/// `Fr * Fr` in `ark_ff`: field multiplication, i.e. the product modulo the group order.
#[verifier::external_body]
fn field_mul(a: &Scalar, b: &Scalar) -> (res: Scalar)
    ensures
        res.value() == (a.value() * b.value()) % order(),
{
    let x = Fr::new(BigInt::new(a.to_limbs()));
    let y = Fr::new(BigInt::new(b.to_limbs()));
    Scalar::from_limbs((x * y).into_bigint().0)
}

/// `-Fr` in `ark_ff`: the additive inverse modulo the group order.
#[verifier::external_body]
fn field_neg(a: &Scalar) -> (res: Scalar)
    ensures
        res.value() == (0 - a.value()) % (order() as int),
{
    let x = Fr::new(BigInt::new(a.to_limbs()));
    Scalar::from_limbs((-x).into_bigint().0)
}

/// `Field::pow` in `ark_ff` with a single-limb exponent: `a^e` modulo the group order.
#[verifier::external_body]
fn field_pow(a: &Scalar, e: u64) -> (res: Scalar)
    ensures
        res.value() == pow(a.value() as int, e as nat) % (order() as int),
{
    let x = Fr::new(BigInt::new(a.to_limbs()));
    Scalar::from_limbs(x.pow([e]).into_bigint().0)
}

/// `PrimeField::from_le_bytes_mod_order` for `Fr` in `ark_ff`: the little-endian number
/// written in the bytes, reduced modulo the order.
#[verifier::external_body]
fn scalar_from_wide_bytes(b: &[u8; 64]) -> (res: Scalar)
    ensures
        res.value() == le_value(b@) % order(),
{
    Scalar::from_limbs(Fr::from_le_bytes_mod_order(&b[..]).into_bigint().0)
}

/// A scalar drawn from `rng`: 64 random bytes, read as a little-endian number and reduced
/// modulo the order (a draw that always returns, with a bias below 2^-256).
pub(crate) fn random_scalar<R: ark_std::rand::RngCore + ?Sized>(rng: &mut R) -> (res: Scalar)
    ensures
        exists|b: Seq<u8>| b.len() == 64 && #[trigger] le_value(b) % order() == res.value(),
{
    let bytes = crate::rng::random_bytes(rng);
    let res = scalar_from_wide_bytes(&bytes);
    assert(le_value(bytes@) % order() == res.value());
    res
}

/// The `i`-th scalar (counting from 0) that successive calls of `UniformRand::rand` for
/// `Fr` in `ark_ff` draw from the generator `StdRng::from_seed(seed)` of `rand`.
pub uninterp spec fn seeded_scalar(seed: Seq<u8>, i: nat) -> Scalar;

/// `N` successive draws of `UniformRand::rand` for `Fr` from `StdRng::from_seed(seed)`:
/// draw `i` is `seeded_scalar(seed, i)`. Each draw is a rejection loop on the generator's
/// output, which returns once that output is below the order.
#[verifier::external_body]
pub(crate) fn draw_seeded_scalars<const N: usize>(seed: &[u8; 32]) -> (res: [Scalar; N])
    ensures
        forall|i: int| 0 <= i < N ==> #[trigger] res[i] == seeded_scalar(seed@, i as nat),
{
    let mut rng = StdRng::from_seed(*seed);
    core::array::from_fn(|_| Scalar::from_limbs(Fr::rand(&mut rng).into_bigint().0))
}

/// `CanonicalSerialize::serialize_compressed` for `Fr` in `ark_serialize`: the value as
/// 32 little-endian bytes.
#[verifier::external_body]
pub(crate) fn scalar_to_bytes(a: &Scalar) -> (res: [u8; 32])
    ensures
        res@ == le_bytes(a.value(), 32),
{
    let mut out = [0u8; 32];
    Fr::new(BigInt::new(a.to_limbs())).serialize_compressed(&mut out[..]).unwrap();
    out
}

/// `CanonicalDeserialize::deserialize_compressed` for `Fr` in `ark_serialize`: reads 32
/// little-endian bytes and accepts them exactly when they denote a number below the order.
#[verifier::external_body]
pub(crate) fn scalar_from_bytes(b: &[u8; 32]) -> (res: Option<Scalar>)
    ensures
        res is Some <==> le_value(b@) < order(),
        res matches Some(s) ==> s.value() == le_value(b@),
{
    match Fr::deserialize_compressed(&b[..]) {
        Ok(x) => Some(Scalar::from_limbs(x.into_bigint().0)),
        Err(_) => None,
    }
}

} // verus!
