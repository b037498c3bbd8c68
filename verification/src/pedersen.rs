//! Pedersen commitments to scalars and to vectors of scalars.
use vstd::prelude::*;
use crate::math::{dot, lemma_dot_add, lemma_dot_scale, lemma_mod_add_both, lemma_mod_mul_step, n};
use crate::msm::point_msm;
use vstd::string::StringSliceAdditionalSpecFns;
use crate::point::{dlog, dlogs, draw_seeded_points, seeded_point, Point};
use crate::scalar::{random_scalar, values, Scalar};
use crate::transcript::{sha256, spec_sha256};

verus! {

/// A Pedersen commitment.
#[derive(Debug, Clone, Copy, PartialEq, Eq)]
pub struct PedersonCommitment(pub Point);

/// The randomness that opens a Pedersen commitment.
#[derive(Debug, Clone, Copy, PartialEq, Eq)]
pub struct PedersonWitness(pub Scalar);

/// The commitment key: the blinding base `h` and one base per vector entry.
#[derive(Debug, Clone, Copy)]
pub struct PedersonCommitKey<const N: usize> {
    pub h: Point,
    pub gs: [Point; N],
}

/// The discrete logarithm of the commitment `m·G + r·h`.
pub open spec fn commit_dlog<const N: usize>(ck: PedersonCommitKey<N>, m: int, r: int) -> int {
    (m + dlog(ck.h) * r) % n()
}

/// The discrete logarithm of the vector commitment `Σ ms[i]·gs[i] + r·h`.
pub open spec fn vcommit_dlog<const N: usize>(ck: PedersonCommitKey<N>, ms: Seq<int>, r: int) -> int {
    (dot(dlogs(ck.gs@), ms) + dlog(ck.h) * r) % n()
}

/// The blinding base of the standard commitment key: the first point drawn from the
/// generator seeded with the SHA-256 digest of `PEDERSON-H-V1`.
pub open spec fn pedersen_h() -> Point {
    seeded_point(spec_sha256("PEDERSON-H-V1".spec_bytes()), 0)
}

/// Base `i` of the standard commitment key: the `i`-th point drawn from the generator
/// seeded with the SHA-256 digest of `PEDERSON-VECTOR-G-V1`.
pub open spec fn pedersen_g(i: nat) -> Point {
    seeded_point(spec_sha256("PEDERSON-VECTOR-G-V1".spec_bytes()), i)
}

impl<const N: usize> PedersonCommitKey<N> {
    /// Whether this is the standard key: its bases are `pedersen_h()` and
    /// `pedersen_g(0), ..., pedersen_g(N - 1)`, whatever the length.
    pub open spec fn is_standard(self) -> bool {
        &&& self.h == pedersen_h()
        &&& forall|i: int| 0 <= i < N ==> #[trigger] self.gs[i] == pedersen_g(i as nat)
    }

    /// The commitment key whose bases are drawn from generators seeded with the SHA-256
    /// digests of fixed labels, so that every party derives the same key.
    pub fn new() -> (res: PedersonCommitKey<N>)
        ensures
            res.is_standard(),
    {
        let h_seed = sha256("PEDERSON-H-V1".as_bytes());
        let hs: [Point; 1] = draw_seeded_points(&h_seed);
        let g_seed = sha256("PEDERSON-VECTOR-G-V1".as_bytes());
        let gs: [Point; N] = draw_seeded_points(&g_seed);
        PedersonCommitKey { h: hs[0], gs }
    }

    /// `m·G + r·h`.
    pub fn commit_with_r(&self, m: &Scalar, r: &Scalar) -> (res: Point)
        ensures
            dlog(res) == commit_dlog(*self, m.value() as int, r.value() as int),
    {
        let mg = Point::mul_base(m);
        let rh = self.h.mul(r);
        proof {
            m.lemma_value_bound();
            crate::math::lemma_mod_small(m.value() as int);
            lemma_mod_add_both(m.value() as int, (dlog(self.h) * r.value()) as int);
        }
        mg.add(&rh)
    }

    /// A commitment to `m` with fresh randomness from `rng`, and that randomness.
    pub fn commit<R: ark_std::rand::RngCore + ?Sized>(&self, rng: &mut R, m: &Scalar) -> (res: (
        PedersonCommitment,
        PedersonWitness,
    ))
        ensures
            dlog(res.0.0) == commit_dlog(*self, m.value() as int, res.1.0.value() as int),
    {
        let r = random_scalar(rng);
        (PedersonCommitment(self.commit_with_r(m, &r)), PedersonWitness(r))
    }

    /// `Σ ms[i]·gs[i] + r·h`.
    pub fn vector_commit_with_r(&self, ms: &[Scalar; N], r: &Scalar) -> (res: Point)
        ensures
            dlog(res) == vcommit_dlog(*self, values(ms@), r.value() as int),
    {
        let s = point_msm(&self.gs, ms);
        let rh = self.h.mul(r);
        proof {
            lemma_mod_add_both(dot(dlogs(self.gs@), values(ms@)), (dlog(self.h) * r.value()) as int);
        }
        s.add(&rh)
    }

    /// A vector commitment to `ms` with fresh randomness from `rng`, and that randomness.
    pub fn vector_commit<R: ark_std::rand::RngCore + ?Sized>(
        &self,
        rng: &mut R,
        ms: &[Scalar; N],
    ) -> (res: (PedersonCommitment, PedersonWitness))
        ensures
            dlog(res.0.0) == vcommit_dlog(*self, values(ms@), res.1.0.value() as int),
    {
        let r = random_scalar(rng);
        (PedersonCommitment(self.vector_commit_with_r(ms, &r)), PedersonWitness(r))
    }
}

/// Every party derives the same commitment key: two standard keys have the same blinding
/// base, and the same bases wherever both have one, whatever their lengths.
pub proof fn lemma_standard_keys_agree<const N: usize, const M: usize>(
    a: PedersonCommitKey<N>,
    b: PedersonCommitKey<M>,
)
    requires
        a.is_standard(),
        b.is_standard(),
    ensures
        a.h == b.h,
        forall|i: int| 0 <= i < N && i < M ==> #[trigger] a.gs[i] == b.gs[i],
{
    assert forall|i: int| 0 <= i < N && i < M implies #[trigger] a.gs[i] == b.gs[i] by {
        assert(a.gs[i] == pedersen_g(i as nat));
        assert(b.gs[i] == pedersen_g(i as nat));
    }
}

/// Vector commitments add up: the sum of the commitments to `a` and `b` (with randomness
/// `r1` and `r2`) is the commitment to `a + b` with randomness `r1 + r2`.
pub proof fn lemma_vcommit_add<const N: usize>(ck: PedersonCommitKey<N>, a: Seq<int>, b: Seq<int>, r1: int, r2: int)
    requires
        a.len() == N,
        b.len() == N,
    ensures
        (vcommit_dlog(ck, a, r1) + vcommit_dlog(ck, b, r2)) % n() == vcommit_dlog(
            ck,
            Seq::new(N as nat, |i: int| a[i] + b[i]),
            r1 + r2,
        ),
{
    let g = dlogs(ck.gs@);
    let h = dlog(ck.h) as int;
    let o = Seq::new(N as nat, |i: int| a[i] + b[i]);
    lemma_dot_add(g, o, a, b);
    assert(h * r1 + h * r2 == h * (r1 + r2)) by (nonlinear_arith);
    lemma_mod_add_both(dot(g, a) + h * r1, dot(g, b) + h * r2);
}

/// Vector commitments scale: `k` times the commitment to `a` with randomness `r` is the
/// commitment to `k·a` with randomness `k·r`.
pub proof fn lemma_vcommit_scale<const N: usize>(ck: PedersonCommitKey<N>, a: Seq<int>, r: int, k: int)
    requires
        a.len() == N,
    ensures
        (vcommit_dlog(ck, a, r) * k) % n() == vcommit_dlog(ck, Seq::new(N as nat, |i: int| k * a[i]), k * r),
{
    let g = dlogs(ck.gs@);
    let h = dlog(ck.h) as int;
    let o = Seq::new(N as nat, |i: int| k * a[i]);
    lemma_dot_scale(g, o, a, k);
    assert((dot(g, a) + h * r) * k == k * dot(g, a) + h * (k * r)) by (nonlinear_arith);
    lemma_mod_mul_step(dot(g, a) + h * r, k);
}

/// The commitment to the zero vector with randomness 0 is the neutral element.
pub proof fn lemma_vcommit_zero<const N: usize>(ck: PedersonCommitKey<N>)
    ensures
        vcommit_dlog(ck, Seq::new(N as nat, |i: int| 0), 0) == 0,
{
    let g = dlogs(ck.gs@);
    let z = Seq::new(N as nat, |i: int| 0int);
    lemma_dot_scale(g, z, z, 0);
    assert(dot(g, z) == 0);
    assert(dlog(ck.h) * 0 == 0);
    crate::math::lemma_mod_small(0);
}

} // verus!
