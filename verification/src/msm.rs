//! Multi-scalar multiplication over points and over ElGamal ciphertexts.
use vstd::prelude::*;
use crate::math::{dot, lemma_dot_push, lemma_mod_add_both, lemma_mod_small, n};
use crate::point::{c1_dlogs, c2_dlogs, dlog, dlogs, Ciphertext, Point};
use crate::scalar::{values, Scalar};

verus! {

/// `Σ ps[i]·ss[i]`.
pub fn point_msm(ps: &[Point], ss: &[Scalar]) -> (res: Point)
    requires
        ps.len() == ss.len(),
    ensures
        dlog(res) == dot(dlogs(ps@), values(ss@)) % n(),
{
    let ghost a = dlogs(ps@);
    let ghost b = values(ss@);
    let mut acc = Point::identity();
    let mut i: usize = 0;
    proof {
        assert(a.subrange(0, 0) =~= Seq::<int>::empty());
        lemma_mod_small(0);
    }
    while i < ps.len()
        invariant
            i <= ps.len(),
            ps.len() == ss.len(),
            a == dlogs(ps@),
            b == values(ss@),
            dlog(acc) == dot(a.subrange(0, i as int), b) % n(),
        decreases ps.len() - i,
    {
        let term = ps[i].mul(&ss[i]);
        let ghost prev = dot(a.subrange(0, i as int), b);
        acc = acc.add(&term);
        proof {
            lemma_dot_push(a, b, i as int);
            lemma_mod_add_both(prev, a[i as int] * b[i as int]);
            vstd::arithmetic::div_mod::lemma_mod_twice(prev, n());
        }
        i = i + 1;
    }
    proof {
        assert(a.subrange(0, ps.len() as int) =~= a);
    }
    acc
}

/// `(Σ cts[i].0·ss[i], Σ cts[i].1·ss[i])`: the componentwise multi-scalar product of a
/// vector of ciphertexts.
pub fn ct_msm(cts: &[Ciphertext], ss: &[Scalar]) -> (res: Ciphertext)
    requires
        cts.len() == ss.len(),
    ensures
        dlog(res.0) == dot(c1_dlogs(cts@), values(ss@)) % n(),
        dlog(res.1) == dot(c2_dlogs(cts@), values(ss@)) % n(),
{
    let ghost a1 = c1_dlogs(cts@);
    let ghost a2 = c2_dlogs(cts@);
    let ghost b = values(ss@);
    let mut acc1 = Point::identity();
    let mut acc2 = Point::identity();
    let mut i: usize = 0;
    proof {
        assert(a1.subrange(0, 0) =~= Seq::<int>::empty());
        assert(a2.subrange(0, 0) =~= Seq::<int>::empty());
        lemma_mod_small(0);
    }
    while i < cts.len()
        invariant
            i <= cts.len(),
            cts.len() == ss.len(),
            a1 == c1_dlogs(cts@),
            a2 == c2_dlogs(cts@),
            b == values(ss@),
            dlog(acc1) == dot(a1.subrange(0, i as int), b) % n(),
            dlog(acc2) == dot(a2.subrange(0, i as int), b) % n(),
        decreases cts.len() - i,
    {
        let t1 = cts[i].0.mul(&ss[i]);
        let t2 = cts[i].1.mul(&ss[i]);
        let ghost p1 = dot(a1.subrange(0, i as int), b);
        let ghost p2 = dot(a2.subrange(0, i as int), b);
        acc1 = acc1.add(&t1);
        acc2 = acc2.add(&t2);
        proof {
            lemma_dot_push(a1, b, i as int);
            lemma_dot_push(a2, b, i as int);
            lemma_mod_add_both(p1, a1[i as int] * b[i as int]);
            lemma_mod_add_both(p2, a2[i as int] * b[i as int]);
            vstd::arithmetic::div_mod::lemma_mod_twice(p1, n());
            vstd::arithmetic::div_mod::lemma_mod_twice(p2, n());
        }
        i = i + 1;
    }
    proof {
        assert(a1.subrange(0, cts.len() as int) =~= a1);
        assert(a2.subrange(0, cts.len() as int) =~= a2);
    }
    (acc1, acc2)
}

/// `Σ a[i]·b[i]` over scalars.
pub fn scalar_dot(a: &[Scalar], b: &[Scalar]) -> (res: Scalar)
    requires
        a.len() == b.len(),
    ensures
        res.value() == dot(values(a@), values(b@)) % n(),
{
    let ghost va = values(a@);
    let ghost vb = values(b@);
    let mut acc = Scalar::zero();
    let mut i: usize = 0;
    proof {
        assert(va.subrange(0, 0) =~= Seq::<int>::empty());
        lemma_mod_small(0);
    }
    while i < a.len()
        invariant
            i <= a.len(),
            a.len() == b.len(),
            va == values(a@),
            vb == values(b@),
            acc.value() == dot(va.subrange(0, i as int), vb) % n(),
        decreases a.len() - i,
    {
        let term = a[i].mul(&b[i]);
        let ghost prev = dot(va.subrange(0, i as int), vb);
        acc = acc.add(&term);
        proof {
            lemma_dot_push(va, vb, i as int);
            lemma_mod_add_both(prev, va[i as int] * vb[i as int]);
            vstd::arithmetic::div_mod::lemma_mod_twice(prev, n());
        }
        i = i + 1;
    }
    proof {
        assert(va.subrange(0, a.len() as int) =~= va);
    }
    acc
}

} // verus!
