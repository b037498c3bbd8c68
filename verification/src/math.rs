//! Arithmetic modulo the group order: sums, products and the lemmas that relate them.
use vstd::prelude::*;
use vstd::arithmetic::div_mod::{lemma_add_mod_noop, lemma_mul_mod_noop_left, lemma_mul_mod_noop_right, lemma_mod_bound, lemma_small_mod};
use crate::scalar::order;

verus! {

/// The order as an integer.
pub open spec fn n() -> int {
    order() as int
}

/// The sum of a sequence of integers.
pub open spec fn sum(s: Seq<int>) -> int
    decreases s.len(),
{
    if s.len() == 0 {
        0
    } else {
        sum(s.drop_last()) + s.last()
    }
}

/// The product of a sequence of integers.
pub open spec fn product(s: Seq<int>) -> int
    decreases s.len(),
{
    if s.len() == 0 {
        1
    } else {
        product(s.drop_last()) * s.last()
    }
}

/// The inner product of `a` with the matching entries of `b`.
pub open spec fn dot(a: Seq<int>, b: Seq<int>) -> int
    decreases a.len(),
{
    if a.len() == 0 {
        0
    } else {
        dot(a.drop_last(), b) + a.last() * b[a.len() - 1]
    }
}

/// Inner product of a prefix extended by one element.
pub proof fn lemma_dot_push(a: Seq<int>, b: Seq<int>, k: int)
    requires
        0 <= k < a.len(),
    ensures
        dot(a.subrange(0, k + 1), b) == dot(a.subrange(0, k), b) + a[k] * b[k],
{
    assert(a.subrange(0, k + 1).drop_last() =~= a.subrange(0, k));
}

/// Sum of a prefix extended by one element.
pub proof fn lemma_sum_push(s: Seq<int>, k: int)
    requires
        0 <= k < s.len(),
    ensures
        sum(s.subrange(0, k + 1)) == sum(s.subrange(0, k)) + s[k],
{
    assert(s.subrange(0, k + 1).drop_last() =~= s.subrange(0, k));
}

/// Product of a prefix extended by one element.
pub proof fn lemma_product_push(s: Seq<int>, k: int)
    requires
        0 <= k < s.len(),
    ensures
        product(s.subrange(0, k + 1)) == product(s.subrange(0, k)) * s[k],
{
    assert(s.subrange(0, k + 1).drop_last() =~= s.subrange(0, k));
}

/// Adding a term to a reduced running sum.
pub proof fn lemma_mod_add_step(acc: int, x: int)
    ensures
        ((acc % n()) + x) % n() == (acc + x) % n(),
{
    lemma_add_mod_noop(acc, x, n());
    lemma_add_mod_noop(acc % n(), x, n());
    lemma_mod_bound(acc, n());
    lemma_small_mod((acc % n()) as nat, order());
}

/// Multiplying a reduced running product by a factor.
pub proof fn lemma_mod_mul_step(acc: int, x: int)
    ensures
        ((acc % n()) * x) % n() == (acc * x) % n(),
{
    lemma_mul_mod_noop_left(acc, x, n());
}

/// Reducing the right operand of a product first changes nothing.
pub proof fn lemma_mod_mul_right(x: int, y: int)
    ensures
        (x * (y % n())) % n() == (x * y) % n(),
{
    lemma_mul_mod_noop_right(x, y, n());
}

/// Reducing the right operand of a sum first changes nothing.
pub proof fn lemma_mod_add_right(x: int, y: int)
    ensures
        (x + (y % n())) % n() == (x + y) % n(),
{
    lemma_add_mod_noop(x, y % n(), n());
    lemma_mod_bound(y, n());
    lemma_small_mod((y % n()) as nat, order());
    lemma_add_mod_noop(x, y, n());
}

/// A value below the order is its own remainder.
pub proof fn lemma_mod_small(x: int)
    requires
        0 <= x < n(),
    ensures
        x % n() == x,
{
    lemma_small_mod(x as nat, order());
}

/// Adding a multiple of the order changes no remainder.
pub proof fn lemma_mod_shift(q: int, k: int)
    ensures
        (q + n() * k) % n() == q % n(),
{
    vstd::arithmetic::div_mod::lemma_mod_multiples_vanish(k, q, n());
    assert(n() * k + q == q + n() * k);
}

/// Reducing the subtrahend first changes nothing.
pub proof fn lemma_mod_sub_right(x: int, y: int)
    ensures
        (x - (y % n())) % n() == (x - y) % n(),
{
    vstd::arithmetic::div_mod::lemma_sub_mod_noop_right(x, y, n());
}

/// Reducing both summands first changes nothing.
pub proof fn lemma_mod_add_both(x: int, y: int)
    ensures
        ((x % n()) + (y % n())) % n() == (x + y) % n(),
{
    lemma_add_mod_noop(x, y, n());
}

/// Congruent summands give congruent sums.
pub proof fn lemma_cong_add(a: int, b: int, c: int, d: int)
    requires
        a % n() == b % n(),
        c % n() == d % n(),
    ensures
        (a + c) % n() == (b + d) % n(),
{
    lemma_add_mod_noop(a, c, n());
    lemma_add_mod_noop(b, d, n());
}

/// Congruent factors give congruent products.
pub proof fn lemma_cong_mul(a: int, b: int, c: int)
    requires
        a % n() == b % n(),
    ensures
        (a * c) % n() == (b * c) % n(),
        (c * a) % n() == (c * b) % n(),
{
    lemma_mul_mod_noop_left(a, c, n());
    lemma_mul_mod_noop_left(b, c, n());
    lemma_mul_mod_noop_right(c, a, n());
    lemma_mul_mod_noop_right(c, b, n());
}

/// A remainder is congruent to the number it was taken of.
pub proof fn lemma_mod_mod(a: int)
    ensures
        (a % n()) % n() == a % n(),
{
    vstd::arithmetic::div_mod::lemma_mod_twice(a, n());
}

/// The inner product is linear in its second argument, modulo the order: if every
/// `o[i]` is congruent to `a[i] + x·b[i]` then `g·o` is congruent to `g·a + x·(g·b)`.
pub proof fn lemma_dot_combination(g: Seq<int>, o: Seq<int>, a: Seq<int>, b: Seq<int>, x: int)
    requires
        g.len() <= o.len(),
        g.len() <= a.len(),
        g.len() <= b.len(),
        forall|i: int| 0 <= i < g.len() ==> #[trigger] o[i] % n() == (a[i] + x * b[i]) % n(),
    ensures
        dot(g, o) % n() == (dot(g, a) + x * dot(g, b)) % n(),
    decreases g.len(),
{
    if g.len() > 0 {
        let h = g.drop_last();
        let k = g.len() - 1;
        lemma_dot_combination(h, o, a, b, x);
        let gk = g[k];
        assert(o[k] % n() == (a[k] + x * b[k]) % n());
        lemma_cong_mul(o[k], a[k] + x * b[k], gk);
        assert(gk * (a[k] + x * b[k]) == gk * a[k] + x * (gk * b[k])) by (nonlinear_arith);
        lemma_cong_add(dot(h, o), dot(h, a) + x * dot(h, b), gk * o[k], gk * a[k] + x * (gk * b[k]));
        assert(dot(h, a) + x * dot(h, b) + (gk * a[k] + x * (gk * b[k])) == (dot(h, a) + gk * a[k])
            + x * (dot(h, b) + gk * b[k])) by (nonlinear_arith);
    }
}

/// Congruent minuends and subtrahends give congruent differences.
pub proof fn lemma_cong_sub(a: int, b: int, c: int, d: int)
    requires
        a % n() == b % n(),
        c % n() == d % n(),
    ensures
        (a - c) % n() == (b - d) % n(),
{
    vstd::arithmetic::div_mod::lemma_sub_mod_noop(a, c, n());
    vstd::arithmetic::div_mod::lemma_sub_mod_noop(b, d, n());
}

/// The inner product is additive in its second argument.
pub proof fn lemma_dot_add(g: Seq<int>, o: Seq<int>, a: Seq<int>, b: Seq<int>)
    requires
        g.len() <= o.len(),
        g.len() <= a.len(),
        g.len() <= b.len(),
        forall|i: int| 0 <= i < g.len() ==> #[trigger] o[i] == a[i] + b[i],
    ensures
        dot(g, o) == dot(g, a) + dot(g, b),
    decreases g.len(),
{
    if g.len() > 0 {
        let k = g.len() - 1;
        lemma_dot_add(g.drop_last(), o, a, b);
        assert(g[k] * o[k] == g[k] * a[k] + g[k] * b[k]) by (nonlinear_arith)
            requires o[k] == a[k] + b[k];
    }
}

/// The inner product is homogeneous in its second argument.
pub proof fn lemma_dot_scale(g: Seq<int>, o: Seq<int>, a: Seq<int>, k: int)
    requires
        g.len() <= o.len(),
        g.len() <= a.len(),
        forall|i: int| 0 <= i < g.len() ==> #[trigger] o[i] == k * a[i],
    ensures
        dot(g, o) == k * dot(g, a),
    decreases g.len(),
{
    if g.len() > 0 {
        let j = g.len() - 1;
        lemma_dot_scale(g.drop_last(), o, a, k);
        let d = dot(g.drop_last(), a);
        assert(k * d + g[j] * o[j] == k * (d + g[j] * a[j])) by (nonlinear_arith)
            requires o[j] == k * a[j];
    }
}

} // verus!
