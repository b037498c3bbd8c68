//! Sums and products are invariant under permutation of their terms.
use vstd::prelude::*;
use crate::math::{dot, product, sum};

verus! {

broadcast use vstd::seq_lib::group_to_multiset_ensures;

/// The identity permutation of `0..len`.
pub open spec fn identity_perm(len: nat) -> Seq<usize> {
    Seq::new(len, |i: int| i as usize)
}

/// Whether `perm` is a permutation of `0..len`.
pub open spec fn is_permutation(perm: Seq<usize>, len: nat) -> bool {
    perm.to_multiset() == identity_perm(len).to_multiset()
}

/// `s` reordered by `perm`: entry `i` is `s[perm[i]]`.
pub open spec fn permuted(s: Seq<int>, perm: Seq<usize>) -> Seq<int> {
    Seq::new(perm.len(), |i: int| s[perm[i] as int])
}

/// `Σ f(s[i])`.
pub open spec fn sum_of<A>(s: Seq<A>, f: spec_fn(A) -> int) -> int
    decreases s.len(),
{
    if s.len() == 0 {
        0
    } else {
        sum_of(s.drop_last(), f) + f(s.last())
    }
}

/// `∏ f(s[i])`.
pub open spec fn product_of<A>(s: Seq<A>, f: spec_fn(A) -> int) -> int
    decreases s.len(),
{
    if s.len() == 0 {
        1
    } else {
        product_of(s.drop_last(), f) * f(s.last())
    }
}

/// Taking one element out of a sum.
proof fn lemma_sum_of_remove<A>(s: Seq<A>, f: spec_fn(A) -> int, k: int)
    requires
        0 <= k < s.len(),
    ensures
        sum_of(s, f) == sum_of(s.remove(k), f) + f(s[k]),
    decreases s.len(),
{
    if k == s.len() - 1 {
        assert(s.remove(k) =~= s.drop_last());
    } else {
        lemma_sum_of_remove(s.drop_last(), f, k);
        assert(s.drop_last().remove(k) =~= s.remove(k).drop_last());
        assert(s.remove(k).last() == s.last());
    }
}

/// Taking one element out of a product.
proof fn lemma_product_of_remove<A>(s: Seq<A>, f: spec_fn(A) -> int, k: int)
    requires
        0 <= k < s.len(),
    ensures
        product_of(s, f) == product_of(s.remove(k), f) * f(s[k]),
    decreases s.len(),
{
    if k == s.len() - 1 {
        assert(s.remove(k) =~= s.drop_last());
    } else {
        lemma_product_of_remove(s.drop_last(), f, k);
        assert(s.drop_last().remove(k) =~= s.remove(k).drop_last());
        assert(s.remove(k).last() == s.last());
        assert(product_of(s.drop_last().remove(k), f) * f(s[k]) * f(s.last()) == product_of(
            s.drop_last().remove(k),
            f,
        ) * f(s.last()) * f(s[k])) by (nonlinear_arith);
    }
}

/// Removing the last element of `s` and an equal element of `t` keeps the multisets equal.
proof fn lemma_multiset_step<A>(s: Seq<A>, t: Seq<A>) -> (k: int)
    requires
        s.to_multiset() == t.to_multiset(),
        s.len() > 0,
    ensures
        0 <= k < t.len(),
        t[k] == s.last(),
        s.drop_last().to_multiset() == t.remove(k).to_multiset(),
{
    let x = s.last();
    assert(s.to_multiset().count(x) > 0) by {
        assert(s.drop_last().push(x) =~= s);
    }
    assert(t.contains(x));
    let k = choose|k: int| 0 <= k < t.len() && t[k] == x;
    assert(s.drop_last().push(x) =~= s);
    assert(s.drop_last().to_multiset() =~= t.remove(k).to_multiset()) by {
        assert(s.to_multiset() == s.drop_last().to_multiset().insert(x));
        assert(t.remove(k).to_multiset() == t.to_multiset().remove(x));
    }
    k
}

/// A sum depends only on the multiset of its terms.
pub proof fn lemma_sum_of_multiset<A>(s: Seq<A>, t: Seq<A>, f: spec_fn(A) -> int)
    requires
        s.to_multiset() == t.to_multiset(),
    ensures
        sum_of(s, f) == sum_of(t, f),
    decreases s.len(),
{
    if s.len() > 0 {
        let k = lemma_multiset_step(s, t);
        lemma_sum_of_multiset(s.drop_last(), t.remove(k), f);
        lemma_sum_of_remove(t, f, k);
    } else {
        assert(t.len() == t.to_multiset().len());
        assert(s.len() == s.to_multiset().len());
    }
}

/// A product depends only on the multiset of its factors.
pub proof fn lemma_product_of_multiset<A>(s: Seq<A>, t: Seq<A>, f: spec_fn(A) -> int)
    requires
        s.to_multiset() == t.to_multiset(),
    ensures
        product_of(s, f) == product_of(t, f),
    decreases s.len(),
{
    if s.len() > 0 {
        let k = lemma_multiset_step(s, t);
        lemma_product_of_multiset(s.drop_last(), t.remove(k), f);
        lemma_product_of_remove(t, f, k);
    } else {
        assert(t.len() == t.to_multiset().len());
        assert(s.len() == s.to_multiset().len());
    }
}

/// `sum_of` is the sum of the mapped sequence.
pub proof fn lemma_sum_of_map<A>(s: Seq<A>, f: spec_fn(A) -> int)
    ensures
        sum_of(s, f) == sum(Seq::new(s.len(), |i: int| f(s[i]))),
    decreases s.len(),
{
    if s.len() > 0 {
        lemma_sum_of_map(s.drop_last(), f);
        assert(Seq::new(s.len(), |i: int| f(s[i])).drop_last() =~= Seq::new(
            s.drop_last().len(),
            |i: int| f(s.drop_last()[i]),
        ));
    }
}

/// `product_of` is the product of the mapped sequence.
pub proof fn lemma_product_of_map<A>(s: Seq<A>, f: spec_fn(A) -> int)
    ensures
        product_of(s, f) == product(Seq::new(s.len(), |i: int| f(s[i]))),
    decreases s.len(),
{
    if s.len() > 0 {
        lemma_product_of_map(s.drop_last(), f);
        assert(Seq::new(s.len(), |i: int| f(s[i])).drop_last() =~= Seq::new(
            s.drop_last().len(),
            |i: int| f(s.drop_last()[i]),
        ));
    }
}

/// The inner product is the sum of the products of matching entries.
pub proof fn lemma_dot_as_sum(a: Seq<int>, b: Seq<int>)
    requires
        a.len() <= b.len(),
    ensures
        dot(a, b) == sum(Seq::new(a.len(), |i: int| a[i] * b[i])),
    decreases a.len(),
{
    if a.len() > 0 {
        lemma_dot_as_sum(a.drop_last(), b);
        assert(Seq::new(a.len(), |i: int| a[i] * b[i]).drop_last() =~= Seq::new(
            a.drop_last().len(),
            |i: int| a.drop_last()[i] * b[i],
        ));
    }
}

/// Sums of equal length over pointwise equal terms are equal.
pub proof fn lemma_sum_ext(a: Seq<int>, b: Seq<int>)
    requires
        a.len() == b.len(),
        forall|i: int| 0 <= i < a.len() ==> a[i] == b[i],
    ensures
        sum(a) == sum(b),
{
    assert(a =~= b);
}

/// The inner product is symmetric.
pub proof fn lemma_dot_comm(a: Seq<int>, b: Seq<int>)
    requires
        a.len() == b.len(),
    ensures
        dot(a, b) == dot(b, a),
{
    lemma_dot_as_sum(a, b);
    lemma_dot_as_sum(b, a);
    assert forall|i: int| 0 <= i < a.len() implies #[trigger] a[i] * b[i] == b[i] * a[i] by {
        assert(a[i] * b[i] == b[i] * a[i]) by (nonlinear_arith);
    }
    lemma_sum_ext(Seq::new(a.len(), |i: int| a[i] * b[i]), Seq::new(b.len(), |i: int| b[i] * a[i]));
}

/// Reordering both factors of an inner product by the same permutation keeps it.
pub proof fn lemma_dot_permuted(a: Seq<int>, b: Seq<int>, perm: Seq<usize>)
    requires
        is_permutation(perm, a.len()),
        a.len() == b.len(),
        a.len() <= usize::MAX,
        forall|i: int| 0 <= i < perm.len() ==> #[trigger] perm[i] < a.len(),
    ensures
        dot(permuted(a, perm), permuted(b, perm)) == dot(a, b),
{
    let len = a.len();
    let f = |j: usize| a[j as int] * b[j as int];
    let id = identity_perm(len);
    assert(perm.len() == len) by {
        assert(perm.len() == perm.to_multiset().len());
        assert(id.len() == id.to_multiset().len());
    }
    lemma_sum_of_multiset(perm, id, f);
    lemma_sum_of_map(perm, f);
    lemma_sum_of_map(id, f);
    let pa = permuted(a, perm);
    let pb = permuted(b, perm);
    lemma_dot_as_sum(pa, pb);
    lemma_dot_as_sum(a, b);
    lemma_sum_ext(Seq::new(len, |i: int| pa[i] * pb[i]), Seq::new(perm.len(), |i: int| f(perm[i])));
    assert forall|i: int| 0 <= i < len implies #[trigger] f(id[i]) == a[i] * b[i] by {
        assert(id[i] as int == i);
    }
    lemma_sum_ext(Seq::new(id.len(), |i: int| f(id[i])), Seq::new(len, |i: int| a[i] * b[i]));
}

/// Reordering the factors of a product by a permutation keeps it.
pub proof fn lemma_product_permuted(s: Seq<int>, perm: Seq<usize>)
    requires
        is_permutation(perm, s.len()),
        s.len() <= usize::MAX,
    ensures
        product(permuted(s, perm)) == product(s),
{
    let len = s.len();
    let f = |j: usize| s[j as int];
    let id = identity_perm(len);
    assert(perm.len() == len) by {
        assert(perm.len() == perm.to_multiset().len());
        assert(id.len() == id.to_multiset().len());
    }
    lemma_product_of_multiset(perm, id, f);
    lemma_product_of_map(perm, f);
    lemma_product_of_map(id, f);
    assert(Seq::new(perm.len(), |i: int| f(perm[i])) =~= permuted(s, perm));
    assert(Seq::new(id.len(), |i: int| f(id[i])) =~= s);
}

/// The entries of a permutation of `0..len` lie below `len`, and there are `len` of them.
pub proof fn lemma_permutation_bounded(perm: Seq<usize>, len: nat)
    requires
        is_permutation(perm, len),
    ensures
        perm.len() == len,
        forall|i: int| 0 <= i < perm.len() ==> #[trigger] perm[i] < len,
{
    let id = identity_perm(len);
    assert(perm.len() == perm.to_multiset().len());
    assert(id.len() == id.to_multiset().len());
    assert forall|i: int| 0 <= i < perm.len() implies #[trigger] perm[i] < len by {
        assert(perm.contains(perm[i]));
        assert(perm.to_multiset().count(perm[i]) > 0);
        assert(id.to_multiset().count(perm[i]) > 0);
        assert(id.contains(perm[i]));
        let j = choose|j: int| 0 <= j < id.len() && id[j] == perm[i];
        assert(id[j] == j as usize);
    }
}

/// The identity is a permutation.
pub proof fn lemma_identity_is_permutation(len: nat)
    ensures
        is_permutation(identity_perm(len), len),
{
}

/// Mapping a function over two sequences with the same elements gives sequences with the
/// same elements.
pub proof fn lemma_map_multiset<A, B>(s: Seq<A>, t: Seq<A>, f: spec_fn(A) -> B)
    requires
        s.to_multiset() == t.to_multiset(),
    ensures
        s.map_values(f).to_multiset() == t.map_values(f).to_multiset(),
    decreases s.len(),
{
    if s.len() > 0 {
        let k = lemma_multiset_step(s, t);
        lemma_map_multiset(s.drop_last(), t.remove(k), f);
        let x = f(s.last());
        assert(s.map_values(f) =~= s.drop_last().map_values(f).push(x));
        assert(t.remove(k).map_values(f) =~= t.map_values(f).remove(k));
        let tm = t.map_values(f).to_multiset();
        assert(t.map_values(f)[k] == x);
        assert(t.map_values(f).remove(k).to_multiset() == tm.remove(x));
        assert(tm.count(x) > 0) by {
            assert(t.map_values(f).contains(x));
        }
        assert(tm.remove(x).insert(x) =~= tm);
    } else {
        assert(t.len() == t.to_multiset().len());
        assert(s.map_values(f) =~= t.map_values(f));
    }
}

/// Reordering a sequence by a permutation keeps its elements.
pub proof fn lemma_permuted_multiset(s: Seq<int>, perm: Seq<usize>)
    requires
        is_permutation(perm, s.len()),
        s.len() <= usize::MAX,
    ensures
        permuted(s, perm).to_multiset() == s.to_multiset(),
{
    let f = |j: usize| s[j as int];
    let id = identity_perm(s.len());
    lemma_permutation_bounded(perm, s.len());
    lemma_map_multiset(perm, id, f);
    assert(perm.map_values(f) =~= permuted(s, perm));
    assert(id.map_values(f) =~= s);
}

/// `p` with its entries `i` and `j` exchanged.
pub open spec fn swapped(p: Seq<usize>, i: int, j: int) -> Seq<usize> {
    p.update(i, p[j]).update(j, p[i])
}

/// The Fisher-Yates shuffle of `0..len` after its first `k` steps, for the 64-bit draws
/// `draws`: step `s` (from 1) exchanges entry `len - s` with entry
/// `draws[s - 1] % (len - s + 1)`.
pub open spec fn fisher_yates_steps(draws: Seq<u64>, len: nat, k: nat) -> Seq<usize>
    decreases k,
{
    if k == 0 {
        identity_perm(len)
    } else {
        let i = len - k;
        swapped(fisher_yates_steps(draws, len, (k - 1) as nat), i, draws[k - 1] as int % (i + 1))
    }
}

/// The Fisher-Yates shuffle of `0..len` by the draws `draws`: for `i` from `len - 1` down
/// to 1, entry `i` is exchanged with entry `draws[len - 1 - i] % (i + 1)`.
pub open spec fn fisher_yates(draws: Seq<u64>, len: nat) -> Seq<usize> {
    if len == 0 {
        identity_perm(len)
    } else {
        fisher_yates_steps(draws, len, (len - 1) as nat)
    }
}

/// Exchanging two entries keeps the multiset of a sequence.
pub proof fn lemma_swap_multiset(s: Seq<usize>, i: int, j: int)
    requires
        0 <= i < s.len(),
        0 <= j < s.len(),
    ensures
        swapped(s, i, j).to_multiset() == s.to_multiset(),
{
    broadcast use vstd::seq_lib::to_multiset_update;
    broadcast use vstd::multiset::group_multiset_axioms;

    let t = s.update(i, s[j]);
    assert(t.update(j, s[i]).to_multiset() == t.to_multiset().insert(s[i]).remove(t[j]));
    assert(t.to_multiset() == s.to_multiset().insert(s[j]).remove(s[i]));
    if i == j {
        assert(swapped(s, i, j) =~= s);
    } else {
        assert(t[j] == s[j]);
        let m = s.to_multiset();
        assert(m.count(s[i]) > 0) by {
            assert(s.contains(s[i]));
        }
        let m2 = m.insert(s[j]).remove(s[i]).insert(s[i]).remove(s[j]);
        assert forall|x: usize| m2.count(x) == m.count(x) by {
            if x == s[i] && x == s[j] {
            } else if x == s[i] {
            } else if x == s[j] {
            } else {
            }
        }
        assert(m2 =~= m);
    }
}

/// Every state of the Fisher-Yates shuffle is a permutation of `0..len`.
proof fn lemma_fisher_yates_steps_permutation(draws: Seq<u64>, len: nat, k: nat)
    requires
        k < len,
    ensures
        fisher_yates_steps(draws, len, k).len() == len,
        is_permutation(fisher_yates_steps(draws, len, k), len),
    decreases k,
{
    if k > 0 {
        let p = fisher_yates_steps(draws, len, (k - 1) as nat);
        lemma_fisher_yates_steps_permutation(draws, len, (k - 1) as nat);
        let i = len - k;
        lemma_swap_multiset(p, i, draws[k - 1] as int % (i + 1));
    }
}

/// A state of the Fisher-Yates shuffle depends only on the draws its steps read.
pub proof fn lemma_fisher_yates_steps_prefix(d1: Seq<u64>, d2: Seq<u64>, len: nat, k: nat)
    requires
        k <= d1.len(),
        k <= d2.len(),
        forall|t: int| 0 <= t < k ==> d1[t] == d2[t],
    ensures
        fisher_yates_steps(d1, len, k) == fisher_yates_steps(d2, len, k),
    decreases k,
{
    if k > 0 {
        lemma_fisher_yates_steps_prefix(d1, d2, len, (k - 1) as nat);
        assert(d1[k - 1] == d2[k - 1]);
    }
}

/// Entry `m` of the Fisher-Yates shuffle is final once step `len - m` has run: later
/// steps only exchange entries below it.
proof fn lemma_fisher_yates_steps_frozen(draws: Seq<u64>, len: nat, k: nat, k2: nat, m: int)
    requires
        k <= k2 < len,
        len - k <= m < len,
    ensures
        fisher_yates_steps(draws, len, k2)[m] == fisher_yates_steps(draws, len, k)[m],
    decreases k2,
{
    if k2 > k {
        lemma_fisher_yates_steps_frozen(draws, len, k, (k2 - 1) as nat, m);
        lemma_fisher_yates_steps_permutation(draws, len, (k2 - 1) as nat);
        let i = len - k2;
        let j = draws[k2 - 1] as int % (i + 1);
        assert(0 <= j <= i);
    }
}

/// Whatever the draws, the Fisher-Yates shuffle of `0..len` is a permutation of `0..len`.
pub proof fn lemma_fisher_yates_is_permutation(draws: Seq<u64>, len: nat)
    ensures
        fisher_yates(draws, len).len() == len,
        is_permutation(fisher_yates(draws, len), len),
{
    if len > 0 {
        lemma_fisher_yates_steps_permutation(draws, len, (len - 1) as nat);
    }
}

/// The last entry of the Fisher-Yates shuffle of `0..len` is the first draw modulo `len`:
/// the first step exchanges it with entry `draws[0] % len` of the identity, and no later
/// step touches it.
pub proof fn lemma_fisher_yates_last(draws: Seq<u64>, len: nat)
    requires
        2 <= len <= usize::MAX,
    ensures
        fisher_yates(draws, len)[len - 1] == draws[0] as int % len as int,
{
    let j = draws[0] as int % len as int;
    let id = fisher_yates_steps(draws, len, 0);
    assert(id == identity_perm(len));
    assert(fisher_yates_steps(draws, len, 1) == swapped(id, len - 1, j));
    assert(swapped(id, len - 1, j)[len - 1] == id[j]);
    lemma_fisher_yates_steps_frozen(draws, len, 1, (len - 1) as nat, len - 1);
}

} // verus!
