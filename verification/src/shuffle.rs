//! The mental poker protocol: key generation, verifiable shuffles and card reveals.
use vstd::prelude::*;
use crate::cards::{verified_token_dlogs, AggregateRevealToken, MaskedCard, MaskedDeck, RevealToken};
use crate::keys::{
    is_key_pair, lemma_ownership_proof_complete, ownership_accepts, ownership_proof_by,
    verified_key_dlogs, AggregatePublicKey, OwnershipProof, PublicKey, SecretKey,
};
use crate::math::{lemma_cong_add, lemma_cong_mul, lemma_cong_sub, lemma_mod_mod, lemma_mod_small, n, sum};
use crate::pedersen::PedersonCommitKey;
use crate::perm::{
    fisher_yates, fisher_yates_steps, identity_perm, is_permutation, lemma_fisher_yates_is_permutation,
    lemma_fisher_yates_steps_prefix, lemma_permutation_bounded, lemma_permuted_multiset, permuted,
    swapped,
};
use crate::point::{base_point, dlog, dlogs, lemma_dlog_bound, Ciphertext, Point};
use crate::scalar::{draw_seeded_scalars, order, random_scalar, seeded_scalar, values, Scalar};
use crate::shuffle_proof::{is_shuffle, remasks, shuffle_accepts, ShuffleProof};
use crate::transcript::{sha256, spec_sha256};
use vstd::string::StringSliceAdditionalSpecFns;
use crate::verified::Verified;

verus! {

/// The plaintext that a ciphertext `(c1, c2)` carries under the key with discrete
/// logarithm `apk`: the discrete logarithm of `c2 - apk·c1`.
pub open spec fn plaintext(c: Ciphertext, apk: int) -> int {
    (dlog(c.1) - apk * dlog(c.0)) % n()
}

/// The plaintexts of a sequence of ciphertexts under the key with discrete logarithm `apk`.
pub open spec fn plaintexts(cts: Seq<Ciphertext>, apk: int) -> Seq<int> {
    cts.map_values(|c: Ciphertext| plaintext(c, apk))
}

/// Re-masking a ciphertext leaves its plaintext unchanged.
pub proof fn lemma_remask_keeps_plaintext(c: Ciphertext, d: Ciphertext, apk: int, r: int)
    requires
        dlog(d.0) == (dlog(c.0) + r) % n(),
        dlog(d.1) == (dlog(c.1) + apk * r) % n(),
    ensures
        plaintext(d, apk) == plaintext(c, apk),
{
    let c1 = dlog(c.0) as int;
    let c2 = dlog(c.1) as int;
    lemma_mod_mod(c1 + r);
    lemma_mod_mod(c2 + apk * r);
    lemma_cong_mul(dlog(d.0) as int, c1 + r, apk);
    lemma_cong_sub(dlog(d.1) as int, c2 + apk * r, apk * dlog(d.0), apk * (c1 + r));
    assert(c2 + apk * r - apk * (c1 + r) == c2 - apk * c1) by (nonlinear_arith);
}

/// A shuffle keeps the cards: the plaintexts of the new deck are those of the old one,
/// each as often, in another order.
pub proof fn lemma_shuffle_preserves_plaintexts(prev: Seq<Ciphertext>, next: Seq<Ciphertext>, apk: int)
    requires
        is_shuffle(prev, next, apk),
        prev.len() <= usize::MAX,
    ensures
        plaintexts(next, apk).to_multiset() == plaintexts(prev, apk).to_multiset(),
{
    let (perm, rho) = choose|perm: Seq<usize>, rho: Seq<int>|
        is_permutation(perm, prev.len()) && #[trigger] remasks(prev, next, apk, perm, rho);
    let pp = plaintexts(prev, apk);
    assert forall|i: int| 0 <= i < next.len() implies #[trigger] plaintexts(next, apk)[i] == permuted(pp, perm)[i] by {
        lemma_remask_keeps_plaintext(prev[perm[i] as int], next[i], apk, rho[i]);
    }
    assert(plaintexts(next, apk) =~= permuted(pp, perm));
    lemma_permuted_multiset(pp, perm);
}

/// A re-masking moves plaintexts by its permutation: the card at position `i` of the new
/// deck carries the plaintext of the card at position `perm[i]` of the old one.
pub proof fn lemma_remasks_plaintexts(
    prev: Seq<Ciphertext>,
    next: Seq<Ciphertext>,
    apk: int,
    perm: Seq<usize>,
    rho: Seq<int>,
)
    requires
        remasks(prev, next, apk, perm, rho),
    ensures
        forall|i: int|
            0 <= i < next.len() ==> #[trigger] plaintexts(next, apk)[i] == plaintexts(prev, apk)[perm[i] as int],
{
    assert forall|i: int| 0 <= i < next.len() implies #[trigger] plaintexts(next, apk)[i] == plaintexts(
        prev,
        apk,
    )[perm[i] as int] by {
        lemma_remask_keeps_plaintext(prev[perm[i] as int], next[i], apk, rho[i]);
    }
}

/// A sum of shares `c·k[i]` is `c` times the sum of the `k[i]`, modulo the order.
proof fn lemma_sum_of_shares(shares: Seq<int>, ks: Seq<int>, c: int)
    requires
        shares.len() == ks.len(),
        forall|i: int| 0 <= i < shares.len() ==> #[trigger] shares[i] == (c * ks[i]) % n(),
    ensures
        sum(shares) % n() == (c * sum(ks)) % n(),
    decreases shares.len(),
{
    if shares.len() > 0 {
        let k = shares.len() - 1;
        lemma_sum_of_shares(shares.drop_last(), ks.drop_last(), c);
        lemma_mod_mod(c * ks[k]);
        lemma_cong_add(sum(shares.drop_last()), c * sum(ks.drop_last()), shares[k], c * ks[k]);
        assert(c * sum(ks.drop_last()) + c * ks[k] == c * (sum(ks.drop_last()) + ks[k])) by (nonlinear_arith);
    }
}

/// When every player holding the secret `sks[i]` of the verified key `pks[i]` gives the
/// token `sks[i]·c1` for a card, the sum of the tokens removes the mask: `c2` minus that
/// sum is the plaintext of the card under the sum of the keys.
pub proof fn lemma_tokens_reveal_plaintext(
    sks: Seq<nat>,
    pks: Seq<Verified<PublicKey>>,
    tokens: Seq<Verified<RevealToken>>,
    card: MaskedCard,
)
    requires
        pks.len() == sks.len(),
        tokens.len() == sks.len(),
        forall|i: int| 0 <= i < sks.len() ==> #[trigger] is_key_pair(sks[i], pks[i].inner()),
        forall|i: int|
            0 <= i < sks.len() ==> dlog(#[trigger] tokens[i].inner().0) == (dlog(card.ct().0) * sks[i]) % order(),
    ensures
        (dlog(card.ct().1) - sum(verified_token_dlogs(tokens)) % n()) % n() == plaintext(
            card.ct(),
            sum(verified_key_dlogs(pks)) % n(),
        ),
{
    let c1 = dlog(card.ct().0) as int;
    let c2 = dlog(card.ct().1) as int;
    let td = verified_token_dlogs(tokens);
    let kd = verified_key_dlogs(pks);
    let t = sum(td);
    let a = sum(kd) % n();
    assert forall|i: int| 0 <= i < td.len() implies #[trigger] td[i] == (c1 * kd[i]) % n() by {
        assert(is_key_pair(sks[i], pks[i].inner()));
        assert(dlog(tokens[i].inner().0) == (dlog(card.ct().0) * sks[i]) % order());
    }
    lemma_sum_of_shares(td, kd, c1);
    lemma_mod_mod(t);
    // c1·(Σ k mod n) ≡ c1·Σ k ≡ Σ shares
    crate::math::lemma_mod_mul_right(c1, sum(kd));
    assert(a * c1 == c1 * a) by (nonlinear_arith);
    lemma_cong_sub(c2, c2, t % n(), a * c1);
}

/// Every card of a deck that carries the open cards (each as often as in the open deck)
/// decrypts to one of the open cards.
pub proof fn lemma_card_is_an_open_card(cards: Seq<Point>, deck: Seq<Ciphertext>, apk: int, i: int)
    requires
        plaintexts(deck, apk).to_multiset() == dlogs(cards).to_multiset(),
        0 <= i < deck.len(),
    ensures
        exists|j: int| 0 <= j < cards.len() && dlog(#[trigger] cards[j]) == plaintext(deck[i], apk),
{
    broadcast use vstd::seq_lib::group_to_multiset_ensures;

    let p = plaintext(deck[i], apk);
    assert(plaintexts(deck, apk)[i] == p);
    assert(plaintexts(deck, apk).contains(p));
    assert(dlogs(cards).to_multiset().count(p) > 0);
    assert(dlogs(cards).contains(p));
    let j = choose|j: int| 0 <= j < dlogs(cards).len() && dlogs(cards)[j] == p;
    assert(dlog(cards[j]) == p);
}

/// Every party derives the same game: two standard shuffles have the same blinding base,
/// and the same open cards and commitment bases wherever both have one, whatever their
/// sizes.
pub proof fn lemma_standard_shuffles_agree<const N: usize, const M: usize>(a: Shuffle<N>, b: Shuffle<M>)
    requires
        a.is_standard(),
        b.is_standard(),
    ensures
        a.commit_key().h == b.commit_key().h,
        forall|i: int| 0 <= i < N && i < M ==> #[trigger] a.cards()[i] == b.cards()[i],
        forall|i: int| 0 <= i < N && i < M ==> #[trigger] a.commit_key().gs[i] == b.commit_key().gs[i],
{
    crate::pedersen::lemma_standard_keys_agree(a.commit_key(), b.commit_key());
    assert forall|i: int| 0 <= i < N && i < M implies #[trigger] a.cards()[i] == b.cards()[i] by {
        assert(a.cards()[i] == open_card(i as nat));
        assert(b.cards()[i] == open_card(i as nat));
    }
}

/// Mental poker shuffle protocol for `N` cards using Bayer-Groth 2012 shuffle proofs.
#[derive(Debug, Clone, Copy)]
pub struct Shuffle<const N: usize> {
    commit_key: PedersonCommitKey<N>,
    open_deck: [Point; N],
}

/// Open card `i`: `s_i·G` for the `i`-th scalar `s_i` drawn from the generator seeded with
/// the SHA-256 digest of `CARDS-V1`. It does not depend on the size of the deck.
pub open spec fn open_card(i: nat) -> Point {
    base_point(seeded_scalar(spec_sha256("CARDS-V1".spec_bytes()), i).value())
}

/// The deterministic "open" deck of `N` plaintext cards: card `i` is `open_card(i)`.
fn open_deck<const N: usize>() -> (res: [Point; N])
    ensures
        forall|i: int| 0 <= i < N ==> #[trigger] res[i] == open_card(i as nat),
{
    let seed = sha256("CARDS-V1".as_bytes());
    let ss: [Scalar; N] = draw_seeded_scalars(&seed);
    let id = Point::identity();
    let mut deck = [id; N];
    let mut i: usize = 0;
    while i < N
        invariant
            i <= N,
            forall|k: int| 0 <= k < N ==> #[trigger] ss[k] == seeded_scalar(seed@, k as nat),
            seed@ == spec_sha256("CARDS-V1".spec_bytes()),
            forall|k: int| 0 <= k < i ==> #[trigger] deck[k] == open_card(k as nat),
        decreases N - i,
    {
        deck[i] = Point::mul_base(&ss[i]);
        i = i + 1;
    }
    deck
}

/// Re-masks a ciphertext under `apk` with fresh randomness `r`:
/// `(c1, c2) ↦ (c1 + r·G, c2 + r·apk)`; returns the new ciphertext and `r`.
fn remask_card<R: ark_std::rand::RngCore + ?Sized>(
    rng: &mut R,
    apk: &AggregatePublicKey,
    c: &Ciphertext,
) -> (res: (Ciphertext, Scalar))
    ensures
        dlog(res.0.0) == (dlog(c.0) + res.1.value()) % order(),
        dlog(res.0.1) == (dlog(c.1) + dlog(apk.key()) * res.1.value()) % order(),
        plaintext(res.0, dlog(apk.key()) as int) == plaintext(*c, dlog(apk.key()) as int),
{
    let r = random_scalar(rng);
    let c1 = c.0.add(&Point::mul_base(&r));
    let c2 = c.1.add(&apk.point().mul(&r));
    proof {
        lemma_remask_keeps_plaintext(*c, (c1, c2), dlog(apk.key()) as int, r.value() as int);
    }
    ((c1, c2), r)
}

/// A random permutation of `0..N`, drawn from `rng` by the Fisher-Yates shuffle: for `i`
/// from `N - 1` down to 1, entry `i` is exchanged with an entry `j <= i` chosen by a
/// 64-bit draw reduced modulo `i + 1`. The result is `fisher_yates` of the draws made.
fn random_permutation<const N: usize, R: ark_std::rand::RngCore + ?Sized>(rng: &mut R) -> (res: [usize; N])
    ensures
        is_permutation(res@, N as nat),
        forall|k: int| 0 <= k < N ==> #[trigger] res[k] < N,
        exists|draws: Seq<u64>| #[trigger] fisher_yates(draws, N as nat) == res@,
{
    let mut perm = [0usize; N];
    let mut i: usize = 0;
    while i < N
        invariant
            i <= N,
            forall|k: int| 0 <= k < i ==> #[trigger] perm[k] == k,
        decreases N - i,
    {
        perm[i] = i;
        i = i + 1;
    }
    proof {
        assert(perm@ =~= identity_perm(N as nat));
    }
    let ghost mut draws: Seq<u64> = Seq::empty();
    let mut i: usize = N;
    while i > 1
        invariant
            i <= N,
            N > 0 ==> i >= 1,
            draws.len() == N - i,
            perm@ == fisher_yates_steps(draws, N as nat, (N - i) as nat),
        decreases i,
    {
        let r = crate::rng::random_u64(rng);
        let j = (r % (i as u64)) as usize;
        i = i - 1;
        let a = perm[i];
        let b = perm[j];
        proof {
            let d2 = draws.push(r);
            lemma_fisher_yates_steps_prefix(draws, d2, N as nat, (N - i - 1) as nat);
            draws = d2;
        }
        perm[i] = b;
        perm[j] = a;
        proof {
            assert(perm@ =~= swapped(
                fisher_yates_steps(draws, N as nat, (N - i - 1) as nat),
                i as int,
                draws[N - i - 1] as int % (i + 1),
            ));
        }
    }
    proof {
        lemma_fisher_yates_is_permutation(draws, N as nat);
        lemma_permutation_bounded(perm@, N as nat);
    }
    perm
}

/// Re-masks `prev[perm[i]]` into position `i` for every `i`, with fresh randomness from
/// `rng`; returns the new cards and the randomness used for each.
fn remask_deck<const N: usize, R: ark_std::rand::RngCore + ?Sized>(
    rng: &mut R,
    apk: &AggregatePublicKey,
    prev: &[Ciphertext; N],
    perm: &[usize; N],
) -> (res: ([Ciphertext; N], [Scalar; N]))
    requires
        forall|k: int| 0 <= k < N ==> #[trigger] perm[k] < N,
    ensures
        remasks(prev@, res.0@, dlog(apk.key()) as int, perm@, values(res.1@)),
{
    let id = Point::identity();
    let mut next = [(id, id); N];
    let zero = Scalar::zero();
    let mut rho = [zero; N];
    let ghost pk = dlog(apk.key()) as int;
    let mut i: usize = 0;
    while i < N
        invariant
            i <= N,
            pk == dlog(apk.key()) as int,
            forall|k: int| 0 <= k < N ==> #[trigger] perm[k] < N,
            forall|k: int|
                0 <= k < i ==> dlog(#[trigger] next[k].0) == (dlog(prev[perm[k] as int].0) as int
                    + rho[k].value()) % n(),
            forall|k: int|
                0 <= k < i ==> dlog(#[trigger] next[k].1) == (dlog(prev[perm[k] as int].1) + pk
                    * rho[k].value()) % n(),
        decreases N - i,
    {
        let (c, r) = remask_card(rng, apk, &prev[perm[i]]);
        next[i] = c;
        rho[i] = r;
        i = i + 1;
    }
    (next, rho)
}

/// Shuffles and re-masks `prev` under `apk` with randomness from `rng`, and proves it:
/// returns the new deck and a shuffle proof, which `ShuffleProof::verify` accepts.
fn shuffle_remask_prove<const N: usize, R: ark_std::rand::RngCore + ?Sized>(
    rng: &mut R,
    ck: &PedersonCommitKey<N>,
    apk: &AggregatePublicKey,
    prev: &[Ciphertext; N],
    ctx: &[u8],
) -> (res: (MaskedDeck<N>, ShuffleProof<N>))
    requires
        N > 1,
    ensures
        is_shuffle(prev@, res.0.0@, dlog(apk.key()) as int),
        exists|draws: Seq<u64>, rho: Seq<int>|
            #[trigger] remasks(prev@, res.0.0@, dlog(apk.key()) as int, fisher_yates(draws, N as nat), rho),
        shuffle_accepts(res.1, *ck, apk.key(), prev@, res.0.0@, ctx@),
{
    let perm = random_permutation(rng);
    let (next, rho) = remask_deck(rng, apk, prev, &perm);
    let proof = ShuffleProof::new(rng, ck, apk, &perm, prev, &next, &rho, ctx);
    let verified = proof.verify(ck, apk, prev, &next, ctx).expect("invalid shuffle proof");
    let deck = verified.into_inner();
    proof {
        assert(deck.0@ == next@);
        assert(is_permutation(perm@, N as nat) && remasks(prev@, deck.0@, dlog(apk.key()) as int, perm@, values(rho@)));
        assert(is_shuffle(prev@, deck.0@, dlog(apk.key()) as int));
        let draws = choose|draws: Seq<u64>| #[trigger] fisher_yates(draws, N as nat) == perm@;
        assert(remasks(prev@, deck.0@, dlog(apk.key()) as int, fisher_yates(draws, N as nat), values(rho@)));
    }
    (deck, proof)
}

impl<const N: usize> Default for Shuffle<N> {
    /// The shuffle with the standard commitment key and the standard open deck, the same
    /// for every party.
    fn default() -> (res: Shuffle<N>)
        ensures
            res.is_standard(),
    {
        let res = Shuffle { commit_key: PedersonCommitKey::new(), open_deck: open_deck() };
        assert(res.cards() =~= Seq::new(N as nat, |i: int| open_card(i as nat)));
        res
    }
}

impl<const N: usize> Shuffle<N> {
    /// The plaintext cards of the deck.
    pub closed spec fn cards(self) -> Seq<Point> {
        self.open_deck@
    }

    /// The commitment key of the shuffle proofs.
    pub closed spec fn commit_key(self) -> PedersonCommitKey<N> {
        self.commit_key
    }

    /// The unshuffled deck: card `i` is the trivial encryption `(0·G, cards[i])`.
    pub open spec fn initial_cards(self) -> Seq<Ciphertext> {
        Seq::new(N as nat, |i: int| (base_point(0), self.cards()[i]))
    }

    /// Whether this shuffle has the standard commitment key and the standard open deck:
    /// card `i` is `open_card(i)`.
    pub open spec fn is_standard(self) -> bool {
        &&& self.commit_key().is_standard()
        &&& self.cards() == Seq::new(N as nat, |i: int| open_card(i as nat))
    }

    /// The deck has `N` cards.
    pub proof fn lemma_cards_len(self)
        ensures
            self.cards().len() == N,
    {
    }

    /// The unshuffled deck.
    fn initial_deck(&self) -> (res: [Ciphertext; N])
        ensures
            res@ == self.initial_cards(),
            forall|i: int| 0 <= i < N ==> dlog(#[trigger] res[i].0) == 0,
    {
        let id = Point::identity();
        let mut deck = [(id, id); N];
        let mut i: usize = 0;
        while i < N
            invariant
                i <= N,
                id == base_point(0),
                forall|k: int| 0 <= k < i ==> #[trigger] deck[k] == (id, self.open_deck[k]),
            decreases N - i,
        {
            deck[i] = (id, self.open_deck[i]);
            i = i + 1;
        }
        assert(deck@ =~= self.initial_cards());
        deck
    }

    /// Generates a new keypair and ownership proof for a player.
    ///
    /// Returns `(SecretKey, PublicKey, OwnershipProof)`; the proof is accepted by
    /// `OwnershipProof::verify` for the public key and context.
    pub fn keygen<R: ark_std::rand::RngCore + ?Sized>(&self, rng: &mut R, ctx: &[u8]) -> (res: (
        SecretKey,
        PublicKey,
        OwnershipProof,
    ))
        ensures
            is_key_pair(res.0.value(), res.1),
            ownership_proof_by(res.2, res.0.value(), res.1, ctx@),
            ownership_accepts(res.2, res.1, ctx@),
    {
        let s = random_scalar(rng);
        let pk = PublicKey(Point::mul_base(&s));
        let sk = SecretKey::from_scalar(s);
        let proof = OwnershipProof::new(rng, &sk, pk, ctx);
        proof {
            lemma_ownership_proof_complete(proof, sk.value(), pk, ctx@);
        }
        (sk, pk, proof)
    }

    /// Performs the first shuffle of the deck with a zero-knowledge proof.
    ///
    /// The unshuffled deck is permuted at random and encrypted under `apk`; the returned
    /// proof is accepted by `verify_initial_shuffle`.
    pub fn shuffle_initial_deck<R: ark_std::rand::RngCore + ?Sized>(
        &self,
        rng: &mut R,
        apk: AggregatePublicKey,
        ctx: &[u8],
    ) -> (res: (MaskedDeck<N>, ShuffleProof<N>))
        requires
            N > 1,
        ensures
            is_shuffle(self.initial_cards(), res.0.0@, dlog(apk.key()) as int),
            shuffle_accepts(res.1, self.commit_key(), apk.key(), self.initial_cards(), res.0.0@, ctx@),
            plaintexts(res.0.0@, dlog(apk.key()) as int).to_multiset() == dlogs(self.cards()).to_multiset(),
            exists|draws: Seq<u64>, rho: Seq<int>|
                #[trigger] remasks(
                    self.initial_cards(),
                    res.0.0@,
                    dlog(apk.key()) as int,
                    fisher_yates(draws, N as nat),
                    rho,
                ),
            exists|draws: Seq<u64>|
                #![trigger fisher_yates(draws, N as nat)]
                forall|i: int|
                    0 <= i < N ==> #[trigger] plaintexts(res.0.0@, dlog(apk.key()) as int)[i] == dlogs(
                        self.cards(),
                    )[fisher_yates(draws, N as nat)[i] as int],
    {
        let init = self.initial_deck();
        let res = shuffle_remask_prove(rng, &self.commit_key, &apk, &init, ctx);
        proof {
            let a = dlog(apk.key()) as int;
            let (draws, rho) = choose|draws: Seq<u64>, rho: Seq<int>|
                #[trigger] remasks(init@, res.0.0@, a, fisher_yates(draws, N as nat), rho);
            lemma_remasks_plaintexts(init@, res.0.0@, a, fisher_yates(draws, N as nat), rho);
            lemma_shuffle_preserves_plaintexts(init@, res.0.0@, a);
            assert forall|i: int| 0 <= i < N implies #[trigger] plaintexts(init@, a)[i] == dlogs(self.cards())[i] by {
                lemma_dlog_bound(self.open_deck[i]);
                lemma_mod_small(dlog(self.open_deck[i]) as int);
            }
            assert(plaintexts(init@, a) =~= dlogs(self.cards()));
            assert(forall|i: int|
                0 <= i < N ==> #[trigger] plaintexts(res.0.0@, a)[i] == dlogs(self.cards())[fisher_yates(draws, N as nat)[i] as int]);
        }
        res
    }

    /// Shuffles an already-shuffled deck with a zero-knowledge proof.
    ///
    /// The verified deck `prev` is permuted at random and re-masked under `apk`; the
    /// returned proof is accepted by `verify_shuffle`.
    pub fn shuffle_deck<R: ark_std::rand::RngCore + ?Sized>(
        &self,
        rng: &mut R,
        apk: AggregatePublicKey,
        prev: &Verified<MaskedDeck<N>>,
        ctx: &[u8],
    ) -> (res: (MaskedDeck<N>, ShuffleProof<N>))
        requires
            N > 1,
        ensures
            is_shuffle(prev.inner().0@, res.0.0@, dlog(apk.key()) as int),
            shuffle_accepts(res.1, self.commit_key(), apk.key(), prev.inner().0@, res.0.0@, ctx@),
            plaintexts(res.0.0@, dlog(apk.key()) as int).to_multiset() == plaintexts(
                prev.inner().0@,
                dlog(apk.key()) as int,
            ).to_multiset(),
            exists|draws: Seq<u64>, rho: Seq<int>|
                #[trigger] remasks(
                    prev.inner().0@,
                    res.0.0@,
                    dlog(apk.key()) as int,
                    fisher_yates(draws, N as nat),
                    rho,
                ),
    {
        let prev_deck = prev.get_ref();
        let res = shuffle_remask_prove(rng, &self.commit_key, &apk, &prev_deck.0, ctx);
        proof {
            lemma_shuffle_preserves_plaintexts(prev_deck.0@, res.0.0@, dlog(apk.key()) as int);
        }
        res
    }

    /// Verifies the first shuffle of the deck, made from the unshuffled deck.
    ///
    /// Returns `Some(Verified<MaskedDeck>)` if the proof is valid, `None` otherwise.
    pub fn verify_initial_shuffle(
        &self,
        apk: AggregatePublicKey,
        next: MaskedDeck<N>,
        proof: ShuffleProof<N>,
        ctx: &[u8],
    ) -> (res: Option<Verified<MaskedDeck<N>>>)
        requires
            N > 0,
        ensures
            res is Some <==> shuffle_accepts(proof, self.commit_key(), apk.key(), self.initial_cards(), next.0@, ctx@),
            res matches Some(v) ==> v.inner() == next,
    {
        let init = self.initial_deck();
        proof.verify(&self.commit_key, &apk, &init, &next.0, ctx)
    }

    /// Verifies a subsequent shuffle of a verified deck.
    ///
    /// Returns `Some(Verified<MaskedDeck>)` if the proof is valid, `None` otherwise.
    pub fn verify_shuffle(
        &self,
        apk: AggregatePublicKey,
        prev: &Verified<MaskedDeck<N>>,
        next: MaskedDeck<N>,
        proof: ShuffleProof<N>,
        ctx: &[u8],
    ) -> (res: Option<Verified<MaskedDeck<N>>>)
        requires
            N > 0,
        ensures
            res is Some <==> shuffle_accepts(proof, self.commit_key(), apk.key(), prev.inner().0@, next.0@, ctx@),
            res matches Some(v) ==> v.inner() == next,
    {
        let prev_deck = prev.get_ref();
        proof.verify(&self.commit_key, &apk, &prev_deck.0, &next.0, ctx)
    }

    /// Reveals a card using an aggregate reveal token from all players: the index of the
    /// first card of the open deck equal to `c2 - art`, or `None` if there is none.
    pub fn reveal_card(&self, art: AggregateRevealToken, card: MaskedCard) -> (res: Option<usize>)
        ensures
            match res {
                Some(i) => {
                    &&& i < N
                    &&& dlog(self.cards()[i as int]) == (dlog(card.ct().1) - dlog(art.token())) % n()
                    &&& forall|j: int| 0 <= j < i ==> dlog(#[trigger] self.cards()[j]) != (dlog(card.ct().1) - dlog(art.token())) % n()
                },
                None => forall|j: int| 0 <= j < N ==> dlog(#[trigger] self.cards()[j]) != (dlog(card.ct().1) - dlog(art.token())) % n(),
            },
    {
        let c = card.ciphertext();
        // m = c2 - Σ sk(i)·c1
        let pt = c.1.sub(&art.point());
        let mut i: usize = 0;
        while i < N
            invariant
                i <= N,
                dlog(pt) == (dlog(card.ct().1) - dlog(art.token())) % n(),
                forall|j: int| 0 <= j < i ==> dlog(#[trigger] self.open_deck[j]) != dlog(pt),
            decreases N - i,
        {
            if self.open_deck[i].equals(&pt) {
                return Some(i);
            }
            i = i + 1;
        }
        None
    }
}

} // verus!
