# ziffle

Mental poker on secp256k1: several players shuffle a deck of cards together, so that
no player learns the order, and then reveal the cards one at a time. Every shuffle
carries a Bayer-Groth (2012) zero-knowledge proof that it permutes and re-masks the
previous deck; every decryption share carries a Chaum-Pedersen proof.

The library is verified with Verus. Group elements are modelled by their discrete
logarithms, so the contracts state the protocol's arithmetic modulo the group order;
the elliptic-curve and field operations, SHA-256 and hash-to-field are carried out by
`ark_ec`, `ark_ff` and `sha2` behind small trusted wrappers.

Layout of `src/`:

| module | contents |
|---|---|
| `scalar`, `point` | scalars and points, with the wrappers around `ark_ff` and `ark_ec` |
| `math`, `perm` | sums, products and inner products modulo the order; permutation invariance |
| `transcript` | the Fiat-Shamir transcript |
| `pedersen`, `msm` | Pedersen commitments and multi-scalar multiplication |
| `keys`, `cards` | keys, ownership proofs, masked cards, reveal tokens and their proofs |
| `mexp`, `product`, `shuffle_proof` | the shuffle argument: multi-exponentiation and product arguments |
| `shuffle` | the protocol: key generation, shuffling, verification and reveal |
| `serial`, `wire` | the compressed encodings of the messages |
| `rng`, `verified` | random permutations; the `Verified` marker |

`tests/` runs the protocol end to end; `app/` holds a secret-key copy that wipes
itself from memory on drop.

Random draws from a caller's generator always return: a scalar is 64 drawn bytes reduced
modulo the group order, and a permutation is a Fisher-Yates shuffle on 64-bit draws
reduced modulo the range. Rejection sampling is used nowhere on a caller's generator, so
for a given generator the keys, nonces and permutations differ from those that
`UniformRand::rand` and `SliceRandom::shuffle` would draw. The fixed commitment key and
open deck are still drawn with `UniformRand::rand` from their seeded generators.
