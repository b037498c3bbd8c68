//! Mental poker shuffle protocol using zero-knowledge proofs.
//!
//! Several players shuffle a deck of cards together, so that no player learns the order,
//! and then reveal cards one at a time. Cards are ElGamal ciphertexts on secp256k1 under
//! the sum of the players' keys; every shuffle comes with a Bayer-Groth (2012) proof that
//! it permutes and re-masks the previous deck, and every decryption share with a proof
//! that it was made with the player's key.
//!
//! The group is modelled by discrete logarithms: every point is `k·G` for one `k` below
//! the group order, and the contracts state the protocol's arithmetic on these numbers.
//! [`Shuffle`] is the entry point.
use vstd::prelude::*;

pub mod scalar;
pub mod point;
pub mod transcript;
pub mod math;
pub mod perm;
pub mod verified;
pub mod keys;
pub mod cards;
pub mod msm;
pub mod rng;
pub mod pedersen;
pub mod mexp;
pub mod product;
pub mod shuffle_proof;
pub mod shuffle;
pub mod serial;
pub mod wire;

pub use cards::{AggregateRevealToken, MaskedCard, MaskedDeck, RevealToken, RevealTokenProof};
pub use keys::{AggregatePublicKey, OwnershipProof, PublicKey, SecretKey};
pub use point::Point;
pub use scalar::Scalar;
pub use serial::SerializationError;
pub use shuffle::Shuffle;
pub use shuffle_proof::ShuffleProof;
pub use verified::Verified;

verus! {
} // verus!
