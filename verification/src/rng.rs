//! Draws from a caller's random number generator.
use vstd::prelude::*;

verus! {

/// `RngCore::fill_bytes` of `rand`: 64 bytes drawn from `rng`. Nothing is stated of which.
#[verifier::external_body]
pub(crate) fn random_bytes<R: ark_std::rand::RngCore + ?Sized>(rng: &mut R) -> [u8; 64] {
    let mut bytes = [0u8; 64];
    rng.fill_bytes(&mut bytes);
    bytes
}

/// `RngCore::next_u64` of `rand`: a 64-bit number drawn from `rng`. Nothing is stated of
/// which.
#[verifier::external_body]
pub(crate) fn random_u64<R: ark_std::rand::RngCore + ?Sized>(rng: &mut R) -> u64 {
    rng.next_u64()
}

} // verus!
