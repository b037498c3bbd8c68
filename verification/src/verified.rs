//! Values whose proofs have been checked.
use vstd::prelude::*;

verus! {

/// Wrapper type indicating that a value has been cryptographically verified.
///
/// Values can only be constructed inside this crate, by a successful verification.
#[derive(Debug, Clone, Copy, PartialEq, Eq)]
pub struct Verified<T>(T);

impl<T> Verified<T> {
    /// The verified value.
    pub closed spec fn inner(self) -> T {
        self.0
    }

    /// Marks a value as verified.
    pub(crate) fn new(t: T) -> (res: Verified<T>)
        ensures
            res.inner() == t,
    {
        Verified(t)
    }

    /// The verified value.
    pub(crate) fn into_inner(self) -> (res: T)
        ensures
            res == self.inner(),
    {
        self.0
    }

    /// A reference to the verified value.
    pub(crate) fn get_ref(&self) -> (res: &T)
        ensures
            *res == self.inner(),
    {
        &self.0
    }
}

} // verus!
