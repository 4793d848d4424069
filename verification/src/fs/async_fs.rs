//! The adapter that offers a synchronous filesystem where an asynchronous
//! one is expected.

use vstd::prelude::*;

verus! {

/// Wraps a synchronous filesystem so that it can be used where an
/// asynchronous one is expected.
#[derive(Clone)]
pub struct SyncToAsyncFs<F> {
    inner: F,
}

impl<F> SyncToAsyncFs<F> {
    /// The filesystem held inside.
    pub closed spec fn wrapped(&self) -> F {
        self.inner
    }

    /// Create a new async wrapper around a synchronous filesystem.
    pub fn new(fs: F) -> (r: Self)
        ensures
            r.wrapped() == fs,
    {
        SyncToAsyncFs { inner: fs }
    }

    /// A reference to the inner synchronous filesystem.
    pub fn inner(&self) -> (r: &F)
        ensures
            *r == self.wrapped(),
    {
        &self.inner
    }

    /// Unwrap and return the inner synchronous filesystem.
    pub fn into_inner(self) -> (r: F)
        ensures
            r == self.wrapped(),
    {
        self.inner
    }
}

} // verus!
