use vstd::prelude::*;

verus! {

/// Adapter from `futures::io` traits.
pub struct FromFutures<T> {
    inner: T,
}

impl<T> FromFutures<T> {
    /// The wrapped value.
    pub closed spec fn wrapped(&self) -> T {
        self.inner
    }

    /// Create a new adapter.
    pub fn new(inner: T) -> (r: Self)
        ensures
            r.wrapped() == inner,
    {
        FromFutures { inner }
    }

    /// Consume the adapter, returning the inner object.
    pub fn into_inner(self) -> (r: T)
        ensures
            r == self.wrapped(),
    {
        self.inner
    }

    /// Borrow the inner object.
    pub fn inner(&self) -> (r: &T)
        ensures
            *r == self.wrapped(),
    {
        &self.inner
    }

    /// Mutably borrow the inner object.
    pub fn inner_mut(&mut self) -> (r: &mut T)
        ensures
            *r == old(self).wrapped(),
            final(self).wrapped() == *final(r),
    {
        &mut self.inner
    }
}

/// Every operation on the wrapped value reports the host's I/O error.
impl<T> crate::Io for FromFutures<T> {
    type Error = std::io::Error;

    open spec fn may_fail() -> bool {
        true
    }
}

} // verus!
