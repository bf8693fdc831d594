use super::to_io_error;
use crate::blocking::{Read, Write};
use vstd::prelude::*;

verus! {

/// Adapter from `std::io` traits.
pub struct FromStd<T> {
    inner: T,
}

impl<T> FromStd<T> {
    /// The wrapped value.
    pub closed spec fn wrapped(&self) -> T {
        self.inner
    }

    /// Create a new adapter.
    pub fn new(inner: T) -> (r: Self)
        ensures
            r.wrapped() == inner,
    {
        FromStd { inner }
    }

    /// Consume the adapter, returning the inner object.
    pub fn into_inner(self) -> (r: T)
        ensures
            r == self.wrapped(),
    {
        self.inner
    }

    /// Borrow the inner object.
    pub fn inner(&self) -> (r: &T)
        ensures
            *r == self.wrapped(),
    {
        &self.inner
    }

    /// Mutably borrow the inner object.
    pub fn inner_mut(&mut self) -> (r: &mut T)
        ensures
            *r == old(self).wrapped(),
            final(self).wrapped() == *final(r),
    {
        &mut self.inner
    }
}

/// Every operation on the wrapped value reports the host's I/O error.
impl<T> crate::Io for FromStd<T> {
    type Error = std::io::Error;

    open spec fn may_fail() -> bool {
        true
    }
}

/// Adapter to `std::io` traits.
pub struct ToStd<T> {
    inner: T,
}

impl<T> ToStd<T> {
    /// The wrapped value.
    pub closed spec fn wrapped(&self) -> T {
        self.inner
    }

    /// Create a new adapter.
    pub fn new(inner: T) -> (r: Self)
        ensures
            r.wrapped() == inner,
    {
        ToStd { inner }
    }

    /// Consume the adapter, returning the inner object.
    pub fn into_inner(self) -> (r: T)
        ensures
            r == self.wrapped(),
    {
        self.inner
    }

    /// Borrow the inner object.
    pub fn inner(&self) -> (r: &T)
        ensures
            *r == self.wrapped(),
    {
        &self.inner
    }

    /// Mutably borrow the inner object.
    pub fn inner_mut(&mut self) -> (r: &mut T)
        ensures
            *r == old(self).wrapped(),
            final(self).wrapped() == *final(r),
    {
        &mut self.inner
    }
}

/// Errors of the inner reader become host errors of kind `Other`.
impl<T: Read> std::io::Read for ToStd<T> {
    fn read(&mut self, buf: &mut [u8]) -> (r: Result<usize, std::io::Error>)
        ensures
            final(buf)@.len() == old(buf)@.len(),
            r matches Ok(n) ==> {
                &&& n <= old(buf)@.len()
                &&& (*old(self)).wrapped().yields(&(*final(self)).wrapped(), final(buf)@.take(n as int))
                &&& final(buf)@.skip(n as int) == old(buf)@.skip(n as int)
                &&& n == 0 && old(buf)@.len() > 0 ==> (*final(self)).wrapped().at_end()
            },
            r is Err ==> T::may_fail() && final(buf)@ == old(buf)@,
    {
        match self.inner.read(buf) {
            Ok(n) => Ok(n),
            Err(e) => Err(to_io_error(e)),
        }
    }
}

/// Errors of the inner writer become host errors of kind `Other`.
impl<T: Write> std::io::Write for ToStd<T> {
    fn write(&mut self, buf: &[u8]) -> (r: Result<usize, std::io::Error>)
        ensures
            r matches Ok(n) ==> {
                &&& n <= buf@.len()
                &&& (*old(self)).wrapped().takes(&(*final(self)).wrapped(), buf@.take(n as int))
                &&& buf@.len() > 0 && (*old(self)).wrapped().has_room(buf@.len() as nat) ==> n > 0
            },
            r is Err ==> T::may_fail(),
    {
        match self.inner.write(buf) {
            Ok(n) => Ok(n),
            Err(e) => Err(to_io_error(e)),
        }
    }

    fn flush(&mut self) -> (r: Result<(), std::io::Error>)
        ensures
            r is Ok ==> (*old(self)).wrapped().takes(&(*final(self)).wrapped(), Seq::empty()),
            r is Err ==> T::may_fail(),
    {
        match self.inner.flush() {
            Ok(()) => Ok(()),
            Err(e) => Err(to_io_error(e)),
        }
    }
}

} // verus!
