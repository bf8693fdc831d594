//! The byte-slice and vector implementations of the async traits.
use super::{BufRead, Read, Write};
use crate::{moved, slice_read};
use core::task::{Context, Poll};
use vstd::prelude::*;

verus! {

/// Reading from a byte slice copies from its front and leaves the slice at the unread rest;
/// it never waits.
impl<'a> Read for &'a [u8] {
    open spec fn yields(&self, next: &Self, data: Seq<u8>) -> bool {
        (**self)@ == data + (**next)@
    }

    open spec fn at_end(&self) -> bool {
        (**self)@.len() == 0
    }

    open spec fn may_wait() -> bool {
        false
    }

    proof fn lemma_yields_nothing(r: &Self) {
        assert((**r)@ =~= Seq::<u8>::empty() + (**r)@);
    }

    proof fn lemma_yields_chain(a: &Self, b: &Self, c: &Self, d1: Seq<u8>, d2: Seq<u8>) {
        assert((**a)@ =~= (d1 + d2) + (**c)@);
    }

    fn read(&mut self, cx: &mut Context<'_>, buf: &mut [u8]) -> (r: Poll<Result<usize, Self::Error>>)
        ensures
            r matches Poll::Ready(Ok(n)) && {
                &&& n == moved(old(self)@.len(), old(buf)@.len())
                &&& final(buf)@.take(n as int) == slice_read(old(self)@, old(buf)@.len()).0
            },
            final(self)@ == slice_read(old(self)@, old(buf)@.len()).1,
    {
        Poll::Ready(crate::blocking::Read::read(self, buf))
    }
}

/// A byte slice is its own buffer: `fill_buf` hands out all of it at once.
impl<'a> BufRead for &'a [u8] {
    open spec fn buffered(&self) -> Seq<u8> {
        (**self)@
    }

    open spec fn may_wait() -> bool {
        false
    }

    fn fill_buf(&mut self, cx: &mut Context<'_>) -> (r: Poll<Result<&[u8], Self::Error>>)
        ensures
            *final(self) == *old(self),
            r matches Poll::Ready(Ok(s)) && s@ == old(self)@,
    {
        Poll::Ready(Ok(*self))
    }

    fn consume(&mut self, amt: usize) {
        let (_, rest) = self.split_at(amt);
        *self = rest;
    }
}

/// Writing into a mutable byte slice overwrites its front and leaves the slice at the
/// unwritten rest; it never waits. Once it is used up, every write answers `0`.
impl<'a> Write for &'a mut [u8] {
    /// Only the room is seen here: the bytes written leave the slice for the storage it
    /// was borrowed from, which `write` speaks of.
    open spec fn takes(&self, next: &Self, data: Seq<u8>) -> bool {
        (**self)@.len() == data.len() + (**next)@.len()
    }

    open spec fn has_room(&self, len: nat) -> bool {
        len <= (**self)@.len()
    }

    open spec fn may_wait() -> bool {
        false
    }

    proof fn lemma_takes_nothing(w: &Self) {
    }

    proof fn lemma_takes_chain(a: &Self, b: &Self, c: &Self, d1: Seq<u8>, d2: Seq<u8>) {
    }

    fn write(&mut self, cx: &mut Context<'_>, buf: &[u8]) -> (r: Poll<Result<usize, Self::Error>>)
        ensures
            r matches Poll::Ready(Ok(n)) && {
                &&& n == moved(old(self)@.len(), buf@.len())
                &&& final(*old(self))@ == buf@.take(n as int) + final(*final(self))@
                &&& (**final(self))@ == (**old(self))@.skip(n as int)
            },
    {
        Poll::Ready(crate::blocking::Write::write(self, buf))
    }

    /// The rest of `buf` fits, so it is copied in one step, never waiting; data longer
    /// than the room left stops the program at the split.
    fn write_all(&mut self, cx: &mut Context<'_>, buf: &[u8], written: &mut usize) -> (r: Poll<
        Result<(), Self::Error>,
    >)
        ensures
            r == Poll::<Result<(), Self::Error>>::Ready(Ok(())),
            *final(written) == buf@.len(),
            *old(written) < buf@.len() ==> {
                &&& final(*old(self))@ == buf@.skip(*old(written) as int) + final(*final(self))@
                &&& (**final(self))@ == (**old(self))@.skip(buf@.len() - *old(written))
            },
    {
        if *written == buf.len() {
            return Poll::Ready(Ok(()));
        }
        let (_, rest) = buf.split_at(*written);
        let r = crate::blocking::Write::write_all(self, rest);
        *written = buf.len();
        match r {
            Ok(()) => Poll::Ready(Ok(())),
            Err(e) => Poll::Ready(Err(e)),
        }
    }
}

/// A vector takes every write whole, appending it; it never waits and never fails.
impl Write for Vec<u8> {
    open spec fn takes(&self, next: &Self, data: Seq<u8>) -> bool {
        next@ == self@ + data
    }

    open spec fn has_room(&self, len: nat) -> bool {
        true
    }

    open spec fn may_wait() -> bool {
        false
    }

    proof fn lemma_takes_nothing(w: &Self) {
        assert(w@ + Seq::<u8>::empty() =~= w@);
    }

    proof fn lemma_takes_chain(a: &Self, b: &Self, c: &Self, d1: Seq<u8>, d2: Seq<u8>) {
        assert(a@ + (d1 + d2) =~= a@ + d1 + d2);
    }

    fn write(&mut self, cx: &mut Context<'_>, buf: &[u8]) -> (r: Poll<Result<usize, Self::Error>>)
        ensures
            r == Poll::<Result<usize, Self::Error>>::Ready(Ok(buf@.len() as usize)),
            final(self)@ == old(self)@ + buf@,
    {
        Poll::Ready(crate::blocking::Write::write(self, buf))
    }
}

} // verus!
