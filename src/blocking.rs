//! Blocking I/O traits.
//!
//! A call blocks the calling thread until it completes; `read` answers `0` only at the end
//! of the stream or for an empty buffer.
use crate::{moved, slice_read, Io};
use core::ops::ControlFlow;
use vstd::prelude::*;

verus! {

/// Error returned by [`Read::read_exact`].
#[derive(Debug, Copy, Clone, PartialEq, Eq)]
pub enum ReadExactError<E> {
    /// The end of the stream came before the buffer was full.
    UnexpectedEof,
    /// Error returned by the inner reader.
    Other(E),
}

/// Error returned by [`Write::write_fmt`].
#[derive(Debug, Copy, Clone, PartialEq, Eq)]
pub enum WriteFmtError<E> {
    /// An error was encountered while formatting.
    FmtError,
    /// Error returned by the inner writer.
    Other(E),
}

/// Blocking reader.
///
/// Semantics are the same as `std::io::Read`.
pub trait Read: Io + Sized {
    /// Holds when reading may take this reader from `self` to `next` and hand out `data`
    /// on the way.
    spec fn yields(&self, next: &Self, data: Seq<u8>) -> bool;

    /// Holds when this reader has reached the end of its stream.
    spec fn at_end(&self) -> bool;

    /// Handing out nothing can leave a reader where it is.
    proof fn lemma_yields_nothing(r: &Self)
        ensures
            r.yields(r, Seq::empty()),
    ;

    /// Two stretches of reading in a row hand out the two parts one after the other.
    proof fn lemma_yields_chain(a: &Self, b: &Self, c: &Self, d1: Seq<u8>, d2: Seq<u8>)
        requires
            a.yields(b, d1),
            b.yields(c, d2),
        ensures
            a.yields(c, d1 + d2),
    ;

    /// Pull some bytes from this source into `buf`, returning how many bytes were read.
    ///
    /// The bytes land in `buf[..n]`; `n == 0` with a non-empty `buf` means the end of the
    /// stream.
    fn read(&mut self, buf: &mut [u8]) -> (r: Result<usize, Self::Error>)
        ensures
            final(buf)@.len() == old(buf)@.len(),
            match r {
                Ok(n) => {
                    &&& n <= old(buf)@.len()
                    &&& (*old(self)).yields(&*final(self), final(buf)@.take(n as int))
                    &&& final(buf)@.skip(n as int) == old(buf)@.skip(n as int)
                    &&& n == 0 && old(buf)@.len() > 0 ==> (*final(self)).at_end()
                },
                Err(_) => Self::may_fail() && final(buf)@ == old(buf)@,
            },
    ;

    /// Read the exact number of bytes required to fill `buf`.
    ///
    /// Reads into the unfilled rest of `buf` until it is full; a read of `0` bytes before
    /// that ends the call with `UnexpectedEof`. However the call ends, the bytes read so
    /// far stand in the front of `buf` and the rest of `buf` keeps its bytes. An empty
    /// `buf` succeeds without reading.
    fn read_exact(&mut self, buf: &mut [u8]) -> (r: Result<(), ReadExactError<Self::Error>>)
        ensures
            final(buf)@.len() == old(buf)@.len(),
            old(buf)@.len() == 0 ==> r is Ok && *final(self) == *old(self),
            match r {
                Ok(()) => (*old(self)).yields(&*final(self), final(buf)@),
                Err(ReadExactError::UnexpectedEof) => exists|k: int|
                    {
                        &&& 0 <= k < final(buf)@.len()
                        &&& #[trigger] (*old(self)).yields(&*final(self), final(buf)@.take(k))
                        &&& (*final(self)).at_end()
                        &&& final(buf)@.skip(k) == old(buf)@.skip(k)
                    },
                Err(ReadExactError::Other(_)) => {
                    &&& Self::may_fail()
                    &&& exists|k: int, mid: Self|
                        {
                            &&& 0 <= k < final(buf)@.len()
                            &&& #[trigger] (*old(self)).yields(&mid, final(buf)@.take(k))
                            &&& final(buf)@.skip(k) == old(buf)@.skip(k)
                        }
                },
            },
    {
        let ghost start: Self = *self;
        let mut pos: usize = 0;
        proof {
            Self::lemma_yields_nothing(self);
            assert(buf@.take(0) =~= Seq::<u8>::empty());
        }
        while pos < buf.len()
            invariant
                pos <= buf@.len(),
                buf@.len() == old(buf)@.len(),
                start == *old(self),
                start.yields(self, buf@.take(pos as int)),
                buf@.skip(pos as int) == old(buf)@.skip(pos as int),
                pos == 0 ==> *self == start,
            decreases buf@.len() - pos,
        {
            let ghost before: Self = *self;
            let ghost filled: Seq<u8> = buf@.take(pos as int);
            let ghost tail: Seq<u8> = buf@.skip(pos as int);
            let (_, rest) = buf.split_at_mut(pos);
            proof {
                assert(rest@ =~= tail);
            }
            let result = Self::read(self, rest);
            let ghost res = result;
            proof {
                assert(rest@.take(0) =~= Seq::<u8>::empty());
                assert(filled + Seq::<u8>::empty() =~= filled);
                assert(buf@.take(pos as int) =~= filled);
                assert(buf@.skip(pos as int) =~= rest@);
                assert(rest@ =~= rest@.skip(0));
                assert(tail =~= tail.skip(0));
            }
            match read_exact_step(pos, buf.len(), result) {
                ControlFlow::Continue(next) => {
                    proof {
                        let n = (next - pos) as int;
                        Self::lemma_yields_chain(&start, &before, self, filled, rest@.take(n));
                        assert(buf@.take(next as int) =~= filled + rest@.take(n));
                        assert(buf@.skip(next as int) =~= rest@.skip(n));
                        assert(tail.skip(n) =~= old(buf)@.skip(next as int));
                    }
                    pos = next;
                },
                ControlFlow::Break(outcome) => {
                    proof {
                        if res is Ok {
                            Self::lemma_yields_chain(&start, &before, self, filled, Seq::empty());
                        } else {
                            assert(start.yields(&before, buf@.take(pos as int)));
                        }
                    }
                    return outcome;
                },
            }
        }
        proof {
            assert(buf@.take(pos as int) =~= buf@);
        }
        Ok(())
    }
}

/// One step of [`Read::read_exact`], once the read into the unfilled rest of a buffer of
/// `len` bytes, `filled` of them already read, has returned `result`: `Continue` with the
/// new count of filled bytes, or `Break` with the outcome of the whole call. A read of
/// `0` bytes is the end of the stream; an error of the reader is passed on as `Other`.
pub fn read_exact_step<E>(filled: usize, len: usize, result: Result<usize, E>) -> (r: ControlFlow<
    Result<(), ReadExactError<E>>,
    usize,
>)
    requires
        filled < len,
        result matches Ok(n) ==> n <= len - filled,
    ensures
        match result {
            Ok(n) => if n == 0 {
                r == ControlFlow::<Result<(), ReadExactError<E>>, usize>::Break(
                    Err(ReadExactError::UnexpectedEof),
                )
            } else {
                r == ControlFlow::<Result<(), ReadExactError<E>>, usize>::Continue(
                    (filled + n) as usize,
                )
            },
            Err(e) => r == ControlFlow::<Result<(), ReadExactError<E>>, usize>::Break(
                Err(ReadExactError::Other(e)),
            ),
        },
{
    match result {
        Ok(n) => {
            if n == 0 {
                ControlFlow::Break(Err(ReadExactError::UnexpectedEof))
            } else {
                ControlFlow::Continue(filled + n)
            }
        },
        Err(e) => ControlFlow::Break(Err(ReadExactError::Other(e))),
    }
}

/// One step of [`Write::write_all`], once the write of the rest of a buffer of `len`
/// bytes, `written` of them already taken, has returned `result`: `Continue` with the new
/// count of bytes taken, or `Break` with the writer's own error, unchanged. A successful
/// write takes at least one byte, by the writer's room.
pub fn write_all_step<E>(written: usize, len: usize, result: Result<usize, E>) -> (r: ControlFlow<
    Result<(), E>,
    usize,
>)
    requires
        written < len,
        result matches Ok(n) ==> 0 < n <= len - written,
    ensures
        match result {
            Ok(n) => r == ControlFlow::<Result<(), E>, usize>::Continue((written + n) as usize),
            Err(e) => r == ControlFlow::<Result<(), E>, usize>::Break(Err(e)),
        },
{
    match result {
        Ok(n) => ControlFlow::Continue(written + n),
        Err(e) => ControlFlow::Break(Err(e)),
    }
}

/// The outcome of `write_rendered` once the rendered text was written with `written` as
/// the result: success, or the writer's own error as `Other`.
pub fn writer_outcome<E>(written: Result<(), E>) -> (r: Result<(), WriteFmtError<E>>)
    ensures
        match written {
            Ok(()) => r == Ok::<(), WriteFmtError<E>>(()),
            Err(e) => r == Err::<(), WriteFmtError<E>>(WriteFmtError::Other(e)),
        },
{
    match written {
        Ok(()) => Ok(()),
        Err(e) => Err(WriteFmtError::Other(e)),
    }
}

/// Exact reads from a byte slice: a buffer no longer than the slice is always filled, with
/// the slice's front, and the slice moves past it; a longer buffer always ends in
/// `UnexpectedEof`, after every byte the slice held was copied into the buffer's front.
/// The requirements are what `read_exact` ensures when it took the slice from `before` to
/// `after` and left `filled` in the buffer.
pub proof fn lemma_read_exact_from_slice(
    before: &[u8],
    after: &[u8],
    filled: Seq<u8>,
    r: Result<(), ReadExactError<core::convert::Infallible>>,
)
    requires
        match r {
            Ok(()) => before.yields(&after, filled),
            Err(ReadExactError::UnexpectedEof) => exists|k: int|
                0 <= k < filled.len() && #[trigger] before.yields(&after, filled.take(k))
                    && after.at_end(),
            Err(ReadExactError::Other(_)) => <&[u8] as Io>::may_fail(),
        },
    ensures
        r is Ok <==> filled.len() <= before@.len(),
        r is Ok ==> filled == before@.take(filled.len() as int) && after@ == before@.skip(
            filled.len() as int,
        ),
        r is Err ==> {
            &&& r == Err::<(), ReadExactError<core::convert::Infallible>>(ReadExactError::UnexpectedEof)
            &&& filled.take(before@.len() as int) == before@
            &&& after@.len() == 0
        },
{
    match r {
        Ok(()) => {
            assert(filled == before@.take(filled.len() as int));
            assert(after@ =~= before@.skip(filled.len() as int));
        },
        Err(ReadExactError::UnexpectedEof) => {
            let k = choose|k: int|
                0 <= k < filled.len() && #[trigger] before.yields(&after, filled.take(k))
                    && after.at_end();
            assert(before@ =~= filled.take(k));
            assert(filled.take(before@.len() as int) =~= before@);
        },
        Err(ReadExactError::Other(_)) => {},
    }
}

/// Blocking buffered reader.
///
/// Semantics are the same as `std::io::BufRead`.
pub trait BufRead: Io + Sized {
    /// The bytes held in the internal buffer at present.
    spec fn buffered(&self) -> Seq<u8>;

    /// Return the contents of the internal buffer, filling it with more data from the
    /// inner reader if it is empty. An empty result means the end of the stream.
    fn fill_buf(&mut self) -> (r: Result<&[u8], Self::Error>)
        ensures
            (*old(self)).buffered().len() > 0 ==> (*final(self)).buffered() == (*old(self)).buffered(),
            match r {
                Ok(s) => s@ == (*final(self)).buffered(),
                Err(_) => Self::may_fail(),
            },
    ;

    /// Tell this buffer that `amt` bytes have been consumed from the buffer, so they
    /// should no longer be returned in calls to `fill_buf`.
    fn consume(&mut self, amt: usize)
        requires
            amt <= (*old(self)).buffered().len(),
        ensures
            (*final(self)).buffered() == (*old(self)).buffered().skip(amt as int),
    ;
}

/// Calling `fill_buf` twice without a `consume` in between hands out the same bytes both
/// times, when the first call handed out any: the first call left the reader at `s1`
/// with `first` in hand, the second took it from `s1` to `s2` with `second` in hand.
pub proof fn lemma_fill_buf_twice<B: BufRead>(s1: B, s2: B, first: Seq<u8>, second: Seq<u8>)
    requires
        first == s1.buffered(),
        s1.buffered().len() > 0 ==> s2.buffered() == s1.buffered(),
        second == s2.buffered(),
        first.len() > 0,
    ensures
        second == first,
        s2.buffered() == s1.buffered(),
{
}

/// Blocking writer.
///
/// Semantics are the same as `std::io::Write`.
pub trait Write: Io + Sized {
    /// Holds when writing may take this writer from `self` to `next` while it takes in
    /// `data`.
    spec fn takes(&self, next: &Self, data: Seq<u8>) -> bool;

    /// Holds when this writer takes `len` more bytes, each write of a non-empty buffer
    /// taking at least one of them.
    spec fn has_room(&self, len: nat) -> bool;

    /// Taking in nothing can leave a writer where it is.
    proof fn lemma_takes_nothing(w: &Self)
        ensures
            w.takes(w, Seq::empty()),
    ;

    /// Two stretches of writing in a row take in the two parts one after the other.
    proof fn lemma_takes_chain(a: &Self, b: &Self, c: &Self, d1: Seq<u8>, d2: Seq<u8>)
        requires
            a.takes(b, d1),
            b.takes(c, d2),
        ensures
            a.takes(c, d1 + d2),
    ;

    /// Write a buffer into this writer, returning how many bytes were written: those are
    /// `buf[..n]`.
    fn write(&mut self, buf: &[u8]) -> (r: Result<usize, Self::Error>)
        ensures
            match r {
                Ok(n) => {
                    &&& n <= buf@.len()
                    &&& (*old(self)).takes(&*final(self), buf@.take(n as int))
                    &&& buf@.len() > 0 && (*old(self)).has_room(buf@.len() as nat) ==> {
                        &&& n > 0
                        &&& (*final(self)).has_room((buf@.len() - n) as nat)
                    }
                },
                Err(_) => Self::may_fail(),
            },
    ;

    /// Flush this output stream, ensuring that all intermediately buffered contents reach
    /// their destination.
    fn flush(&mut self) -> (r: Result<(), Self::Error>)
        ensures
            match r {
                Ok(()) => (*old(self)).takes(&*final(self), Seq::empty()),
                Err(_) => Self::may_fail(),
            },
    ;

    /// Write an entire buffer into this writer.
    ///
    /// A writer that answers a non-empty write with `0` breaks its own contract; the
    /// writer's room for the whole buffer rules that out here. An empty `buf` succeeds
    /// without writing.
    fn write_all(&mut self, buf: &[u8]) -> (r: Result<(), Self::Error>)
        requires
            buf@.len() > 0 ==> (*old(self)).has_room(buf@.len() as nat),
        ensures
            buf@.len() == 0 ==> r is Ok && *final(self) == *old(self),
            match r {
                Ok(()) => (*old(self)).takes(&*final(self), buf@),
                Err(_) => Self::may_fail(),
            },
    {
        let ghost start: Self = *self;
        let mut pos: usize = 0;
        proof {
            Self::lemma_takes_nothing(self);
            assert(buf@.take(0) =~= Seq::<u8>::empty());
        }
        while pos < buf.len()
            invariant
                pos <= buf@.len(),
                start == *old(self),
                start.takes(self, buf@.take(pos as int)),
                pos < buf@.len() ==> (*self).has_room((buf@.len() - pos) as nat),
                pos == 0 ==> *self == start,
            decreases buf@.len() - pos,
        {
            let ghost before: Self = *self;
            let (_, rest) = buf.split_at(pos);
            let result = Self::write(self, rest);
            match write_all_step(pos, buf.len(), result) {
                ControlFlow::Continue(next) => {
                    proof {
                        let n = (next - pos) as int;
                        Self::lemma_takes_chain(&start, &before, self, buf@.take(pos as int), rest@.take(n));
                        assert(buf@.take(next as int) =~= buf@.take(pos as int) + rest@.take(n));
                    }
                    pos = next;
                },
                ControlFlow::Break(outcome) => {
                    return outcome;
                },
            }
        }
        proof {
            assert(buf@.take(pos as int) =~= buf@);
        }
        Ok(())
    }

    /// Write text that the formatting machinery rendered: `None` stands for a rendering
    /// that failed, and gives `FmtError` without writing; rendered text is written whole,
    /// a failure of the writer giving `Other`.
    fn write_rendered(&mut self, text: Option<&[u8]>) -> (r: Result<(), WriteFmtError<Self::Error>>)
        requires
            text matches Some(t) ==> (t@.len() > 0 ==> (*old(self)).has_room(t@.len() as nat)),
        ensures
            text is None ==> {
                &&& r == Err::<(), WriteFmtError<Self::Error>>(WriteFmtError::FmtError)
                &&& *final(self) == *old(self)
            },
            text matches Some(t) ==> match r {
                Ok(()) => (*old(self)).takes(&*final(self), t@),
                Err(WriteFmtError::FmtError) => false,
                Err(WriteFmtError::Other(_)) => Self::may_fail(),
            },
    {
        match text {
            Some(t) => writer_outcome(Self::write_all(self, t)),
            None => Err(WriteFmtError::FmtError),
        }
    }

    /// Write a formatted string into this writer, telling a failure of the formatting
    /// apart from a failure of the writer.
    ///
    /// The text is rendered first and then written by `write_rendered`, so a failed
    /// rendering writes nothing. Its length is known only once it is rendered, so the
    /// writer must have room for text of any length; for a writer of fixed size, the caller
    /// renders the text by its own means, checks that it fits, and calls `write_rendered`.
    fn write_fmt(&mut self, fmt: core::fmt::Arguments<'_>) -> (r: Result<(), WriteFmtError<Self::Error>>)
        requires
            forall|len: nat| #[trigger] (*old(self)).has_room(len),
        ensures
            match r {
                Ok(()) => exists|text: Seq<u8>| #[trigger] (*old(self)).takes(&*final(self), text),
                Err(WriteFmtError::FmtError) => *final(self) == *old(self),
                Err(WriteFmtError::Other(_)) => Self::may_fail(),
            },
    {
        let rendered = render(fmt);
        match rendered {
            Some(text) => {
                let bytes = text.as_str().as_bytes();
                assert((*old(self)).has_room(bytes@.len() as nat));
                Self::write_rendered(self, Some(bytes))
            },
            None => Self::write_rendered(self, None),
        }
    }
}

impl<T: Read> Read for &mut T {
    open spec fn yields(&self, next: &Self, data: Seq<u8>) -> bool {
        (**self).yields(&**next, data)
    }

    open spec fn at_end(&self) -> bool {
        (**self).at_end()
    }

    proof fn lemma_yields_nothing(r: &Self) {
        T::lemma_yields_nothing(&**r);
    }

    proof fn lemma_yields_chain(a: &Self, b: &Self, c: &Self, d1: Seq<u8>, d2: Seq<u8>) {
        T::lemma_yields_chain(&**a, &**b, &**c, d1, d2);
    }

    fn read(&mut self, buf: &mut [u8]) -> (r: Result<usize, Self::Error>) {
        (**self).read(buf)
    }
}

impl<T: Write> Write for &mut T {
    open spec fn takes(&self, next: &Self, data: Seq<u8>) -> bool {
        (**self).takes(&**next, data)
    }

    open spec fn has_room(&self, len: nat) -> bool {
        (**self).has_room(len)
    }

    proof fn lemma_takes_nothing(w: &Self) {
        T::lemma_takes_nothing(&**w);
    }

    proof fn lemma_takes_chain(a: &Self, b: &Self, c: &Self, d1: Seq<u8>, d2: Seq<u8>) {
        T::lemma_takes_chain(&**a, &**b, &**c, d1, d2);
    }

    fn write(&mut self, buf: &[u8]) -> (r: Result<usize, Self::Error>) {
        (**self).write(buf)
    }

    fn flush(&mut self) -> (r: Result<(), Self::Error>) {
        (**self).flush()
    }
}

impl<T: Read> Read for Box<T> {
    open spec fn yields(&self, next: &Self, data: Seq<u8>) -> bool {
        (**self).yields(&**next, data)
    }

    open spec fn at_end(&self) -> bool {
        (**self).at_end()
    }

    proof fn lemma_yields_nothing(r: &Self) {
        T::lemma_yields_nothing(&**r);
    }

    proof fn lemma_yields_chain(a: &Self, b: &Self, c: &Self, d1: Seq<u8>, d2: Seq<u8>) {
        T::lemma_yields_chain(&**a, &**b, &**c, d1, d2);
    }

    fn read(&mut self, buf: &mut [u8]) -> (r: Result<usize, Self::Error>) {
        (**self).read(buf)
    }
}

impl<T: Write> Write for Box<T> {
    open spec fn takes(&self, next: &Self, data: Seq<u8>) -> bool {
        (**self).takes(&**next, data)
    }

    open spec fn has_room(&self, len: nat) -> bool {
        (**self).has_room(len)
    }

    proof fn lemma_takes_nothing(w: &Self) {
        T::lemma_takes_nothing(&**w);
    }

    proof fn lemma_takes_chain(a: &Self, b: &Self, c: &Self, d1: Seq<u8>, d2: Seq<u8>) {
        T::lemma_takes_chain(&**a, &**b, &**c, d1, d2);
    }

    fn write(&mut self, buf: &[u8]) -> (r: Result<usize, Self::Error>) {
        (**self).write(buf)
    }

    fn flush(&mut self) -> (r: Result<(), Self::Error>) {
        (**self).flush()
    }
}

/// A vector takes every write whole, appending it, and never fails.
impl Write for Vec<u8> {
    open spec fn takes(&self, next: &Self, data: Seq<u8>) -> bool {
        next@ == self@ + data
    }

    open spec fn has_room(&self, len: nat) -> bool {
        true
    }

    proof fn lemma_takes_nothing(w: &Self) {
        assert(w@ + Seq::<u8>::empty() =~= w@);
    }

    proof fn lemma_takes_chain(a: &Self, b: &Self, c: &Self, d1: Seq<u8>, d2: Seq<u8>) {
        assert(a@ + (d1 + d2) =~= a@ + d1 + d2);
    }

    fn write(&mut self, buf: &[u8]) -> (r: Result<usize, Self::Error>)
        ensures
            r == Ok::<usize, Self::Error>(buf@.len() as usize),
            final(self)@ == old(self)@ + buf@,
    {
        self.extend_from_slice(buf);
        proof {
            assert(self@ =~= old(self)@ + buf@);
            assert(buf@.take(buf@.len() as int) =~= buf@);
        }
        Ok(buf.len())
    }

    fn flush(&mut self) -> (r: Result<(), Self::Error>)
        ensures
            r is Ok,
            final(self)@ == old(self)@,
    {
        proof {
            assert(self@ + Seq::<u8>::empty() =~= self@);
        }
        Ok(())
    }
}

/// Reading from a byte slice copies from its front and leaves the slice at the unread rest;
/// the slice is empty at the end of the stream.
impl<'a> Read for &'a [u8] {
    open spec fn yields(&self, next: &Self, data: Seq<u8>) -> bool {
        (**self)@ == data + (**next)@
    }

    open spec fn at_end(&self) -> bool {
        (**self)@.len() == 0
    }

    proof fn lemma_yields_nothing(r: &Self) {
        assert((**r)@ =~= Seq::<u8>::empty() + (**r)@);
    }

    proof fn lemma_yields_chain(a: &Self, b: &Self, c: &Self, d1: Seq<u8>, d2: Seq<u8>) {
        assert((**a)@ =~= (d1 + d2) + (**c)@);
    }

    fn read(&mut self, buf: &mut [u8]) -> (r: Result<usize, Self::Error>)
        ensures
            r matches Ok(n) && n == moved(old(self)@.len(), old(buf)@.len()),
            final(buf)@.take(r->Ok_0 as int) == slice_read(old(self)@, old(buf)@.len()).0,
            final(buf)@.skip(r->Ok_0 as int) == old(buf)@.skip(r->Ok_0 as int),
            final(self)@ == slice_read(old(self)@, old(buf)@.len()).1,
    {
        let amt: usize = if buf.len() < self.len() {
            buf.len()
        } else {
            self.len()
        };
        let (a, b) = self.split_at(amt);
        if amt == 1 {
            buf[0] = a[0];
        } else {
            copy_into(buf, a);
        }
        proof {
            assert(buf@.take(amt as int) =~= a@);
            assert(buf@.skip(amt as int) =~= old(buf)@.skip(amt as int));
            assert((**self)@ =~= a@ + b@);
        }
        *self = b;
        Ok(amt)
    }
}

/// A byte slice is its own buffer: `fill_buf` hands out all of it.
impl<'a> BufRead for &'a [u8] {
    open spec fn buffered(&self) -> Seq<u8> {
        (**self)@
    }

    fn fill_buf(&mut self) -> (r: Result<&[u8], Self::Error>)
        ensures
            *final(self) == *old(self),
            r matches Ok(s) && s@ == old(self)@,
    {
        Ok(*self)
    }

    fn consume(&mut self, amt: usize) {
        let (_, rest) = self.split_at(amt);
        *self = rest;
    }
}

/// Writing into a mutable byte slice overwrites its front and leaves the slice at the
/// unwritten rest. Once it is used up, every write answers `0`.
impl<'a> Write for &'a mut [u8] {
    /// Only the room is seen here: the bytes written leave the slice for the storage it
    /// was borrowed from, which `write` and `write_all` speak of.
    open spec fn takes(&self, next: &Self, data: Seq<u8>) -> bool {
        (**self)@.len() == data.len() + (**next)@.len()
    }

    open spec fn has_room(&self, len: nat) -> bool {
        len <= (**self)@.len()
    }

    proof fn lemma_takes_nothing(w: &Self) {
    }

    proof fn lemma_takes_chain(a: &Self, b: &Self, c: &Self, d1: Seq<u8>, d2: Seq<u8>) {
    }

    fn write(&mut self, buf: &[u8]) -> (r: Result<usize, Self::Error>)
        ensures
            r matches Ok(n) && n == moved(old(self)@.len(), buf@.len()),
            final(*old(self))@ == buf@.take(r->Ok_0 as int) + final(*final(self))@,
            (**final(self))@ == (**old(self))@.skip(r->Ok_0 as int),
    {
        let amt: usize = if buf.len() < self.len() {
            buf.len()
        } else {
            self.len()
        };
        let mut whole: &mut [u8] = &mut [];
        core::mem::swap(self, &mut whole);
        let (a, b) = whole.split_at_mut(amt);
        let (src, _) = buf.split_at(amt);
        copy_into(a, src);
        proof {
            assert(src@ =~= buf@.take(amt as int));
        }
        *self = b;
        Ok(amt)
    }

    fn flush(&mut self) -> (r: Result<(), Self::Error>)
        ensures
            r is Ok,
            *final(self) == *old(self),
    {
        Ok(())
    }

    /// The whole of `buf` fits, so it is copied in one step; data longer than the room
    /// left stops the program at the split, as a write that takes nothing would.
    fn write_all(&mut self, buf: &[u8]) -> (r: Result<(), Self::Error>)
        ensures
            r is Ok,
            final(*old(self))@ == buf@ + final(*final(self))@,
            (**final(self))@ == (**old(self))@.skip(buf@.len() as int),
    {
        if buf.len() == 0 {
            proof {
                assert(buf@ + final(*old(self))@ =~= final(*old(self))@);
                assert((**self)@.skip(0) =~= (**self)@);
            }
            return Ok(());
        }
        let mut whole: &mut [u8] = &mut [];
        core::mem::swap(self, &mut whole);
        let (a, b) = whole.split_at_mut(buf.len());
        copy_into(a, buf);
        *self = b;
        Ok(())
    }
}

/// Writing into a fixed-capacity destination with room for `capacity` bytes (the room
/// that `has_room` and `write` speak of): data of `len` bytes that fits is taken whole by
/// one write; longer data is taken up to the last byte of room, not fewer, and the next
/// write then takes nothing, which is where a writer stops making progress.
pub proof fn lemma_fixed_destination(capacity: nat, len: nat)
    ensures
        len <= capacity ==> moved(capacity, len) == len,
        len > capacity ==> {
            &&& moved(capacity, len) == capacity
            &&& moved((capacity - moved(capacity, len)) as nat, (len - moved(capacity, len)) as nat)
                == 0
        },
{
}

/// Copies `src` into the front of `dst`.
pub(crate) fn copy_into(dst: &mut [u8], src: &[u8])
    requires
        src@.len() <= old(dst)@.len(),
    ensures
        final(dst)@.len() == old(dst)@.len(),
        final(dst)@.take(src@.len() as int) == src@,
        final(dst)@.skip(src@.len() as int) == old(dst)@.skip(src@.len() as int),
{
    let mut i: usize = 0;
    while i < src.len()
        invariant
            i <= src@.len(),
            src@.len() <= dst@.len(),
            dst@.len() == old(dst)@.len(),
            forall|j: int| 0 <= j < i ==> dst@[j] == src@[j],
            forall|j: int| src@.len() <= j < dst@.len() ==> dst@[j] == old(dst)@[j],
        decreases src@.len() - i,
    {
        dst[i] = src[i];
        i = i + 1;
    }
    proof {
        assert(dst@.take(src@.len() as int) =~= src@);
        assert(dst@.skip(src@.len() as int) =~= old(dst)@.skip(src@.len() as int));
    }
}

/// The formatting machinery's argument list, carried through as it is.
#[verifier::external_type_specification]
#[verifier::external_body]
pub struct ExArguments<'a>(core::fmt::Arguments<'a>);

/// Relies on `core::fmt::write` into a `String`: it fails only where a formatting
/// implementation reports an error.
#[verifier::external_body]
fn render(args: core::fmt::Arguments<'_>) -> (r: Option<String>) {
    let mut text = String::new();
    match core::fmt::write(&mut text, args) {
        Ok(()) => Some(text),
        Err(_) => None,
    }
}

} // verus!
