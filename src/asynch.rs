//! Asynchronous I/O traits.
//!
//! Every primitive operation is a poll step: it answers `Poll::Ready` with its result, or
//! `Poll::Pending` after arranging for the task in `cx` to be woken when it can make
//! progress, and is then called again. A composite operation keeps its progress in a slot
//! that the caller owns (`filled`, `written`), so that nothing in flight is stored inside
//! the stream between two polls.
use crate::blocking::{copy_into, ReadExactError};
use crate::{moved, slice_read, Io, SeekFrom};
use core::ops::ControlFlow;
use core::task::{Context, Poll};
use vstd::prelude::*;

mod slices;

verus! {

/// The outcome of one poll step, read variant by variant.
#[verifier::external_type_specification]
#[verifier::reject_recursive_types(T)]
pub struct ExPoll<T>(core::task::Poll<T>);

/// The task context handed to each poll step; carried through as it is.
#[verifier::external_type_specification]
#[verifier::external_body]
pub struct ExContext<'a>(core::task::Context<'a>);

/// Relies on `Waker::wake_by_ref`: the task of `cx` is polled again soon.
#[verifier::external_body]
fn wake(cx: &mut Context<'_>) {
    cx.waker().wake_by_ref()
}

/// Async reader.
///
/// Semantics are the same as `std::io::Read`, one poll step at a time.
pub trait Read: Io + Sized {
    /// Holds when reading may take this reader from `self` to `next` and hand out `data`
    /// on the way.
    spec fn yields(&self, next: &Self, data: Seq<u8>) -> bool;

    /// Holds when this reader has reached the end of its stream.
    spec fn at_end(&self) -> bool;

    /// Holds when an operation on a value of this type may come back pending; where it
    /// does not hold, every operation is ready at once.
    spec fn may_wait() -> bool;

    /// Handing out nothing can leave a reader where it is.
    proof fn lemma_yields_nothing(r: &Self)
        ensures
            r.yields(r, Seq::empty()),
    ;

    /// Two stretches of reading in a row hand out the two parts one after the other.
    proof fn lemma_yields_chain(a: &Self, b: &Self, c: &Self, d1: Seq<u8>, d2: Seq<u8>)
        requires
            a.yields(b, d1),
            b.yields(c, d2),
        ensures
            a.yields(c, d1 + d2),
    ;

    /// Pull some bytes from this source into `buf`, returning how many bytes were read.
    ///
    /// The bytes land in `buf[..n]`; `n == 0` with a non-empty `buf` means the end of the
    /// stream. A pending step hands out nothing.
    fn read(&mut self, cx: &mut Context<'_>, buf: &mut [u8]) -> (r: Poll<Result<usize, Self::Error>>)
        ensures
            final(buf)@.len() == old(buf)@.len(),
            match r {
                Poll::Pending => {
                    &&& Self::may_wait()
                    &&& (*old(self)).yields(&*final(self), Seq::empty())
                    &&& final(buf)@ == old(buf)@
                },
                Poll::Ready(Ok(n)) => {
                    &&& n <= old(buf)@.len()
                    &&& (*old(self)).yields(&*final(self), final(buf)@.take(n as int))
                    &&& final(buf)@.skip(n as int) == old(buf)@.skip(n as int)
                    &&& n == 0 && old(buf)@.len() > 0 ==> (*final(self)).at_end()
                },
                Poll::Ready(Err(_)) => Self::may_fail() && final(buf)@ == old(buf)@,
            },
    ;

    /// Read the exact number of bytes required to fill `buf`.
    ///
    /// `*filled` counts the bytes of `buf` already read by earlier steps of the same
    /// call; each step reads on from there and moves it on, as [`read_exact_step`] says.
    /// A read of `0` bytes before `buf` is full ends the call with `UnexpectedEof`.
    /// However the call ends, the bytes of `buf` past `*filled` keep their values.
    fn read_exact(
        &mut self,
        cx: &mut Context<'_>,
        buf: &mut [u8],
        filled: &mut usize,
    ) -> (r: Poll<Result<(), ReadExactError<Self::Error>>>)
        requires
            *old(filled) <= old(buf)@.len(),
        ensures
            final(buf)@.len() == old(buf)@.len(),
            final(buf)@.take(*old(filled) as int) == old(buf)@.take(*old(filled) as int),
            *old(filled) <= *final(filled) <= final(buf)@.len(),
            final(buf)@.skip(*final(filled) as int) == old(buf)@.skip(*final(filled) as int),
            *old(filled) == old(buf)@.len() ==> {
                &&& r == Poll::<Result<(), ReadExactError<Self::Error>>>::Ready(Ok(()))
                &&& *final(self) == *old(self)
                &&& *final(filled) == *old(filled)
            },
            !(r matches Poll::Ready(Err(ReadExactError::Other(_)))) ==> (*old(self)).yields(
                &*final(self),
                final(buf)@.subrange(*old(filled) as int, *final(filled) as int),
            ),
            match r {
                Poll::Pending => Self::may_wait(),
                Poll::Ready(Ok(())) => *final(filled) == final(buf)@.len(),
                Poll::Ready(Err(ReadExactError::UnexpectedEof)) => {
                    &&& *final(filled) < final(buf)@.len()
                    &&& (*final(self)).at_end()
                },
                Poll::Ready(Err(ReadExactError::Other(_))) => {
                    &&& Self::may_fail()
                    &&& *final(filled) < final(buf)@.len()
                    &&& exists|mid: Self|
                        #[trigger] (*old(self)).yields(
                            &mid,
                            final(buf)@.subrange(*old(filled) as int, *final(filled) as int),
                        )
                },
            },
    {
        let ghost start: Self = *self;
        let ghost from: int = *filled as int;
        proof {
            Self::lemma_yields_nothing(self);
            assert(buf@.subrange(from, from) =~= Seq::<u8>::empty());
        }
        while *filled < buf.len()
            invariant
                from <= *filled <= buf@.len(),
                from == *old(filled),
                buf@.len() == old(buf)@.len(),
                buf@.take(from) == old(buf)@.take(from),
                buf@.skip(*filled as int) == old(buf)@.skip(*filled as int),
                start == *old(self),
                *filled == from ==> *self == start,
                start.yields(self, buf@.subrange(from, *filled as int)),
            decreases buf@.len() - *filled,
        {
            let ghost before: Self = *self;
            let ghost got: Seq<u8> = buf@.subrange(from, *filled as int);
            let ghost tail: Seq<u8> = buf@.skip(*filled as int);
            let pos: usize = *filled;
            let (_, rest) = buf.split_at_mut(pos);
            proof {
                assert(rest@ =~= tail);
            }
            let polled = Self::read(self, cx, rest);
            let ghost p = polled;
            proof {
                assert(buf@.take(from) =~= old(buf)@.take(from));
                assert(buf@.subrange(from, pos as int) =~= got);
                assert(buf@.skip(pos as int) =~= rest@);
                assert(rest@.take(0) =~= Seq::<u8>::empty());
                assert(rest@ =~= rest@.skip(0));
                assert(tail =~= tail.skip(0));
                assert(got + Seq::<u8>::empty() =~= got);
            }
            match read_exact_step(pos, buf.len(), polled) {
                ControlFlow::Continue(next) => {
                    proof {
                        let n = (next - pos) as int;
                        Self::lemma_yields_chain(&start, &before, self, got, rest@.take(n));
                        assert(buf@.subrange(from, next as int) =~= got + rest@.take(n));
                        assert(buf@.skip(next as int) =~= rest@.skip(n));
                        assert(tail.skip(n) =~= old(buf)@.skip(next as int));
                    }
                    *filled = next;
                },
                ControlFlow::Break(outcome) => {
                    proof {
                        if !(p matches Poll::Ready(Err(_))) {
                            Self::lemma_yields_chain(&start, &before, self, got, Seq::empty());
                        }
                    }
                    return outcome;
                },
            }
        }
        Poll::Ready(Ok(()))
    }
}

/// One step of [`Read::read_exact`], once the read into the unfilled rest of a buffer of
/// `len` bytes, `filled` of them already read, has been polled: `Continue` with the new
/// count of filled bytes, or `Break` with the outcome of the whole call.
pub fn read_exact_step<E>(filled: usize, len: usize, polled: Poll<Result<usize, E>>) -> (r: ControlFlow<
    Poll<Result<(), ReadExactError<E>>>,
    usize,
>)
    requires
        filled < len,
        polled matches Poll::Ready(Ok(n)) ==> n <= len - filled,
    ensures
        match polled {
            Poll::Pending => r == ControlFlow::<Poll<Result<(), ReadExactError<E>>>, usize>::Break(
                Poll::Pending,
            ),
            Poll::Ready(Ok(n)) => if n == 0 {
                r == ControlFlow::<Poll<Result<(), ReadExactError<E>>>, usize>::Break(
                    Poll::Ready(Err(ReadExactError::UnexpectedEof)),
                )
            } else {
                r == ControlFlow::<Poll<Result<(), ReadExactError<E>>>, usize>::Continue(
                    (filled + n) as usize,
                )
            },
            Poll::Ready(Err(e)) => r == ControlFlow::<Poll<Result<(), ReadExactError<E>>>, usize>::Break(
                Poll::Ready(Err(ReadExactError::Other(e))),
            ),
        },
{
    match polled {
        Poll::Pending => ControlFlow::Break(Poll::Pending),
        Poll::Ready(Ok(n)) => {
            if n == 0 {
                ControlFlow::Break(Poll::Ready(Err(ReadExactError::UnexpectedEof)))
            } else {
                ControlFlow::Continue(filled + n)
            }
        },
        Poll::Ready(Err(e)) => ControlFlow::Break(Poll::Ready(Err(ReadExactError::Other(e)))),
    }
}

/// Async buffered reader.
///
/// Semantics are the same as `std::io::BufRead`, one poll step at a time.
pub trait BufRead: Io + Sized {
    /// The bytes held in the internal buffer at present.
    spec fn buffered(&self) -> Seq<u8>;

    /// Holds when an operation on a value of this type may come back pending; where it
    /// does not hold, every operation is ready at once.
    spec fn may_wait() -> bool;

    /// Return the contents of the internal buffer, filling it with more data from the
    /// inner reader if it is empty. An empty result means the end of the stream; a
    /// buffer that holds bytes is handed out at once, as it is.
    fn fill_buf(&mut self, cx: &mut Context<'_>) -> (r: Poll<Result<&[u8], Self::Error>>)
        ensures
            (*old(self)).buffered().len() > 0 ==> {
                &&& (*final(self)).buffered() == (*old(self)).buffered()
                &&& r matches Poll::Ready(Ok(s)) && s@ == (*old(self)).buffered()
            },
            match r {
                Poll::Pending => Self::may_wait(),
                Poll::Ready(Ok(s)) => s@ == (*final(self)).buffered(),
                Poll::Ready(Err(_)) => Self::may_fail(),
            },
    ;

    /// Tell this buffer that `amt` bytes have been consumed from the buffer, so they
    /// should no longer be returned in calls to `fill_buf`.
    fn consume(&mut self, amt: usize)
        requires
            amt <= (*old(self)).buffered().len(),
        ensures
            (*final(self)).buffered() == (*old(self)).buffered().skip(amt as int),
    ;
}

/// Async direct reader: each read hands out a borrowed view of newly produced bytes,
/// which the caller consumes whole before the next read.
pub trait DirectRead: Io + Sized {
    /// The read handle type for this reader.
    type Handle<'m>: DirectReadHandle<'m> where Self: 'm;

    /// Holds when reading may take this reader from `self` to `next` and hand out `data`
    /// on the way.
    spec fn yields(&self, next: &Self, data: Seq<u8>) -> bool;

    /// Handing out nothing can leave a reader where it is.
    proof fn lemma_yields_nothing(r: &Self)
        ensures
            r.yields(r, Seq::empty()),
    ;

    /// Two stretches of reading in a row hand out the two parts one after the other.
    proof fn lemma_yields_chain(a: &Self, b: &Self, c: &Self, d1: Seq<u8>, d2: Seq<u8>)
        requires
            a.yields(b, d1),
            b.yields(c, d2),
        ensures
            a.yields(c, d1 + d2),
    ;

    /// Holds when one read may take this reader from `self` to `next`, handing out a
    /// portion of `data` and reporting completion as `done`.
    spec fn hands_out(&self, next: &Self, data: Seq<u8>, done: bool) -> bool;

    /// Holds when a read from a reader of this type may come back pending.
    spec fn may_wait() -> bool;

    /// What one read hands out is a stretch of reading.
    proof fn lemma_hands_out_yields(a: &Self, b: &Self, data: Seq<u8>, done: bool)
        requires
            a.hands_out(b, data, done),
        ensures
            a.yields(b, data),
    ;

    /// Read the next portion from this source.
    fn read<'m>(&'m mut self, cx: &mut Context<'_>) -> (r: Poll<Result<Self::Handle<'m>, Self::Error>>)
        ensures
            match r {
                Poll::Pending => Self::may_wait() && (*old(self)).yields(&*final(self), Seq::empty()),
                Poll::Ready(Ok(h)) => (*old(self)).hands_out(&*final(self), h.data(), h.completed()),
                Poll::Ready(Err(_)) => Self::may_fail(),
            },
    ;
}

/// A direct read handle.
///
/// The buffer is returned to the source when the handle is dropped.
pub trait DirectReadHandle<'m> {
    /// The bytes this handle exposes.
    spec fn data(&self) -> Seq<u8>;

    /// Holds when the source has completed: there are to be no more reads from it.
    spec fn completed(&self) -> bool;

    /// Get the data slice. The entire data slice must be consumed.
    fn as_slice(&self) -> (r: &[u8])
        ensures
            r@ == self.data(),
    ;

    /// Get whether the source has completed; there should be no more calls to
    /// [`DirectRead::read`] after this.
    fn is_completed(&self) -> (r: bool)
        ensures
            r == self.completed(),
    ;
}

/// A byte slice as a handle: its bytes are the data, and an empty one marks completion.
impl<'m> DirectReadHandle<'m> for &'m [u8] {
    open spec fn data(&self) -> Seq<u8> {
        (**self)@
    }

    open spec fn completed(&self) -> bool {
        (**self)@.len() == 0
    }

    fn as_slice(&self) -> (r: &[u8]) {
        *self
    }

    fn is_completed(&self) -> (r: bool) {
        self.is_empty()
    }
}

/// An unbuffered [`Read`] wrapper for [`DirectRead`].
pub struct UnbufferedRead<T: Io> {
    source: T,
    is_completed: bool,
}

impl<T: Io> UnbufferedRead<T> {
    /// The wrapped source.
    pub closed spec fn source(&self) -> T {
        self.source
    }

    /// Holds once the source has reported completion.
    pub closed spec fn completed(&self) -> bool {
        self.is_completed
    }

    /// Create a new unbuffered wrapper for [`DirectRead`] implementing [`Read`].
    pub fn new(source: T) -> (r: Self)
        ensures
            r.source() == source,
            !r.completed(),
    {
        UnbufferedRead { source, is_completed: false }
    }
}

/// An unbuffered read error.
#[derive(Debug)]
pub enum UnbufferedReadError<T: crate::Error> {
    /// The provided read buffer is too small to contain the entire slice returned by
    /// [`DirectRead::read`].
    BufferTooSmall,
    /// Underlying I/O error.
    Io(T),
}

impl<T: crate::Error> From<T> for UnbufferedReadError<T> {
    fn from(value: T) -> (r: Self)
        ensures
            r == UnbufferedReadError::Io(value),
    {
        UnbufferedReadError::Io(value)
    }
}

impl<T: crate::Error> vstd::std_specs::convert::FromSpecImpl<T> for UnbufferedReadError<T> {
    open spec fn obeys_from_spec() -> bool {
        true
    }

    open spec fn from_spec(value: T) -> UnbufferedReadError<T> {
        UnbufferedReadError::Io(value)
    }
}

impl<T: crate::Error> crate::Error for UnbufferedReadError<T> {
    open spec fn kind_of(&self) -> crate::ErrorKind {
        match self {
            UnbufferedReadError::BufferTooSmall => crate::ErrorKind::Other,
            UnbufferedReadError::Io(other) => other.kind_of(),
        }
    }

    fn kind(&self) -> (r: crate::ErrorKind) {
        match self {
            UnbufferedReadError::BufferTooSmall => crate::ErrorKind::Other,
            UnbufferedReadError::Io(other) => other.kind(),
        }
    }
}

impl<T: Io> Io for UnbufferedRead<T> {
    type Error = UnbufferedReadError<T::Error>;

    open spec fn may_fail() -> bool {
        true
    }
}

impl<T: DirectRead> Read for UnbufferedRead<T> {
    open spec fn yields(&self, next: &Self, data: Seq<u8>) -> bool {
        self.source().yields(&next.source(), data)
    }

    open spec fn at_end(&self) -> bool {
        self.completed()
    }

    /// A portion that is empty without completing the source is reported as pending.
    open spec fn may_wait() -> bool {
        true
    }

    proof fn lemma_yields_nothing(r: &Self) {
        T::lemma_yields_nothing(&r.source());
    }

    proof fn lemma_yields_chain(a: &Self, b: &Self, c: &Self, d1: Seq<u8>, d2: Seq<u8>) {
        T::lemma_yields_chain(&a.source(), &b.source(), &c.source(), d1, d2);
    }

    /// Copies the next portion of the source into `buf`, whole, as [`take_portion`]
    /// says. A portion that is empty without completing the source is passed over: the
    /// task is woken to poll again, so that `0` comes only with completion. Once the source
    /// has completed, every read answers `0` without asking it again. A portion longer
    /// than `buf` is an error, which leaves `buf` and the completion flag as they were.
    fn read(&mut self, cx: &mut Context<'_>, buf: &mut [u8]) -> (r: Poll<Result<usize, Self::Error>>)
        ensures
            (*old(self)).completed() ==> {
                &&& r == Poll::<Result<usize, Self::Error>>::Ready(Ok(0))
                &&& *final(self) == *old(self)
                &&& final(buf)@ == old(buf)@
            },
            !(*old(self)).completed() ==> match r {
                Poll::Pending => {
                    &&& !(*final(self)).completed()
                    &&& final(buf)@ == old(buf)@
                    &&& {
                        ||| T::may_wait() && (*old(self)).source().yields(
                            &(*final(self)).source(),
                            Seq::empty(),
                        )
                        ||| (*old(self)).source().hands_out(&(*final(self)).source(), Seq::empty(), false)
                    }
                },
                Poll::Ready(Ok(n)) => exists|data: Seq<u8>, done: bool|
                    {
                        &&& #[trigger] (*old(self)).source().hands_out(
                            &(*final(self)).source(),
                            data,
                            done,
                        )
                        &&& data.len() > 0 || done
                        &&& n == data.len()
                        &&& final(buf)@.take(n as int) == data
                        &&& final(buf)@.skip(n as int) == old(buf)@.skip(n as int)
                        &&& (*final(self)).completed() == done
                    },
                Poll::Ready(Err(UnbufferedReadError::BufferTooSmall)) => {
                    &&& !(*final(self)).completed()
                    &&& final(buf)@ == old(buf)@
                    &&& exists|data: Seq<u8>, done: bool|
                        #[trigger] (*old(self)).source().hands_out(&(*final(self)).source(), data, done)
                            && (data.len() > 0 || done) && data.len() > old(buf)@.len()
                },
                Poll::Ready(Err(UnbufferedReadError::Io(_))) => {
                    &&& T::may_fail()
                    &&& !(*final(self)).completed()
                    &&& final(buf)@ == old(buf)@
                },
            },
    {
        if self.is_completed {
            proof {
                T::lemma_yields_nothing(&self.source);
                assert(buf@.take(0) =~= Seq::<u8>::empty());
                assert(buf@.skip(0) =~= buf@);
            }
            return Poll::Ready(Ok(0));
        }
        let ghost mut data: Seq<u8> = Seq::empty();
        let mut done: bool = false;
        let step = match self.source.read(cx) {
            Poll::Pending => Poll::Pending,
            Poll::Ready(Err(e)) => Poll::Ready(Err(e)),
            Poll::Ready(Ok(handle)) => {
                let slice = handle.as_slice();
                done = handle.is_completed();
                proof {
                    data = slice@;
                }
                Poll::Ready(Ok(take_portion(buf, slice, done)))
            },
        };
        match step {
            Poll::Pending => Poll::Pending,
            Poll::Ready(Err(e)) => Poll::Ready(Err(UnbufferedReadError::Io(e))),
            Poll::Ready(Ok(Portion::Spurious)) => {
                proof {
                    T::lemma_hands_out_yields(&old(self).source, &self.source, data, done);
                    assert(data =~= Seq::<u8>::empty());
                }
                wake(cx);
                Poll::Pending
            },
            Poll::Ready(Ok(Portion::Copied(n))) => {
                self.is_completed = done;
                proof {
                    T::lemma_hands_out_yields(&old(self).source, &self.source, data, done);
                    assert(old(self).source().hands_out(&self.source(), data, done));
                }
                Poll::Ready(Ok(n))
            },
            Poll::Ready(Ok(Portion::TooLong)) => {
                proof {
                    assert(old(self).source().hands_out(&self.source(), data, done));
                }
                Poll::Ready(Err(UnbufferedReadError::BufferTooSmall))
            },
        }
    }
}

/// What one portion of a direct source comes to for a destination buffer.
pub enum Portion {
    /// The portion is empty and the source has not completed: nothing to report yet.
    Spurious,
    /// The portion was copied whole into the front of the buffer; this many bytes.
    Copied(usize),
    /// The portion is longer than the buffer; nothing was copied.
    TooLong,
}

/// Takes one portion `slice` of a direct source, with its completion flag `done`, into
/// `buf`: an empty portion of a source that has not completed is passed over; a portion
/// that fits is copied whole into the front of `buf`; a longer one is refused. Only a
/// copy changes `buf`, and only in its front.
pub fn take_portion(buf: &mut [u8], slice: &[u8], done: bool) -> (r: Portion)
    ensures
        final(buf)@.len() == old(buf)@.len(),
        slice@.len() == 0 && !done ==> {
            &&& r == Portion::Spurious
            &&& final(buf)@ == old(buf)@
        },
        (slice@.len() > 0 || done) && slice@.len() <= old(buf)@.len() ==> {
            &&& r matches Portion::Copied(n) && n == slice@.len()
            &&& final(buf)@.take(slice@.len() as int) == slice@
            &&& final(buf)@.skip(slice@.len() as int) == old(buf)@.skip(slice@.len() as int)
        },
        (slice@.len() > 0 || done) && slice@.len() > old(buf)@.len() ==> {
            &&& r == Portion::TooLong
            &&& final(buf)@ == old(buf)@
        },
{
    if slice.is_empty() && !done {
        Portion::Spurious
    } else if buf.len() >= slice.len() {
        copy_into(buf, slice);
        Portion::Copied(slice.len())
    } else {
        Portion::TooLong
    }
}

/// Async writer.
///
/// Semantics are the same as `std::io::Write`, one poll step at a time.
pub trait Write: Io + Sized {
    /// Holds when writing may take this writer from `self` to `next` while it takes in
    /// `data`.
    spec fn takes(&self, next: &Self, data: Seq<u8>) -> bool;

    /// Holds when this writer takes `len` more bytes, each write of a non-empty buffer
    /// that completes taking at least one of them.
    spec fn has_room(&self, len: nat) -> bool;

    /// Holds when an operation on a value of this type may come back pending; where it
    /// does not hold, every operation is ready at once.
    spec fn may_wait() -> bool;

    /// Taking in nothing can leave a writer where it is.
    proof fn lemma_takes_nothing(w: &Self)
        ensures
            w.takes(w, Seq::empty()),
    ;

    /// Two stretches of writing in a row take in the two parts one after the other.
    proof fn lemma_takes_chain(a: &Self, b: &Self, c: &Self, d1: Seq<u8>, d2: Seq<u8>)
        requires
            a.takes(b, d1),
            b.takes(c, d2),
        ensures
            a.takes(c, d1 + d2),
    ;

    /// Write a buffer into this writer, returning how many bytes were written: those are
    /// `buf[..n]`. A pending step takes nothing and keeps the writer's room.
    fn write(&mut self, cx: &mut Context<'_>, buf: &[u8]) -> (r: Poll<Result<usize, Self::Error>>)
        ensures
            match r {
                Poll::Pending => {
                    &&& Self::may_wait()
                    &&& (*old(self)).takes(&*final(self), Seq::empty())
                    &&& (*old(self)).has_room(buf@.len() as nat) ==> (*final(self)).has_room(
                        buf@.len() as nat,
                    )
                },
                Poll::Ready(Ok(n)) => {
                    &&& n <= buf@.len()
                    &&& (*old(self)).takes(&*final(self), buf@.take(n as int))
                    &&& buf@.len() > 0 && (*old(self)).has_room(buf@.len() as nat) ==> {
                        &&& n > 0
                        &&& (*final(self)).has_room((buf@.len() - n) as nat)
                    }
                },
                Poll::Ready(Err(_)) => Self::may_fail(),
            },
    ;

    /// Flush this output stream, ensuring that all intermediately buffered contents reach
    /// their destination. A writer that buffers nothing is done at once.
    fn flush(&mut self, cx: &mut Context<'_>) -> (r: Poll<Result<(), Self::Error>>)
        ensures
            match r {
                Poll::Pending => Self::may_wait() && (*old(self)).takes(&*final(self), Seq::empty()),
                Poll::Ready(Ok(())) => (*old(self)).takes(&*final(self), Seq::empty()),
                Poll::Ready(Err(_)) => Self::may_fail(),
            },
    {
        proof {
            Self::lemma_takes_nothing(self);
        }
        Poll::Ready(Ok(()))
    }

    /// Write an entire buffer into this writer.
    ///
    /// `*written` counts the bytes of `buf` taken by earlier steps of the same call; each
    /// step writes on from there and moves it on, as [`write_all_step`] says. The writer's
    /// room for the rest of `buf` rules out a write that takes nothing. With nothing left
    /// to write the call is done at once.
    fn write_all(&mut self, cx: &mut Context<'_>, buf: &[u8], written: &mut usize) -> (r: Poll<
        Result<(), Self::Error>,
    >)
        requires
            *old(written) <= buf@.len(),
            *old(written) < buf@.len() ==> (*old(self)).has_room((buf@.len() - *old(written)) as nat),
        ensures
            *old(written) <= *final(written) <= buf@.len(),
            *old(written) == buf@.len() ==> {
                &&& r == Poll::<Result<(), Self::Error>>::Ready(Ok(()))
                &&& *final(self) == *old(self)
                &&& *final(written) == *old(written)
            },
            match r {
                Poll::Pending => {
                    &&& Self::may_wait()
                    &&& (*old(self)).takes(
                        &*final(self),
                        buf@.subrange(*old(written) as int, *final(written) as int),
                    )
                    &&& *final(written) < buf@.len()
                    &&& (*final(self)).has_room((buf@.len() - *final(written)) as nat)
                },
                Poll::Ready(Ok(())) => {
                    &&& *final(written) == buf@.len()
                    &&& (*old(self)).takes(&*final(self), buf@.skip(*old(written) as int))
                },
                Poll::Ready(Err(_)) => Self::may_fail(),
            },
    {
        let ghost start: Self = *self;
        let ghost from: int = *written as int;
        proof {
            Self::lemma_takes_nothing(self);
            assert(buf@.subrange(from, from) =~= Seq::<u8>::empty());
        }
        while *written < buf.len()
            invariant
                from <= *written <= buf@.len(),
                from == *old(written),
                start == *old(self),
                *written == from ==> *self == start,
                start.takes(self, buf@.subrange(from, *written as int)),
                *written < buf@.len() ==> (*self).has_room((buf@.len() - *written) as nat),
            decreases buf@.len() - *written,
        {
            let ghost before: Self = *self;
            let ghost sent: Seq<u8> = buf@.subrange(from, *written as int);
            let pos: usize = *written;
            let (_, rest) = buf.split_at(pos);
            let polled = Self::write(self, cx, rest);
            let ghost p = polled;
            proof {
                assert(sent + Seq::<u8>::empty() =~= sent);
                assert(rest@.take(0) =~= Seq::<u8>::empty());
            }
            match write_all_step(pos, buf.len(), polled) {
                ControlFlow::Continue(next) => {
                    proof {
                        let n = (next - pos) as int;
                        Self::lemma_takes_chain(&start, &before, self, sent, rest@.take(n));
                        assert(buf@.subrange(from, next as int) =~= sent + rest@.take(n));
                    }
                    *written = next;
                },
                ControlFlow::Break(outcome) => {
                    proof {
                        if p is Pending {
                            Self::lemma_takes_chain(&start, &before, self, sent, Seq::empty());
                        }
                    }
                    return outcome;
                },
            }
        }
        proof {
            assert(buf@.subrange(from, *written as int) =~= buf@.skip(from));
        }
        Poll::Ready(Ok(()))
    }
}

/// One step of [`Write::write_all`], once the write of the rest of a buffer of `len`
/// bytes, `written` of them already taken, has been polled: `Continue` with the new count
/// of bytes taken, or `Break` with the outcome of the whole call. A completed write takes
/// at least one byte, by the writer's room.
pub fn write_all_step<E>(written: usize, len: usize, polled: Poll<Result<usize, E>>) -> (r: ControlFlow<
    Poll<Result<(), E>>,
    usize,
>)
    requires
        written < len,
        polled matches Poll::Ready(Ok(n)) ==> 0 < n <= len - written,
    ensures
        match polled {
            Poll::Pending => r == ControlFlow::<Poll<Result<(), E>>, usize>::Break(Poll::Pending),
            Poll::Ready(Ok(n)) => r == ControlFlow::<Poll<Result<(), E>>, usize>::Continue(
                (written + n) as usize,
            ),
            Poll::Ready(Err(e)) => r == ControlFlow::<Poll<Result<(), E>>, usize>::Break(
                Poll::Ready(Err(e)),
            ),
        },
{
    match polled {
        Poll::Pending => ControlFlow::Break(Poll::Pending),
        Poll::Ready(Ok(n)) => ControlFlow::Continue(written + n),
        Poll::Ready(Err(e)) => ControlFlow::Break(Poll::Ready(Err(e))),
    }
}

/// Async seek within streams.
///
/// Semantics are the same as `std::io::Seek`, one poll step at a time.
pub trait Seek: Io + Sized {
    /// Holds when seeking to `pos` may take this stream from `self` to `next`, at the
    /// absolute position `at`.
    spec fn seeks(&self, next: &Self, pos: SeekFrom, at: u64) -> bool;

    /// Holds when an operation on a value of this type may come back pending; where it
    /// does not hold, every operation is ready at once.
    spec fn may_wait() -> bool;

    /// Seek to an offset, in bytes, in a stream, returning the new absolute position.
    fn seek(&mut self, cx: &mut Context<'_>, pos: SeekFrom) -> (r: Poll<Result<u64, Self::Error>>)
        ensures
            match r {
                Poll::Pending => Self::may_wait(),
                Poll::Ready(Ok(at)) => (*old(self)).seeks(&*final(self), pos, at),
                Poll::Ready(Err(_)) => Self::may_fail(),
            },
    ;

    /// Rewind to the beginning of a stream: a seek to the start.
    fn rewind(&mut self, cx: &mut Context<'_>) -> (r: Poll<Result<(), Self::Error>>)
        ensures
            match r {
                Poll::Pending => Self::may_wait(),
                Poll::Ready(Ok(())) => exists|at: u64|
                    #[trigger] (*old(self)).seeks(&*final(self), SeekFrom::Start(0), at),
                Poll::Ready(Err(_)) => Self::may_fail(),
            },
    {
        rewind_outcome(Self::seek(self, cx, SeekFrom::Start(0)))
    }

    /// Returns the current seek position from the start of the stream: a seek by nothing
    /// from where it stands.
    fn stream_position(&mut self, cx: &mut Context<'_>) -> (r: Poll<Result<u64, Self::Error>>)
        ensures
            match r {
                Poll::Pending => Self::may_wait(),
                Poll::Ready(Ok(at)) => (*old(self)).seeks(&*final(self), SeekFrom::Current(0), at),
                Poll::Ready(Err(_)) => Self::may_fail(),
            },
    {
        Self::seek(self, cx, SeekFrom::Current(0))
    }
}

/// The outcome of [`Seek::rewind`] once its seek to the start was polled with `polled`:
/// pending while the seek is, success without the position, or the seek's own error.
pub fn rewind_outcome<E>(polled: Poll<Result<u64, E>>) -> (r: Poll<Result<(), E>>)
    ensures
        match polled {
            Poll::Pending => r == Poll::<Result<(), E>>::Pending,
            Poll::Ready(Ok(_)) => r == Poll::<Result<(), E>>::Ready(Ok(())),
            Poll::Ready(Err(e)) => r == Poll::<Result<(), E>>::Ready(Err(e)),
        },
{
    match polled {
        Poll::Pending => Poll::Pending,
        Poll::Ready(Ok(_)) => Poll::Ready(Ok(())),
        Poll::Ready(Err(e)) => Poll::Ready(Err(e)),
    }
}

impl<T: Read> Read for &mut T {
    open spec fn yields(&self, next: &Self, data: Seq<u8>) -> bool {
        (**self).yields(&**next, data)
    }

    open spec fn at_end(&self) -> bool {
        (**self).at_end()
    }

    open spec fn may_wait() -> bool {
        T::may_wait()
    }

    proof fn lemma_yields_nothing(r: &Self) {
        T::lemma_yields_nothing(&**r);
    }

    proof fn lemma_yields_chain(a: &Self, b: &Self, c: &Self, d1: Seq<u8>, d2: Seq<u8>) {
        T::lemma_yields_chain(&**a, &**b, &**c, d1, d2);
    }

    fn read(&mut self, cx: &mut Context<'_>, buf: &mut [u8]) -> (r: Poll<Result<usize, Self::Error>>) {
        T::read(&mut **self, cx, buf)
    }
}

impl<T: BufRead> BufRead for &mut T {
    open spec fn buffered(&self) -> Seq<u8> {
        (**self).buffered()
    }

    open spec fn may_wait() -> bool {
        T::may_wait()
    }

    fn fill_buf(&mut self, cx: &mut Context<'_>) -> (r: Poll<Result<&[u8], Self::Error>>) {
        (**self).fill_buf(cx)
    }

    fn consume(&mut self, amt: usize) {
        (**self).consume(amt)
    }
}

impl<T: Write> Write for &mut T {
    open spec fn takes(&self, next: &Self, data: Seq<u8>) -> bool {
        (**self).takes(&**next, data)
    }

    open spec fn has_room(&self, len: nat) -> bool {
        (**self).has_room(len)
    }

    open spec fn may_wait() -> bool {
        T::may_wait()
    }

    proof fn lemma_takes_nothing(w: &Self) {
        T::lemma_takes_nothing(&**w);
    }

    proof fn lemma_takes_chain(a: &Self, b: &Self, c: &Self, d1: Seq<u8>, d2: Seq<u8>) {
        T::lemma_takes_chain(&**a, &**b, &**c, d1, d2);
    }

    fn write(&mut self, cx: &mut Context<'_>, buf: &[u8]) -> (r: Poll<Result<usize, Self::Error>>) {
        (**self).write(cx, buf)
    }

    fn flush(&mut self, cx: &mut Context<'_>) -> (r: Poll<Result<(), Self::Error>>) {
        (**self).flush(cx)
    }
}

impl<T: Seek> Seek for &mut T {
    open spec fn seeks(&self, next: &Self, pos: SeekFrom, at: u64) -> bool {
        (**self).seeks(&**next, pos, at)
    }

    open spec fn may_wait() -> bool {
        T::may_wait()
    }

    fn seek(&mut self, cx: &mut Context<'_>, pos: SeekFrom) -> (r: Poll<Result<u64, Self::Error>>) {
        (**self).seek(cx, pos)
    }
}

impl<T: Read> Read for Box<T> {
    open spec fn yields(&self, next: &Self, data: Seq<u8>) -> bool {
        (**self).yields(&**next, data)
    }

    open spec fn at_end(&self) -> bool {
        (**self).at_end()
    }

    open spec fn may_wait() -> bool {
        T::may_wait()
    }

    proof fn lemma_yields_nothing(r: &Self) {
        T::lemma_yields_nothing(&**r);
    }

    proof fn lemma_yields_chain(a: &Self, b: &Self, c: &Self, d1: Seq<u8>, d2: Seq<u8>) {
        T::lemma_yields_chain(&**a, &**b, &**c, d1, d2);
    }

    fn read(&mut self, cx: &mut Context<'_>, buf: &mut [u8]) -> (r: Poll<Result<usize, Self::Error>>) {
        T::read(&mut **self, cx, buf)
    }
}

impl<T: BufRead> BufRead for Box<T> {
    open spec fn buffered(&self) -> Seq<u8> {
        (**self).buffered()
    }

    open spec fn may_wait() -> bool {
        T::may_wait()
    }

    fn fill_buf(&mut self, cx: &mut Context<'_>) -> (r: Poll<Result<&[u8], Self::Error>>) {
        (**self).fill_buf(cx)
    }

    fn consume(&mut self, amt: usize) {
        (**self).consume(amt)
    }
}

impl<T: Write> Write for Box<T> {
    open spec fn takes(&self, next: &Self, data: Seq<u8>) -> bool {
        (**self).takes(&**next, data)
    }

    open spec fn has_room(&self, len: nat) -> bool {
        (**self).has_room(len)
    }

    open spec fn may_wait() -> bool {
        T::may_wait()
    }

    proof fn lemma_takes_nothing(w: &Self) {
        T::lemma_takes_nothing(&**w);
    }

    proof fn lemma_takes_chain(a: &Self, b: &Self, c: &Self, d1: Seq<u8>, d2: Seq<u8>) {
        T::lemma_takes_chain(&**a, &**b, &**c, d1, d2);
    }

    fn write(&mut self, cx: &mut Context<'_>, buf: &[u8]) -> (r: Poll<Result<usize, Self::Error>>) {
        (**self).write(cx, buf)
    }

    fn flush(&mut self, cx: &mut Context<'_>) -> (r: Poll<Result<(), Self::Error>>) {
        (**self).flush(cx)
    }
}

impl<T: Seek> Seek for Box<T> {
    open spec fn seeks(&self, next: &Self, pos: SeekFrom, at: u64) -> bool {
        (**self).seeks(&**next, pos, at)
    }

    open spec fn may_wait() -> bool {
        T::may_wait()
    }

    fn seek(&mut self, cx: &mut Context<'_>, pos: SeekFrom) -> (r: Poll<Result<u64, Self::Error>>) {
        (**self).seek(cx, pos)
    }
}

/// A direct source that hands out a fixed list of chunks, one per read, each with the
/// completion flag it was given; past the end of the list it reports completion with an
/// empty chunk.
pub struct ChunkSource {
    chunks: Vec<(Vec<u8>, bool)>,
    next: usize,
}

/// The bytes of `chunks[from..to]`, one after the other.
pub open spec fn chunk_bytes(chunks: Seq<(Vec<u8>, bool)>, from: int, to: int) -> Seq<u8>
    decreases to - from,
{
    if to <= from {
        Seq::empty()
    } else {
        chunk_bytes(chunks, from, to - 1) + chunks[to - 1].0@
    }
}

/// The bytes of consecutive stretches of chunks, one after the other, are the bytes of
/// the whole stretch.
pub proof fn lemma_chunk_bytes_join(chunks: Seq<(Vec<u8>, bool)>, i: int, j: int, k: int)
    requires
        i <= j <= k,
    ensures
        chunk_bytes(chunks, i, j) + chunk_bytes(chunks, j, k) == chunk_bytes(chunks, i, k),
    decreases k - j,
{
    if k == j {
        assert(chunk_bytes(chunks, i, j) + Seq::<u8>::empty() =~= chunk_bytes(chunks, i, j));
    } else {
        lemma_chunk_bytes_join(chunks, i, j, k - 1);
        assert(chunk_bytes(chunks, i, j) + (chunk_bytes(chunks, j, k - 1) + chunks[k - 1].0@)
            =~= (chunk_bytes(chunks, i, j) + chunk_bytes(chunks, j, k - 1)) + chunks[k - 1].0@);
    }
}

impl ChunkSource {
    /// The chunks, in the order they are handed out.
    pub closed spec fn chunks(&self) -> Seq<(Vec<u8>, bool)> {
        self.chunks@
    }

    /// How many chunks have been handed out.
    pub closed spec fn handed_out(&self) -> int {
        self.next as int
    }

    /// A source that hands out `chunks`, from the first.
    pub fn new(chunks: Vec<(Vec<u8>, bool)>) -> (r: Self)
        ensures
            r.chunks() == chunks@,
            r.handed_out() == 0,
    {
        ChunkSource { chunks, next: 0 }
    }
}

/// One chunk of a [`ChunkSource`].
pub struct ChunkHandle<'m> {
    /// The bytes of the chunk.
    pub data: &'m [u8],
    /// Whether the source has completed with this chunk.
    pub done: bool,
}

impl<'m> DirectReadHandle<'m> for ChunkHandle<'m> {
    open spec fn data(&self) -> Seq<u8> {
        self.data@
    }

    open spec fn completed(&self) -> bool {
        self.done
    }

    fn as_slice(&self) -> (r: &[u8]) {
        self.data
    }

    fn is_completed(&self) -> (r: bool) {
        self.done
    }
}

impl Io for ChunkSource {
    type Error = core::convert::Infallible;

    open spec fn may_fail() -> bool {
        false
    }
}

impl DirectRead for ChunkSource {
    type Handle<'m> = ChunkHandle<'m>;

    open spec fn yields(&self, next: &Self, data: Seq<u8>) -> bool {
        &&& next.chunks() == self.chunks()
        &&& self.handed_out() <= next.handed_out()
        &&& data == chunk_bytes(self.chunks(), self.handed_out(), next.handed_out())
    }

    proof fn lemma_yields_nothing(r: &Self) {
        assert(chunk_bytes(r.chunks(), r.handed_out(), r.handed_out()) =~= Seq::<u8>::empty());
    }

    proof fn lemma_yields_chain(a: &Self, b: &Self, c: &Self, d1: Seq<u8>, d2: Seq<u8>) {
        lemma_chunk_bytes_join(a.chunks(), a.handed_out(), b.handed_out(), c.handed_out());
    }

    /// A read hands out the next chunk with its flag, or, past the end of the list, an
    /// empty completing one without moving on.
    open spec fn hands_out(&self, next: &Self, data: Seq<u8>, done: bool) -> bool {
        &&& next.chunks() == self.chunks()
        &&& if 0 <= self.handed_out() < self.chunks().len() {
            &&& next.handed_out() == self.handed_out() + 1
            &&& data == self.chunks()[self.handed_out()].0@
            &&& done == self.chunks()[self.handed_out()].1
        } else {
            &&& next.handed_out() == self.handed_out()
            &&& data.len() == 0
            &&& done
        }
    }

    open spec fn may_wait() -> bool {
        false
    }

    proof fn lemma_hands_out_yields(a: &Self, b: &Self, data: Seq<u8>, done: bool) {
        let h = a.handed_out();
        assert(chunk_bytes(a.chunks(), h, h) =~= Seq::<u8>::empty());
        if 0 <= h < a.chunks().len() {
            assert(chunk_bytes(a.chunks(), h, h + 1) =~= a.chunks()[h].0@);
        } else {
            assert(data =~= Seq::<u8>::empty());
        }
    }

    fn read<'m>(&'m mut self, cx: &mut Context<'_>) -> (r: Poll<Result<ChunkHandle<'m>, Self::Error>>)
        ensures
            r matches Poll::Ready(Ok(h)) && {
                if (*old(self)).handed_out() < (*old(self)).chunks().len() {
                    &&& h.data() == (*old(self)).chunks()[(*old(self)).handed_out()].0@
                    &&& h.completed() == (*old(self)).chunks()[(*old(self)).handed_out()].1
                    &&& (*final(self)).handed_out() == (*old(self)).handed_out() + 1
                } else {
                    &&& h.data().len() == 0
                    &&& h.completed()
                    &&& *final(self) == *old(self)
                }
            },
    {
        if self.next < self.chunks.len() {
            let i: usize = self.next;
            self.next = i + 1;
            let chunk = &self.chunks[i];
            proof {
                assert(chunk_bytes(self.chunks@, i as int, i as int) =~= Seq::<u8>::empty());
                assert(chunk_bytes(self.chunks@, i as int, i + 1) =~= self.chunks@[i as int].0@);
            }
            Poll::Ready(Ok(ChunkHandle { data: chunk.0.as_slice(), done: chunk.1 }))
        } else {
            let h = ChunkHandle { data: &[], done: true };
            proof {
                assert(chunk_bytes(self.chunks@, self.next as int, self.next as int) =~= Seq::<u8>::empty());
                assert(h.data() =~= Seq::<u8>::empty());
            }
            Poll::Ready(Ok(h))
        }
    }
}

} // verus!
