//! Portable byte-oriented I/O traits, usable with or without an allocator or an operating
//! system, with adapters to and from other I/O ecosystems.
//!
//! Every operation is stated over a mathematical model of the stream: a reader says which
//! bytes one read may hand out, a writer which bytes one write may take, and the composite
//! operations (`read_exact`, `write_all`) are proved against those one-step relations.
use vstd::prelude::*;

pub mod adapters;
pub mod blocking;
pub mod asynch;

verus! {

/// Possible kinds of errors.
#[derive(Debug, Copy, Clone, PartialEq, Eq, Structural)]
#[non_exhaustive]
pub enum ErrorKind {
    /// Unspecified error kind.
    Other,
}

/// Error trait.
///
/// This trait allows generic code to do limited inspecting of errors,
/// to react differently to different kinds.
pub trait Error: core::fmt::Debug {
    /// The kind of this error, as a pure function of the value.
    spec fn kind_of(&self) -> ErrorKind;

    /// Get the kind of this error.
    fn kind(&self) -> (r: ErrorKind)
        ensures
            r == self.kind_of(),
    ;
}

/// `Infallible` has no values: an operation whose error type it is cannot fail.
impl Error for core::convert::Infallible {
    open spec fn kind_of(&self) -> ErrorKind {
        ErrorKind::Other
    }

    fn kind(&self) -> (r: ErrorKind) {
        // No value of this type exists, so this line is never reached.
        ErrorKind::Other
    }
}

/// An error kind is an error of its own kind.
impl Error for ErrorKind {
    open spec fn kind_of(&self) -> ErrorKind {
        *self
    }

    fn kind(&self) -> (r: ErrorKind) {
        *self
    }
}

/// Enumeration of possible methods to seek within an I/O object.
///
/// Semantics are the same as `std::io::SeekFrom`.
#[derive(Debug, Copy, Clone, PartialEq, Eq, Structural)]
pub enum SeekFrom {
    /// Sets the offset to the provided number of bytes.
    Start(u64),
    /// Sets the offset to the size of this object plus the specified number of bytes.
    End(i64),
    /// Sets the offset to the current position plus the specified number of bytes.
    Current(i64),
}

/// The host's seek enumeration; its variants are public and read as they are.
#[verifier::external_type_specification]
pub struct ExStdSeekFrom(std::io::SeekFrom);

/// The host seek origin that stands for `pos`: same variant, same offset.
pub open spec fn to_std_seek(pos: SeekFrom) -> std::io::SeekFrom {
    match pos {
        SeekFrom::Start(n) => std::io::SeekFrom::Start(n),
        SeekFrom::End(n) => std::io::SeekFrom::End(n),
        SeekFrom::Current(n) => std::io::SeekFrom::Current(n),
    }
}

/// The seek origin that stands for the host's `pos`: same variant, same offset.
pub open spec fn from_std_seek(pos: std::io::SeekFrom) -> SeekFrom {
    match pos {
        std::io::SeekFrom::Start(n) => SeekFrom::Start(n),
        std::io::SeekFrom::End(n) => SeekFrom::End(n),
        std::io::SeekFrom::Current(n) => SeekFrom::Current(n),
    }
}

impl From<SeekFrom> for std::io::SeekFrom {
    fn from(pos: SeekFrom) -> (r: std::io::SeekFrom)
        ensures
            r == to_std_seek(pos),
    {
        match pos {
            SeekFrom::Start(n) => std::io::SeekFrom::Start(n),
            SeekFrom::End(n) => std::io::SeekFrom::End(n),
            SeekFrom::Current(n) => std::io::SeekFrom::Current(n),
        }
    }
}

impl vstd::std_specs::convert::FromSpecImpl<SeekFrom> for std::io::SeekFrom {
    open spec fn obeys_from_spec() -> bool {
        true
    }

    open spec fn from_spec(pos: SeekFrom) -> std::io::SeekFrom {
        to_std_seek(pos)
    }
}

impl From<std::io::SeekFrom> for SeekFrom {
    fn from(pos: std::io::SeekFrom) -> (r: SeekFrom)
        ensures
            r == from_std_seek(pos),
    {
        match pos {
            std::io::SeekFrom::Start(n) => SeekFrom::Start(n),
            std::io::SeekFrom::End(n) => SeekFrom::End(n),
            std::io::SeekFrom::Current(n) => SeekFrom::Current(n),
        }
    }
}

impl vstd::std_specs::convert::FromSpecImpl<std::io::SeekFrom> for SeekFrom {
    open spec fn obeys_from_spec() -> bool {
        true
    }

    open spec fn from_spec(pos: std::io::SeekFrom) -> SeekFrom {
        from_std_seek(pos)
    }
}

/// Converting a seek origin to the host's representation and back gives the same value,
/// for every variant and every offset; and the same holds starting from the host's side.
pub proof fn lemma_seek_from_round_trip(pos: SeekFrom, host: std::io::SeekFrom)
    ensures
        from_std_seek(to_std_seek(pos)) == pos,
        to_std_seek(from_std_seek(host)) == host,
{
}

/// How many bytes move between a byte slice holding `available` of them and a buffer
/// with room for `room`: the smaller of the two.
pub open spec fn moved(available: nat, room: nat) -> nat {
    if available < room {
        available
    } else {
        room
    }
}

/// One read of at most `room` bytes from a byte slice holding `src`: the bytes handed out
/// and the slice left after them.
pub open spec fn slice_read(src: Seq<u8>, room: nat) -> (Seq<u8>, Seq<u8>) {
    let n = moved(src.len(), room) as int;
    (src.take(n), src.skip(n))
}

/// Reading a byte slice in two calls, of `k` bytes and then of the rest, hands out the
/// same bytes in the same order, and leaves the same slice, as one call of its whole
/// length.
pub proof fn lemma_slice_read_split(b: Seq<u8>, k: nat)
    requires
        k <= b.len(),
    ensures
        slice_read(b, k).0 + slice_read(slice_read(b, k).1, (b.len() - k) as nat).0 == slice_read(
            b,
            b.len(),
        ).0,
        slice_read(slice_read(b, k).1, (b.len() - k) as nat).1 == slice_read(b, b.len()).1,
{
    let first = slice_read(b, k);
    let second = slice_read(first.1, (b.len() - k) as nat);
    assert(first.0 + second.0 =~= b);
    assert(second.1 =~= b.skip(b.len() as int));
}

/// Base trait for all I/O traits.
///
/// All I/O operations of all traits return the error defined in this trait, so generic
/// code over several traits (`Read + Write`) handles a single error type.
pub trait Io {
    /// Error type of all the I/O operations on this type.
    type Error: Error;

    /// Holds when an operation on a value of this type may report an error; where it does
    /// not hold, every operation succeeds.
    spec fn may_fail() -> bool;
}

impl<T: Io + ?Sized> Io for &mut T {
    type Error = T::Error;

    open spec fn may_fail() -> bool {
        T::may_fail()
    }
}

impl<T: Io + ?Sized> Io for Box<T> {
    type Error = T::Error;

    open spec fn may_fail() -> bool {
        T::may_fail()
    }
}

impl<'a> Io for &'a [u8] {
    type Error = core::convert::Infallible;

    open spec fn may_fail() -> bool {
        false
    }
}

impl<'a> Io for &'a mut [u8] {
    type Error = core::convert::Infallible;

    open spec fn may_fail() -> bool {
        false
    }
}

impl Io for Vec<u8> {
    type Error = core::convert::Infallible;

    open spec fn may_fail() -> bool {
        false
    }
}

} // verus!
