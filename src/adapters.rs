//! Adapters to and from other I/O trait ecosystems.
//!
//! To interoperate with another ecosystem, wrap a value in one of these adapters. Each
//! adapter owns exactly one inner value, hands it back on `into_inner`, and lends it out
//! through `inner` and `inner_mut`.
//!
//! `ToStd` implements the host's `std::io::Read` and `std::io::Write` for a value of this
//! crate's blocking traits, turning its errors into host errors of kind `Other`.
//! `FromStd`, `FromFutures` and `FromTokio` own a value of the host, `futures` or `tokio`
//! ecosystem. The traits of those ecosystems cannot stand as bounds in verified code, so
//! this crate's traits are not implemented on these three; their inner values are driven
//! through `inner_mut`.
//!
//! Only the import direction exists for the poll-based models: exporting this crate's
//! async traits as theirs would need the adapter to keep an operation in flight that
//! borrows the adapter itself.
use core::fmt::Write as _;
use vstd::prelude::*;

mod futures_io;
mod std_io;
mod tokio_io;

pub use futures_io::FromFutures;
pub use std_io::{FromStd, ToStd};
pub use tokio_io::FromTokio;

verus! {

/// The host's I/O error, carried through as it is.
#[verifier::external_type_specification]
#[verifier::external_body]
pub struct ExIoError(std::io::Error);

/// Host I/O errors are all of the unspecified kind.
impl crate::Error for std::io::Error {
    open spec fn kind_of(&self) -> crate::ErrorKind {
        crate::ErrorKind::Other
    }

    fn kind(&self) -> (r: crate::ErrorKind) {
        crate::ErrorKind::Other
    }
}

/// The host's error categories, read variant by variant.
#[verifier::external_type_specification]
pub struct ExIoErrorKind(std::io::ErrorKind);

/// Relies on `write!` into a `String`: the debug rendering of `value`. A `Debug` impl that
/// reports an error of its own leaves the text as far as it got; nothing panics.
#[verifier::external_body]
fn debug_text<T: core::fmt::Debug>(value: &T) -> String {
    let mut text = String::new();
    let _ = write!(text, "{:?}", value);
    text
}

/// Relies on `std::io::Error::new`: a host error of category `kind` with message `text`.
#[verifier::external_body]
fn new_io_error(kind: std::io::ErrorKind, text: String) -> std::io::Error {
    std::io::Error::new(kind, text)
}

/// An error of this crate's traits as a host error: always of the generic category
/// `Other`, with the error's debug rendering as its message. Every error converts.
fn to_io_error<T: core::fmt::Debug>(err: T) -> std::io::Error {
    let text = debug_text(&err);
    new_io_error(std::io::ErrorKind::Other, text)
}

} // verus!
