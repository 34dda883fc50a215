//! The error taxonomy of traversal.

use vstd::prelude::*;

verus! {

/// Why a traversal request failed.
///
/// No operation here retries anything: an error means the requester broke
/// the traversal protocol, asked a leaf for a shape it does not hold, or the
/// sink or source behind the traversal failed on its own.
#[derive(Clone, Copy, Debug, PartialEq, Eq, Structural)]
pub enum Error {
    /// A value was requested without a preceding key request, or a key was
    /// requested while a value was still pending. Fatal to the traversal.
    ProtocolViolation,
    /// A leaf's held value cannot satisfy the requested shape, for example a
    /// numeric request against a string leaf.
    DecodeMismatch,
    /// The sink or source driving the traversal reported its own error; it
    /// is propagated unchanged and never interpreted here.
    BackendFailure,
}

impl Error {
    /// A short description of the failure.
    pub fn message(&self) -> (r: &'static str)
        ensures
            *self is ProtocolViolation ==> r@ == "protocol violation"@,
            *self is DecodeMismatch ==> r@ == "decode mismatch"@,
            *self is BackendFailure ==> r@ == "backend failure"@,
    {
        match self {
            Error::ProtocolViolation => "protocol violation",
            Error::DecodeMismatch => "decode mismatch",
            Error::BackendFailure => "backend failure",
        }
    }
}

} // verus!
