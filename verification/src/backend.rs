//! The seam toward a formatting backend: writing a tree's display form goes
//! through a text writer whose io-level failures stand for formatting
//! failures and are mapped straight back, so the error's contents carry no
//! information.

use vstd::prelude::*;

verus! {

#[verifier::external_type_specification]
#[verifier::external_body]
pub struct ExFmtError(core::fmt::Error);

#[verifier::external_type_specification]
#[verifier::external_body]
pub struct ExIoError(std::io::Error);

/// Relies on std::io::Error::new: builds the one io error value that stands
/// for a formatting failure. Nothing is assumed about the value built.
#[verifier::external_body]
fn other_io_error() -> std::io::Error {
    std::io::Error::new(std::io::ErrorKind::Other, "fmt error")
}

/// Maps a formatting failure to the io error the text-writer shim reports.
/// The error value does not matter: the display layer maps any io error it
/// sees straight back to a formatting failure.
pub fn io_error(_err: core::fmt::Error) -> std::io::Error {
    other_io_error()
}

} // verus!
