//! I/O errors that carry a message.

use vstd::prelude::*;

verus! {

/// The standard library's I/O error.
#[verifier::external_type_specification]
#[verifier::external_body]
pub struct ExIoError(std::io::Error);

/// The I/O error of kind "other" with the given message.
pub uninterp spec fn other_error(message: Seq<char>) -> std::io::Error;

/// `std::io::Error::other`: an error of kind "other" that carries the message.
#[verifier::external_body]
pub(crate) fn io_error_other(message: String) -> (error: std::io::Error)
    ensures
        error == other_error(message@),
{
    std::io::Error::other(message)
}

/// Builds a stream-error [`std::io::Error`] with a human-readable message.
pub fn stream_error_io_error(message: String) -> (error: std::io::Error)
    ensures
        error == other_error(message@),
{
    io_error_other(message)
}

} // verus!
