//! Errors as they are reported to the embedder.

use vstd::prelude::*;
use vstd::string::StringExecFns;

use super::error::H3Error;
use crate::io_error::{self, io_error_other};
use crate::text::{self, push_decimal, push_hex};

verus! {

impl H3Error {
    /// The error's name.
    pub open spec fn name_text(self) -> Seq<char> {
        match self {
            H3Error::NoError => "NoError"@,
            H3Error::GeneralProtocol => "GeneralProtocol"@,
            H3Error::Internal => "Internal"@,
            H3Error::StreamCreation => "StreamCreation"@,
            H3Error::ClosedCriticalStream => "ClosedCriticalStream"@,
            H3Error::FrameUnexpected => "FrameUnexpected"@,
            H3Error::FrameError => "FrameError"@,
            H3Error::ExcessiveLoad => "ExcessiveLoad"@,
            H3Error::Id => "Id"@,
            H3Error::Settings => "Settings"@,
            H3Error::MissingSettings => "MissingSettings"@,
            H3Error::RequestRejected => "RequestRejected"@,
            H3Error::RequestCancelled => "RequestCancelled"@,
            H3Error::RequestIncomplete => "RequestIncomplete"@,
            H3Error::Message => "Message"@,
            H3Error::Connect => "Connect"@,
            H3Error::VersionFallback => "VersionFallback"@,
        }
    }

    /// The error's name.
    pub fn name(self) -> (name: &'static str)
        ensures
            name@ == self.name_text(),
    {
        match self {
            H3Error::NoError => "NoError",
            H3Error::GeneralProtocol => "GeneralProtocol",
            H3Error::Internal => "Internal",
            H3Error::StreamCreation => "StreamCreation",
            H3Error::ClosedCriticalStream => "ClosedCriticalStream",
            H3Error::FrameUnexpected => "FrameUnexpected",
            H3Error::FrameError => "FrameError",
            H3Error::ExcessiveLoad => "ExcessiveLoad",
            H3Error::Id => "Id",
            H3Error::Settings => "Settings",
            H3Error::MissingSettings => "MissingSettings",
            H3Error::RequestRejected => "RequestRejected",
            H3Error::RequestCancelled => "RequestCancelled",
            H3Error::RequestIncomplete => "RequestIncomplete",
            H3Error::Message => "Message",
            H3Error::Connect => "Connect",
            H3Error::VersionFallback => "VersionFallback",
        }
    }
}

/// The name of an HTTP/3 application error code. QPACK errors live in a separate
/// family (RFC 9204 Section 6).
pub open spec fn code_name(code: u64) -> Seq<char> {
    if exists|error: H3Error| error.code() == code {
        (choose|error: H3Error| error.code() == code).name_text()
    } else if code == 0x0200 {
        "QpackDecompressionFailed"@
    } else if code == 0x0201 {
        "QpackEncoderStream"@
    } else if code == 0x0202 {
        "QpackDecoderStream"@
    } else {
        "Unknown"@
    }
}

/// A known error's code has the error's name.
pub proof fn known_code_has_its_name(error: H3Error)
    ensures
        code_name(error.code()) == error.name_text(),
{
    let chosen = choose|e: H3Error| e.code() == error.code();
    assert(chosen.code() == error.code());
    super::error::error_codes_differ(chosen, error);
}

/// Human-readable name for an HTTP/3 application error code, if known.
pub fn h3_code_name(code: u64) -> (name: String)
    ensures
        name@ == code_name(code),
{
    if let Some(known) = H3Error::from_code(code) {
        proof {
            known_code_has_its_name(known);
        }
        String::from_str(known.name())
    } else if code == 0x0200 {
        String::from_str("QpackDecompressionFailed")
    } else if code == 0x0201 {
        String::from_str("QpackEncoderStream")
    } else if code == 0x0202 {
        String::from_str("QpackDecoderStream")
    } else {
        String::from_str("Unknown")
    }
}

/// The message for a connection torn down with the given application error code.
pub open spec fn connection_error_text(code: u64, detail: Option<Seq<char>>) -> Seq<char> {
    let head = "HTTP/3 connection error: "@ + code_name(code) + " ("@ + text::hex_text(code as nat)
        + ")"@;
    match detail {
        Some(d) => head + ": "@ + d,
        None => head,
    }
}

/// The message for a connection torn down with the given application error code.
pub fn h3_connection_error_message(code: u64, detail: Option<&str>) -> (message: String)
    ensures
        message@ == connection_error_text(
            code,
            match detail {
                Some(d) => Some(d@),
                None => None,
            },
        ),
{
    let name = h3_code_name(code);
    let mut message = String::from_str("HTTP/3 connection error: ");
    message.append(name.as_str());
    message.append(" (");
    push_hex(&mut message, code);
    message.append(")");
    if let Some(detail) = detail {
        message.append(": ");
        message.append(detail);
    }
    message
}

/// Builds a clear connection-level [`std::io::Error`] for an HTTP/3 connection
/// torn down with the given application error code.
pub fn h3_connection_error(code: u64, detail: Option<&str>) -> (error: std::io::Error)
    ensures
        error == io_error::other_error(
            connection_error_text(
                code,
                match detail {
                    Some(d) => Some(d@),
                    None => None,
                },
            ),
        ),
{
    io_error_other(h3_connection_error_message(code, detail))
}

/// The message for a stream failure.
pub open spec fn stream_error_text(stream_id: u64, error: Seq<char>) -> Seq<char> {
    "HTTP/3 stream "@ + text::decimal_text(stream_id as nat) + " error: "@ + error
}

/// Builds a stream-level [`std::io::Error`] for an HTTP/3 stream failure.
pub fn h3_stream_error(stream_id: u64, error: &str) -> (io_error: std::io::Error)
    ensures
        io_error == io_error::other_error(stream_error_text(stream_id, error@)),
{
    let mut message = String::from_str("HTTP/3 stream ");
    push_decimal(&mut message, stream_id);
    message.append(" error: ");
    message.append(error);
    io_error_other(message)
}

} // verus!
