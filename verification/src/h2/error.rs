//! HTTP/2 error codes (RFC 9113 Section 7) and frame-level violations.

use vstd::prelude::*;

verus! {

/// The reason given in RST_STREAM and GOAWAY frames (RFC 9113 Section 7).
#[derive(Debug, Clone, Copy, PartialEq, Eq, Structural)]
pub enum Reason {
    NoError,
    ProtocolError,
    InternalError,
    FlowControlError,
    SettingsTimeout,
    StreamClosed,
    FrameSizeError,
    RefusedStream,
    Cancel,
    CompressionError,
    ConnectError,
    EnhanceYourCalm,
    InadequateSecurity,
    Http11Required,
}

impl Reason {
    /// The code that stands for the reason on the wire.
    pub open spec fn code_spec(self) -> u32 {
        match self {
            Reason::NoError => 0x0,
            Reason::ProtocolError => 0x1,
            Reason::InternalError => 0x2,
            Reason::FlowControlError => 0x3,
            Reason::SettingsTimeout => 0x4,
            Reason::StreamClosed => 0x5,
            Reason::FrameSizeError => 0x6,
            Reason::RefusedStream => 0x7,
            Reason::Cancel => 0x8,
            Reason::CompressionError => 0x9,
            Reason::ConnectError => 0xa,
            Reason::EnhanceYourCalm => 0xb,
            Reason::InadequateSecurity => 0xc,
            Reason::Http11Required => 0xd,
        }
    }

    /// The code that stands for the reason on the wire.
    #[verifier::when_used_as_spec(code_spec)]
    pub fn code(self) -> (code: u32)
        ensures
            code == self.code_spec(),
    {
        match self {
            Reason::NoError => 0x0,
            Reason::ProtocolError => 0x1,
            Reason::InternalError => 0x2,
            Reason::FlowControlError => 0x3,
            Reason::SettingsTimeout => 0x4,
            Reason::StreamClosed => 0x5,
            Reason::FrameSizeError => 0x6,
            Reason::RefusedStream => 0x7,
            Reason::Cancel => 0x8,
            Reason::CompressionError => 0x9,
            Reason::ConnectError => 0xa,
            Reason::EnhanceYourCalm => 0xb,
            Reason::InadequateSecurity => 0xc,
            Reason::Http11Required => 0xd,
        }
    }
}

/// No two reasons share a code.
pub proof fn reason_codes_differ(a: Reason, b: Reason)
    ensures
        a.code() == b.code() ==> a == b,
{
}

/// A violation of the protocol that ends the connection: the reason that goes
/// into the GOAWAY frame and a description.
#[derive(Debug, Clone, Copy)]
pub struct H2Error {
    pub reason: Reason,
    pub message: &'static str,
}

/// What an [`H2Error`] says.
pub struct H2ErrorView {
    pub reason: Reason,
    pub message: Seq<char>,
}

impl View for H2Error {
    type V = H2ErrorView;

    open spec fn view(&self) -> H2ErrorView {
        H2ErrorView { reason: self.reason, message: self.message@ }
    }
}

impl H2Error {
    /// An error with the given reason.
    pub fn new(reason: Reason, message: &'static str) -> (error: H2Error)
        ensures
            error@ == (H2ErrorView { reason, message: message@ }),
    {
        H2Error { reason, message }
    }

    /// A PROTOCOL_ERROR.
    pub fn protocol(message: &'static str) -> (error: H2Error)
        ensures
            error@ == protocol_violation(message@),
    {
        H2Error { reason: Reason::ProtocolError, message }
    }

    /// A FRAME_SIZE_ERROR.
    pub fn frame_size(message: &'static str) -> (error: H2Error)
        ensures
            error@ == frame_size_violation(message@),
    {
        H2Error { reason: Reason::FrameSizeError, message }
    }
}

/// A PROTOCOL_ERROR with the given description.
pub open spec fn protocol_violation(message: Seq<char>) -> H2ErrorView {
    H2ErrorView { reason: Reason::ProtocolError, message }
}

/// A FRAME_SIZE_ERROR with the given description.
pub open spec fn frame_size_violation(message: Seq<char>) -> H2ErrorView {
    H2ErrorView { reason: Reason::FrameSizeError, message }
}

} // verus!
