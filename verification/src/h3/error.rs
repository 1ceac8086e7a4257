//! HTTP/3 error codes (RFC 9114 Section 8.1).

use vstd::prelude::*;

verus! {

/// The error codes with which streams are reset and connections closed (RFC
/// 9114 Section 8.1).
#[derive(Debug, Clone, Copy, PartialEq, Eq, Structural)]
pub enum H3Error {
    NoError,
    GeneralProtocol,
    Internal,
    StreamCreation,
    ClosedCriticalStream,
    FrameUnexpected,
    FrameError,
    ExcessiveLoad,
    Id,
    Settings,
    MissingSettings,
    RequestRejected,
    RequestCancelled,
    RequestIncomplete,
    Message,
    Connect,
    VersionFallback,
}

impl H3Error {
    /// The code that stands for the error on the wire.
    pub open spec fn code_spec(self) -> u64 {
        match self {
            H3Error::NoError => 0x0100,
            H3Error::GeneralProtocol => 0x0101,
            H3Error::Internal => 0x0102,
            H3Error::StreamCreation => 0x0103,
            H3Error::ClosedCriticalStream => 0x0104,
            H3Error::FrameUnexpected => 0x0105,
            H3Error::FrameError => 0x0106,
            H3Error::ExcessiveLoad => 0x0107,
            H3Error::Id => 0x0108,
            H3Error::Settings => 0x0109,
            H3Error::MissingSettings => 0x010a,
            H3Error::RequestRejected => 0x010b,
            H3Error::RequestCancelled => 0x010c,
            H3Error::RequestIncomplete => 0x010d,
            H3Error::Message => 0x010e,
            H3Error::Connect => 0x010f,
            H3Error::VersionFallback => 0x0110,
        }
    }

    /// The code that stands for the error on the wire.
    #[verifier::when_used_as_spec(code_spec)]
    pub fn code(self) -> (code: u64)
        ensures
            code == self.code_spec(),
    {
        match self {
            H3Error::NoError => 0x0100,
            H3Error::GeneralProtocol => 0x0101,
            H3Error::Internal => 0x0102,
            H3Error::StreamCreation => 0x0103,
            H3Error::ClosedCriticalStream => 0x0104,
            H3Error::FrameUnexpected => 0x0105,
            H3Error::FrameError => 0x0106,
            H3Error::ExcessiveLoad => 0x0107,
            H3Error::Id => 0x0108,
            H3Error::Settings => 0x0109,
            H3Error::MissingSettings => 0x010a,
            H3Error::RequestRejected => 0x010b,
            H3Error::RequestCancelled => 0x010c,
            H3Error::RequestIncomplete => 0x010d,
            H3Error::Message => 0x010e,
            H3Error::Connect => 0x010f,
            H3Error::VersionFallback => 0x0110,
        }
    }

    /// The error with the given code, if it is one of these.
    pub fn from_code(code: u64) -> (error: Option<H3Error>)
        ensures
            match error {
                Some(e) => e.code() == code,
                None => forall|e: H3Error| e.code() != code,
            },
    {
        match code {
            0x0100 => Some(H3Error::NoError),
            0x0101 => Some(H3Error::GeneralProtocol),
            0x0102 => Some(H3Error::Internal),
            0x0103 => Some(H3Error::StreamCreation),
            0x0104 => Some(H3Error::ClosedCriticalStream),
            0x0105 => Some(H3Error::FrameUnexpected),
            0x0106 => Some(H3Error::FrameError),
            0x0107 => Some(H3Error::ExcessiveLoad),
            0x0108 => Some(H3Error::Id),
            0x0109 => Some(H3Error::Settings),
            0x010a => Some(H3Error::MissingSettings),
            0x010b => Some(H3Error::RequestRejected),
            0x010c => Some(H3Error::RequestCancelled),
            0x010d => Some(H3Error::RequestIncomplete),
            0x010e => Some(H3Error::Message),
            0x010f => Some(H3Error::Connect),
            0x0110 => Some(H3Error::VersionFallback),
            _ => None,
        }
    }
}

/// No two errors share a code.
pub proof fn error_codes_differ(a: H3Error, b: H3Error)
    ensures
        a.code() == b.code() ==> a == b,
{
}

} // verus!
