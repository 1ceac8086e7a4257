//! HTTP/3 frame codec (RFC 9114 Section 7).
//!
//! Frames on HTTP/3 streams have the layout `Type (i), Length (i), Frame
//! Payload (..)` where `Type` and `Length` are QUIC variable-length integers
//! (RFC 9000 Section 16). This module provides:
//!
//! - [`FrameDecoder`]: an incremental, buffer-owning decoder. The driver feeds
//!   received bytes in and pulls completed [`Frame`]s out; `Ok(None)` means
//!   more input is needed. Unknown and reserved (grease) frame types are
//!   skipped without surfacing, per RFC 9114 Section 7.2.8.
//! - [`Frame::encode`]: the corresponding serializer.
//!
//! Parse-level validation follows RFC 9114 Section 7.1: a frame payload must
//! contain exactly the fields identified for its type; extra bytes and
//! truncated fields are `H3_FRAME_ERROR`, as are redundant (non-minimal)
//! variable-length integer encodings (Section 10.8, RFC 9000 Section 16).
//! HTTP/2 frame types without an HTTP/3 equivalent (PRIORITY, PING,
//! WINDOW_UPDATE, CONTINUATION) are `H3_FRAME_UNEXPECTED` (Section 7.2.8).
//!
//! What this module deliberately does *not* enforce is the driver's
//! (connection-state) job:
//!
//! - stream-type rules (which frame types are legal on which stream, and that
//!   SETTINGS is first on the control stream),
//! - `SETTINGS_MAX_FIELD_SECTION_SIZE` limits on HEADERS/PUSH_PROMISE payloads,
//! - push ID / stream ID semantics (`H3_ID_ERROR`).
//!
//! A clean end of stream (FIN) with `buffered() != 0` means the last frame was
//! truncated; RFC 9114 Section 7.1 requires that be treated as
//! `H3_FRAME_ERROR` by the driver.

pub mod decoder;
pub mod laws;
pub mod model;
pub mod settings;
pub mod varint;

pub use decoder::FrameDecoder;
pub use model::Frame;
pub use settings::{Setting, Settings};
pub use varint::{parse_varint, varint_size, write_varint};

use vstd::prelude::*;

use crate::h3::error::H3Error;

verus! {

/// The largest value a QUIC variable-length integer can carry.
pub const MAX_VARINT: u64 = 0x3fff_ffff_ffff_ffff;

/// Maximum number of setting identifiers accepted in one SETTINGS frame (RFC
/// 9114 Section 7.2.4).
///
/// Fewer than ten identifiers are defined. A frame carrying more than this is
/// abusive and is rejected with `H3_SETTINGS_ERROR`.
pub const MAX_SETTINGS_ENTRIES: usize = 32;

/// Maximum SETTINGS frame payload in bytes.
///
/// With [`MAX_SETTINGS_ENTRIES`] entries of at most 16 bytes each (two 8-byte
/// varints) no legitimate payload exceeds 512 bytes; this leaves 8x headroom
/// while preventing an attacker from forcing the decoder to buffer megabytes
/// before parsing. Oversized payloads are rejected with `H3_SETTINGS_ERROR` as
/// soon as the length is declared, without waiting for (or buffering) the full
/// payload.
pub const MAX_SETTINGS_PAYLOAD: u64 = 4096;

/// Maximum payload of any single HTTP/3 frame in bytes.
///
/// QUIC varint lengths reach 2^62-1, but buffering an unbounded payload before
/// parsing is a memory-exhaustion vector. This ceiling (parity with HTTP/2's
/// `MAX_FRAME_SIZE_LIMIT`) bounds per-frame buffering; larger declared lengths
/// are rejected with `H3_FRAME_ERROR` immediately.
pub const MAX_FRAME_PAYLOAD: u64 = 16_777_215;

/// `DATA` frame type (RFC 9114 Section 7.2.1).
pub const FRAME_DATA: u64 = 0x0;

/// `HEADERS` frame type (RFC 9114 Section 7.2.2).
pub const FRAME_HEADERS: u64 = 0x1;

/// `CANCEL_PUSH` frame type (RFC 9114 Section 7.2.3).
pub const FRAME_CANCEL_PUSH: u64 = 0x3;

/// `SETTINGS` frame type (RFC 9114 Section 7.2.4).
pub const FRAME_SETTINGS: u64 = 0x4;

/// `PUSH_PROMISE` frame type (RFC 9114 Section 7.2.5).
pub const FRAME_PUSH_PROMISE: u64 = 0x5;

/// `GOAWAY` frame type (RFC 9114 Section 7.2.6).
pub const FRAME_GOAWAY: u64 = 0x7;

/// `MAX_PUSH_ID` frame type (RFC 9114 Section 7.2.7).
pub const FRAME_MAX_PUSH_ID: u64 = 0xd;

/// `SETTINGS_QPACK_MAX_TABLE_CAPACITY` (RFC 9204 Section 5).
pub const SETTINGS_QPACK_MAX_TABLE_CAPACITY: u64 = 0x1;

/// `SETTINGS_MAX_FIELD_SECTION_SIZE` (RFC 9114 Section 7.2.4.1).
pub const SETTINGS_MAX_FIELD_SECTION_SIZE: u64 = 0x6;

/// `SETTINGS_QPACK_BLOCKED_STREAMS` (RFC 9204 Section 5).
pub const SETTINGS_QPACK_BLOCKED_STREAMS: u64 = 0x7;

/// `SETTINGS_ENABLE_CONNECT_PROTOCOL` (RFC 9114 Section 7.2.4.1).
pub const SETTINGS_ENABLE_CONNECT_PROTOCOL: u64 = 0x8;

/// `SETTINGS_H3_DATAGRAM` (RFC 9297 Section 3.1).
pub const SETTINGS_H3_DATAGRAM: u64 = 0x33;

/// Errors raised by [`FrameDecoder::next_frame`].
///
/// Each variant corresponds to a distinct RFC 9114 connection error code (see
/// [`FrameError::h3_code`]).
#[derive(Debug, Clone, Copy, PartialEq, Eq, Structural)]
pub enum FrameError {
    /// `H3_FRAME_ERROR` (0x0106): the frame payload does not exactly match the
    /// fields identified for its type, or a variable-length integer is encoded
    /// non-minimally (RFC 9114 Sections 7.1 and 10.8).
    Frame,
    /// `H3_FRAME_UNEXPECTED` (0x0105): an HTTP/2 frame type with no HTTP/3
    /// equivalent (PRIORITY, PING, WINDOW_UPDATE, CONTINUATION; RFC 9114
    /// Section 7.2.8).
    Unexpected(u64),
    /// `H3_SETTINGS_ERROR` (0x0109): a reserved setting identifier (0x02-0x05)
    /// or a duplicate identifier in one SETTINGS frame (RFC 9114 Section
    /// 7.2.4).
    Settings,
}

impl FrameError {
    /// The RFC 9114 connection error code for this error.
    pub fn h3_code(self) -> (code: u64)
        ensures
            code == match self {
                FrameError::Frame => 0x0106u64,
                FrameError::Unexpected(_) => 0x0105u64,
                FrameError::Settings => 0x0109u64,
            },
    {
        match self {
            FrameError::Frame => H3Error::FrameError.code(),
            FrameError::Unexpected(_) => H3Error::FrameUnexpected.code(),
            FrameError::Settings => H3Error::Settings.code(),
        }
    }
}

} // verus!
