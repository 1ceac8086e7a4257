//! HTTP/2 frame codec (RFC 9113 Section 6).
//!
//! Parses and writes the 9-octet frame header and every frame type: DATA,
//! HEADERS, PRIORITY, RST_STREAM, SETTINGS, PUSH_PROMISE, PING, GOAWAY,
//! WINDOW_UPDATE and CONTINUATION, including the PADDED and PRIORITY flags.
//! Validation covers frame-size limits, stream-id rules, settings values and
//! field-block continuation discipline. Unknown frame types are handed on.
//!
//! The decoder is incremental: feed it bytes with [`FrameDecoder::extend`] and
//! call [`FrameDecoder::next_frame`]; it returns `Ok(None)` until a complete
//! frame is buffered.

pub mod decoder;
pub mod laws;
pub mod model;
pub mod writer;

pub use decoder::{parse_frame, FrameDecoder};
pub use model::{Frame, Priority, Setting};
pub use writer::FrameWriter;

use vstd::prelude::*;

verus! {

/// Length of the fixed frame header (RFC 9113 Section 4.1).
pub const FRAME_HEADER_LEN: usize = 9;

/// The initial maximum frame payload size (RFC 9113 Section 4.2).
pub const DEFAULT_MAX_FRAME_SIZE: usize = 16_384;

/// The largest settable frame payload size (2^24-1).
pub const MAX_FRAME_SIZE_LIMIT: usize = 16_777_215;

/// The initial connection flow-control window (RFC 9113 Section 6.9.1). The
/// connection window is always 65535 octets initially; unlike the per-stream
/// window it cannot be raised via SETTINGS, only via WINDOW_UPDATE.
pub const DEFAULT_CONNECTION_WINDOW_SIZE: u32 = 65_535;

/// The initial per-stream flow-control window this server advertises via
/// SETTINGS (RFC 9113 Section 6.5.2). The protocol default is 65535, but
/// advertising a larger window (1MiB) reduces round-trips for large responses.
/// This is *only* for the window we advertise; the window the peer advertises
/// to us defaults to 65535 per RFC until its SETTINGS says otherwise.
pub const DEFAULT_INITIAL_WINDOW_SIZE: u32 = 1_048_576;

/// The largest legal flow-control window (2^31-1).
pub const MAX_WINDOW_SIZE: u32 = 2_147_483_647;

/// The HTTP/2 connection preface (RFC 9113 Section 3.5):
/// `PRI * HTTP/2.0`, an empty line, `SM`, an empty line.
pub const CLIENT_PREFACE: [u8; 24] = [
    0x50, 0x52, 0x49, 0x20, 0x2a, 0x20, 0x48, 0x54, 0x54, 0x50, 0x2f, 0x32, 0x2e, 0x30, 0x0d, 0x0a,
    0x0d, 0x0a, 0x53, 0x4d, 0x0d, 0x0a, 0x0d, 0x0a,
];

pub const DATA_TYPE: u8 = 0x00;

pub const HEADERS_TYPE: u8 = 0x01;

pub const PRIORITY_TYPE: u8 = 0x02;

pub const RST_STREAM_TYPE: u8 = 0x03;

pub const SETTINGS_TYPE: u8 = 0x04;

pub const PUSH_PROMISE_TYPE: u8 = 0x05;

pub const PING_TYPE: u8 = 0x06;

pub const GOAWAY_TYPE: u8 = 0x07;

pub const WINDOW_UPDATE_TYPE: u8 = 0x08;

pub const CONTINUATION_TYPE: u8 = 0x09;

/// Flag bits shared across frame types (RFC 9113 Section 6).
pub const FLAG_END_STREAM: u8 = 0x01;

pub const FLAG_ACK: u8 = 0x01;

pub const FLAG_END_HEADERS: u8 = 0x04;

pub const FLAG_PADDED: u8 = 0x08;

pub const FLAG_PRIORITY: u8 = 0x20;

} // verus!
