//! The frames, what they say, and the wire format that relates the two.

use bytes::Bytes;
use vstd::prelude::*;

use super::{
    CONTINUATION_TYPE, DATA_TYPE, DEFAULT_MAX_FRAME_SIZE, FLAG_ACK, FLAG_END_HEADERS,
    FLAG_END_STREAM, FLAG_PADDED, FLAG_PRIORITY, FRAME_HEADER_LEN, GOAWAY_TYPE, HEADERS_TYPE,
    MAX_FRAME_SIZE_LIMIT, MAX_WINDOW_SIZE, PING_TYPE, PRIORITY_TYPE, PUSH_PROMISE_TYPE,
    RST_STREAM_TYPE, SETTINGS_TYPE, WINDOW_UPDATE_TYPE,
};
use crate::h2::error::{self, H2Error, H2ErrorView, Reason};
use crate::octets::{self, OctetView};

verus! {

/// Stream priority (RFC 9113 Section 6.3).
#[derive(Debug, Clone, Copy, PartialEq, Eq, Structural)]
pub struct Priority {
    pub exclusive: bool,
    pub dependency: u32,
    pub weight: u8,
}

/// A SETTINGS parameter (RFC 9113 Section 6.5.2).
#[derive(Debug, Clone, Copy, PartialEq, Eq, Structural)]
pub struct Setting {
    pub id: u16,
    pub value: u32,
}

/// A parsed frame. Payloads are zero-copy views over the decoder's buffer
/// (kept alive by `Bytes` refcounting until the frame is dropped); the
/// connection layer reassembles field blocks from the `block` fragments and
/// applies stream semantics. Padding, when present, is validated and stripped.
#[derive(Debug, Clone, PartialEq, Eq)]
#[allow(inconsistent_fields)]
pub enum Frame {
    Data { stream_id: u32, end_stream: bool, data: Bytes },
    Headers {
        stream_id: u32,
        end_stream: bool,
        end_headers: bool,
        priority: Option<Priority>,
        block: Bytes,
    },
    Priority { stream_id: u32, priority: Priority },
    Reset { stream_id: u32, error_code: u32 },
    Settings { ack: bool, settings: Vec<Setting> },
    PushPromise { stream_id: u32, end_headers: bool, promised_stream_id: u32, block: Bytes },
    Ping { ack: bool, payload: [u8; 8] },
    GoAway { last_stream_id: u32, error_code: u32, debug: Bytes },
    WindowUpdate { stream_id: u32, increment: u32 },
    Continuation { stream_id: u32, end_headers: bool, block: Bytes },
    /// A frame type this implementation does not understand; ignored by the
    /// connection (RFC 9113 Section 4.1).
    Unknown { typ: u8, flags: u8, stream_id: u32, payload: Bytes },
}

/// What a [`Frame`] says: its fields, with every buffer as the octets it holds.
#[verifier::ext_equal]
#[allow(inconsistent_fields)]
pub enum FrameView {
    Data { stream_id: u32, end_stream: bool, data: Seq<u8> },
    Headers {
        stream_id: u32,
        end_stream: bool,
        end_headers: bool,
        priority: Option<Priority>,
        block: Seq<u8>,
    },
    Priority { stream_id: u32, priority: Priority },
    Reset { stream_id: u32, error_code: u32 },
    Settings { ack: bool, settings: Seq<Setting> },
    PushPromise { stream_id: u32, end_headers: bool, promised_stream_id: u32, block: Seq<u8> },
    Ping { ack: bool, payload: Seq<u8> },
    GoAway { last_stream_id: u32, error_code: u32, debug: Seq<u8> },
    WindowUpdate { stream_id: u32, increment: u32 },
    Continuation { stream_id: u32, end_headers: bool, block: Seq<u8> },
    Unknown { typ: u8, flags: u8, stream_id: u32, payload: Seq<u8> },
}

impl View for Frame {
    type V = FrameView;

    open spec fn view(&self) -> FrameView {
        match *self {
            Frame::Data { stream_id, end_stream, data } => FrameView::Data {
                stream_id,
                end_stream,
                data: data@,
            },
            Frame::Headers { stream_id, end_stream, end_headers, priority, block } =>
                FrameView::Headers { stream_id, end_stream, end_headers, priority, block: block@ },
            Frame::Priority { stream_id, priority } => FrameView::Priority { stream_id, priority },
            Frame::Reset { stream_id, error_code } => FrameView::Reset { stream_id, error_code },
            Frame::Settings { ack, settings } => FrameView::Settings { ack, settings: settings@ },
            Frame::PushPromise { stream_id, end_headers, promised_stream_id, block } =>
                FrameView::PushPromise { stream_id, end_headers, promised_stream_id, block: block@ },
            Frame::Ping { ack, payload } => FrameView::Ping { ack, payload: payload@ },
            Frame::GoAway { last_stream_id, error_code, debug } => FrameView::GoAway {
                last_stream_id,
                error_code,
                debug: debug@,
            },
            Frame::WindowUpdate { stream_id, increment } => FrameView::WindowUpdate {
                stream_id,
                increment,
            },
            Frame::Continuation { stream_id, end_headers, block } => FrameView::Continuation {
                stream_id,
                end_headers,
                block: block@,
            },
            Frame::Unknown { typ, flags, stream_id, payload } => FrameView::Unknown {
                typ,
                flags,
                stream_id,
                payload: payload@,
            },
        }
    }
}

/// What a frame-level operation came to.
pub open spec fn frame_result(r: Result<Frame, H2Error>) -> Result<FrameView, H2ErrorView> {
    match r {
        Ok(frame) => Ok(frame@),
        Err(error) => Err(error@),
    }
}

/// What [`FrameDecoder::next_frame`](super::FrameDecoder::next_frame) came to.
pub open spec fn next_result(r: Result<Option<Frame>, H2Error>) -> Result<
    Option<FrameView>,
    H2ErrorView,
> {
    match r {
        Ok(Some(frame)) => Ok(Some(frame@)),
        Ok(None) => Ok(None),
        Err(error) => Err(error@),
    }
}

/// The state of a decoder: the octets not yet consumed, the largest payload
/// accepted and the stream whose field block is open.
#[verifier::ext_equal]
pub struct DecoderView {
    pub buf: Seq<u8>,
    pub max_frame_size: usize,
    pub block_stream: Option<u32>,
}

/// Whether a flag bit is set.
pub open spec fn flag(flags: u8, bit: u8) -> bool {
    flags & bit != 0
}

/// The `n` octets of `s` at `at` as a number.
pub open spec fn be_at(s: Seq<u8>, at: int, n: int) -> nat {
    octets::be_value(s.subrange(at, at + n))
}

/// A number without its 32nd bit, which is reserved wherever a stream
/// identifier or an increment stands on the wire.
pub open spec fn without_reserved_bit(v: nat) -> u32 {
    (v % 0x8000_0000) as u32
}

/// A payload without its pad-length octet and padding (RFC 9113 Section 6.1).
pub open spec fn unpadded(payload: Seq<u8>, padded: bool) -> Result<Seq<u8>, H2ErrorView> {
    if !padded {
        Ok(payload)
    } else if payload.len() == 0 {
        Err(error::frame_size_violation("PADDED frame payload too short for pad length"@))
    } else if payload[0] >= payload.len() {
        Err(
            error::protocol_violation(
                "padding length is the length of the frame payload or greater"@,
            ),
        )
    } else {
        Ok(payload.subrange(1, payload.len() - payload[0]))
    }
}

/// The priority fields that a payload of the given stream starts with.
pub open spec fn priority_of(body: Seq<u8>, stream_id: u32) -> Result<Priority, H2ErrorView> {
    if body.len() < 5 {
        Err(error::frame_size_violation("frame payload too short for priority fields"@))
    } else if without_reserved_bit(be_at(body, 0, 4)) == stream_id {
        Err(error::protocol_violation("stream priority depends on its own stream identifier"@))
    } else {
        Ok(
            Priority {
                exclusive: be_at(body, 0, 4) >= 0x8000_0000,
                dependency: without_reserved_bit(be_at(body, 0, 4)),
                weight: body[4],
            },
        )
    }
}

/// The parameters in a SETTINGS payload: one for every six octets.
pub open spec fn settings_of(payload: Seq<u8>) -> Seq<Setting> {
    Seq::new(
        payload.len() / 6,
        |i: int|
            Setting {
                id: be_at(payload, 6 * i, 2) as u16,
                value: be_at(payload, 6 * i + 2, 4) as u32,
            },
    )
}

/// What is wrong with a SETTINGS parameter (RFC 9113 Section 6.5.2), if
/// anything. Unknown identifiers are accepted.
pub open spec fn setting_violation(setting: Setting) -> Option<H2ErrorView> {
    if setting.id == 0x02 && setting.value > 1 {
        Some(error::protocol_violation("SETTINGS_ENABLE_PUSH must be 0 or 1"@))
    } else if setting.id == 0x04 && setting.value > MAX_WINDOW_SIZE {
        Some(
            H2ErrorView {
                reason: Reason::FlowControlError,
                message: "SETTINGS_INITIAL_WINDOW_SIZE exceeds 2^31-1"@,
            },
        )
    } else if setting.id == 0x05 && !(DEFAULT_MAX_FRAME_SIZE <= setting.value
        <= MAX_FRAME_SIZE_LIMIT) {
        Some(error::protocol_violation("SETTINGS_MAX_FRAME_SIZE outside 16384..16777215"@))
    } else {
        None
    }
}

/// The violation of the first parameter, from index `from` on, that has one.
pub open spec fn settings_violation(settings: Seq<Setting>, from: nat) -> Option<H2ErrorView>
    decreases settings.len() - from,
{
    if from >= settings.len() {
        None
    } else {
        match setting_violation(settings[from as int]) {
            Some(error) => Some(error),
            None => settings_violation(settings, from + 1),
        }
    }
}

/// The last SETTINGS_MAX_FRAME_SIZE among the parameters, or else `before`.
pub open spec fn max_frame_size_after(settings: Seq<Setting>, before: usize) -> usize
    decreases settings.len(),
{
    if settings.len() == 0 {
        before
    } else if settings.last().id == 0x05 {
        settings.last().value as usize
    } else {
        max_frame_size_after(settings.drop_last(), before)
    }
}

/// The open field block forbids every frame but a CONTINUATION of the same
/// stream, and a CONTINUATION needs an open block (RFC 9113 Section 6.10).
pub open spec fn continuation_violation(
    block_stream: Option<u32>,
    typ: u8,
    stream_id: u32,
) -> Option<H2ErrorView> {
    match block_stream {
        Some(open) => if typ != CONTINUATION_TYPE {
            Some(error::protocol_violation("frame received while field block was open"@))
        } else if stream_id != open {
            Some(
                error::protocol_violation(
                    "CONTINUATION frame on a different stream than the open field block"@,
                ),
            )
        } else {
            None
        },
        None => if typ == CONTINUATION_TYPE {
            Some(
                error::protocol_violation(
                    "CONTINUATION frame without a preceding HEADERS or PUSH_PROMISE"@,
                ),
            )
        } else {
            None
        },
    }
}

/// The error for a stream-bound frame on stream 0.
pub open spec fn stream_required() -> H2ErrorView {
    error::protocol_violation("frame must use a non-zero stream identifier"@)
}

/// A DATA frame (RFC 9113 Section 6.1).
pub open spec fn data_frame(flags: u8, stream_id: u32, payload: Seq<u8>) -> Result<
    FrameView,
    H2ErrorView,
> {
    if stream_id == 0 {
        Err(stream_required())
    } else {
        match unpadded(payload, flag(flags, FLAG_PADDED)) {
            Err(error) => Err(error),
            Ok(data) => Ok(
                FrameView::Data { stream_id, end_stream: flag(flags, FLAG_END_STREAM), data },
            ),
        }
    }
}

/// A HEADERS frame (RFC 9113 Section 6.2).
pub open spec fn headers_frame(flags: u8, stream_id: u32, payload: Seq<u8>) -> Result<
    FrameView,
    H2ErrorView,
> {
    let end_stream = flag(flags, FLAG_END_STREAM);
    let end_headers = flag(flags, FLAG_END_HEADERS);
    if stream_id == 0 {
        Err(stream_required())
    } else {
        match unpadded(payload, flag(flags, FLAG_PADDED)) {
            Err(error) => Err(error),
            Ok(body) => if flag(flags, FLAG_PRIORITY) {
                match priority_of(body, stream_id) {
                    Err(error) => Err(error),
                    Ok(priority) => Ok(
                        FrameView::Headers {
                            stream_id,
                            end_stream,
                            end_headers,
                            priority: Some(priority),
                            block: body.subrange(5, body.len() as int),
                        },
                    ),
                }
            } else {
                Ok(
                    FrameView::Headers {
                        stream_id,
                        end_stream,
                        end_headers,
                        priority: None,
                        block: body,
                    },
                )
            },
        }
    }
}

/// A PRIORITY frame (RFC 9113 Section 6.3).
pub open spec fn priority_frame(stream_id: u32, payload: Seq<u8>) -> Result<
    FrameView,
    H2ErrorView,
> {
    if stream_id == 0 {
        Err(stream_required())
    } else if payload.len() != 5 {
        Err(error::frame_size_violation("PRIORITY frame payload must be exactly 5 octets"@))
    } else {
        match priority_of(payload, stream_id) {
            Err(error) => Err(error),
            Ok(priority) => Ok(FrameView::Priority { stream_id, priority }),
        }
    }
}

/// An RST_STREAM frame (RFC 9113 Section 6.4).
pub open spec fn reset_frame(stream_id: u32, payload: Seq<u8>) -> Result<FrameView, H2ErrorView> {
    if stream_id == 0 {
        Err(stream_required())
    } else if payload.len() != 4 {
        Err(error::frame_size_violation("RST_STREAM frame payload must be exactly 4 octets"@))
    } else {
        Ok(FrameView::Reset { stream_id, error_code: be_at(payload, 0, 4) as u32 })
    }
}

/// A SETTINGS frame (RFC 9113 Section 6.5).
pub open spec fn settings_frame(flags: u8, stream_id: u32, payload: Seq<u8>) -> Result<
    FrameView,
    H2ErrorView,
> {
    if stream_id != 0 {
        Err(error::protocol_violation("SETTINGS frame must use stream identifier 0"@))
    } else if flag(flags, FLAG_ACK) && payload.len() != 0 {
        Err(error::frame_size_violation("SETTINGS frame with ACK flag must have an empty payload"@))
    } else if payload.len() % 6 != 0 {
        Err(error::frame_size_violation("SETTINGS frame payload must be a multiple of 6 octets"@))
    } else {
        match settings_violation(settings_of(payload), 0) {
            Some(error) => Err(error),
            None => Ok(
                FrameView::Settings { ack: flag(flags, FLAG_ACK), settings: settings_of(payload) },
            ),
        }
    }
}

/// A PUSH_PROMISE frame (RFC 9113 Section 6.6).
pub open spec fn push_promise_frame(flags: u8, stream_id: u32, payload: Seq<u8>) -> Result<
    FrameView,
    H2ErrorView,
> {
    if stream_id == 0 {
        Err(stream_required())
    } else {
        match unpadded(payload, flag(flags, FLAG_PADDED)) {
            Err(error) => Err(error),
            Ok(body) => if body.len() < 4 {
                Err(
                    error::frame_size_violation(
                        "PUSH_PROMISE frame payload must be at least 4 octets"@,
                    ),
                )
            } else if without_reserved_bit(be_at(body, 0, 4)) == 0 {
                Err(error::protocol_violation("PUSH_PROMISE promised stream identifier is 0"@))
            } else {
                Ok(
                    FrameView::PushPromise {
                        stream_id,
                        end_headers: flag(flags, FLAG_END_HEADERS),
                        promised_stream_id: without_reserved_bit(be_at(body, 0, 4)),
                        block: body.subrange(4, body.len() as int),
                    },
                )
            },
        }
    }
}

/// A PING frame (RFC 9113 Section 6.7).
pub open spec fn ping_frame(flags: u8, stream_id: u32, payload: Seq<u8>) -> Result<
    FrameView,
    H2ErrorView,
> {
    if stream_id != 0 {
        Err(error::protocol_violation("PING frame must use stream identifier 0"@))
    } else if payload.len() != 8 {
        Err(error::frame_size_violation("PING frame payload must be exactly 8 octets"@))
    } else {
        Ok(FrameView::Ping { ack: flag(flags, FLAG_ACK), payload })
    }
}

/// A GOAWAY frame (RFC 9113 Section 6.8).
pub open spec fn goaway_frame(stream_id: u32, payload: Seq<u8>) -> Result<FrameView, H2ErrorView> {
    if stream_id != 0 {
        Err(error::protocol_violation("GOAWAY frame must use stream identifier 0"@))
    } else if payload.len() < 8 {
        Err(error::frame_size_violation("GOAWAY frame payload must be at least 8 octets"@))
    } else {
        Ok(
            FrameView::GoAway {
                last_stream_id: without_reserved_bit(be_at(payload, 0, 4)),
                error_code: be_at(payload, 4, 4) as u32,
                debug: payload.subrange(8, payload.len() as int),
            },
        )
    }
}

/// A WINDOW_UPDATE frame (RFC 9113 Section 6.9).
pub open spec fn window_update_frame(stream_id: u32, payload: Seq<u8>) -> Result<
    FrameView,
    H2ErrorView,
> {
    if payload.len() != 4 {
        Err(error::frame_size_violation("WINDOW_UPDATE frame payload must be exactly 4 octets"@))
    } else if without_reserved_bit(be_at(payload, 0, 4)) == 0 {
        Err(error::protocol_violation("WINDOW_UPDATE frame with zero increment"@))
    } else {
        Ok(
            FrameView::WindowUpdate {
                stream_id,
                increment: without_reserved_bit(be_at(payload, 0, 4)),
            },
        )
    }
}

/// What a frame with the given header and payload says.
#[verifier::opaque]
pub open spec fn frame_of(typ: u8, flags: u8, stream_id: u32, payload: Seq<u8>) -> Result<
    FrameView,
    H2ErrorView,
> {
    if typ == DATA_TYPE {
        data_frame(flags, stream_id, payload)
    } else if typ == HEADERS_TYPE {
        headers_frame(flags, stream_id, payload)
    } else if typ == PRIORITY_TYPE {
        priority_frame(stream_id, payload)
    } else if typ == RST_STREAM_TYPE {
        reset_frame(stream_id, payload)
    } else if typ == SETTINGS_TYPE {
        settings_frame(flags, stream_id, payload)
    } else if typ == PUSH_PROMISE_TYPE {
        push_promise_frame(flags, stream_id, payload)
    } else if typ == PING_TYPE {
        ping_frame(flags, stream_id, payload)
    } else if typ == GOAWAY_TYPE {
        goaway_frame(stream_id, payload)
    } else if typ == WINDOW_UPDATE_TYPE {
        window_update_frame(stream_id, payload)
    } else if typ == CONTINUATION_TYPE {
        Ok(
            FrameView::Continuation {
                stream_id,
                end_headers: flag(flags, FLAG_END_HEADERS),
                block: payload,
            },
        )
    } else {
        Ok(FrameView::Unknown { typ, flags, stream_id, payload })
    }
}

/// The decoder after it has handed out `frame`: a frame opens or ends a field
/// block, and a peer's SETTINGS_MAX_FRAME_SIZE takes effect at once.
pub open spec fn after_frame(d: DecoderView, frame: FrameView) -> DecoderView {
    match frame {
        FrameView::Headers { stream_id, end_headers, .. } if !end_headers => DecoderView {
            block_stream: Some(stream_id),
            ..d
        },
        FrameView::PushPromise { stream_id, end_headers, .. } if !end_headers => DecoderView {
            block_stream: Some(stream_id),
            ..d
        },
        FrameView::Continuation { end_headers, .. } if end_headers => DecoderView {
            block_stream: None,
            ..d
        },
        FrameView::Settings { ack, settings } if !ack => DecoderView {
            max_frame_size: max_frame_size_after(settings, d.max_frame_size),
            ..d
        },
        _ => d,
    }
}

/// Parsing one complete frame payload: the decoder afterwards and the outcome.
pub open spec fn parse_step(
    d: DecoderView,
    typ: u8,
    flags: u8,
    stream_id: u32,
    payload: Seq<u8>,
) -> (DecoderView, Result<FrameView, H2ErrorView>) {
    match continuation_violation(d.block_stream, typ, stream_id) {
        Some(error) => (d, Err(error)),
        None => match frame_of(typ, flags, stream_id, payload) {
            Err(error) => (d, Err(error)),
            Ok(frame) => (after_frame(d, frame), Ok(frame)),
        },
    }
}

/// The payload length in a frame header.
pub open spec fn header_len(buf: Seq<u8>) -> nat {
    be_at(buf, 0, 3)
}

/// Taking the next frame off the buffer: the decoder afterwards and the
/// outcome. Nothing is consumed until the frame is complete; an oversized
/// frame is refused as soon as its header is there.
pub open spec fn next_step(d: DecoderView) -> (
    DecoderView,
    Result<Option<FrameView>, H2ErrorView>,
) {
    if d.buf.len() < FRAME_HEADER_LEN {
        (d, Ok(None))
    } else if header_len(d.buf) > d.max_frame_size {
        (d, Err(error::frame_size_violation("frame payload exceeds SETTINGS_MAX_FRAME_SIZE"@)))
    } else if d.buf.len() < FRAME_HEADER_LEN + header_len(d.buf) {
        (d, Ok(None))
    } else {
        let end = (FRAME_HEADER_LEN + header_len(d.buf)) as int;
        let consumed = DecoderView { buf: d.buf.subrange(end, d.buf.len() as int), ..d };
        let (after, outcome) = parse_step(
            consumed,
            d.buf[3],
            d.buf[4],
            without_reserved_bit(be_at(d.buf, 5, 4)),
            d.buf.subrange(FRAME_HEADER_LEN as int, end),
        );
        match outcome {
            Ok(frame) => (after, Ok(Some(frame))),
            Err(error) => (after, Err(error)),
        }
    }
}

/// A frame on the wire: the 9-octet header, whose length field holds the last
/// three octets of the payload's length, and the payload.
pub open spec fn wire_frame(typ: u8, flags: u8, stream_id: u32, payload: Seq<u8>) -> Seq<u8> {
    octets::be_octets(payload.len(), 3) + seq![typ, flags] + octets::be_octets(
        without_reserved_bit(stream_id as nat) as nat,
        4,
    ) + payload
}

/// A flag bit, if wanted.
pub open spec fn flag_if(set: bool, bit: u8) -> u8 {
    if set {
        bit
    } else {
        0
    }
}

/// The five octets of the priority fields.
pub open spec fn priority_octets(priority: Priority) -> Seq<u8> {
    octets::be_octets(
        without_reserved_bit(priority.dependency as nat) as nat + if priority.exclusive {
            0x8000_0000nat
        } else {
            0
        },
        4,
    ).push(priority.weight)
}

/// The octets of SETTINGS parameters.
pub open spec fn settings_octets(settings: Seq<Setting>) -> Seq<u8>
    decreases settings.len(),
{
    if settings.len() == 0 {
        Seq::empty()
    } else {
        settings_octets(settings.drop_last()) + octets::be_octets(settings.last().id as nat, 2)
            + octets::be_octets(settings.last().value as nat, 4)
    }
}

/// The type octet of a frame.
pub open spec fn type_of(frame: FrameView) -> u8 {
    match frame {
        FrameView::Data { .. } => DATA_TYPE,
        FrameView::Headers { .. } => HEADERS_TYPE,
        FrameView::Priority { .. } => PRIORITY_TYPE,
        FrameView::Reset { .. } => RST_STREAM_TYPE,
        FrameView::Settings { .. } => SETTINGS_TYPE,
        FrameView::PushPromise { .. } => PUSH_PROMISE_TYPE,
        FrameView::Ping { .. } => PING_TYPE,
        FrameView::GoAway { .. } => GOAWAY_TYPE,
        FrameView::WindowUpdate { .. } => WINDOW_UPDATE_TYPE,
        FrameView::Continuation { .. } => CONTINUATION_TYPE,
        FrameView::Unknown { typ, .. } => typ,
    }
}

/// The flags octet of a frame.
pub open spec fn flags_of(frame: FrameView) -> u8 {
    match frame {
        FrameView::Data { end_stream, .. } => flag_if(end_stream, FLAG_END_STREAM),
        FrameView::Headers { end_stream, end_headers, priority, .. } => flag_if(
            end_stream,
            FLAG_END_STREAM,
        ) | flag_if(end_headers, FLAG_END_HEADERS) | flag_if(priority is Some, FLAG_PRIORITY),
        FrameView::Settings { ack, .. } => flag_if(ack, FLAG_ACK),
        FrameView::PushPromise { end_headers, .. } => flag_if(end_headers, FLAG_END_HEADERS),
        FrameView::Ping { ack, .. } => flag_if(ack, FLAG_ACK),
        FrameView::Continuation { end_headers, .. } => flag_if(end_headers, FLAG_END_HEADERS),
        FrameView::Unknown { flags, .. } => flags,
        _ => 0,
    }
}

/// The stream that a frame belongs to, or 0.
pub open spec fn stream_of(frame: FrameView) -> u32 {
    match frame {
        FrameView::Data { stream_id, .. } => stream_id,
        FrameView::Headers { stream_id, .. } => stream_id,
        FrameView::Priority { stream_id, .. } => stream_id,
        FrameView::Reset { stream_id, .. } => stream_id,
        FrameView::PushPromise { stream_id, .. } => stream_id,
        FrameView::WindowUpdate { stream_id, .. } => stream_id,
        FrameView::Continuation { stream_id, .. } => stream_id,
        FrameView::Unknown { stream_id, .. } => stream_id,
        _ => 0,
    }
}

/// The payload that carries a frame, without padding.
pub open spec fn payload_of(frame: FrameView) -> Seq<u8> {
    match frame {
        FrameView::Data { data, .. } => data,
        FrameView::Headers { priority, block, .. } => match priority {
            Some(p) => priority_octets(p) + block,
            None => block,
        },
        FrameView::Priority { priority, .. } => priority_octets(priority),
        FrameView::Reset { error_code, .. } => octets::be_octets(error_code as nat, 4),
        FrameView::Settings { settings, .. } => settings_octets(settings),
        FrameView::PushPromise { promised_stream_id, block, .. } => octets::be_octets(
            without_reserved_bit(promised_stream_id as nat) as nat,
            4,
        ) + block,
        FrameView::Ping { payload, .. } => payload,
        FrameView::GoAway { last_stream_id, error_code, debug } => octets::be_octets(
            without_reserved_bit(last_stream_id as nat) as nat,
            4,
        ) + octets::be_octets(error_code as nat, 4) + debug,
        FrameView::WindowUpdate { increment, .. } => octets::be_octets(
            without_reserved_bit(increment as nat) as nat,
            4,
        ),
        FrameView::Continuation { block, .. } => block,
        FrameView::Unknown { payload, .. } => payload,
    }
}

/// The wire form of a frame, without padding.
#[verifier::opaque]
pub open spec fn wire(frame: FrameView) -> Seq<u8> {
    wire_frame(type_of(frame), flags_of(frame), stream_of(frame), payload_of(frame))
}

} // verus!
