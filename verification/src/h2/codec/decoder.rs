//! The incremental frame decoder.

use bytes::{Bytes, BytesMut};
use vstd::prelude::*;

use super::model::{self, DecoderView, Frame, Priority, Setting};
use super::{
    CONTINUATION_TYPE, DATA_TYPE, DEFAULT_MAX_FRAME_SIZE, FLAG_ACK, FLAG_END_HEADERS,
    FLAG_END_STREAM, FLAG_PADDED, FLAG_PRIORITY, FRAME_HEADER_LEN, GOAWAY_TYPE, HEADERS_TYPE,
    MAX_FRAME_SIZE_LIMIT, MAX_WINDOW_SIZE, PING_TYPE, PRIORITY_TYPE, PUSH_PROMISE_TYPE,
    RST_STREAM_TYPE, SETTINGS_TYPE, WINDOW_UPDATE_TYPE,
};
use crate::h2::error::{H2Error, Reason};
use crate::octets::{
    self, bytes_mut_slice, bytes_range, bytes_slice, low31, read_be16, read_be24, read_be32,
    OctetView,
};

verus! {

/// Incremental frame decoder over a growing buffer.
#[derive(Debug)]
pub struct FrameDecoder {
    buf: BytesMut,
    max_frame_size: usize,
    /// The stream whose field block is open (HEADERS/PUSH_PROMISE without
    /// END_HEADERS was seen); only CONTINUATION frames for that stream may
    /// follow.
    block_stream: Option<u32>,
}

impl View for FrameDecoder {
    type V = DecoderView;

    closed spec fn view(&self) -> DecoderView {
        DecoderView {
            buf: self.buf@,
            max_frame_size: self.max_frame_size,
            block_stream: self.block_stream,
        }
    }
}

impl FrameDecoder {
    /// Creates a decoder enforcing the given maximum frame payload size.
    pub fn new(max_frame_size: usize) -> (decoder: FrameDecoder)
        ensures
            decoder@ == (DecoderView { buf: Seq::empty(), max_frame_size, block_stream: None }),
    {
        FrameDecoder { buf: BytesMut::new(), max_frame_size, block_stream: None }
    }

    /// Appends bytes to the decode buffer.
    pub fn extend(&mut self, bytes: &[u8])
        requires
            old(self)@.buf.len() + bytes@.len() <= isize::MAX,
        ensures
            final(self)@ == (DecoderView { buf: old(self)@.buf + bytes@, ..old(self)@ }),
    {
        self.buf.extend_from_slice(bytes);
    }

    /// The number of bytes in the decode buffer.
    pub fn buffered(&self) -> (n: usize)
        ensures
            n == self@.buf.len(),
    {
        self.buf.len()
    }

    /// The maximum frame payload size the peer may send.
    pub fn max_frame_size(&self) -> (n: usize)
        ensures
            n == self@.max_frame_size,
    {
        self.max_frame_size
    }

    /// Adjusts the frame-size limit after SETTINGS_MAX_FRAME_SIZE.
    pub fn set_max_frame_size(&mut self, max_frame_size: usize)
        ensures
            final(self)@ == (DecoderView { max_frame_size, ..old(self)@ }),
    {
        self.max_frame_size = max_frame_size;
    }

    /// The stream with an open field block, if any.
    pub fn block_stream(&self) -> (stream: Option<u32>)
        ensures
            stream == self@.block_stream,
    {
        self.block_stream
    }

    /// Forgets any open field block. Used when a stream is reset mid-block
    /// (e.g. a CONTINUATION flood) so subsequent frames are not all treated as
    /// protocol violations for the now-gone stream.
    pub fn clear_block(&mut self)
        ensures
            final(self)@ == (DecoderView { block_stream: None, ..old(self)@ }),
    {
        self.block_stream = None;
    }

    /// Parses the next complete frame. Returns `Ok(None)` when more bytes are
    /// needed.
    pub fn next_frame(&mut self) -> (result: Result<Option<Frame>, H2Error>)
        ensures
            (final(self)@, model::next_result(result)) == model::next_step(old(self)@),
    {
        if self.buf.len() < FRAME_HEADER_LEN {
            return Ok(None);
        }
        let ghost buf = self.buf@;
        let head = bytes_mut_slice(&self.buf);
        // 24-bit big-endian payload length.
        let payload_len: usize = read_be24(head, 0) as usize;
        let typ: u8 = head[3];
        let flags: u8 = head[4];
        // RFC 9113 Section 4.1: the high bit of the stream identifier field is
        // reserved and MUST be ignored, not treated as an error.
        let stream_id: u32 = low31(read_be32(head, 5));

        if payload_len > self.max_frame_size {
            return Err(H2Error::frame_size("frame payload exceeds SETTINGS_MAX_FRAME_SIZE"));
        }
        let total: usize = FRAME_HEADER_LEN + payload_len;
        if self.buf.len() < total {
            return Ok(None);
        }
        let _header = self.buf.split_to(FRAME_HEADER_LEN);
        let payload = self.buf.split_to(payload_len).freeze();
        proof {
            assert(payload@ =~= buf.subrange(FRAME_HEADER_LEN as int, total as int));
            assert(self.buf@ =~= buf.subrange(total as int, buf.len() as int));
        }
        match parse_frame(typ, flags, stream_id, payload, self) {
            Ok(frame) => Ok(Some(frame)),
            Err(error) => Err(error),
        }
    }

    /// Takes note of a frame that is about to be handed out: it may open or
    /// end a field block or change the frame-size limit.
    fn note_frame(&mut self, frame: &Frame)
        ensures
            final(self)@ == model::after_frame(old(self)@, frame@),
    {
        match frame {
            Frame::Headers { stream_id, end_headers, .. } => {
                if !*end_headers {
                    self.block_stream = Some(*stream_id);
                }
            },
            Frame::PushPromise { stream_id, end_headers, .. } => {
                if !*end_headers {
                    self.block_stream = Some(*stream_id);
                }
            },
            Frame::Continuation { end_headers, .. } => {
                if *end_headers {
                    self.block_stream = None;
                }
            },
            // The peer's announced SETTINGS_MAX_FRAME_SIZE governs what it may
            // send; adopt it immediately so later frames in this buffer are
            // checked against it.
            Frame::Settings { ack, settings } => {
                if !*ack {
                    adopt_max_frame_size(self, settings);
                }
            },
            _ => {},
        }
    }
}

/// Parses one complete frame payload (after the 9-octet header).
pub fn parse_frame(
    typ: u8,
    flags: u8,
    stream_id: u32,
    payload: Bytes,
    decoder: &mut FrameDecoder,
) -> (result: Result<Frame, H2Error>)
    ensures
        (final(decoder)@, model::frame_result(result)) == model::parse_step(
            old(decoder)@,
            typ,
            flags,
            stream_id,
            payload@,
        ),
{
    // Field-block continuation discipline (RFC 9113 Section 6.10).
    if let Some(open_stream) = decoder.block_stream {
        if typ != CONTINUATION_TYPE {
            return Err(H2Error::protocol("frame received while field block was open"));
        }
        if stream_id != open_stream {
            return Err(
                H2Error::protocol(
                    "CONTINUATION frame on a different stream than the open field block",
                ),
            );
        }
    } else if typ == CONTINUATION_TYPE {
        return Err(
            H2Error::protocol("CONTINUATION frame without a preceding HEADERS or PUSH_PROMISE"),
        );
    }
    let result = parse_payload(typ, flags, stream_id, payload);
    if let Ok(frame) = &result {
        decoder.note_frame(frame);
    }
    result
}

/// Parses a payload by the frame's type.
fn parse_payload(typ: u8, flags: u8, stream_id: u32, payload: Bytes) -> (result: Result<
    Frame,
    H2Error,
>)
    ensures
        model::frame_result(result) == model::frame_of(typ, flags, stream_id, payload@),
{
    reveal(model::frame_of);
    if typ == DATA_TYPE {
        parse_data(flags, stream_id, payload)
    } else if typ == HEADERS_TYPE {
        parse_headers(flags, stream_id, payload)
    } else if typ == PRIORITY_TYPE {
        parse_priority(stream_id, payload)
    } else if typ == RST_STREAM_TYPE {
        parse_reset(stream_id, payload)
    } else if typ == SETTINGS_TYPE {
        parse_settings(flags, stream_id, payload)
    } else if typ == PUSH_PROMISE_TYPE {
        parse_push_promise(flags, stream_id, payload)
    } else if typ == PING_TYPE {
        parse_ping(flags, stream_id, payload)
    } else if typ == GOAWAY_TYPE {
        parse_goaway(stream_id, payload)
    } else if typ == WINDOW_UPDATE_TYPE {
        parse_window_update(stream_id, payload)
    } else if typ == CONTINUATION_TYPE {
        Ok(
            Frame::Continuation {
                stream_id,
                end_headers: flags & FLAG_END_HEADERS != 0,
                block: payload,
            },
        )
    } else {
        Ok(Frame::Unknown { typ, flags, stream_id, payload })
    }
}

fn parse_data(flags: u8, stream_id: u32, payload: Bytes) -> (result: Result<Frame, H2Error>)
    ensures
        model::frame_result(result) == model::data_frame(flags, stream_id, payload@),
{
    require_stream(stream_id)?;
    let end_stream = flags & FLAG_END_STREAM != 0;
    let (start, end) = take_padding(bytes_slice(&payload), flags & FLAG_PADDED != 0)?;
    Ok(Frame::Data { stream_id, end_stream, data: bytes_range(&payload, start, end) })
}

fn parse_headers(flags: u8, stream_id: u32, payload: Bytes) -> (result: Result<Frame, H2Error>)
    ensures
        model::frame_result(result) == model::headers_frame(flags, stream_id, payload@),
{
    require_stream(stream_id)?;
    let body = bytes_slice(&payload);
    let end_stream = flags & FLAG_END_STREAM != 0;
    let end_headers = flags & FLAG_END_HEADERS != 0;
    let (start, end) = take_padding(body, flags & FLAG_PADDED != 0)?;
    let ghost unpadded = body@.subrange(start as int, end as int);
    if flags & FLAG_PRIORITY != 0 {
        let priority = read_priority(vstd::slice::slice_subrange(body, start, end), stream_id)?;
        assert(body@.subrange(start + 5, end as int) =~= unpadded.subrange(
            5,
            unpadded.len() as int,
        ));
        Ok(
            Frame::Headers {
                stream_id,
                end_stream,
                end_headers,
                priority: Some(priority),
                block: bytes_range(&payload, start + 5, end),
            },
        )
    } else {
        Ok(
            Frame::Headers {
                stream_id,
                end_stream,
                end_headers,
                priority: None,
                block: bytes_range(&payload, start, end),
            },
        )
    }
}

fn parse_priority(stream_id: u32, payload: Bytes) -> (result: Result<Frame, H2Error>)
    ensures
        model::frame_result(result) == model::priority_frame(stream_id, payload@),
{
    require_stream(stream_id)?;
    if payload.len() != 5 {
        return Err(H2Error::frame_size("PRIORITY frame payload must be exactly 5 octets"));
    }
    let priority = read_priority(bytes_slice(&payload), stream_id)?;
    Ok(Frame::Priority { stream_id, priority })
}

fn parse_reset(stream_id: u32, payload: Bytes) -> (result: Result<Frame, H2Error>)
    ensures
        model::frame_result(result) == model::reset_frame(stream_id, payload@),
{
    require_stream(stream_id)?;
    if payload.len() != 4 {
        return Err(H2Error::frame_size("RST_STREAM frame payload must be exactly 4 octets"));
    }
    Ok(Frame::Reset { stream_id, error_code: read_be32(bytes_slice(&payload), 0) })
}

fn parse_settings(flags: u8, stream_id: u32, payload: Bytes) -> (result: Result<Frame, H2Error>)
    ensures
        model::frame_result(result) == model::settings_frame(flags, stream_id, payload@),
{
    if stream_id != 0 {
        return Err(H2Error::protocol("SETTINGS frame must use stream identifier 0"));
    }
    let ack = flags & FLAG_ACK != 0;
    if ack && payload.len() != 0 {
        return Err(H2Error::frame_size("SETTINGS frame with ACK flag must have an empty payload"));
    }
    if payload.len() % 6 != 0 {
        return Err(H2Error::frame_size("SETTINGS frame payload must be a multiple of 6 octets"));
    }
    let settings = read_settings(bytes_slice(&payload))?;
    Ok(Frame::Settings { ack, settings })
}

fn parse_push_promise(flags: u8, stream_id: u32, payload: Bytes) -> (result: Result<
    Frame,
    H2Error,
>)
    ensures
        model::frame_result(result) == model::push_promise_frame(flags, stream_id, payload@),
{
    require_stream(stream_id)?;
    let end_headers = flags & FLAG_END_HEADERS != 0;
    let (start, end) = take_padding(bytes_slice(&payload), flags & FLAG_PADDED != 0)?;
    let body = vstd::slice::slice_subrange(bytes_slice(&payload), start, end);
    if body.len() < 4 {
        return Err(H2Error::frame_size("PUSH_PROMISE frame payload must be at least 4 octets"));
    }
    let promised_stream_id: u32 = low31(read_be32(body, 0));
    assert(payload@.subrange(start + 4, end as int) =~= body@.subrange(4, body@.len() as int));
    if promised_stream_id == 0 {
        return Err(H2Error::protocol("PUSH_PROMISE promised stream identifier is 0"));
    }
    Ok(
        Frame::PushPromise {
            stream_id,
            end_headers,
            promised_stream_id,
            block: bytes_range(&payload, start + 4, end),
        },
    )
}

fn parse_ping(flags: u8, stream_id: u32, payload: Bytes) -> (result: Result<Frame, H2Error>)
    ensures
        model::frame_result(result) == model::ping_frame(flags, stream_id, payload@),
{
    if stream_id != 0 {
        return Err(H2Error::protocol("PING frame must use stream identifier 0"));
    }
    if payload.len() != 8 {
        return Err(H2Error::frame_size("PING frame payload must be exactly 8 octets"));
    }
    let body = bytes_slice(&payload);
    let octets: [u8; 8] = [
        body[0],
        body[1],
        body[2],
        body[3],
        body[4],
        body[5],
        body[6],
        body[7],
    ];
    assert(octets@ =~= payload@);
    Ok(Frame::Ping { ack: flags & FLAG_ACK != 0, payload: octets })
}

fn parse_goaway(stream_id: u32, payload: Bytes) -> (result: Result<Frame, H2Error>)
    ensures
        model::frame_result(result) == model::goaway_frame(stream_id, payload@),
{
    if stream_id != 0 {
        return Err(H2Error::protocol("GOAWAY frame must use stream identifier 0"));
    }
    if payload.len() < 8 {
        return Err(H2Error::frame_size("GOAWAY frame payload must be at least 8 octets"));
    }
    let body = bytes_slice(&payload);
    Ok(
        Frame::GoAway {
            last_stream_id: low31(read_be32(body, 0)),
            error_code: read_be32(body, 4),
            debug: bytes_range(&payload, 8, payload.len()),
        },
    )
}

fn parse_window_update(stream_id: u32, payload: Bytes) -> (result: Result<Frame, H2Error>)
    ensures
        model::frame_result(result) == model::window_update_frame(stream_id, payload@),
{
    if payload.len() != 4 {
        return Err(H2Error::frame_size("WINDOW_UPDATE frame payload must be exactly 4 octets"));
    }
    let increment: u32 = low31(read_be32(bytes_slice(&payload), 0));
    if increment == 0 {
        return Err(H2Error::protocol("WINDOW_UPDATE frame with zero increment"));
    }
    Ok(Frame::WindowUpdate { stream_id, increment })
}

/// The range of a payload that its padding leaves, given whether the PADDED
/// flag is set.
///
/// The padding must be strictly shorter than the payload (RFC 9113 Section
/// 6.1).
fn take_padding(payload: &[u8], padded: bool) -> (result: Result<(usize, usize), H2Error>)
    ensures
        match result {
            Ok((start, end)) => {
                &&& start <= end <= payload@.len()
                &&& model::unpadded(payload@, padded) == Ok::<_, crate::h2::error::H2ErrorView>(
                    payload@.subrange(start as int, end as int),
                )
            },
            Err(error) => model::unpadded(payload@, padded) == Err::<Seq<u8>, _>(error@),
        },
{
    if !padded {
        assert(payload@.subrange(0, payload@.len() as int) =~= payload@);
        return Ok((0, payload.len()));
    }
    if payload.len() == 0 {
        return Err(H2Error::frame_size("PADDED frame payload too short for pad length"));
    }
    let pad_len: usize = payload[0] as usize;
    if pad_len >= payload.len() {
        return Err(
            H2Error::protocol("padding length is the length of the frame payload or greater"),
        );
    }
    Ok((1, payload.len() - pad_len))
}

/// Reads the 5-octet priority fields (Exclusive + Stream Dependency + Weight).
fn read_priority(body: &[u8], stream_id: u32) -> (result: Result<Priority, H2Error>)
    ensures
        match result {
            Ok(priority) => model::priority_of(body@, stream_id) == Ok::<
                _,
                crate::h2::error::H2ErrorView,
            >(priority),
            Err(error) => model::priority_of(body@, stream_id) == Err::<Priority, _>(error@),
        },
        result is Ok ==> body@.len() >= 5,
{
    if body.len() < 5 {
        return Err(H2Error::frame_size("frame payload too short for priority fields"));
    }
    let raw: u32 = read_be32(body, 0);
    let exclusive = raw >= 0x8000_0000;
    let dependency: u32 = low31(raw);
    if dependency == stream_id {
        return Err(H2Error::protocol("stream priority depends on its own stream identifier"));
    }
    Ok(Priority { exclusive, dependency, weight: body[4] })
}

fn require_stream(stream_id: u32) -> (result: Result<(), H2Error>)
    ensures
        match result {
            Ok(_) => stream_id != 0,
            Err(error) => stream_id == 0 && error@ == model::stream_required(),
        },
{
    if stream_id == 0 {
        Err(H2Error::new(Reason::ProtocolError, "frame must use a non-zero stream identifier"))
    } else {
        Ok(())
    }
}

/// Reads and validates the parameters of a SETTINGS payload.
fn read_settings(body: &[u8]) -> (result: Result<Vec<Setting>, H2Error>)
    requires
        body@.len() % 6 == 0,
    ensures
        match result {
            Ok(settings) => {
                &&& settings@ == model::settings_of(body@)
                &&& model::settings_violation(model::settings_of(body@), 0) is None
            },
            Err(error) => model::settings_violation(model::settings_of(body@), 0) == Some(error@),
        },
{
    let ghost all = model::settings_of(body@);
    let mut settings: Vec<Setting> = Vec::with_capacity(body.len() / 6);
    let mut at: usize = 0;
    while at < body.len()
        invariant
            body@.len() % 6 == 0,
            at == 6 * settings@.len(),
            at <= body@.len(),
            all == model::settings_of(body@),
            settings@ == all.subrange(0, settings@.len() as int),
            model::settings_violation(all, 0) == model::settings_violation(all, settings@.len()),
        decreases body@.len() - at,
    {
        let ghost i = settings@.len();
        let id: u16 = read_be16(body, at);
        let value: u32 = read_be32(body, at + 2);
        let setting = Setting { id, value };
        assert(setting == all[i as int]);
        validate_setting(id, value)?;
        settings.push(setting);
        assert(all.subrange(0, i as int + 1) =~= all.subrange(0, i as int).push(all[i as int]));
        at = at + 6;
    }
    assert(settings@ =~= all);
    Ok(settings)
}

/// Adopts the last SETTINGS_MAX_FRAME_SIZE among the parameters.
fn adopt_max_frame_size(decoder: &mut FrameDecoder, settings: &Vec<Setting>)
    ensures
        final(decoder)@ == (DecoderView {
            max_frame_size: model::max_frame_size_after(settings@, old(decoder)@.max_frame_size),
            ..old(decoder)@
        }),
{
    let ghost before = decoder@;
    let mut i: usize = 0;
    while i < settings.len()
        invariant
            i <= settings@.len(),
            decoder@ == (DecoderView {
                max_frame_size: model::max_frame_size_after(
                    settings@.subrange(0, i as int),
                    before.max_frame_size,
                ),
                ..before
            }),
        decreases settings@.len() - i,
    {
        assert(settings@.subrange(0, i + 1).drop_last() =~= settings@.subrange(0, i as int));
        if settings[i].id == 0x05 {
            decoder.set_max_frame_size(settings[i].value as usize);
        }
        i = i + 1;
    }
    assert(settings@.subrange(0, i as int) =~= settings@);
}

/// Validates the value of a known SETTINGS parameter (RFC 9113 Section 6.5.2).
/// Unknown identifiers are accepted and ignored by the caller.
fn validate_setting(id: u16, value: u32) -> (result: Result<(), H2Error>)
    ensures
        match result {
            Ok(_) => model::setting_violation(Setting { id, value }) is None,
            Err(error) => model::setting_violation(Setting { id, value }) == Some(error@),
        },
{
    if id == 0x02 {
        // SETTINGS_ENABLE_PUSH.
        if value > 1 {
            return Err(H2Error::protocol("SETTINGS_ENABLE_PUSH must be 0 or 1"));
        }
    } else if id == 0x04 {
        // SETTINGS_INITIAL_WINDOW_SIZE.
        if value > MAX_WINDOW_SIZE {
            return Err(
                H2Error::new(
                    Reason::FlowControlError,
                    "SETTINGS_INITIAL_WINDOW_SIZE exceeds 2^31-1",
                ),
            );
        }
    } else if id == 0x05 {
        // SETTINGS_MAX_FRAME_SIZE.
        if (value as usize) < DEFAULT_MAX_FRAME_SIZE || value as usize > MAX_FRAME_SIZE_LIMIT {
            return Err(H2Error::protocol("SETTINGS_MAX_FRAME_SIZE outside 16384..16777215"));
        }
    }
    Ok(())
}

} // verus!
