//! What holds of the codec as a whole: what is written is read back, and what
//! is read does not depend on how the octets arrive.

use vstd::prelude::*;

use super::model::{self, DecoderView, FrameView, Priority, Setting};
use super::writer;
use super::{
    CONTINUATION_TYPE, DATA_TYPE, FLAG_END_HEADERS, FLAG_END_STREAM, FLAG_PADDED, FLAG_PRIORITY,
    FRAME_HEADER_LEN, GOAWAY_TYPE, HEADERS_TYPE, PING_TYPE, PRIORITY_TYPE, PUSH_PROMISE_TYPE,
    RST_STREAM_TYPE, SETTINGS_TYPE,
};
use crate::h2::error::H2ErrorView;
use crate::octets;

verus! {

/// A priority that a frame of the given stream may carry.
pub open spec fn priority_legal(priority: Priority, stream_id: u32) -> bool {
    priority.dependency < 0x8000_0000 && priority.dependency != stream_id
}

/// A frame whose fields obey the protocol.
pub open spec fn legal(frame: FrameView) -> bool {
    &&& model::stream_of(frame) < 0x8000_0000
    &&& match frame {
        FrameView::Data { stream_id, .. } => stream_id != 0,
        FrameView::Headers { stream_id, priority, .. } => stream_id != 0 && (priority matches Some(
            p,
        ) ==> priority_legal(p, stream_id)),
        FrameView::Priority { stream_id, priority } => stream_id != 0 && priority_legal(
            priority,
            stream_id,
        ),
        FrameView::Reset { stream_id, .. } => stream_id != 0,
        FrameView::Settings { ack, settings } => (ack ==> settings.len() == 0)
            && model::settings_violation(settings, 0) is None,
        FrameView::PushPromise { stream_id, promised_stream_id, .. } => stream_id != 0 && 0
            < promised_stream_id < 0x8000_0000,
        FrameView::Ping { payload, .. } => payload.len() == 8,
        FrameView::GoAway { last_stream_id, .. } => last_stream_id < 0x8000_0000,
        FrameView::WindowUpdate { increment, .. } => 0 < increment < 0x8000_0000,
        FrameView::Continuation { .. } => true,
        FrameView::Unknown { typ, .. } => typ > CONTINUATION_TYPE,
    }
}

/// A decoder with more octets.
pub open spec fn extended(d: DecoderView, more: Seq<u8>) -> DecoderView {
    DecoderView { buf: d.buf + more, ..d }
}

/// The parts of a frame on the wire can be told apart.
proof fn wire_frame_parts(typ: u8, flags: u8, stream_id: u32, payload: Seq<u8>, rest: Seq<u8>)
    requires
        payload.len() < 0x100_0000,
        stream_id < 0x8000_0000,
    ensures
        ({
            let w = model::wire_frame(typ, flags, stream_id, payload) + rest;
            let end = FRAME_HEADER_LEN + payload.len();
            &&& w.len() == end + rest.len()
            &&& model::header_len(w) == payload.len()
            &&& w[3] == typ
            &&& w[4] == flags
            &&& model::without_reserved_bit(model::be_at(w, 5, 4)) == stream_id
            &&& w.subrange(FRAME_HEADER_LEN as int, end as int) == payload
            &&& w.subrange(end as int, w.len() as int) == rest
        }),
{
    let w = model::wire_frame(typ, flags, stream_id, payload) + rest;
    let end = FRAME_HEADER_LEN + payload.len();
    octets::be_round_trip(payload.len(), 3);
    octets::be_round_trip(stream_id as nat, 4);
    reveal_with_fuel(octets::be_limit, 5);
    assert(w.subrange(0, 3) =~= octets::be_octets(payload.len(), 3));
    assert(w.subrange(5, 9) =~= octets::be_octets(stream_id as nat, 4));
    assert(w.subrange(FRAME_HEADER_LEN as int, end as int) =~= payload);
    assert(w.subrange(end as int, w.len() as int) =~= rest);
}

proof fn be32_at(value: u32, before: Seq<u8>, after: Seq<u8>)
    ensures
        octets::be_octets(value as nat, 4).len() == 4,
        model::be_at(before + octets::be_octets(value as nat, 4) + after, before.len() as int, 4)
            == value,
{
    octets::be_round_trip(value as nat, 4);
    reveal_with_fuel(octets::be_limit, 5);
    let s = before + octets::be_octets(value as nat, 4) + after;
    assert(s.subrange(before.len() as int, before.len() as int + 4) =~= octets::be_octets(
        value as nat,
        4,
    ));
}

proof fn priority_read_back(priority: Priority, stream_id: u32, rest: Seq<u8>)
    requires
        priority_legal(priority, stream_id),
    ensures
        model::priority_octets(priority).len() == 5,
        model::priority_of(model::priority_octets(priority) + rest, stream_id) == Ok::<
            Priority,
            H2ErrorView,
        >(priority),
{
    let dep = priority.dependency as nat + if priority.exclusive {
        0x8000_0000nat
    } else {
        0
    };
    let s = model::priority_octets(priority) + rest;
    octets::be_round_trip(dep, 4);
    reveal_with_fuel(octets::be_limit, 5);
    assert(s.subrange(0, 4) =~= octets::be_octets(dep, 4));
}

proof fn settings_read_back(settings: Seq<Setting>)
    ensures
        model::settings_octets(settings).len() == 6 * settings.len(),
        model::settings_of(model::settings_octets(settings)) == settings,
    decreases settings.len(),
{
    let s = model::settings_octets(settings);
    if settings.len() > 0 {
        let init = settings.drop_last();
        let last = settings.last();
        settings_read_back(init);
        octets::be_round_trip(last.id as nat, 2);
        octets::be_round_trip(last.value as nat, 4);
        reveal_with_fuel(octets::be_limit, 5);
        let n = init.len() as int;
        assert forall|i: int| 0 <= i < settings.len() implies #[trigger] model::settings_of(s)[i]
            == settings[i] by {
            if i < n {
                let t = model::settings_octets(init);
                assert(model::settings_of(t)[i] == init[i]);
                assert(s.subrange(6 * i, 6 * i + 2) =~= t.subrange(6 * i, 6 * i + 2));
                assert(s.subrange(6 * i + 2, 6 * i + 6) =~= t.subrange(6 * i + 2, 6 * i + 6));
            } else {
                assert(s.subrange(6 * i, 6 * i + 2) =~= octets::be_octets(last.id as nat, 2));
                assert(s.subrange(6 * i + 2, 6 * i + 6) =~= octets::be_octets(
                    last.value as nat,
                    4,
                ));
            }
        }
    }
    assert(model::settings_of(s) =~= settings);
}

proof fn flag_bits()
    ensures
        forall|a: bool, b: bool, c: bool|
            #![trigger (model::flag_if(a, FLAG_END_STREAM) | model::flag_if(b, FLAG_END_HEADERS) | model::flag_if(c, FLAG_PRIORITY))]
            {
                let flags = model::flag_if(a, FLAG_END_STREAM) | model::flag_if(b, FLAG_END_HEADERS)
                    | model::flag_if(c, FLAG_PRIORITY);
                &&& model::flag(flags, FLAG_END_STREAM) == a
                &&& model::flag(flags, FLAG_END_HEADERS) == b
                &&& model::flag(flags, FLAG_PRIORITY) == c
                &&& !model::flag(flags, FLAG_PADDED)
            },
        forall|a: bool|
            model::flag(#[trigger] model::flag_if(a, FLAG_END_STREAM), FLAG_END_STREAM) == a
                && !model::flag(model::flag_if(a, FLAG_END_STREAM), FLAG_PADDED),
        forall|a: bool|
            model::flag(#[trigger] model::flag_if(a, FLAG_END_HEADERS), FLAG_END_HEADERS) == a
                && !model::flag(model::flag_if(a, FLAG_END_HEADERS), FLAG_PADDED),
{
    assert((1u8 | 4u8 | 0x20u8) & 1u8 == 1u8 && (1u8 | 4u8 | 0x20u8) & 4u8 == 4u8 && (1u8 | 4u8
        | 0x20u8) & 0x20u8 == 0x20u8 && (1u8 | 4u8 | 0x20u8) & 8u8 == 0u8) by (bit_vector);
    assert((1u8 | 4u8 | 0u8) & 1u8 == 1u8 && (1u8 | 4u8 | 0u8) & 4u8 == 4u8 && (1u8 | 4u8 | 0u8)
        & 0x20u8 == 0u8 && (1u8 | 4u8 | 0u8) & 8u8 == 0u8) by (bit_vector);
    assert((1u8 | 0u8 | 0x20u8) & 1u8 == 1u8 && (1u8 | 0u8 | 0x20u8) & 4u8 == 0u8 && (1u8 | 0u8
        | 0x20u8) & 0x20u8 == 0x20u8 && (1u8 | 0u8 | 0x20u8) & 8u8 == 0u8) by (bit_vector);
    assert((1u8 | 0u8 | 0u8) & 1u8 == 1u8 && (1u8 | 0u8 | 0u8) & 4u8 == 0u8 && (1u8 | 0u8 | 0u8)
        & 0x20u8 == 0u8 && (1u8 | 0u8 | 0u8) & 8u8 == 0u8) by (bit_vector);
    assert((0u8 | 4u8 | 0x20u8) & 1u8 == 0u8 && (0u8 | 4u8 | 0x20u8) & 4u8 == 4u8 && (0u8 | 4u8
        | 0x20u8) & 0x20u8 == 0x20u8 && (0u8 | 4u8 | 0x20u8) & 8u8 == 0u8) by (bit_vector);
    assert((0u8 | 4u8 | 0u8) & 1u8 == 0u8 && (0u8 | 4u8 | 0u8) & 4u8 == 4u8 && (0u8 | 4u8 | 0u8)
        & 0x20u8 == 0u8 && (0u8 | 4u8 | 0u8) & 8u8 == 0u8) by (bit_vector);
    assert((0u8 | 0u8 | 0x20u8) & 1u8 == 0u8 && (0u8 | 0u8 | 0x20u8) & 4u8 == 0u8 && (0u8 | 0u8
        | 0x20u8) & 0x20u8 == 0x20u8 && (0u8 | 0u8 | 0x20u8) & 8u8 == 0u8) by (bit_vector);
    assert((0u8 | 0u8 | 0u8) & 1u8 == 0u8 && (0u8 | 0u8 | 0u8) & 4u8 == 0u8 && (0u8 | 0u8 | 0u8)
        & 0x20u8 == 0u8 && (0u8 | 0u8 | 0u8) & 8u8 == 0u8) by (bit_vector);
    assert(1u8 & 1u8 == 1u8 && 4u8 & 4u8 == 4u8 && 0u8 & 1u8 == 0u8 && 0u8 & 4u8 == 0u8 && 1u8
        & 8u8 == 0u8 && 4u8 & 8u8 == 0u8 && 0u8 & 8u8 == 0u8) by (bit_vector);
}

/// The payload of a frame that obeys the protocol says what the frame says.
proof fn payload_is_read_back(frame: FrameView)
    requires
        legal(frame),
        !(frame is Headers) && !(frame is GoAway) && !(frame is PushPromise),
    ensures
        model::frame_of(
            model::type_of(frame),
            model::flags_of(frame),
            model::stream_of(frame),
            model::payload_of(frame),
        ) == Ok::<FrameView, H2ErrorView>(frame),
{
    reveal(model::frame_of);
    flag_bits();
    match frame {
        FrameView::Priority { stream_id, priority } => {
            priority_read_back(priority, stream_id, Seq::empty());
            let body = model::priority_octets(priority);
            assert(body + Seq::<u8>::empty() =~= body);
        },
        FrameView::Reset { stream_id, error_code } => {
            be32_at(error_code, Seq::empty(), Seq::empty());
            let body = octets::be_octets(error_code as nat, 4);
            assert(Seq::<u8>::empty() + body + Seq::<u8>::empty() =~= body);
        },
        FrameView::Settings { ack, settings } => {
            settings_read_back(settings);
        },
        FrameView::WindowUpdate { stream_id, increment } => {
            be32_at(increment, Seq::empty(), Seq::empty());
            let body = octets::be_octets(increment as nat, 4);
            assert(Seq::<u8>::empty() + body + Seq::<u8>::empty() =~= body);
        },
        _ => {},
    }
}

proof fn headers_payload_is_read_back(frame: FrameView)
    requires
        legal(frame),
        frame is Headers,
    ensures
        model::headers_frame(
            model::flags_of(frame),
            model::stream_of(frame),
            model::payload_of(frame),
        ) == Ok::<FrameView, H2ErrorView>(frame),
{
    flag_bits();
    if let FrameView::Headers { stream_id, end_stream, end_headers, priority, block } = frame {
        if let Some(p) = priority {
            priority_read_back(p, stream_id, block);
            let body = model::priority_octets(p) + block;
            assert(body.subrange(5, body.len() as int) =~= block);
        }
    }
}

proof fn push_promise_payload_is_read_back(frame: FrameView)
    requires
        legal(frame),
        frame is PushPromise,
    ensures
        model::push_promise_frame(
            model::flags_of(frame),
            model::stream_of(frame),
            model::payload_of(frame),
        ) == Ok::<FrameView, H2ErrorView>(frame),
{
    flag_bits();
    if let FrameView::PushPromise { stream_id, end_headers, promised_stream_id, block } = frame {
        let id = octets::be_octets(promised_stream_id as nat, 4);
        be32_at(promised_stream_id, Seq::empty(), block);
        let body = id + block;
        assert(Seq::<u8>::empty() + id + block =~= body);
        assert(body.subrange(4, body.len() as int) =~= block);
    }
}

proof fn goaway_payload_is_read_back(frame: FrameView)
    requires
        legal(frame),
        frame is GoAway,
    ensures
        model::goaway_frame(model::stream_of(frame), model::payload_of(frame)) == Ok::<
            FrameView,
            H2ErrorView,
        >(frame),
{
    if let FrameView::GoAway { last_stream_id, error_code, debug } = frame {
        let last = octets::be_octets(last_stream_id as nat, 4);
        let code = octets::be_octets(error_code as nat, 4);
        be32_at(last_stream_id, Seq::empty(), code + debug);
        be32_at(error_code, last, debug);
        let body = last + code + debug;
        assert(Seq::<u8>::empty() + last + (code + debug) =~= body);
        assert(body.subrange(8, body.len() as int) =~= debug);
    }
}

/// A frame that obeys the protocol and fits the limits is read back from its
/// wire form, whatever follows it in the buffer, and exactly its octets are
/// consumed.
pub proof fn written_frame_is_read_back(d: DecoderView, frame: FrameView, rest: Seq<u8>)
    requires
        d.buf == model::wire(frame) + rest,
        legal(frame),
        model::payload_of(frame).len() < 0x100_0000,
        model::payload_of(frame).len() <= d.max_frame_size,
        model::continuation_violation(
            d.block_stream,
            model::type_of(frame),
            model::stream_of(frame),
        ) is None,
    ensures
        model::next_step(d) == (
            model::after_frame(DecoderView { buf: rest, ..d }, frame),
            Ok::<_, H2ErrorView>(Some(frame)),
        ),
{
    reveal(model::wire);
    let typ = model::type_of(frame);
    let flags = model::flags_of(frame);
    let stream_id = model::stream_of(frame);
    let payload = model::payload_of(frame);
    wire_frame_parts(typ, flags, stream_id, payload, rest);
    assert(model::frame_of(typ, flags, stream_id, payload) == Ok::<FrameView, H2ErrorView>(
        frame,
    )) by {
        reveal(model::frame_of);
        if frame is Headers {
            headers_payload_is_read_back(frame);
        } else if frame is PushPromise {
            push_promise_payload_is_read_back(frame);
        } else if frame is GoAway {
            goaway_payload_is_read_back(frame);
        } else {
            payload_is_read_back(frame);
        }
    }
    let consumed = DecoderView { buf: rest, ..d };
    assert(model::parse_step(consumed, typ, flags, stream_id, payload) == (
        model::after_frame(consumed, frame),
        Ok::<FrameView, H2ErrorView>(frame),
    ));
}

/// An outcome other than "more octets are needed" stays what it is when more
/// octets arrive, and those octets stay in the buffer.
pub proof fn outcome_is_prefix_stable(d: DecoderView, more: Seq<u8>)
    requires
        model::next_step(d).1 != Ok::<Option<FrameView>, H2ErrorView>(None),
    ensures
        model::next_step(extended(d, more)).1 == model::next_step(d).1,
        model::next_step(extended(d, more)).0 == extended(model::next_step(d).0, more),
{
    let e = extended(d, more);
    assert(e.buf.subrange(0, 3) =~= d.buf.subrange(0, 3));
    if model::header_len(d.buf) <= d.max_frame_size {
        let end = FRAME_HEADER_LEN + model::header_len(d.buf) as int;
        assert(e.buf.subrange(5, 9) =~= d.buf.subrange(5, 9));
        assert(e.buf.subrange(9, end) =~= d.buf.subrange(9, end));
        assert(e.buf.subrange(end, e.buf.len() as int) =~= d.buf.subrange(end, d.buf.len() as int)
            + more);
    }
}

/// "More octets are needed" leaves the decoder as it was.
pub proof fn waiting_consumes_nothing(d: DecoderView)
    ensures
        model::next_step(d).1 == Ok::<Option<FrameView>, H2ErrorView>(None) ==> model::next_step(
            d,
        ).0 == d,
{
}

/// All that a decoder makes of what it holds: the frames up to the point where
/// it needs more octets or meets an error, the decoder there, and the error.
pub open spec fn decode_all(d: DecoderView) -> (DecoderView, Seq<FrameView>, Option<H2ErrorView>)
    decreases d.buf.len(),
{
    let (next, outcome) = model::next_step(d);
    match outcome {
        Err(error) => (next, Seq::empty(), Some(error)),
        Ok(None) => (next, Seq::empty(), None),
        Ok(Some(frame)) => if next.buf.len() < d.buf.len() {
            let (end, frames, error) = decode_all(next);
            (end, seq![frame] + frames, error)
        } else {
            (next, seq![frame], None)
        },
    }
}

/// Every frame that is handed out consumes at least its header.
pub proof fn frames_consume(d: DecoderView)
    ensures
        model::next_step(d).1 matches Ok(Some(_)) ==> model::next_step(d).0.buf.len()
            + FRAME_HEADER_LEN <= d.buf.len(),
{
}

proof fn decode_one(d: DecoderView, frame: FrameView, next: DecoderView)
    requires
        model::next_step(d) == (next, Ok::<_, H2ErrorView>(Some(frame))),
    ensures
        ({
            let (end, frames, error) = decode_all(next);
            decode_all(d) == (end, seq![frame] + frames, error)
        }),
{
    frames_consume(d);
}

proof fn decode_none(d: DecoderView)
    requires
        d.buf.len() == 0,
    ensures
        decode_all(d) == (d, Seq::<FrameView>::empty(), None::<H2ErrorView>),
{
}

proof fn joined_cons(frame: FrameView, frames: Seq<FrameView>)
    ensures
        ({
            let rest = joined_blocks(frames);
            joined_blocks(seq![frame] + frames) == match frame {
                FrameView::Headers { block, .. } => block + rest,
                FrameView::Continuation { block, .. } => block + rest,
                _ => rest,
            }
        }),
{
    assert((seq![frame] + frames).drop_first() =~= frames);
}

/// The frames do not depend on how the octets are cut into pieces: decoding
/// `a` and then `b` gives what decoding both at once gives, up to the error
/// that ends it, if there is one.
pub proof fn decoding_ignores_chunking(d: DecoderView, a: Seq<u8>, b: Seq<u8>)
    ensures
        ({
            let (d1, frames1, error1) = decode_all(extended(d, a));
            let (d2, frames2, error2) = decode_all(extended(d1, b));
            decode_all(extended(d, a + b)) == if error1 is Some {
                (extended(d1, b), frames1, error1)
            } else {
                (d2, frames1 + frames2, error2)
            }
        }),
{
    let da = extended(d, a);
    assert(extended(d, a + b).buf =~= extended(da, b).buf);
    decode_all_extended(da, b);
}

proof fn decode_all_extended(d: DecoderView, b: Seq<u8>)
    ensures
        ({
            let (d1, frames1, error1) = decode_all(d);
            let (d2, frames2, error2) = decode_all(extended(d1, b));
            decode_all(extended(d, b)) == if error1 is Some {
                (extended(d1, b), frames1, error1)
            } else {
                (d2, frames1 + frames2, error2)
            }
        }),
    decreases d.buf.len(),
{
    let (next, outcome) = model::next_step(d);
    frames_consume(d);
    match outcome {
        Err(_) => {
            outcome_is_prefix_stable(d, b);
        },
        Ok(None) => {
            let (d2, frames2, error2) = decode_all(extended(d, b));
            assert(Seq::<FrameView>::empty() + frames2 =~= frames2);
        },
        Ok(Some(frame)) => {
            outcome_is_prefix_stable(d, b);
            decode_all_extended(next, b);
            let (d1, frames1, error1) = decode_all(next);
            let (d2, frames2, error2) = decode_all(extended(d1, b));
            assert(seq![frame] + (frames1 + frames2) =~= (seq![frame] + frames1) + frames2);
        },
    }
}

/// The field-block fragments that frames carry, put together.
pub open spec fn joined_blocks(frames: Seq<FrameView>) -> Seq<u8>
    decreases frames.len(),
{
    if frames.len() == 0 {
        Seq::empty()
    } else {
        let rest = joined_blocks(frames.drop_first());
        match frames[0] {
            FrameView::Headers { block, .. } => block + rest,
            FrameView::Continuation { block, .. } => block + rest,
            _ => rest,
        }
    }
}

/// A field block of any length, as
/// [`write_field_block`](super::FrameWriter::write_field_block) splits it, is
/// read back whole by a decoder whose limit is the writer's: one HEADERS frame
/// and CONTINUATION frames of the stream, no payload longer than the limit,
/// whose fragments make up the block; no field block is left open.
pub proof fn field_block_is_read_back(
    d: DecoderView,
    stream_id: u32,
    end_stream: bool,
    block: Seq<u8>,
)
    requires
        0 < stream_id < 0x8000_0000,
        0 < d.max_frame_size < 0x100_0000,
        d.block_stream is None,
        d.buf == writer::field_block_wire(
            stream_id,
            end_stream,
            d.max_frame_size as nat,
            block,
        ),
    ensures
        ({
            let (end, frames, error) = decode_all(d);
            &&& error is None
            &&& end == (DecoderView { buf: Seq::empty(), ..d })
            &&& frames.len() > 0
            &&& frames[0] matches FrameView::Headers { stream_id: s, end_stream: e, .. } && s
                == stream_id && e == end_stream
            &&& forall|i: int|
                0 < i < frames.len() ==> (#[trigger] frames[i] matches FrameView::Continuation {
                    stream_id: s,
                    ..
                } && s == stream_id)
            &&& forall|i: int|
                0 <= i < frames.len() ==> model::payload_of(#[trigger] frames[i]).len() <= d.max_frame_size
            &&& joined_blocks(frames) == block
        }),
{
    let cap = d.max_frame_size as nat;
    if block.len() <= cap {
        let frame = FrameView::Headers {
            stream_id,
            end_stream,
            end_headers: true,
            priority: None,
            block,
        };
        assert(d.buf =~= model::wire(frame) + Seq::<u8>::empty());
        written_frame_is_read_back(d, frame, Seq::empty());
        let next = DecoderView { buf: Seq::<u8>::empty(), ..d };
        decode_one(d, frame, next);
        decode_none(next);
        joined_cons(frame, Seq::empty());
        assert(block + Seq::<u8>::empty() =~= block);
    } else {
        let first = block.subrange(0, cap as int);
        let rest = block.subrange(cap as int, block.len() as int);
        let frame = FrameView::Headers {
            stream_id,
            end_stream,
            end_headers: false,
            priority: None,
            block: first,
        };
        let tail = writer::continuation_wire(stream_id, cap, rest);
        written_frame_is_read_back(d, frame, tail);
        let next = DecoderView { buf: tail, block_stream: Some(stream_id), ..d };
        decode_one(d, frame, next);
        continuations_are_read_back(next, stream_id, rest);
        let (end, frames, error) = decode_all(next);
        joined_cons(frame, frames);
        let all = seq![frame] + frames;
        assert(first + rest =~= block);
        assert forall|i: int| 0 < i < all.len() implies (#[trigger] all[i] matches
            FrameView::Continuation { stream_id: s, .. } && s == stream_id) by {
            assert(all[i] == frames[i - 1]);
        }
        assert forall|i: int| 0 <= i < all.len() implies model::payload_of(#[trigger] all[i]).len()
            <= d.max_frame_size by {
            if i > 0 {
                assert(all[i] == frames[i - 1]);
            }
        }
    }
}

proof fn continuations_are_read_back(d: DecoderView, stream_id: u32, rest: Seq<u8>)
    requires
        0 < stream_id < 0x8000_0000,
        0 < d.max_frame_size < 0x100_0000,
        d.block_stream == Some(stream_id),
        d.buf == writer::continuation_wire(stream_id, d.max_frame_size as nat, rest),
    ensures
        ({
            let (end, frames, error) = decode_all(d);
            &&& error is None
            &&& end == (DecoderView { buf: Seq::empty(), block_stream: None, ..d })
            &&& forall|i: int|
                0 <= i < frames.len() ==> (#[trigger] frames[i] matches FrameView::Continuation {
                    stream_id: s,
                    block,
                    ..
                } && s == stream_id && block.len() <= d.max_frame_size)
            &&& joined_blocks(frames) == rest
        }),
    decreases rest.len(),
{
    let cap = d.max_frame_size as nat;
    if rest.len() <= cap {
        let frame = FrameView::Continuation { stream_id, end_headers: true, block: rest };
        assert(d.buf =~= model::wire(frame) + Seq::<u8>::empty());
        written_frame_is_read_back(d, frame, Seq::empty());
        let next = DecoderView { buf: Seq::<u8>::empty(), block_stream: None, ..d };
        decode_one(d, frame, next);
        decode_none(next);
        joined_cons(frame, Seq::empty());
        assert(rest + Seq::<u8>::empty() =~= rest);
    } else {
        let first = rest.subrange(0, cap as int);
        let more = rest.subrange(cap as int, rest.len() as int);
        let frame = FrameView::Continuation { stream_id, end_headers: false, block: first };
        let tail = writer::continuation_wire(stream_id, cap, more);
        written_frame_is_read_back(d, frame, tail);
        let next = DecoderView { buf: tail, ..d };
        decode_one(d, frame, next);
        continuations_are_read_back(next, stream_id, more);
        let (end, frames, error) = decode_all(next);
        joined_cons(frame, frames);
        let all = seq![frame] + frames;
        assert(first + more =~= rest);
        assert forall|i: int| 0 <= i < all.len() implies (#[trigger] all[i] matches
            FrameView::Continuation { stream_id: s, block, .. } && s == stream_id && block.len()
            <= d.max_frame_size) by {
            if i > 0 {
                assert(all[i] == frames[i - 1]);
            }
        }
    }
}

/// The stream whose field block is open after the frames: that of the last
/// HEADERS, PUSH_PROMISE or CONTINUATION frame, unless it ended the block.
pub open spec fn open_block(frames: Seq<FrameView>) -> Option<u32>
    decreases frames.len(),
{
    if frames.len() == 0 {
        None
    } else {
        block_after(frames.last(), open_block(frames.drop_last()))
    }
}

/// The stream whose field block is open after one more frame.
pub open spec fn block_after(frame: FrameView, before: Option<u32>) -> Option<u32> {
    match frame {
        FrameView::Headers { stream_id, end_headers, .. } => if end_headers {
            None
        } else {
            Some(stream_id)
        },
        FrameView::PushPromise { stream_id, end_headers, .. } => if end_headers {
            None
        } else {
            Some(stream_id)
        },
        FrameView::Continuation { stream_id, end_headers, .. } => if end_headers {
            None
        } else {
            Some(stream_id)
        },
        _ => before,
    }
}

/// A frame header with its payload, as they are given to the parser.
pub struct RawFrame {
    pub typ: u8,
    pub flags: u8,
    pub stream_id: u32,
    pub payload: Seq<u8>,
}

/// Parsing frame after frame, errors or not: the decoder afterwards and the
/// frames that were handed out.
pub open spec fn parse_all(d: DecoderView, raw: Seq<RawFrame>) -> (DecoderView, Seq<FrameView>)
    decreases raw.len(),
{
    if raw.len() == 0 {
        (d, Seq::empty())
    } else {
        let (before, frames) = parse_all(d, raw.drop_last());
        let last = raw.last();
        let (after, outcome) = model::parse_step(
            before,
            last.typ,
            last.flags,
            last.stream_id,
            last.payload,
        );
        (
            after,
            match outcome {
                Ok(frame) => frames.push(frame),
                Err(_) => frames,
            },
        )
    }
}

/// A frame that cannot be parsed leaves the decoder as it was.
pub proof fn parse_errors_change_nothing(
    d: DecoderView,
    typ: u8,
    flags: u8,
    stream_id: u32,
    payload: Seq<u8>,
)
    ensures
        model::parse_step(d, typ, flags, stream_id, payload).1 is Err ==> model::parse_step(
            d,
            typ,
            flags,
            stream_id,
            payload,
        ).0 == d,
{
}

/// Where taking a frame off the buffer fails, the limit and the open field block
/// stay as they were.
pub proof fn errors_keep_limit_and_block(d: DecoderView)
    ensures
        model::next_step(d).1 is Err ==> {
            &&& model::next_step(d).0.max_frame_size == d.max_frame_size
            &&& model::next_step(d).0.block_stream == d.block_stream
        },
{
}

/// What a frame that is handed out does to the open field block.
proof fn parse_step_block(d: DecoderView, typ: u8, flags: u8, stream_id: u32, payload: Seq<u8>)
    ensures
        model::parse_step(d, typ, flags, stream_id, payload).1 matches Ok(frame)
            ==> model::parse_step(d, typ, flags, stream_id, payload).0.block_stream == block_after(
            frame,
            d.block_stream,
        ),
{
    reveal(model::frame_of);
}

/// Whatever frames a decoder without an open field block is given to parse, the
/// field block that is open afterwards is that of the last HEADERS, PUSH_PROMISE
/// or CONTINUATION frame that it handed out, if that frame lacked END_HEADERS.
pub proof fn open_block_follows_frames(d: DecoderView, raw: Seq<RawFrame>)
    requires
        d.block_stream is None,
    ensures
        parse_all(d, raw).0.block_stream == open_block(parse_all(d, raw).1),
    decreases raw.len(),
{
    if raw.len() > 0 {
        open_block_follows_frames(d, raw.drop_last());
        let (before, frames) = parse_all(d, raw.drop_last());
        let last = raw.last();
        parse_step_block(before, last.typ, last.flags, last.stream_id, last.payload);
        if let Ok(frame) = model::parse_step(
            before,
            last.typ,
            last.flags,
            last.stream_id,
            last.payload,
        ).1 {
            assert(frames.push(frame).drop_last() =~= frames);
        }
    }
}

/// A call of a decoder.
pub enum DecoderCall {
    Extend(Seq<u8>),
    SetMaxFrameSize(usize),
    NextFrame,
}

/// The decoder after the calls, errors or not, and the frames that were handed
/// out.
pub open spec fn call_all(d: DecoderView, calls: Seq<DecoderCall>) -> (DecoderView, Seq<FrameView>)
    decreases calls.len(),
{
    if calls.len() == 0 {
        (d, Seq::empty())
    } else {
        let (before, frames) = call_all(d, calls.drop_last());
        match calls.last() {
            DecoderCall::Extend(more) => (extended(before, more), frames),
            DecoderCall::SetMaxFrameSize(max_frame_size) => (
                DecoderView { max_frame_size, ..before },
                frames,
            ),
            DecoderCall::NextFrame => {
                let (after, outcome) = model::next_step(before);
                (
                    after,
                    match outcome {
                        Ok(Some(frame)) => frames.push(frame),
                        _ => frames,
                    },
                )
            },
        }
    }
}

/// However a decoder is used, from
/// [`FrameDecoder::new`](super::FrameDecoder::new) on and without
/// [`FrameDecoder::clear_block`](super::FrameDecoder::clear_block), the field
/// block that is open is that of the last HEADERS, PUSH_PROMISE or CONTINUATION
/// frame that it handed out, if that frame lacked END_HEADERS.
pub proof fn open_block_follows_calls(max_frame_size: usize, calls: Seq<DecoderCall>)
    ensures
        ({
            let d = DecoderView { buf: Seq::empty(), max_frame_size, block_stream: None };
            call_all(d, calls).0.block_stream == open_block(call_all(d, calls).1)
        }),
    decreases calls.len(),
{
    let d = DecoderView { buf: Seq::empty(), max_frame_size, block_stream: None };
    if calls.len() > 0 {
        open_block_follows_calls(max_frame_size, calls.drop_last());
        let (before, frames) = call_all(d, calls.drop_last());
        let buf = before.buf;
        if calls.last() is NextFrame && buf.len() >= FRAME_HEADER_LEN + model::header_len(buf) {
            let end = (FRAME_HEADER_LEN + model::header_len(buf)) as int;
            parse_step_block(
                DecoderView { buf: buf.subrange(end, buf.len() as int), ..before },
                buf[3],
                buf[4],
                model::without_reserved_bit(model::be_at(buf, 5, 4)),
                buf.subrange(FRAME_HEADER_LEN as int, end),
            );
        }
        if let Ok(Some(frame)) = model::next_step(before).1 {
            assert(frames.push(frame).drop_last() =~= frames);
        }
    }
}

/// Padding changes nothing of what a frame says: a payload with a pad length and
/// as much padding, whatever is in it, is the payload without them; a pad length
/// that leaves no room for itself is refused.
pub proof fn padding_says_nothing(body: Seq<u8>, padding: Seq<u8>, payload: Seq<u8>)
    requires
        padding.len() <= 255,
        payload.len() > 0,
        payload[0] >= payload.len(),
    ensures
        model::unpadded(seq![padding.len() as u8] + body + padding, true) == Ok::<
            Seq<u8>,
            H2ErrorView,
        >(body),
        model::unpadded(body, false) == Ok::<Seq<u8>, H2ErrorView>(body),
        model::unpadded(payload, true) is Err,
        model::unpadded(Seq::empty(), true) is Err,
{
    let padded = seq![padding.len() as u8] + body + padding;
    assert(padded[0] == padding.len());
    assert(padded.subrange(1, padded.len() - padded[0]) =~= body);
}

/// A frame with padding says what the frame without it says, for every type that
/// has padding.
pub proof fn padded_frames_say_the_same(
    typ: u8,
    padded: u8,
    plain: u8,
    stream_id: u32,
    body: Seq<u8>,
    padding: Seq<u8>,
)
    requires
        typ == DATA_TYPE || typ == HEADERS_TYPE || typ == PUSH_PROMISE_TYPE,
        model::flag(padded, FLAG_PADDED),
        !model::flag(plain, FLAG_PADDED),
        model::flag(padded, FLAG_END_STREAM) == model::flag(plain, FLAG_END_STREAM),
        model::flag(padded, FLAG_END_HEADERS) == model::flag(plain, FLAG_END_HEADERS),
        model::flag(padded, FLAG_PRIORITY) == model::flag(plain, FLAG_PRIORITY),
        padding.len() <= 255,
    ensures
        model::frame_of(typ, padded, stream_id, seq![padding.len() as u8] + body + padding)
            == model::frame_of(typ, plain, stream_id, body),
{
    reveal(model::frame_of);
    let payload = seq![padding.len() as u8] + body + padding;
    assert(payload[0] == padding.len());
    assert(payload.subrange(1, payload.len() - payload[0]) =~= body);
}

/// Frames that belong to a stream are refused without one, and those that belong
/// to the connection are refused with one.
pub proof fn stream_ids_are_required(typ: u8, flags: u8, stream_id: u32, payload: Seq<u8>)
    requires
        stream_id > 0,
    ensures
        typ == DATA_TYPE || typ == HEADERS_TYPE || typ == PRIORITY_TYPE || typ == RST_STREAM_TYPE
            || typ == PUSH_PROMISE_TYPE ==> model::frame_of(typ, flags, 0, payload) is Err,
        typ == SETTINGS_TYPE || typ == PING_TYPE || typ == GOAWAY_TYPE ==> model::frame_of(
            typ,
            flags,
            stream_id,
            payload,
        ) is Err,
{
    reveal(model::frame_of);
}

/// A frame that is read belongs to the stream in its header, and its kind is the
/// one in its header.
pub proof fn frames_keep_their_header(typ: u8, flags: u8, stream_id: u32, payload: Seq<u8>)
    ensures
        model::frame_of(typ, flags, stream_id, payload) matches Ok(frame) ==> {
            &&& model::type_of(frame) == typ
            &&& model::stream_of(frame) == stream_id || (stream_id == 0 && model::stream_of(frame)
                == 0)
        },
{
    reveal(model::frame_of);
}

} // verus!
