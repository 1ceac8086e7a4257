//! What a connection never takes back.

use vstd::prelude::*;

use super::drive::{self, Step};
use super::model::{self, ConnectionView};
use super::requests::{self, FieldBlockError, FieldBlockOutcome};
use super::responses::{self, MsgView};
use crate::h2::codec::model as wire;
use crate::h2::codec::model::FrameView;
use crate::h2::codec::Setting;
use crate::h2::error::Reason;
use crate::h2::stream::{request, StreamView};

verus! {

/// From one connection to a later one, nothing is taken back: what waits to be
/// written still does, a connection that is closing or shutting down still is,
/// and no count falls.
pub open spec fn advances(before: ConnectionView, after: ConnectionView) -> bool {
    &&& before.out.is_prefix_of(after.out)
    &&& before.closing ==> after.closing
    &&& before.graceful ==> after.graceful
    &&& before.graceful ==> after.graceful_last_stream == before.graceful_last_stream
    &&& before.highest_stream_id <= after.highest_stream_id
    &&& before.local_error_resets <= after.local_error_resets
    &&& before.pending_accept_resets <= after.pending_accept_resets
    &&& before.opts == after.opts
}

/// Nothing that [`advances`] speaks of differs.
spec fn same_record(a: ConnectionView, b: ConnectionView) -> bool {
    &&& a.out == b.out
    &&& a.closing == b.closing
    &&& a.graceful == b.graceful
    &&& a.graceful_last_stream == b.graceful_last_stream
    &&& a.highest_stream_id == b.highest_stream_id
    &&& a.local_error_resets == b.local_error_resets
    &&& a.pending_accept_resets == b.pending_accept_resets
    &&& a.opts == b.opts
}

proof fn same_record_advances(a: ConnectionView, b: ConnectionView)
    requires
        same_record(a, b),
    ensures
        advances(a, b),
{
    assert(a.out =~= b.out.subrange(0, a.out.len() as int));
}

proof fn advances_twice(a: ConnectionView, b: ConnectionView, c: ConnectionView)
    requires
        advances(a, b),
        advances(b, c),
    ensures
        advances(a, c),
{
    assert(a.out =~= c.out.subrange(0, a.out.len() as int)) by {
        assert(a.out =~= b.out.subrange(0, a.out.len() as int));
        assert(b.out =~= c.out.subrange(0, b.out.len() as int));
        assert forall|i: int| 0 <= i < a.out.len() implies a.out[i] == c.out[i] by {
            assert(a.out[i] == b.out[i]);
            assert(b.out[i] == c.out[i]);
        }
    }
}

proof fn write_advances(c: ConnectionView, frame: FrameView)
    ensures
        advances(c, c.write(frame)),
{
    let after = c.write(frame);
    assert(c.out =~= after.out.subrange(0, c.out.len() as int));
}

proof fn goaway_advances(c: ConnectionView, reason: Reason, debug: &str)
    ensures
        advances(c, c.goaway(reason, debug)),
{
    let after = c.goaway(reason, debug);
    assert(c.out =~= after.out.subrange(0, c.out.len() as int));
}

proof fn stream_error_advances(c: ConnectionView, id: u32, reason: Reason)
    ensures
        advances(c, c.stream_error(id, reason)),
{
    if reason != Reason::InternalError && c.reset_budget_spent() {
        goaway_advances(c, Reason::EnhanceYourCalm, "too many resets for peer protocol errors");
    } else {
        let after = c.stream_error(id, reason);
        assert(c.out =~= after.out.subrange(0, c.out.len() as int));
    }
}

proof fn flood_check_advances(c: ConnectionView, id: u32)
    ensures
        advances(c, c.check_continuation_flood(id)),
{
    if c.streams.contains_key(id) {
        let stream = c.streams[id];
        let frames = model::one_more(stream.continuation_frames);
        let after = c.check_continuation_flood(id);
        if frames > c.opts.max_continuation_frames {
            let counted = c.with_stream(
                id,
                StreamView { continuation_frames: frames, ..stream },
            );
            let abandoned = if c.decoder.block_stream == Some(id) {
                ConnectionView {
                    decoder: wire::DecoderView { block_stream: None, ..c.decoder },
                    ..counted
                }
            } else {
                counted
            };
            same_record_advances(c, abandoned);
            stream_error_advances(abandoned, id, Reason::ProtocolError);
            advances_twice(c, abandoned, after);
        } else {
            same_record_advances(c, after);
        }
    } else {
        same_record_advances(c, c);
    }
}

proof fn block_advances(c: ConnectionView, id: u32, end_headers: bool, block: Seq<u8>)
    ensures
        advances(c, c.extend_block(id, end_headers, block)),
{
    let stream = c.streams[id];
    let extended = c.with_stream(
        id,
        StreamView { field_block: stream.field_block + block, ..stream },
    );
    let after = c.extend_block(id, end_headers, block);
    if end_headers {
        same_record_advances(c, after);
    } else {
        same_record_advances(c, extended);
        flood_check_advances(extended, id);
        advances_twice(c, extended, after);
    }
}

proof fn headers_advance(
    c: ConnectionView,
    id: u32,
    end_stream: bool,
    end_headers: bool,
    block: Seq<u8>,
)
    ensures
        advances(c, c.handle_headers_frame(id, end_stream, end_headers, block)),
{
    let after = c.handle_headers_frame(id, end_stream, end_headers, block);
    if c.graceful && id > c.graceful_last_stream {
        same_record_advances(c, c);
    } else if !c.streams.contains_key(id) {
        if id % 2 == 0 {
            goaway_advances(c, Reason::ProtocolError, "headers on invalid stream");
        } else if id <= c.highest_stream_id {
            goaway_advances(c, Reason::ProtocolError, "non-increasing stream id");
        } else {
            assert(c.out =~= after.out.subrange(0, c.out.len() as int));
        }
    } else if c.streams[id].remote_ended {
        stream_error_advances(c, id, Reason::StreamClosed);
    } else {
        let noted = c.with_stream(
            id,
            StreamView { pending_end_stream: end_stream, ..c.streams[id] },
        );
        same_record_advances(c, noted);
        block_advances(noted, id, end_headers, block);
        advances_twice(c, noted, after);
    }
}

proof fn data_advances(c: ConnectionView, id: u32, end_stream: bool, len: nat)
    ensures
        advances(c, c.handle_data_frame(id, end_stream, len)),
{
    let after = c.handle_data_frame(id, end_stream, len);
    if len == 0 && !end_stream {
        same_record_advances(c, c);
    } else {
        let restored = c.restore_windows(id, len);
        if len > 0 {
            let first = FrameView::WindowUpdate { stream_id: id, increment: len as u32 };
            let second = FrameView::WindowUpdate { stream_id: 0, increment: len as u32 };
            write_advances(c, first);
            write_advances(c.write(first), second);
            advances_twice(c, c.write(first), restored);
        } else {
            same_record_advances(c, restored);
        }
        if c.accepts_data(id) {
            same_record_advances(restored, after);
        } else if c.streams.contains_key(id) {
            stream_error_advances(restored, id, Reason::StreamClosed);
        } else if c.closed.contains(id) {
            write_advances(
                restored,
                FrameView::Reset { stream_id: id, error_code: Reason::StreamClosed.code() },
            );
        } else {
            goaway_advances(restored, Reason::ProtocolError, "data on idle stream");
        }
        advances_twice(c, restored, after);
    }
}

proof fn reset_advances(c: ConnectionView, id: u32)
    ensures
        advances(c, c.handle_reset_frame(id)),
{
    let after = c.handle_reset_frame(id);
    if !c.streams.contains_key(id) && !c.closed.contains(id) {
        goaway_advances(c, Reason::ProtocolError, "rst on idle stream");
    } else {
        assert(c.out =~= after.out.subrange(0, c.out.len() as int));
    }
}

proof fn setting_advances(c: ConnectionView, setting: Setting)
    ensures
        advances(c, c.apply_setting(setting)),
{
    let after = c.apply_setting(setting);
    assert(c.out =~= after.out.subrange(0, c.out.len() as int));
}

proof fn settings_advance(c: ConnectionView, settings: Seq<Setting>)
    ensures
        advances(c, c.apply_peer_settings(settings)),
    decreases settings.len(),
{
    if settings.len() == 0 {
        same_record_advances(c, c);
    } else {
        let next = c.apply_setting(settings[0]);
        setting_advances(c, settings[0]);
        if !ConnectionView::setting_stops(settings[0]) {
            settings_advance(next, settings.subrange(1, settings.len() as int));
            advances_twice(c, next, c.apply_peer_settings(settings));
        }
    }
}

proof fn sent_advances(c: ConnectionView, id: u32, amount: nat)
    ensures
        advances(c, c.sent(id, amount)),
{
    let after = c.sent(id, amount);
    assert(c.out =~= after.out.subrange(0, c.out.len() as int));
}

proof fn pump_advances(c: ConnectionView, id: u32)
    ensures
        advances(c, c.pump_stream_data(id)),
    decreases c.queued(id), c.first_len(id),
{
    if c.can_send(id) {
        let next = c.sent(id, c.next_amount(id));
        sent_advances(c, id, c.next_amount(id));
        pump_advances(next, id);
        advances_twice(c, next, c.pump_stream_data(id));
    } else {
        same_record_advances(c, c);
    }
}

proof fn turn_advances(c: ConnectionView, id: u32)
    ensures
        advances(c, c.pump_stream_data_drr(id)),
    decreases c.queued(id),
{
    let after = c.pump_stream_data_drr(id);
    if !c.has_pending(id) {
        same_record_advances(c, c);
    } else if c.streams[id].front_len() == 0 {
        let next = c.sent(id, 0);
        sent_advances(c, id, 0);
        turn_advances(next, id);
        advances_twice(c, next, after);
    } else if c.sendable_drr(id) <= 0 {
        same_record_advances(c, c);
    } else {
        assert(c.out =~= after.out.subrange(0, c.out.len() as int));
    }
}

proof fn visit_advances(c: ConnectionView, id: u32)
    ensures
        advances(c, c.visit(id)),
{
    let stream = c.streams[id];
    let deficit = stream.deficit + c.peer.max_frame_size;
    let raised = c.with_stream(
        id,
        StreamView {
            deficit: if deficit > usize::MAX {
                usize::MAX
            } else {
                deficit as usize
            },
            ..stream
        },
    );
    same_record_advances(c, raised);
    turn_advances(raised, id);
    advances_twice(c, raised, c.visit(id));
}

proof fn round_advances(c: ConnectionView, ids: Seq<u32>)
    ensures
        advances(c, c.round(ids).0),
    decreases ids.len(),
{
    if ids.len() == 0 {
        same_record_advances(c, c);
    } else {
        let rest = ids.subrange(1, ids.len() as int);
        if !c.visit_serves(ids[0]) {
            round_advances(c, rest);
        } else {
            let visited = c.visit(ids[0]);
            visit_advances(c, ids[0]);
            if visited.conn_window > 0 {
                round_advances(visited, rest);
                advances_twice(c, visited, visited.round(rest).0);
            }
        }
    }
}

proof fn rounds_advance(c: ConnectionView, ids: Seq<u32>)
    ensures
        advances(c, c.rounds(ids)),
    decreases c.conn_window,
{
    if c.conn_window <= 0 || ids.len() == 0 {
        same_record_advances(c, c);
    } else {
        let (after, more) = c.round(ids);
        round_advances(c, ids);
        if 0 <= after.conn_window < c.conn_window {
            rounds_advance(after, more);
            advances_twice(c, after, after.rounds(more));
        }
    }
}

proof fn window_update_advances(c: ConnectionView, id: u32, increment: u32, ids: Seq<u32>)
    ensures
        advances(c, c.stream_window_update(id, increment)),
        advances(c, c.connection_window_update(increment, ids)),
{
    if increment == 0 {
        same_record_advances(c, c);
    } else {
        if !c.streams.contains_key(id) {
            if c.closed.contains(id) {
                same_record_advances(c, c);
            } else {
                goaway_advances(c, Reason::ProtocolError, "window update on idle stream");
            }
        } else if c.streams[id].send_window + increment > 0x7fff_ffff {
            stream_error_advances(c, id, Reason::FlowControlError);
        } else {
            let raised = c.with_stream(
                id,
                StreamView {
                    send_window: (c.streams[id].send_window + increment) as i64,
                    ..c.streams[id]
                },
            );
            same_record_advances(c, raised);
            pump_advances(raised, id);
            advances_twice(c, raised, c.stream_window_update(id, increment));
        }
        if !c.connection_window_grows(increment) {
            goaway_advances(c, Reason::FlowControlError, "connection window overflow");
        } else {
            let raised = ConnectionView {
                conn_window: (c.conn_window + increment) as i64,
                ..c
            };
            same_record_advances(c, raised);
            rounds_advance(raised, ids);
            advances_twice(c, raised, c.connection_window_update(increment, ids));
        }
    }
}

proof fn frame_advances(c: ConnectionView, frame: FrameView, after: ConnectionView, step: Step)
    requires
        drive::frame_handled(c, frame, after, step),
    ensures
        advances(c, after),
{
    match frame {
        FrameView::Settings { ack, settings } => {
            if ack {
                same_record_advances(c, after);
            } else {
                let applied = c.apply_peer_settings(settings);
                settings_advance(c, settings);
                let ack = FrameView::Settings { ack: true, settings: Seq::empty() };
                let answered = applied.write(ack);
                write_advances(applied, ack);
                advances_twice(c, applied, answered);
                if answered.windows_opened(c) {
                    let ids = choose|ids: Seq<u32>| #[trigger]
                        answered.lists_pending(ids) && after == answered.rounds(ids);
                    rounds_advance(answered, ids);
                    advances_twice(c, answered, after);
                }
            }
        },
        FrameView::Ping { ack, payload } => {
            if ack {
                same_record_advances(c, after);
            } else {
                write_advances(c, FrameView::Ping { ack: true, payload });
            }
        },
        FrameView::Headers { stream_id, end_stream, end_headers, block, .. } => {
            headers_advance(c, stream_id, end_stream, end_headers, block);
        },
        FrameView::Continuation { stream_id, end_headers, block } => {
            if c.streams.contains_key(stream_id) {
                block_advances(c, stream_id, end_headers, block);
            } else {
                goaway_advances(c, Reason::ProtocolError, "continuation on unknown stream");
            }
        },
        FrameView::Data { stream_id, end_stream, data } => {
            data_advances(c, stream_id, end_stream, data.len());
        },
        FrameView::Reset { stream_id, .. } => {
            reset_advances(c, stream_id);
        },
        FrameView::WindowUpdate { stream_id, increment } => {
            if stream_id == 0 {
                let ids = choose|ids: Seq<u32>| #[trigger]
                    c.lists_pending(ids) && after == c.connection_window_update(increment, ids);
                window_update_advances(c, stream_id, increment, ids);
            } else {
                window_update_advances(c, stream_id, increment, Seq::empty());
            }
        },
        FrameView::PushPromise { .. } => {
            goaway_advances(c, Reason::ProtocolError, "push promise to server");
        },
        _ => {
            same_record_advances(c, after);
        },
    }
}

/// Whatever frame comes, and also where none does, nothing is taken back.
pub proof fn frames_take_nothing_back(before: ConnectionView, after: ConnectionView, step: Step)
    requires
        drive::stepped(before, after, step),
    ensures
        advances(before, after),
{
    let (decoder, outcome) = wire::next_step(before.decoder);
    let c = ConnectionView { decoder, ..before };
    same_record_advances(before, c);
    match outcome {
        Ok(Some(frame)) => {
            frame_advances(c, frame, after, step);
        },
        Ok(None) => {
            same_record_advances(c, after);
        },
        Err(error) => {
            goaway_advances(c, error.reason, "frame error");
        },
    }
    advances_twice(before, c, after);
}

proof fn body_end_advances(c: ConnectionView, id: u32)
    ensures
        advances(c, c.end_request_body(id)),
{
    if !c.streams.contains_key(id) || c.streams[id].remote_ended {
        same_record_advances(c, c);
    } else {
        let ended = c.with_stream(
            id,
            StreamView { remote_ended: true, ..c.streams[id] },
        );
        same_record_advances(c, ended);
        if c.body_length_wrong(id) {
            stream_error_advances(ended, id, Reason::ProtocolError);
            advances_twice(c, ended, c.end_request_body(id));
        }
    }
}

/// Whatever a decoded field block says, nothing is taken back.
pub proof fn field_blocks_take_nothing_back(
    before: ConnectionView,
    id: u32,
    decoded: Result<Seq<request::Field>, FieldBlockError>,
    header_list_size: usize,
    after: ConnectionView,
    outcome: FieldBlockOutcome,
)
    requires
        requests::finalized(before, id, decoded, header_list_size, after, outcome),
    ensures
        advances(before, after),
{
    if !before.streams.contains_key(id) {
        same_record_advances(before, after);
    } else {
        let noted = before.list_size_noted(id, header_list_size);
        same_record_advances(before, noted);
        match decoded {
            Err(error) => {
                if error == FieldBlockError::HeaderListTooLarge {
                    stream_error_advances(noted, id, Reason::ProtocolError);
                } else {
                    goaway_advances(noted, Reason::CompressionError, "hpack decode error");
                }
            },
            Ok(fields) => {
                if before.streams[id].request_started {
                    trailers_advance(noted, id, request::trailers_ok(fields));
                } else if request::request_of(fields) is None {
                    stream_error_advances(noted, id, Reason::ProtocolError);
                } else if noted.streams[id].pending_end_stream {
                    body_end_advances(noted, id);
                } else {
                    same_record_advances(noted, after);
                }
            },
        }
        advances_twice(before, noted, after);
    }
}

proof fn trailers_advance(c: ConnectionView, id: u32, well_formed: bool)
    ensures
        advances(c, c.trailers_arrived(id, well_formed)),
{
    let after = c.trailers_arrived(id, well_formed);
    assert(c.out =~= after.out.subrange(0, c.out.len() as int));
}

/// Trailers that go out late take nothing back.
pub proof fn late_trailers_take_nothing_back(c: ConnectionView, id: u32)
    requires
        c.trailers_due(id),
    ensures
        advances(c, c.trailers_released(id)),
{
    same_record_advances(c, c.trailers_released(id));
}

/// Whatever a response says, nothing is taken back.
pub proof fn responses_take_nothing_back(c: ConnectionView, id: u32, msg: MsgView)
    ensures
        advances(c, responses::msg_handled(c, id, msg)),
{
    let after = responses::msg_handled(c, id, msg);
    match msg {
        MsgView::Data { data, end_stream } => {
            if !c.streams.contains_key(id) || !c.streams[id].response_open() {
                same_record_advances(c, after);
            } else if c.streams[id].pending_data.len() >= model::MAX_PENDING_CHUNKS {
                stream_error_advances(c, id, Reason::InternalError);
            } else {
                let queued = c.with_stream(
                    id,
                    StreamView {
                        pending_data: c.streams[id].pending_data.push((data, end_stream)),
                        ..c.streams[id]
                    },
                );
                same_record_advances(c, queued);
                pump_advances(queued, id);
                advances_twice(c, queued, after);
            }
        },
        MsgView::Reset { error_code } => {
            assert(c.out =~= after.out.subrange(0, c.out.len() as int));
        },
        _ => {
            same_record_advances(c, after);
        },
    }
}

} // verus!
