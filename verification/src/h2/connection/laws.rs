//! What holds of a connection as a whole: flow control, budgets, stream ids and
//! the independence of streams.

use vstd::prelude::*;

use super::model::{self, ConnectionView};
use crate::h2::codec::model as wire;
use crate::h2::codec::model::FrameView;
use crate::h2::codec::Setting;
use crate::h2::error::Reason;
use crate::h2::stream::StreamView;

verus! {

/// Streams other than `id` are as they were.
pub open spec fn other_streams_kept(
    before: ConnectionView,
    after: ConnectionView,
    id: u32,
) -> bool {
    forall|x: u32|
        x != id ==> {
            &&& #[trigger] after.streams.contains_key(x) == before.streams.contains_key(x)
            &&& after.streams[x] == before.streams[x]
        }
}

proof fn kept_twice(a: ConnectionView, b: ConnectionView, c: ConnectionView, id: u32)
    requires
        other_streams_kept(a, b, id),
        other_streams_kept(b, c, id),
    ensures
        other_streams_kept(a, c, id),
{
    assert forall|x: u32| x != id implies {
        &&& #[trigger] c.streams.contains_key(x) == a.streams.contains_key(x)
        &&& c.streams[x] == a.streams[x]
    } by {
        assert(b.streams.contains_key(x) == a.streams.contains_key(x));
    }
}

/// The wire forms of frames, one after the other.
pub open spec fn wire_all(frames: Seq<FrameView>) -> Seq<u8>
    decreases frames.len(),
{
    if frames.len() == 0 {
        Seq::empty()
    } else {
        wire::wire(frames[0]) + wire_all(frames.drop_first())
    }
}

/// The payloads of DATA frames, put together.
pub open spec fn data_of(frames: Seq<FrameView>) -> Seq<u8>
    decreases frames.len(),
{
    if frames.len() == 0 {
        Seq::empty()
    } else {
        let rest = data_of(frames.drop_first());
        match frames[0] {
            FrameView::Data { data, .. } => data + rest,
            _ => rest,
        }
    }
}

/// The queued chunks, put together.
pub open spec fn queued_data(chunks: Seq<(Seq<u8>, bool)>) -> Seq<u8>
    decreases chunks.len(),
{
    if chunks.len() == 0 {
        Seq::empty()
    } else {
        chunks[0].0 + queued_data(chunks.subrange(1, chunks.len() as int))
    }
}

/// The DATA frames that pumping a stream sends, in order.
pub open spec fn pumped(c: ConnectionView, id: u32) -> Seq<FrameView>
    decreases c.queued(id), c.first_len(id),
{
    if c.can_send(id) {
        let amount = c.next_amount(id);
        let stream = c.streams[id];
        let frame = FrameView::Data {
            stream_id: id,
            end_stream: stream.front_ends(amount),
            data: stream.pending_data[0].0.subrange(0, amount as int),
        };
        seq![frame] + pumped(c.sent(id, amount), id)
    } else {
        Seq::empty()
    }
}

/// The data that is still queued on a stream, or nothing where it is gone.
pub open spec fn still_queued(c: ConnectionView, id: u32) -> Seq<u8> {
    if c.streams.contains_key(id) {
        queued_data(c.streams[id].pending_data)
    } else {
        Seq::empty()
    }
}

/// The front of the first chunk is the front of what is queued.
pub(crate) proof fn queued_data_front(chunks: Seq<(Seq<u8>, bool)>, amount: nat)
    requires
        chunks.len() > 0,
        amount <= chunks[0].0.len(),
    ensures
        ({
            let (data, end) = chunks[0];
            let after = if amount == data.len() {
                chunks.subrange(1, chunks.len() as int)
            } else {
                chunks.update(0, (data.subrange(amount as int, data.len() as int), end))
            };
            queued_data(chunks) == data.subrange(0, amount as int) + queued_data(after)
        }),
{
    let (data, end) = chunks[0];
    let tail = chunks.subrange(1, chunks.len() as int);
    if amount == data.len() {
        assert(data.subrange(0, amount as int) =~= data);
    } else {
        let rest = data.subrange(amount as int, data.len() as int);
        let after = chunks.update(0, (rest, end));
        assert(after.subrange(1, after.len() as int) =~= tail);
        assert(queued_data(chunks) =~= data.subrange(0, amount as int) + queued_data(after));
    }
}

/// What one DATA frame does: it stays within both windows and the peer's frame
/// size, it takes from the front of the queue, both windows shrink by its
/// length, and other streams are left alone.
pub(crate) proof fn sent_facts(c: ConnectionView, id: u32)
    requires
        c.inv(),
        c.can_send(id),
    ensures
        ({
            let amount = c.next_amount(id);
            let after = c.sent(id, amount);
            let stream = c.streams[id];
            &&& amount <= c.peer.max_frame_size
            &&& amount <= c.conn_window
            &&& amount > 0 ==> amount <= stream.send_window
            &&& amount <= stream.front_len()
            &&& after.inv()
            &&& after.conn_window == c.conn_window - amount
            &&& after.peer == c.peer
            &&& stream.pending_data[0].0.subrange(0, amount as int).is_prefix_of(
                queued_data(stream.pending_data),
            )
            &&& after.streams.contains_key(id) ==> {
                &&& after.streams[id].send_window == stream.send_window - amount
                &&& queued_data(stream.pending_data) == stream.pending_data[0].0.subrange(
                    0,
                    amount as int,
                ) + queued_data(after.streams[id].pending_data)
            }
            &&& other_streams_kept(c, after, id)
        }),
{
    let amount = c.next_amount(id);
    let after = c.sent(id, amount);
    let stream = c.streams[id];
    assert(c.streams.contains_key(id));
    queued_data_front(stream.pending_data, amount);
    let front = stream.pending_data[0].0.subrange(0, amount as int);
    assert(queued_data(stream.pending_data).subrange(0, front.len() as int) =~= front);
    super::handlers::closed_after_keeps(c.closed, id);
    assert forall|x: u32| #[trigger] after.streams.contains_key(x) implies model::window_in_bounds(
        after.streams[x].send_window,
        after.peer.initial_window_size,
    ) by {
        if x != id {
            assert(c.streams.contains_key(x));
        }
    }
}

proof fn wire_all_front(frame: FrameView, frames: Seq<FrameView>)
    ensures
        wire_all(seq![frame] + frames) == wire::wire(frame) + wire_all(frames),
        data_of(seq![frame] + frames) == match frame {
            FrameView::Data { data, .. } => data + data_of(frames),
            _ => data_of(frames),
        },
{
    assert((seq![frame] + frames).drop_first() =~= frames);
}

/// Pumping a stream sends DATA frames of that stream and nothing else, each
/// within the peer's frame size. What they carry is the front of the queue, in
/// order and without gaps; both windows shrink by exactly as much, and neither
/// below zero for it. What is sent and what stays queued make up what was
/// queued. Other streams are left alone.
pub proof fn pump_sends_the_queue(c: ConnectionView, id: u32)
    requires
        c.inv(),
    ensures
        ({
            let after = c.pump_stream_data(id);
            let frames = pumped(c, id);
            &&& after.inv()
            &&& after.out == c.out + wire_all(frames)
            &&& forall|i: int|
                0 <= i < frames.len() ==> (#[trigger] frames[i] matches FrameView::Data {
                    stream_id,
                    data,
                    ..
                } && stream_id == id && data.len() <= c.peer.max_frame_size)
            &&& after.conn_window == c.conn_window - data_of(frames).len()
            &&& after.conn_window >= 0
            &&& c.streams.contains_key(id) ==> data_of(frames).is_prefix_of(
                queued_data(c.streams[id].pending_data),
            )
            &&& after.streams.contains_key(id) ==> {
                &&& c.streams.contains_key(id)
                &&& after.streams[id].send_window == c.streams[id].send_window - data_of(
                    frames,
                ).len()
                &&& data_of(frames).len() > 0 ==> after.streams[id].send_window >= 0
                &&& queued_data(c.streams[id].pending_data) == data_of(frames) + still_queued(
                    after,
                    id,
                )
            }
            &&& other_streams_kept(c, after, id)
        }),
    decreases c.queued(id), c.first_len(id),
{
    let frames = pumped(c, id);
    if c.can_send(id) {
        let amount = c.next_amount(id);
        let stream = c.streams[id];
        let next = c.sent(id, amount);
        let frame = FrameView::Data {
            stream_id: id,
            end_stream: stream.front_ends(amount),
            data: stream.pending_data[0].0.subrange(0, amount as int),
        };
        sent_facts(c, id);
        pump_sends_the_queue(next, id);
        let more = pumped(next, id);
        wire_all_front(frame, more);
        let after = c.pump_stream_data(id);
        kept_twice(c, next, after, id);
        assert(after.out =~= c.out + wire_all(frames));
        assert forall|i: int| 0 <= i < frames.len() implies (#[trigger] frames[i] matches
            FrameView::Data { stream_id, data, .. } && stream_id == id && data.len()
            <= c.peer.max_frame_size) by {
            if i > 0 {
                assert(frames[i] == more[i - 1]);
            }
        }
        if next.streams.contains_key(id) {
            let front = stream.pending_data[0].0.subrange(0, amount as int);
            let rest = queued_data(next.streams[id].pending_data);
            assert((front + rest).subrange(0, data_of(frames).len() as int) =~= front + data_of(
                more,
            ));
        } else {
            assert(more =~= Seq::<FrameView>::empty());
            assert(data_of(frames) =~= stream.pending_data[0].0.subrange(0, amount as int));
        }
        if after.streams.contains_key(id) {
            assert(next.streams.contains_key(id));
            assert(queued_data(stream.pending_data) =~= data_of(frames) + still_queued(after, id));
        }
    } else {
        assert(c.out + Seq::<u8>::empty() =~= c.out);
        if c.streams.contains_key(id) {
            assert(Seq::<u8>::empty() + queued_data(c.streams[id].pending_data) =~= queued_data(
                c.streams[id].pending_data,
            ));
        }
    }
}

/// Pumping goes on until nothing more can be sent: then the queue is empty, the
/// response has ended, or a window is closed.
pub proof fn pump_is_exhaustive(c: ConnectionView, id: u32)
    requires
        c.inv(),
    ensures
        ({
            let after = c.pump_stream_data(id);
            !after.has_pending(id) || after.conn_window <= 0 || after.streams[id].send_window <= 0
        }),
    decreases c.queued(id), c.first_len(id),
{
    if c.can_send(id) {
        sent_facts(c, id);
        pump_is_exhaustive(c.sent(id, c.next_amount(id)), id);
    }
}

/// Pumping again right away sends nothing.
pub proof fn pump_is_idempotent(c: ConnectionView, id: u32)
    ensures
        c.pump_stream_data(id).pump_stream_data(id) == c.pump_stream_data(id),
    decreases c.queued(id), c.first_len(id),
{
    if c.can_send(id) {
        pump_is_idempotent(c.sent(id, c.next_amount(id)), id);
    }
}

/// One more frame in deficit round-robin, or only the empty ones before it.
pub(crate) proof fn drr_facts(c: ConnectionView, id: u32)
    requires
        c.inv(),
    ensures
        ({
            let after = c.pump_stream_data_drr(id);
            &&& after.inv()
            &&& after.peer == c.peer
            &&& 0 <= c.conn_window - after.conn_window <= c.peer.max_frame_size
            &&& c.streams.contains_key(id) ==> c.conn_window - after.conn_window
                <= c.streams[id].deficit
            &&& other_streams_kept(c, after, id)
        }),
    decreases c.queued(id),
{
    if c.has_pending(id) {
        assert(c.streams.contains_key(id));
        if c.streams[id].front_len() == 0 {
            sent_facts(c, id);
            let next = c.sent(id, 0);
            drr_facts(next, id);
            assert(next.streams.contains_key(id) ==> next.streams[id].deficit
                == c.streams[id].deficit);
            kept_twice(c, next, next.pump_stream_data_drr(id), id);
        } else if c.sendable_drr(id) > 0 {
            drr_frame_facts(c, id);
        }
    }
}

/// One frame within the deficit.
proof fn drr_frame_facts(c: ConnectionView, id: u32)
    requires
        c.inv(),
        c.has_pending(id),
        c.streams[id].front_len() > 0,
        c.sendable_drr(id) > 0,
    ensures
        ({
            let after = c.pump_stream_data_drr(id);
            &&& after.inv()
            &&& after.peer == c.peer
            &&& 0 <= c.conn_window - after.conn_window <= c.peer.max_frame_size
            &&& c.conn_window - after.conn_window <= c.streams[id].deficit
            &&& other_streams_kept(c, after, id)
        }),
{
    let amount = c.sendable_drr(id) as nat;
    assert(c.streams.contains_key(id));
    super::handlers::closed_after_keeps(c.closed, id);
    let after = c.pump_stream_data_drr(id);
    assert(after.conn_window == c.conn_window - amount);
    assert(other_streams_kept(c, after, id));
    assert forall|x: u32| #[trigger] after.streams.contains_key(x) implies model::window_in_bounds(
        after.streams[x].send_window,
        after.peer.initial_window_size,
    ) by {
        if x != id {
            assert(c.streams.contains_key(x));
        }
    }
}

/// A stream's turn in deficit round-robin takes at most one quantum, the peer's
/// frame size, from the connection window, and leaves other streams alone.
pub proof fn turn_takes_at_most_a_quantum(c: ConnectionView, id: u32)
    requires
        c.inv(),
        c.visit_serves(id),
    ensures
        ({
            let after = c.visit(id);
            &&& after.inv()
            &&& after.peer == c.peer
            &&& 0 <= c.conn_window - after.conn_window <= c.peer.max_frame_size
            &&& other_streams_kept(c, after, id)
        }),
{
    let stream = c.streams[id];
    let deficit = stream.deficit + c.peer.max_frame_size;
    let raised = c.with_stream(
        id,
        StreamView {
            deficit: if deficit > usize::MAX {
                usize::MAX
            } else {
                deficit as usize
            },
            ..stream
        },
    );
    assert(c.streams.contains_key(id));
    super::handlers::with_stream_keeps_inv(c, id, raised.streams[id]);
    drr_facts(raised, id);
    let after = c.visit(id);
    assert(after == raised.pump_stream_data_drr(id));
    assert(other_streams_kept(c, raised, id));
    kept_twice(c, raised, after, id);
}

/// No stream can hog the connection window: a round gives every stream at most
/// one quantum, and the window never falls below zero.
pub proof fn round_is_fair(c: ConnectionView, ids: Seq<u32>)
    requires
        c.inv(),
    ensures
        ({
            let (after, kept) = c.round(ids);
            &&& after.inv()
            &&& after.peer == c.peer
            &&& 0 <= after.conn_window <= c.conn_window
            &&& c.conn_window - after.conn_window <= ids.len() * c.peer.max_frame_size
        }),
    decreases ids.len(),
{
    if ids.len() > 0 {
        let rest = ids.subrange(1, ids.len() as int);
        let q = c.peer.max_frame_size;
        assert(ids.len() * q == rest.len() * q + q) by (nonlinear_arith)
            requires
                ids.len() == rest.len() + 1,
        ;
        assert(rest.len() * q >= 0) by (nonlinear_arith)
            requires
                rest.len() >= 0,
                q >= 0,
        ;
        if c.visit_serves(ids[0]) {
            turn_takes_at_most_a_quantum(c, ids[0]);
            round_is_fair(c.visit(ids[0]), rest);
        } else {
            round_is_fair(c, rest);
        }
    } else {
        assert(ids.len() * c.peer.max_frame_size == 0) by (nonlinear_arith)
            requires
                ids.len() == 0,
        ;
    }
}

/// Draining by round-robin keeps the connection window between zero and what it
/// was.
pub proof fn rounds_stay_within_the_window(c: ConnectionView, ids: Seq<u32>)
    requires
        c.inv(),
    ensures
        c.rounds(ids).inv(),
        0 <= c.rounds(ids).conn_window <= c.conn_window,
    decreases c.conn_window,
{
    if c.conn_window > 0 && ids.len() > 0 {
        round_is_fair(c, ids);
        let (after, more) = c.round(ids);
        if after.conn_window < c.conn_window {
            rounds_stay_within_the_window(after, more);
        }
    }
}

/// A stream error touches only its own stream.
pub proof fn stream_error_is_local(c: ConnectionView, id: u32, reason: Reason, other: u32)
    requires
        other != id,
    ensures
        ({
            let after = c.stream_error(id, reason);
            &&& after.streams.contains_key(other) == c.streams.contains_key(other)
            &&& after.streams[other] == c.streams[other]
            &&& after.conn_window == c.conn_window
        }),
{
}

/// Stream errors, one after the other.
pub open spec fn stream_errors(c: ConnectionView, errors: Seq<(u32, Reason)>) -> ConnectionView
    decreases errors.len(),
{
    if errors.len() == 0 {
        c
    } else {
        stream_errors(c, errors.drop_last()).stream_error(errors.last().0, errors.last().1)
    }
}

/// With a budget of `max` resets for the peer's errors, `n` errors are answered
/// with RST_STREAM as long as they fit the budget; as soon as one does not, the
/// connection is closing (RFC 9113 Section 10.5.2).
pub proof fn reset_budget_holds(c: ConnectionView, errors: Seq<(u32, Reason)>, max: usize)
    requires
        c.inv(),
        c.opts.max_local_error_reset_streams == Some(max),
        forall|i: int|
            0 <= i < errors.len() ==> (#[trigger] errors[i]).1 != Reason::InternalError,
    ensures
        ({
            let after = stream_errors(c, errors);
            &&& after.opts == c.opts
            &&& after.local_error_resets <= max
            &&& c.local_error_resets + errors.len() <= max ==> {
                &&& after.local_error_resets == c.local_error_resets + errors.len()
                &&& after.closing == c.closing
            }
            &&& c.local_error_resets + errors.len() > max ==> {
                &&& after.local_error_resets == max
                &&& after.closing
            }
        }),
    decreases errors.len(),
{
    if errors.len() > 0 {
        let init = errors.drop_last();
        assert forall|i: int| 0 <= i < init.len() implies (#[trigger] init[i]).1
            != Reason::InternalError by {
            assert(init[i] == errors[i]);
        }
        reset_budget_holds(c, init, max);
        assert(errors[errors.len() - 1].1 != Reason::InternalError);
    }
}

/// Without a budget, errors cost only their own streams: the connection does
/// not close for them.
pub proof fn no_reset_budget_never_closes(c: ConnectionView, errors: Seq<(u32, Reason)>)
    requires
        c.opts.max_local_error_reset_streams is None,
    ensures
        stream_errors(c, errors).closing == c.closing,
        stream_errors(c, errors).opts == c.opts,
    decreases errors.len(),
{
    if errors.len() > 0 {
        no_reset_budget_never_closes(c, errors.drop_last());
    }
}

/// A stream error within the budget answers with RST_STREAM and remembers the
/// stream as closed; the stream is gone.
pub proof fn stream_error_closes_the_stream(c: ConnectionView, id: u32, reason: Reason)
    requires
        c.inv(),
        !c.reset_budget_spent() || reason == Reason::InternalError,
    ensures
        ({
            let after = c.stream_error(id, reason);
            &&& after.inv()
            &&& !after.streams.contains_key(id)
            &&& after.closed.contains(id)
            &&& after.out == c.out + wire::wire(
                FrameView::Reset { stream_id: id, error_code: reason.code() },
            )
            &&& after.closing == c.closing
        }),
{
    super::handlers::closed_after_keeps(c.closed, id);
    let after = c.stream_error(id, reason);
    assert forall|x: u32| #[trigger] after.streams.contains_key(x) implies model::window_in_bounds(
        after.streams[x].send_window,
        after.peer.initial_window_size,
    ) by {
        assert(c.streams.contains_key(x));
    }
}

/// The list of closed streams forgets only the oldest, and only when it is full.
pub proof fn closed_streams_are_remembered(closed: Seq<u32>, id: u32, other: u32)
    requires
        closed.no_duplicates(),
        closed.len() <= model::MAX_CLOSED_STREAMS,
        closed.contains(other),
        closed.len() < model::MAX_CLOSED_STREAMS || other != closed[0],
    ensures
        model::closed_after(closed, id).contains(other),
        model::closed_after(closed, id).contains(id),
        model::closed_after(closed, id).len() <= model::MAX_CLOSED_STREAMS,
{
    super::handlers::closed_after_keeps(closed, id);
    let kept = if closed.len() >= model::MAX_CLOSED_STREAMS {
        closed.subrange(1, closed.len() as int)
    } else {
        closed
    };
    let i = choose|i: int| 0 <= i < closed.len() && closed[i] == other;
    if closed.len() >= model::MAX_CLOSED_STREAMS {
        assert(kept[i - 1] == other);
    }
    assert(kept.contains(other));
    if !kept.contains(id) {
        let j = choose|j: int| 0 <= j < kept.len() && kept[j] == other;
        assert(kept.push(id)[j] == other);
    }
}

/// A field block that stays open is bounded: after every frame of it the count
/// is within the limit, or the stream is gone, or the connection is closing.
pub proof fn continuation_flood_is_stopped(c: ConnectionView, id: u32)
    ensures
        ({
            let after = c.check_continuation_flood(id);
            after.streams.contains_key(id) && !after.closing
                ==> after.streams[id].continuation_frames <= c.opts.max_continuation_frames
        }),
        ({
            let after = c.check_continuation_flood(id);
            after.decoder.block_stream == Some(id) && !after.closing && c.streams.contains_key(id)
                ==> after.streams.contains_key(id)
        }),
{
}

/// A flood on one stream costs only that stream while the reset budget lasts:
/// the connection stays open and the abandoned block no longer blocks other
/// frames.
pub proof fn continuation_flood_is_local(c: ConnectionView, id: u32)
    requires
        c.streams.contains_key(id),
        !c.closing,
        !c.reset_budget_spent(),
        model::one_more(c.streams[id].continuation_frames) > c.opts.max_continuation_frames,
    ensures
        ({
            let after = c.check_continuation_flood(id);
            &&& !after.closing
            &&& !after.streams.contains_key(id)
            &&& after.decoder.block_stream != Some(id)
            &&& other_streams_kept(c, after, id)
        }),
{
}

/// Stream ids increase (RFC 9113 Section 5.1.1): a HEADERS frame that opens a
/// stream has an odd id above all before it, and the highest id never falls.
pub proof fn stream_ids_increase(
    c: ConnectionView,
    id: u32,
    end_stream: bool,
    end_headers: bool,
    block: Seq<u8>,
)
    ensures
        ({
            let after = c.handle_headers_frame(id, end_stream, end_headers, block);
            &&& after.highest_stream_id >= c.highest_stream_id
            &&& after.streams.contains_key(id) && !c.streams.contains_key(id) ==> {
                &&& id > c.highest_stream_id
                &&& id % 2 == 1
                &&& after.highest_stream_id == id
                &&& c.streams.len() < c.opts.max_concurrent_streams
            }
            &&& forall|x: u32|
                x != id ==> #[trigger] after.streams.contains_key(x) == c.streams.contains_key(x)
        }),
{
}

/// After graceful shutdown has begun, no stream beyond the announced one is
/// opened (RFC 9113 Section 6.8).
pub proof fn graceful_shutdown_opens_no_stream(
    c: ConnectionView,
    id: u32,
    end_stream: bool,
    end_headers: bool,
    block: Seq<u8>,
)
    requires
        c.graceful,
        id > c.graceful_last_stream,
    ensures
        c.handle_headers_frame(id, end_stream, end_headers, block) == c,
{
}

/// Graceful shutdown announces the highest stream that was opened, and
/// beginning it twice is beginning it once.
pub proof fn graceful_shutdown_is_announced(c: ConnectionView)
    requires
        !c.graceful,
        !c.closing,
    ensures
        ({
            let begun = c.begin_graceful_shutdown();
            let goaway = FrameView::GoAway {
                last_stream_id: c.highest_stream_id,
                error_code: Reason::NoError.code(),
                debug: begun_debug(),
            };
            &&& begun.graceful
            &&& begun.graceful_last_stream == c.highest_stream_id
            &&& begun.out == c.out + wire::wire(goaway)
            &&& begun.begin_graceful_shutdown() == begun
            &&& begun.finish_graceful_shutdown().out == begun.out + wire::wire(goaway)
        }),
{
}

/// The debug text of a graceful shutdown.
pub open spec fn begun_debug() -> Seq<u8> {
    vstd::utf8::encode_utf8("graceful shutdown"@)
}

/// Moving the windows by two initial sizes in a row is moving them by the last:
/// the window of a stream depends on the initial size in force, not on those
/// before it.
pub proof fn initial_windows_telescope(c: ConnectionView, first: u32, second: u32)
    requires
        c.inv(),
    ensures
        ({
            let initial = c.peer.initial_window_size;
            c.shift_windows(first - initial).shift_windows(second - first) == c.shift_windows(
                second - initial,
            )
        }),
{
    let initial = c.peer.initial_window_size;
    let twice = c.shift_windows(first - initial).shift_windows(second - first);
    let once = c.shift_windows(second - initial);
    assert forall|x: u32| #[trigger] once.streams.contains_key(x) implies twice.streams[x]
        == once.streams[x] by {
        assert(c.streams.contains_key(x));
    }
    assert(twice.streams =~= once.streams);
}

/// DATA that arrives is granted back in full, on the stream and on the
/// connection, before anything else is said about it (RFC 9113 Section 6.9.2).
pub proof fn received_data_is_granted_back(
    c: ConnectionView,
    id: u32,
    end_stream: bool,
    data: Seq<u8>,
)
    requires
        0 < data.len() < 0x8000_0000,
    ensures
        ({
            let after = c.handle_data_frame(id, end_stream, data.len());
            let grants = wire::wire(
                FrameView::WindowUpdate { stream_id: id, increment: data.len() as u32 },
            ) + wire::wire(FrameView::WindowUpdate { stream_id: 0, increment: data.len() as u32 });
            (c.out + grants).is_prefix_of(after.out)
        }),
{
    let grants = wire::wire(
        FrameView::WindowUpdate { stream_id: id, increment: data.len() as u32 },
    ) + wire::wire(FrameView::WindowUpdate { stream_id: 0, increment: data.len() as u32 });
    let after = c.handle_data_frame(id, end_stream, data.len());
    let restored = c.restore_windows(id, data.len());
    assert(restored.out =~= c.out + grants);
    assert(after.out.subrange(0, restored.out.len() as int) =~= restored.out);
}

/// A WINDOW_UPDATE for one stream drains that stream alone.
pub proof fn stream_window_update_is_local(c: ConnectionView, id: u32, increment: u32)
    requires
        c.inv(),
    ensures
        other_streams_kept(c, c.stream_window_update(id, increment), id),
{
    if increment > 0 && c.streams.contains_key(id) && c.streams[id].send_window + increment
        <= 0x7fff_ffff {
        let raised = c.with_stream(
            id,
            StreamView {
                send_window: (c.streams[id].send_window + increment) as i64,
                ..c.streams[id]
            },
        );
        pump_keeps_others(raised, id);
        assert(other_streams_kept(c, raised, id));
        kept_twice(c, raised, raised.pump_stream_data(id), id);
    }
}

proof fn pump_keeps_others(c: ConnectionView, id: u32)
    ensures
        other_streams_kept(c, c.pump_stream_data(id), id),
    decreases c.queued(id), c.first_len(id),
{
    if c.can_send(id) {
        let next = c.sent(id, c.next_amount(id));
        pump_keeps_others(next, id);
        assert(other_streams_kept(c, next, id));
        kept_twice(c, next, c.pump_stream_data(id), id);
    }
}

/// The blank end of a response needs no window: with nothing queued before it,
/// it goes out at once and takes nothing from the connection window.
pub proof fn blank_end_needs_no_window(c: ConnectionView, id: u32)
    requires
        c.streams.contains_key(id),
        c.streams[id].response_open(),
        c.streams[id].pending_data.len() == 0,
    ensures
        ({
            let after = c.response_data(id, Seq::empty(), true);
            &&& after.out == c.out + wire::wire(
                FrameView::Data { stream_id: id, end_stream: true, data: Seq::empty() },
            )
            &&& after.conn_window == c.conn_window
            &&& after.streams.contains_key(id) ==> after.streams[id].local_ended
        }),
{
    let stream = c.streams[id];
    let queued = c.with_stream(
        id,
        StreamView { pending_data: stream.pending_data.push((Seq::empty(), true)), ..stream },
    );
    assert(c.response_data(id, Seq::empty(), true) == queued.pump_stream_data(id));
    let sent = queued.sent(id, 0);
    let none = Seq::<u8>::empty();
    assert(none.subrange(0, 0) =~= none);
    assert(queued.can_send(id));
    assert(!sent.can_send(id));
    assert(queued.pump_stream_data(id) == sent.pump_stream_data(id));
}

/// Field blocks are taken in the order in which they were completed.
pub proof fn blocks_are_taken_in_order(c: ConnectionView, id: u32)
    requires
        c.next_complete_block() == Some(id),
    ensures
        ({
            let i = c.complete_blocks.len() - c.take_complete_block().complete_blocks.len() - 1;
            &&& 0 <= i < c.complete_blocks.len()
            &&& c.complete_blocks[i] == id
            &&& c.streams.contains_key(id)
            &&& forall|j: int|
                0 <= j < i ==> !c.streams.contains_key(#[trigger] c.complete_blocks[j])
            &&& c.take_complete_block().complete_blocks == c.complete_blocks.subrange(
                i + 1,
                c.complete_blocks.len() as int,
            )
        }),
    decreases c.complete_blocks.len(),
{
    let blocks = c.complete_blocks;
    if !c.streams.contains_key(blocks[0]) {
        let rest = c.without_first_block();
        blocks_are_taken_in_order(rest, id);
        let i = blocks.len() - c.take_complete_block().complete_blocks.len() - 1;
        assert(rest.complete_blocks[i - 1] == blocks[i]);
        assert forall|j: int| 0 <= j < i implies !c.streams.contains_key(#[trigger] blocks[j]) by {
            if j > 0 {
                assert(rest.complete_blocks[j - 1] == blocks[j]);
            }
        }
        assert(rest.complete_blocks.subrange(i, rest.complete_blocks.len() as int)
            =~= blocks.subrange(i + 1, blocks.len() as int));
    }
}

/// Our own limit on frame sizes says nothing of the peer's: configuring the
/// connection and announcing its settings leave the size of the frames that are
/// sent alone; only the peer's SETTINGS change it.
pub proof fn own_frame_size_is_not_the_peers(c: ConnectionView, settings: Seq<Setting>)
    requires
        forall|i: int| 0 <= i < settings.len() ==> (#[trigger] settings[i]).id != 0x05,
    ensures
        c.announce().peer == c.peer,
        c.apply_peer_settings(settings).peer.max_frame_size == c.peer.max_frame_size,
    decreases settings.len(),
{
    if settings.len() > 0 {
        let rest = settings.subrange(1, settings.len() as int);
        assert(settings[0].id != 0x05);
        assert forall|i: int| 0 <= i < rest.len() implies (#[trigger] rest[i]).id != 0x05 by {
            assert(rest[i] == settings[i + 1]);
        }
        own_frame_size_is_not_the_peers(c.apply_setting(settings[0]), rest);
    }
}

/// A stream beyond the limit is answered with REFUSED_STREAM; the streams that
/// are open stay, and so does the connection.
pub proof fn excess_stream_is_refused(
    c: ConnectionView,
    id: u32,
    end_stream: bool,
    end_headers: bool,
    block: Seq<u8>,
)
    requires
        !c.graceful,
        id % 2 == 1,
        id > c.highest_stream_id,
        !c.streams.contains_key(id),
        c.streams.len() >= c.opts.max_concurrent_streams,
    ensures
        ({
            let after = c.handle_headers_frame(id, end_stream, end_headers, block);
            &&& after.out == c.out + wire::wire(
                FrameView::Reset { stream_id: id, error_code: Reason::RefusedStream.code() },
            )
            &&& after.streams == c.streams
            &&& after.closing == c.closing
            &&& after.local_error_resets == c.local_error_resets
        }),
{
}

/// A malformed request is answered with PROTOCOL_ERROR on its own stream; while
/// the reset budget lasts the connection stays open, and other streams are left
/// alone.
pub proof fn malformed_request_costs_its_stream(c: ConnectionView, id: u32)
    requires
        c.inv(),
        c.streams.contains_key(id),
        !c.reset_budget_spent(),
    ensures
        ({
            let after = c.request_arrived(id, false);
            &&& after.out == c.out + wire::wire(
                FrameView::Reset { stream_id: id, error_code: Reason::ProtocolError.code() },
            )
            &&& !after.streams.contains_key(id)
            &&& after.closing == c.closing
            &&& other_streams_kept(c, after, id)
        }),
{
    stream_error_closes_the_stream(c, id, Reason::ProtocolError);
}

} // verus!
