//! What goes out of a response, and in what order.

use vstd::prelude::*;
use vstd::string::StringSliceAdditionalSpecFns;

use super::draining;
use super::laws;
use super::model::{ConnectionView, MAX_PENDING_CHUNKS};
use super::responses::{self, MsgView};
use crate::h2::codec::model::FrameView;
use crate::h2::error::Reason;
use crate::h2::stream::StreamView;

verus! {

/// The data that the DATA frames of a stream carry, in order.
pub open spec fn data_on(frames: Seq<FrameView>, id: u32) -> Seq<u8>
    decreases frames.len(),
{
    if frames.len() == 0 {
        Seq::empty()
    } else {
        let before = data_on(frames.drop_last(), id);
        match frames.last() {
            FrameView::Data { stream_id, data, .. } if stream_id == id => before + data,
            _ => before,
        }
    }
}

/// A DATA frame that ends the stream.
pub open spec fn ends_stream(frame: FrameView, id: u32) -> bool {
    frame matches FrameView::Data { stream_id, end_stream, .. } && stream_id == id && end_stream
}

/// Some DATA frame ends the stream.
pub open spec fn ends_on(frames: Seq<FrameView>, id: u32) -> bool {
    exists|i: int| 0 <= i < frames.len() && ends_stream(#[trigger] frames[i], id)
}

/// Some queued chunk ends the stream.
pub open spec fn has_end(chunks: Seq<(Seq<u8>, bool)>) -> bool {
    exists|i: int| 0 <= i < chunks.len() && (#[trigger] chunks[i]).1
}

/// No queued chunk but the last one ends the stream.
pub open spec fn ends_last(chunks: Seq<(Seq<u8>, bool)>) -> bool {
    forall|i: int| 0 <= i < chunks.len() - 1 ==> !(#[trigger] chunks[i]).1
}

/// The queued data up to the end of the stream.
pub open spec fn live_data(chunks: Seq<(Seq<u8>, bool)>) -> Seq<u8>
    decreases chunks.len(),
{
    if chunks.len() == 0 {
        Seq::empty()
    } else if chunks[0].1 {
        chunks[0].0
    } else {
        chunks[0].0 + live_data(chunks.subrange(1, chunks.len() as int))
    }
}

proof fn live_data_push(chunks: Seq<(Seq<u8>, bool)>, data: Seq<u8>, end: bool)
    ensures
        live_data(chunks.push((data, end))) == if has_end(chunks) {
            live_data(chunks)
        } else {
            live_data(chunks) + data
        },
        has_end(chunks.push((data, end))) == (has_end(chunks) || end),
    decreases chunks.len(),
{
    let all = chunks.push((data, end));
    assert(all[chunks.len() as int] == (data, end));
    if has_end(chunks) {
        let i = choose|i: int| 0 <= i < chunks.len() && (#[trigger] chunks[i]).1;
        assert(all[i].1);
    }
    if has_end(all) && !end {
        let i = choose|i: int| 0 <= i < all.len() && (#[trigger] all[i]).1;
        assert(chunks[i].1);
    }
    if chunks.len() == 0 {
        reveal_with_fuel(live_data, 2);
        assert(all.subrange(1, 1) =~= Seq::<(Seq<u8>, bool)>::empty());
        assert(data + Seq::<u8>::empty() =~= data);
        assert(Seq::<u8>::empty() + data =~= data);
    } else {
        let tail = chunks.subrange(1, chunks.len() as int);
        assert(all.subrange(1, all.len() as int) =~= tail.push((data, end)));
        live_data_push(tail, data, end);
        if has_end(tail) {
            let i = choose|i: int| 0 <= i < tail.len() && (#[trigger] tail[i]).1;
            assert(chunks[i + 1].1);
        }
        if has_end(chunks) && !chunks[0].1 {
            let i = choose|i: int| 0 <= i < chunks.len() && (#[trigger] chunks[i]).1;
            assert(tail[i - 1].1);
        }
        if !chunks[0].1 {
            let front = chunks[0].0;
            assert(front + (live_data(tail) + data) =~= (front + live_data(tail)) + data);
        }
    }
}

/// Where only the last chunk may end the stream, nothing is queued behind the
/// end.
proof fn live_data_is_queued(chunks: Seq<(Seq<u8>, bool)>)
    requires
        ends_last(chunks),
    ensures
        live_data(chunks) == laws::queued_data(chunks),
    decreases chunks.len(),
{
    if chunks.len() > 0 {
        let tail = chunks.subrange(1, chunks.len() as int);
        assert forall|i: int| 0 <= i < tail.len() - 1 implies !(#[trigger] tail[i]).1 by {
            assert(!chunks[i + 1].1);
        }
        live_data_is_queued(tail);
        if chunks[0].1 {
            assert(chunks.len() == 1);
            assert(laws::queued_data(tail) =~= Seq::<u8>::empty());
            assert(chunks[0].0 + laws::queued_data(tail) =~= chunks[0].0);
        }
    }
}

/// What taking the front of the first chunk does to the queue.
proof fn front_leaves(stream: StreamView, amount: nat)
    requires
        stream.pending_data.len() > 0,
        amount <= stream.front_len(),
    ensures
        ({
            let chunks = stream.pending_data;
            let after = stream.front_taken(amount).pending_data;
            let front = chunks[0].0.subrange(0, amount as int);
            &&& stream.front_ends(amount) ==> {
                &&& live_data(chunks) == front
                &&& has_end(chunks)
                &&& ends_last(chunks) ==> after.len() == 0
            }
            &&& !stream.front_ends(amount) ==> {
                &&& live_data(chunks) == front + live_data(after)
                &&& has_end(chunks) == has_end(after)
                &&& ends_last(chunks) ==> ends_last(after)
            }
        }),
{
    let chunks = stream.pending_data;
    let (data, end) = chunks[0];
    let after = stream.front_taken(amount).pending_data;
    let tail = chunks.subrange(1, chunks.len() as int);
    if amount == data.len() {
        assert(data.subrange(0, amount as int) =~= data);
        if end {
            assert(has_end(chunks));
        } else {
            if has_end(chunks) {
                let i = choose|i: int| 0 <= i < chunks.len() && (#[trigger] chunks[i]).1;
                assert(tail[i - 1].1);
            }
            if has_end(tail) {
                let i = choose|i: int| 0 <= i < tail.len() && (#[trigger] tail[i]).1;
                assert(chunks[i + 1].1);
            }
            if ends_last(chunks) {
                assert forall|i: int| 0 <= i < tail.len() - 1 implies !(#[trigger] tail[i]).1 by {
                    assert(!chunks[i + 1].1);
                }
            }
        }
    } else {
        let rest = data.subrange(amount as int, data.len() as int);
        assert(after[0] == (rest, end));
        assert(after.subrange(1, after.len() as int) =~= tail);
        let front = data.subrange(0, amount as int);
        assert(front + rest =~= data);
        assert(front + (rest + live_data(tail)) =~= (front + rest) + live_data(tail));
        if has_end(chunks) {
            let i = choose|i: int| 0 <= i < chunks.len() && (#[trigger] chunks[i]).1;
            assert(after[i].1);
        }
        if has_end(after) {
            let i = choose|i: int| 0 <= i < after.len() && (#[trigger] after[i]).1;
            assert(chunks[i].1);
        }
        if ends_last(chunks) {
            assert forall|i: int| 0 <= i < after.len() - 1 implies !(#[trigger] after[i]).1 by {
                assert(!chunks[i].1);
            }
        }
    }
}

/// Frames, one list behind the other.
pub(crate) proof fn frames_join(first: Seq<FrameView>, second: Seq<FrameView>, id: u32)
    ensures
        laws::wire_all(first + second) == laws::wire_all(first) + laws::wire_all(second),
        data_on(first + second, id) == data_on(first, id) + data_on(second, id),
        ends_on(first + second, id) == (ends_on(first, id) || ends_on(second, id)),
{
    wires_join(first, second);
    data_joins(first, second, id);
    let all = first + second;
    if ends_on(first, id) {
        let i = choose|i: int| 0 <= i < first.len() && ends_stream(#[trigger] first[i], id);
        assert(ends_stream(all[i], id));
    }
    if ends_on(second, id) {
        let i = choose|i: int| 0 <= i < second.len() && ends_stream(#[trigger] second[i], id);
        assert(ends_stream(all[i + first.len()], id));
    }
    if ends_on(all, id) {
        let i = choose|i: int| 0 <= i < all.len() && ends_stream(#[trigger] all[i], id);
        if i < first.len() {
            assert(ends_stream(first[i], id));
        } else {
            assert(ends_stream(second[i - first.len()], id));
        }
    }
}

proof fn wires_join(first: Seq<FrameView>, second: Seq<FrameView>)
    ensures
        laws::wire_all(first + second) == laws::wire_all(first) + laws::wire_all(second),
    decreases first.len(),
{
    let all = first + second;
    if first.len() == 0 {
        assert(all =~= second);
        assert(laws::wire_all(first) + laws::wire_all(second) =~= laws::wire_all(second));
    } else {
        wires_join(first.drop_first(), second);
        assert(all.drop_first() =~= first.drop_first() + second);
        assert(laws::wire_all(all) =~= laws::wire_all(first) + laws::wire_all(second));
    }
}

proof fn data_joins(first: Seq<FrameView>, second: Seq<FrameView>, id: u32)
    ensures
        data_on(first + second, id) == data_on(first, id) + data_on(second, id),
    decreases second.len(),
{
    let all = first + second;
    if second.len() == 0 {
        assert(all =~= first);
        assert(data_on(first, id) + data_on(second, id) =~= data_on(first, id));
    } else {
        data_joins(first, second.drop_last(), id);
        assert(all.drop_last() =~= first + second.drop_last());
        assert(data_on(all, id) =~= data_on(first, id) + data_on(second, id));
    }
}

pub(crate) proof fn one_frame(frame: FrameView, id: u32)
    ensures
        laws::wire_all(seq![frame]) == crate::h2::codec::model::wire(frame),
        data_on(seq![frame], id) == match frame {
            FrameView::Data { stream_id, data, .. } if stream_id == id => data,
            _ => Seq::empty(),
        },
        ends_on(seq![frame], id) == ends_stream(frame, id),
{
    let frames = seq![frame];
    reveal_with_fuel(laws::wire_all, 2);
    reveal_with_fuel(data_on, 2);
    assert(frames.drop_first() =~= Seq::<FrameView>::empty());
    assert(frames.drop_last() =~= Seq::<FrameView>::empty());
    assert(laws::wire_all(frames) =~= crate::h2::codec::model::wire(frame));
    if let FrameView::Data { data, .. } = frame {
        assert(Seq::<u8>::empty() + data =~= data);
    }
    if ends_stream(frame, id) {
        assert(ends_stream(frames[0], id));
    }
}

/// From one connection to a later one the frames have been written, and the
/// stream has sent the data that they carry from the front of its queue. A frame
/// that ends the stream carries the last of it; unless there is one, the
/// response goes on.
pub open spec fn flows(
    before: ConnectionView,
    after: ConnectionView,
    frames: Seq<FrameView>,
    id: u32,
) -> bool {
    let sent = data_on(frames, id);
    &&& after.out == before.out + laws::wire_all(frames)
    &&& if before.streams.contains_key(id) && !before.streams[id].local_ended {
        let stream = before.streams[id];
        if ends_on(frames, id) {
            &&& sent == live_data(stream.pending_data)
            &&& has_end(stream.pending_data)
            &&& after.streams.contains_key(id) ==> {
                &&& after.streams[id].local_ended
                &&& ends_last(stream.pending_data) ==> after.streams[id].pending_data.len() == 0
            }
        } else {
            let later = after.streams[id];
            &&& after.streams.contains_key(id)
            &&& live_data(stream.pending_data) == sent + live_data(later.pending_data)
            &&& has_end(stream.pending_data) == has_end(later.pending_data)
            &&& ends_last(stream.pending_data) ==> ends_last(later.pending_data)
            &&& !later.local_ended
            &&& later.trailers == stream.trailers
        }
    } else {
        &&& draining::untouched(before, after, id)
        &&& sent.len() == 0
        &&& !ends_on(frames, id)
    }
}

proof fn nothing_flows(before: ConnectionView, after: ConnectionView, id: u32)
    requires
        after.out == before.out,
        after.streams.contains_key(id) == before.streams.contains_key(id),
        after.streams.contains_key(id) ==> after.streams[id] == (StreamView {
            deficit: after.streams[id].deficit,
            ..before.streams[id]
        }),
        !(before.streams.contains_key(id) && !before.streams[id].local_ended) ==> after.streams[id]
            == before.streams[id],
    ensures
        flows(before, after, Seq::empty(), id),
{
    assert(before.out + Seq::<u8>::empty() =~= before.out);
    let queue = live_data(before.streams[id].pending_data);
    assert(Seq::<u8>::empty() + queue =~= queue);
}

proof fn flows_twice(
    a: ConnectionView,
    b: ConnectionView,
    c: ConnectionView,
    first: Seq<FrameView>,
    second: Seq<FrameView>,
    id: u32,
)
    requires
        flows(a, b, first, id),
        flows(b, c, second, id),
    ensures
        flows(a, c, first + second, id),
{
    frames_join(first, second, id);
    assert(a.out + (laws::wire_all(first) + laws::wire_all(second)) =~= (a.out + laws::wire_all(
        first,
    )) + laws::wire_all(second));
    let sent = data_on(first, id);
    let more = data_on(second, id);
    if a.streams.contains_key(id) && !a.streams[id].local_ended {
        if ends_on(first, id) {
            assert(sent + more =~= sent);
        } else {
            let rest = live_data(c.streams[id].pending_data);
            assert(sent + (more + rest) =~= (sent + more) + rest);
        }
    } else {
        assert((sent + more).len() == 0);
    }
}

/// The DATA frame with the first `amount` octets of the first queued chunk.
pub open spec fn front_frame(c: ConnectionView, id: u32, amount: nat) -> FrameView {
    let stream = c.streams[id];
    FrameView::Data {
        stream_id: id,
        end_stream: stream.front_ends(amount),
        data: stream.pending_data[0].0.subrange(0, amount as int),
    }
}

proof fn frame_flows(c: ConnectionView, id: u32, amount: nat, other: u32)
    requires
        c.has_pending(id),
        amount <= c.streams[id].front_len(),
    ensures
        flows(c, c.sent(id, amount), seq![front_frame(c, id, amount)], other),
{
    let after = c.sent(id, amount);
    let frame = front_frame(c, id, amount);
    one_frame(frame, other);
    assert(after.out =~= c.out + laws::wire_all(seq![frame]));
    if other == id {
        front_leaves(c.streams[id], amount);
    }
}

proof fn pump_flows(c: ConnectionView, id: u32, other: u32)
    ensures
        flows(c, c.pump_stream_data(id), laws::pumped(c, id), other),
    decreases c.queued(id), c.first_len(id),
{
    if c.can_send(id) {
        let amount = c.next_amount(id);
        let next = c.sent(id, amount);
        frame_flows(c, id, amount, other);
        pump_flows(next, id, other);
        flows_twice(
            c,
            next,
            next.pump_stream_data(id),
            seq![front_frame(c, id, amount)],
            laws::pumped(next, id),
            other,
        );
    } else {
        nothing_flows(c, c, other);
    }
}

/// The DATA frames that a stream sends within its deficit: one, after all the
/// empty ones before it.
pub open spec fn turn_frames(c: ConnectionView, id: u32) -> Seq<FrameView>
    decreases c.queued(id),
{
    if !c.has_pending(id) {
        Seq::empty()
    } else if c.streams[id].front_len() == 0 {
        seq![front_frame(c, id, 0)] + turn_frames(c.sent(id, 0), id)
    } else if c.sendable_drr(id) <= 0 {
        Seq::empty()
    } else {
        seq![front_frame(c, id, c.sendable_drr(id) as nat)]
    }
}

proof fn turn_flows(c: ConnectionView, id: u32, other: u32)
    ensures
        flows(c, c.pump_stream_data_drr(id), turn_frames(c, id), other),
    decreases c.queued(id),
{
    if !c.has_pending(id) {
        nothing_flows(c, c, other);
    } else if c.streams[id].front_len() == 0 {
        let next = c.sent(id, 0);
        frame_flows(c, id, 0, other);
        turn_flows(next, id, other);
        flows_twice(
            c,
            next,
            next.pump_stream_data_drr(id),
            seq![front_frame(c, id, 0)],
            turn_frames(next, id),
            other,
        );
    } else if c.sendable_drr(id) <= 0 {
        nothing_flows(c, c, other);
    } else {
        let amount = c.sendable_drr(id) as nat;
        let charged = draining::with_deficit(c, id, (c.streams[id].deficit - amount) as usize);
        let frames = seq![front_frame(c, id, amount)];
        nothing_flows(c, charged, other);
        frame_flows(charged, id, amount, other);
        flows_twice(c, charged, charged.sent(id, amount), Seq::empty(), frames, other);
        assert(Seq::<FrameView>::empty() + frames =~= frames);
    }
}

/// The DATA frames of a stream's turn.
pub open spec fn visit_frames(c: ConnectionView, id: u32) -> Seq<FrameView> {
    turn_frames(draining::with_deficit(c, id, draining::raised_deficit(c, id)), id)
}

proof fn visit_flows(c: ConnectionView, id: u32, other: u32)
    requires
        c.visit_serves(id),
    ensures
        flows(c, c.visit(id), visit_frames(c, id), other),
{
    let raised = draining::with_deficit(c, id, draining::raised_deficit(c, id));
    let frames = visit_frames(c, id);
    nothing_flows(c, raised, other);
    turn_flows(raised, id, other);
    flows_twice(c, raised, c.visit(id), Seq::empty(), frames, other);
    assert(Seq::<FrameView>::empty() + frames =~= frames);
}

/// The DATA frames of one round over the streams.
pub open spec fn round_frames(c: ConnectionView, ids: Seq<u32>) -> Seq<FrameView>
    decreases ids.len(),
{
    if ids.len() == 0 {
        Seq::empty()
    } else {
        let rest = ids.subrange(1, ids.len() as int);
        if !c.visit_serves(ids[0]) {
            round_frames(c, rest)
        } else {
            let visited = c.visit(ids[0]);
            if visited.conn_window <= 0 {
                visit_frames(c, ids[0])
            } else {
                visit_frames(c, ids[0]) + round_frames(visited, rest)
            }
        }
    }
}

proof fn round_flows(c: ConnectionView, ids: Seq<u32>, other: u32)
    ensures
        flows(c, c.round(ids).0, round_frames(c, ids), other),
    decreases ids.len(),
{
    if ids.len() == 0 {
        nothing_flows(c, c, other);
    } else {
        let rest = ids.subrange(1, ids.len() as int);
        if !c.visit_serves(ids[0]) {
            round_flows(c, rest, other);
        } else {
            let visited = c.visit(ids[0]);
            visit_flows(c, ids[0], other);
            if visited.conn_window > 0 {
                round_flows(visited, rest, other);
                flows_twice(
                    c,
                    visited,
                    visited.round(rest).0,
                    visit_frames(c, ids[0]),
                    round_frames(visited, rest),
                    other,
                );
            }
        }
    }
}

/// The DATA frames of all rounds over the streams.
pub open spec fn rounds_frames(c: ConnectionView, ids: Seq<u32>) -> Seq<FrameView>
    decreases c.conn_window,
{
    if c.conn_window <= 0 || ids.len() == 0 {
        Seq::empty()
    } else {
        let (after, more) = c.round(ids);
        if 0 <= after.conn_window < c.conn_window {
            round_frames(c, ids) + rounds_frames(after, more)
        } else {
            round_frames(c, ids)
        }
    }
}

/// Draining writes DATA frames and nothing else, and every stream sends what
/// they carry of it from the front of its queue, in order and without gaps.
pub proof fn draining_writes_the_queues(c: ConnectionView, ids: Seq<u32>, id: u32)
    ensures
        flows(c, c.rounds(ids), rounds_frames(c, ids), id),
    decreases c.conn_window,
{
    if c.conn_window <= 0 || ids.len() == 0 {
        nothing_flows(c, c, id);
    } else {
        let (after, more) = c.round(ids);
        round_flows(c, ids, id);
        if 0 <= after.conn_window < c.conn_window {
            draining_writes_the_queues(after, more, id);
            flows_twice(
                c,
                after,
                after.rounds(more),
                round_frames(c, ids),
                rounds_frames(after, more),
                id,
            );
        }
    }
}

/// A GOAWAY frame of the connection.
pub open spec fn goaway_frame(c: ConnectionView, reason: Reason, debug: &str) -> FrameView {
    FrameView::GoAway {
        last_stream_id: c.highest_stream_id,
        error_code: reason.code(),
        debug: debug.spec_bytes(),
    }
}

/// The stream with one more chunk queued.
pub open spec fn with_chunk(
    c: ConnectionView,
    id: u32,
    data: Seq<u8>,
    end_stream: bool,
) -> ConnectionView {
    let stream = c.streams[id];
    c.with_stream(
        id,
        StreamView { pending_data: stream.pending_data.push((data, end_stream)), ..stream },
    )
}

/// The stream with a larger window.
pub open spec fn widened(c: ConnectionView, id: u32, increment: u32) -> ConnectionView {
    let stream = c.streams[id];
    c.with_stream(
        id,
        StreamView { send_window: (stream.send_window + increment) as i64, ..stream },
    )
}

/// Something that has to do with the response of a stream.
pub enum ResponseEvent {
    /// A message of the response.
    Msg(MsgView),
    /// A WINDOW_UPDATE for the stream.
    StreamWindow(u32),
    /// A WINDOW_UPDATE for the connection, with the streams served in the given
    /// order.
    ConnectionWindow { increment: u32, ids: Seq<u32> },
    /// The streams are drained, served in the given order.
    Drained { ids: Seq<u32> },
    /// The trailers that waited are handed out.
    LateTrailers,
    /// Anything that does not concern the response, with the connection that
    /// it leads to.
    Elsewhere(ConnectionView),
}

/// What does not concern the response of a stream: it leaves what is queued as
/// it was, or the stream is gone.
pub open spec fn response_kept(before: ConnectionView, after: ConnectionView, id: u32) -> bool {
    after.streams.contains_key(id) ==> {
        &&& before.streams.contains_key(id)
        &&& after.streams[id].pending_data == before.streams[id].pending_data
        &&& after.streams[id].trailers == before.streams[id].trailers
        &&& after.streams[id].local_ended == before.streams[id].local_ended
    }
}

/// The event can happen to the connection.
pub open spec fn can_happen(c: ConnectionView, id: u32, event: ResponseEvent) -> bool {
    match event {
        ResponseEvent::LateTrailers => c.trailers_due(id),
        ResponseEvent::Elsewhere(after) => response_kept(c, after, id),
        _ => true,
    }
}

/// What an event does to the connection.
pub open spec fn happened(c: ConnectionView, id: u32, event: ResponseEvent) -> ConnectionView {
    match event {
        ResponseEvent::Msg(msg) => responses::msg_handled(c, id, msg),
        ResponseEvent::StreamWindow(increment) => c.stream_window_update(id, increment),
        ResponseEvent::ConnectionWindow { increment, ids } => c.connection_window_update(
            increment,
            ids,
        ),
        ResponseEvent::Drained { ids } => c.rounds(ids),
        ResponseEvent::LateTrailers => c.trailers_released(id),
        ResponseEvent::Elsewhere(after) => after,
    }
}

/// The frames that an event writes.
pub open spec fn event_frames(c: ConnectionView, id: u32, event: ResponseEvent) -> Seq<FrameView> {
    match event {
        ResponseEvent::Msg(MsgView::Data { data, end_stream }) => if !c.streams.contains_key(id)
            || !c.streams[id].response_open() {
            Seq::empty()
        } else if c.streams[id].pending_data.len() >= MAX_PENDING_CHUNKS {
            seq![FrameView::Reset { stream_id: id, error_code: Reason::InternalError.code() }]
        } else {
            laws::pumped(with_chunk(c, id, data, end_stream), id)
        },
        ResponseEvent::Msg(MsgView::Reset { error_code }) => seq![
            FrameView::Reset { stream_id: id, error_code },
        ],
        ResponseEvent::StreamWindow(increment) => if increment == 0 {
            Seq::empty()
        } else if !c.streams.contains_key(id) {
            if c.closed.contains(id) {
                Seq::empty()
            } else {
                seq![goaway_frame(c, Reason::ProtocolError, "window update on idle stream")]
            }
        } else if c.streams[id].send_window + increment > 0x7fff_ffff {
            if c.reset_budget_spent() {
                seq![
                    goaway_frame(
                        c,
                        Reason::EnhanceYourCalm,
                        "too many resets for peer protocol errors",
                    ),
                ]
            } else {
                seq![
                    FrameView::Reset { stream_id: id, error_code: Reason::FlowControlError.code() },
                ]
            }
        } else {
            laws::pumped(widened(c, id, increment), id)
        },
        ResponseEvent::ConnectionWindow { increment, ids } => if increment == 0 {
            Seq::empty()
        } else if !c.connection_window_grows(increment) {
            seq![goaway_frame(c, Reason::FlowControlError, "connection window overflow")]
        } else {
            rounds_frames(
                ConnectionView { conn_window: (c.conn_window + increment) as i64, ..c },
                ids,
            )
        },
        ResponseEvent::Drained { ids } => rounds_frames(c, ids),
        _ => Seq::empty(),
    }
}

/// What has become of a response: the connection, the frames that were written
/// and the messages that were said.
pub struct ResponseRun {
    pub c: ConnectionView,
    pub frames: Seq<FrameView>,
    pub said: Seq<MsgView>,
}

/// The messages after an event.
pub open spec fn said_after(said: Seq<MsgView>, event: ResponseEvent) -> Seq<MsgView> {
    match event {
        ResponseEvent::Msg(msg) => said.push(msg),
        _ => said,
    }
}

/// What has become of a response after the events.
pub open spec fn responded(c: ConnectionView, id: u32, events: Seq<ResponseEvent>) -> ResponseRun
    decreases events.len(),
{
    if events.len() == 0 {
        ResponseRun { c, frames: Seq::empty(), said: Seq::empty() }
    } else {
        let run = responded(c, id, events.drop_last());
        ResponseRun {
            c: happened(run.c, id, events.last()),
            frames: run.frames + event_frames(run.c, id, events.last()),
            said: said_after(run.said, events.last()),
        }
    }
}

/// The events can happen one after the other.
pub open spec fn can_happen_in_turn(
    c: ConnectionView,
    id: u32,
    events: Seq<ResponseEvent>,
) -> bool
    decreases events.len(),
{
    events.len() > 0 ==> {
        &&& can_happen_in_turn(c, id, events.drop_last())
        &&& can_happen(responded(c, id, events.drop_last()).c, id, events.last())
    }
}

/// A message that ends the response.
pub open spec fn ends_response(msg: MsgView) -> bool {
    match msg {
        MsgView::Headers { end_stream, .. } => end_stream,
        MsgView::Data { end_stream, .. } => end_stream,
        MsgView::Trailers { .. } => true,
        _ => false,
    }
}

/// Some message ends the response.
pub open spec fn over(said: Seq<MsgView>) -> bool {
    exists|i: int| 0 <= i < said.len() && ends_response(#[trigger] said[i])
}

/// The body of the response that messages make: the data of the Data messages,
/// in order, up to the end of the response.
pub open spec fn body_of(said: Seq<MsgView>) -> Seq<u8>
    decreases said.len(),
{
    if said.len() == 0 {
        Seq::empty()
    } else {
        let before = body_of(said.drop_last());
        match said.last() {
            MsgView::Data { data, .. } if !over(said.drop_last()) => before + data,
            _ => before,
        }
    }
}

/// No data comes after the end of the response.
pub open spec fn well_said(said: Seq<MsgView>) -> bool {
    forall|i: int, j: int|
        0 <= i < j < said.len() && ends_response(#[trigger] said[i]) ==> !(
        #[trigger] said[j] is Data)
}

proof fn one_more_message(said: Seq<MsgView>, msg: MsgView)
    ensures
        over(said.push(msg)) == (over(said) || ends_response(msg)),
        body_of(said.push(msg)) == match msg {
            MsgView::Data { data, .. } if !over(said) => body_of(said) + data,
            _ => body_of(said),
        },
        body_of(said).is_prefix_of(body_of(said.push(msg))),
        well_said(said.push(msg)) ==> well_said(said) && !(over(said) && msg is Data),
{
    let all = said.push(msg);
    assert(all.drop_last() =~= said);
    assert(all[said.len() as int] == msg);
    if over(said) {
        let i = choose|i: int| 0 <= i < said.len() && ends_response(#[trigger] said[i]);
        assert(ends_response(all[i]));
    }
    if over(all) && !ends_response(msg) {
        let i = choose|i: int| 0 <= i < all.len() && ends_response(#[trigger] all[i]);
        assert(ends_response(said[i]));
    }
    assert(body_of(said) =~= body_of(all).subrange(0, body_of(said).len() as int));
    if well_said(all) {
        assert forall|i: int, j: int|
            0 <= i < j < said.len() && ends_response(#[trigger] said[i]) implies !(
        #[trigger] said[j] is Data) by {
            assert(all[i] == said[i] && all[j] == said[j]);
        }
    }
}

/// What holds of a response at any time: what was sent is the beginning of its
/// body, and while the stream is there the rest of it is queued.
spec fn in_order(run: ResponseRun, id: u32) -> bool {
    let sent = data_on(run.frames, id);
    let body = body_of(run.said);
    let ended = ends_on(run.frames, id);
    let stream = run.c.streams[id];
    &&& sent.is_prefix_of(body)
    &&& ended ==> sent == body && over(run.said)
    &&& run.c.streams.contains_key(id) ==> {
        &&& ended ==> stream.local_ended
        &&& !ended ==> sent + live_data(stream.pending_data) == body
        &&& over(run.said) == (!stream.response_open() || has_end(stream.pending_data))
        &&& well_said(run.said) ==> ends_last(stream.pending_data) && (ended
            ==> stream.pending_data.len() == 0)
    }
}

/// The stream's response stays in order while the data flows.
proof fn flowing_keeps_order(run: ResponseRun, after: ResponseRun, id: u32, frames: Seq<FrameView>)
    requires
        in_order(run, id),
        flows(run.c, after.c, frames, id),
        after.frames == run.frames + frames,
        after.said == run.said,
    ensures
        in_order(after, id),
{
    frames_join(run.frames, frames, id);
    let sent = data_on(run.frames, id);
    let more = data_on(frames, id);
    let body = body_of(run.said);
    if run.c.streams.contains_key(id) && !run.c.streams[id].local_ended {
        if ends_on(frames, id) {
            assert(sent + more =~= body);
            assert(body.is_prefix_of(body)) by {
                assert(body =~= body.subrange(0, body.len() as int));
            }
        } else {
            let rest = live_data(after.c.streams[id].pending_data);
            assert(sent + (more + rest) =~= (sent + more) + rest);
            assert(sent + more =~= body.subrange(0, (sent + more).len() as int));
        }
    } else {
        assert(sent + more =~= sent);
    }
}

/// Frames without data of the stream change nothing of what was sent.
proof fn other_frame_keeps_order(run: ResponseRun, after: ResponseRun, id: u32, frame: FrameView)
    requires
        in_order(run, id),
        !(frame is Data),
        after.frames == run.frames + seq![frame],
        after.said == run.said,
        response_kept(run.c, after.c, id),
    ensures
        in_order(after, id),
{
    frames_join(run.frames, seq![frame], id);
    one_frame(frame, id);
    assert(data_on(run.frames, id) + Seq::<u8>::empty() =~= data_on(run.frames, id));
}

/// The response stays in order while nothing of it changes.
proof fn pause_keeps_order(run: ResponseRun, after: ResponseRun, id: u32)
    requires
        in_order(run, id),
        after.frames == run.frames,
        after.said == run.said,
        response_kept(run.c, after.c, id),
    ensures
        in_order(after, id),
{
}

proof fn message_keeps_order(run: ResponseRun, id: u32, msg: MsgView)
    requires
        in_order(run, id),
    ensures
        in_order(
            ResponseRun {
                c: responses::msg_handled(run.c, id, msg),
                frames: run.frames + event_frames(run.c, id, ResponseEvent::Msg(msg)),
                said: run.said.push(msg),
            },
            id,
        ),
{
    let c = run.c;
    let stream = c.streams[id];
    let frames = event_frames(c, id, ResponseEvent::Msg(msg));
    let after = ResponseRun {
        c: responses::msg_handled(c, id, msg),
        frames: run.frames + frames,
        said: run.said.push(msg),
    };
    one_more_message(run.said, msg);
    let sent = data_on(run.frames, id);
    let body = body_of(run.said);
    assert(sent.is_prefix_of(body_of(after.said))) by {
        let grown = body_of(after.said);
        assert(sent =~= grown.subrange(0, sent.len() as int)) by {
            assert(sent =~= body.subrange(0, sent.len() as int));
            assert(body =~= grown.subrange(0, body.len() as int));
            assert forall|i: int| 0 <= i < sent.len() implies sent[i] == grown[i] by {
                assert(sent[i] == body[i]);
                assert(body[i] == grown[i]);
            }
        }
    }
    assert(run.frames + Seq::<FrameView>::empty() =~= run.frames);
    match msg {
        MsgView::Data { data, end_stream } => {
            if c.streams.contains_key(id) && stream.response_open() {
                if stream.pending_data.len() >= MAX_PENDING_CHUNKS {
                    frames_join(run.frames, frames, id);
                    one_frame(frames[0], id);
                    assert(sent + Seq::<u8>::empty() =~= sent);
                } else {
                    let queued = with_chunk(c, id, data, end_stream);
                    let told = ResponseRun {
                        c: queued,
                        frames: run.frames,
                        said: after.said,
                    };
                    live_data_push(stream.pending_data, data, end_stream);
                    if !over(run.said) {
                        let queue = live_data(stream.pending_data);
                        assert(sent + (queue + data) =~= (sent + queue) + data);
                    }
                    if well_said(after.said) {
                        let chunks = stream.pending_data.push((data, end_stream));
                        assert forall|i: int| 0 <= i < chunks.len() - 1 implies !(
                        #[trigger] chunks[i]).1 by {
                            assert(chunks[i] == stream.pending_data[i]);
                            assert(!has_end(stream.pending_data));
                        }
                    }
                    assert(in_order(told, id));
                    pump_flows(queued, id, id);
                    flowing_keeps_order(told, after, id, frames);
                }
            }
        },
        MsgView::Reset { error_code } => {
            frames_join(run.frames, frames, id);
            one_frame(frames[0], id);
            assert(sent + Seq::<u8>::empty() =~= sent);
        },
        _ => {},
    }
}

proof fn event_keeps_order(run: ResponseRun, id: u32, event: ResponseEvent)
    requires
        in_order(run, id),
        can_happen(run.c, id, event),
    ensures
        in_order(
            ResponseRun {
                c: happened(run.c, id, event),
                frames: run.frames + event_frames(run.c, id, event),
                said: said_after(run.said, event),
            },
            id,
        ),
{
    let c = run.c;
    let frames = event_frames(c, id, event);
    let after = ResponseRun {
        c: happened(c, id, event),
        frames: run.frames + frames,
        said: said_after(run.said, event),
    };
    assert(run.frames + Seq::<FrameView>::empty() =~= run.frames);
    match event {
        ResponseEvent::Msg(msg) => {
            message_keeps_order(run, id, msg);
        },
        ResponseEvent::StreamWindow(increment) => {
            if increment > 0 && c.streams.contains_key(id) && c.streams[id].send_window + increment
                <= 0x7fff_ffff {
                let opened = widened(c, id, increment);
                pump_flows(opened, id, id);
                pause_keeps_order(run, ResponseRun { c: opened, ..run }, id);
                flowing_keeps_order(ResponseRun { c: opened, ..run }, after, id, frames);
            } else if frames.len() > 0 {
                assert(frames =~= seq![frames[0]]);
                other_frame_keeps_order(run, after, id, frames[0]);
            } else {
                assert(frames =~= Seq::<FrameView>::empty());
                pause_keeps_order(run, after, id);
            }
        },
        ResponseEvent::ConnectionWindow { increment, ids } => {
            if increment > 0 && c.connection_window_grows(increment) {
                let opened = ConnectionView {
                    conn_window: (c.conn_window + increment) as i64,
                    ..c
                };
                draining_writes_the_queues(opened, ids, id);
                pause_keeps_order(run, ResponseRun { c: opened, ..run }, id);
                flowing_keeps_order(ResponseRun { c: opened, ..run }, after, id, frames);
            } else if increment > 0 {
                assert(frames =~= seq![frames[0]]);
                other_frame_keeps_order(run, after, id, frames[0]);
            }
        },
        ResponseEvent::Drained { ids } => {
            draining_writes_the_queues(c, ids, id);
            flowing_keeps_order(run, after, id, frames);
        },
        ResponseEvent::LateTrailers => {},
        ResponseEvent::Elsewhere(_) => {
            pause_keeps_order(run, after, id);
        },
    }
}

proof fn responses_stay_in_order(c: ConnectionView, id: u32, events: Seq<ResponseEvent>)
    requires
        c.streams.contains_key(id),
        c.streams[id].response_open(),
        c.streams[id].pending_data.len() == 0,
        can_happen_in_turn(c, id, events),
    ensures
        in_order(responded(c, id, events), id),
    decreases events.len(),
{
    if events.len() == 0 {
        let empty = Seq::<u8>::empty();
        assert(empty + empty =~= empty);
        assert(empty =~= empty.subrange(0, 0));
    } else {
        responses_stay_in_order(c, id, events.drop_last());
        event_keeps_order(responded(c, id, events.drop_last()), id, events.last());
    }
}

/// What an event writes is its frames, one after the other: nothing comes
/// between the DATA frames of a response that its order depends on.
pub proof fn events_write_their_frames(c: ConnectionView, id: u32, event: ResponseEvent)
    requires
        !(event is Elsewhere),
    ensures
        happened(c, id, event).out == c.out + laws::wire_all(event_frames(c, id, event)),
{
    let frames = event_frames(c, id, event);
    let after = happened(c, id, event);
    if frames.len() == 1 {
        assert(frames =~= seq![frames[0]]);
        one_frame(frames[0], id);
    }
    match event {
        ResponseEvent::Msg(MsgView::Data { data, end_stream }) => {
            if c.streams.contains_key(id) && c.streams[id].response_open()
                && c.streams[id].pending_data.len() < MAX_PENDING_CHUNKS {
                pump_flows(with_chunk(c, id, data, end_stream), id, id);
            }
        },
        ResponseEvent::StreamWindow(increment) => {
            if increment > 0 && c.streams.contains_key(id) {
                pump_flows(widened(c, id, increment), id, id);
            }
        },
        ResponseEvent::ConnectionWindow { increment, ids } => {
            draining_writes_the_queues(
                ConnectionView { conn_window: (c.conn_window + increment) as i64, ..c },
                ids,
                id,
            );
        },
        ResponseEvent::Drained { ids } => {
            draining_writes_the_queues(c, ids, id);
        },
        _ => {},
    }
    if frames.len() == 0 {
        assert(c.out + laws::wire_all(frames) =~= c.out);
    }
}

/// Over any sequence of messages, with windows opening and anything else
/// happening in between, the body of a response goes out in order and without
/// gaps. While the stream is there, what was sent and what is queued make up the
/// body; a stream that is gone has sent the beginning of it; and a DATA frame
/// that ends the stream ends the body.
pub proof fn bodies_go_out_in_order(c: ConnectionView, id: u32, events: Seq<ResponseEvent>)
    requires
        c.streams.contains_key(id),
        c.streams[id].response_open(),
        c.streams[id].pending_data.len() == 0,
        can_happen_in_turn(c, id, events),
    ensures
        ({
            let run = responded(c, id, events);
            let sent = data_on(run.frames, id);
            let ended = ends_on(run.frames, id);
            &&& sent.is_prefix_of(body_of(run.said))
            &&& ended ==> sent == body_of(run.said)
            &&& run.c.streams.contains_key(id) && !ended ==> sent + live_data(
                run.c.streams[id].pending_data,
            ) == body_of(run.said)
        }),
{
    responses_stay_in_order(c, id, events);
}

/// The same of a producer that says no data after the end of the response: what
/// was sent and all that is queued make up the data of its messages.
pub proof fn messages_go_out_in_order(c: ConnectionView, id: u32, events: Seq<ResponseEvent>)
    requires
        c.streams.contains_key(id),
        c.streams[id].response_open(),
        c.streams[id].pending_data.len() == 0,
        can_happen_in_turn(c, id, events),
        well_said(responded(c, id, events).said),
    ensures
        ({
            let run = responded(c, id, events);
            let sent = data_on(run.frames, id);
            &&& sent.is_prefix_of(responses::carried(run.said))
            &&& run.c.streams.contains_key(id) ==> sent + laws::queued_data(
                run.c.streams[id].pending_data,
            ) == responses::carried(run.said)
        }),
{
    responses_stay_in_order(c, id, events);
    let run = responded(c, id, events);
    body_is_carried(run.said);
    if run.c.streams.contains_key(id) {
        let queue = run.c.streams[id].pending_data;
        live_data_is_queued(queue);
        if ends_on(run.frames, id) {
            let sent = data_on(run.frames, id);
            assert(sent + laws::queued_data(queue) =~= sent);
        }
    }
}

/// Where no data comes after the end, the body is all the data.
proof fn body_is_carried(said: Seq<MsgView>)
    requires
        well_said(said),
    ensures
        body_of(said) == responses::carried(said),
    decreases said.len(),
{
    if said.len() > 0 {
        let init = said.drop_last();
        assert(init.push(said.last()) =~= said);
        one_more_message(init, said.last());
        body_is_carried(init);
        carried_push(init, said.last());
    }
}

proof fn carried_push(said: Seq<MsgView>, msg: MsgView)
    ensures
        responses::carried(said.push(msg)) == match msg {
            MsgView::Data { data, .. } => responses::carried(said) + data,
            _ => responses::carried(said),
        },
    decreases said.len(),
{
    let all = said.push(msg);
    let tail = all.subrange(1, all.len() as int);
    if said.len() == 0 {
        reveal_with_fuel(responses::carried, 2);
        assert(tail =~= Seq::<MsgView>::empty());
        if let MsgView::Data { data, .. } = msg {
            assert(data + Seq::<u8>::empty() =~= Seq::<u8>::empty() + data);
        }
    } else {
        let rest = said.subrange(1, said.len() as int);
        assert(tail =~= rest.push(msg));
        carried_push(rest, msg);
        assert(all[0] == said[0]);
        if let MsgView::Data { data: first, .. } = said[0] {
            if let MsgView::Data { data, .. } = msg {
                let middle = responses::carried(rest);
                assert(first + (middle + data) =~= (first + middle) + data);
            }
        }
    }
}

/// Trailers come after all data: when they are handed out, at once or after they
/// have waited, the whole body has been sent.
pub proof fn trailers_follow_the_body(c: ConnectionView, id: u32, events: Seq<ResponseEvent>)
    requires
        c.streams.contains_key(id),
        c.streams[id].response_open(),
        c.streams[id].pending_data.len() == 0,
        can_happen_in_turn(c, id, events),
    ensures
        ({
            let run = responded(c, id, events);
            run.c.takes_trailers(id) || run.c.trailers_due(id) ==> data_on(run.frames, id)
                == body_of(run.said)
        }),
{
    responses_stay_in_order(c, id, events);
    let run = responded(c, id, events);
    let sent = data_on(run.frames, id);
    assert(sent + Seq::<u8>::empty() =~= sent);
}

/// A producer that finishes takes nothing of its response with it: while the
/// response has not ended, the stream stays, with the data and the trailers that
/// wait.
pub proof fn closing_keeps_what_waits(c: ConnectionView, id: u32)
    requires
        c.streams.contains_key(id),
        !c.streams[id].local_ended,
    ensures
        c.response_closed(id).streams.contains_key(id),
        response_kept(c, c.response_closed(id), id),
{
}

} // verus!
