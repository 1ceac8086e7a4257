//! What holds of the flow-control windows: every octet that is sent is paid for,
//! and every octet that is granted can be sent.

use vstd::prelude::*;

use super::draining;
use super::laws;
use super::model::{ConnectionView, MAX_PENDING_CHUNKS};
use super::ordering::{self, ResponseEvent};
use super::responses::MsgView;
use crate::h2::codec::model as wire;
use crate::h2::codec::model::FrameView;
use crate::h2::error::Reason;

verus! {

/// How many octets of data frames carry, on all streams.
pub open spec fn total(frames: Seq<FrameView>) -> nat
    decreases frames.len(),
{
    if frames.len() == 0 {
        0
    } else {
        total(frames.drop_last()) + match frames.last() {
            FrameView::Data { data, .. } => data.len(),
            _ => 0,
        }
    }
}

/// From one connection to a later one, the frames are paid for: the connection
/// window shrinks by all the data in them, and a stream's window by the data of
/// that stream.
pub open spec fn paid(
    before: ConnectionView,
    after: ConnectionView,
    frames: Seq<FrameView>,
    id: u32,
) -> bool {
    &&& after.conn_window == before.conn_window - total(frames)
    &&& after.conn_window >= 0
    &&& after.streams.contains_key(id) ==> {
        &&& before.streams.contains_key(id)
        &&& after.streams[id].send_window == before.streams[id].send_window - ordering::data_on(
            frames,
            id,
        ).len()
    }
}

proof fn totals_join(first: Seq<FrameView>, second: Seq<FrameView>)
    ensures
        total(first + second) == total(first) + total(second),
    decreases second.len(),
{
    let all = first + second;
    if second.len() == 0 {
        assert(all =~= first);
    } else {
        totals_join(first, second.drop_last());
        assert(all.drop_last() =~= first + second.drop_last());
    }
}

proof fn paid_twice(
    a: ConnectionView,
    b: ConnectionView,
    c: ConnectionView,
    first: Seq<FrameView>,
    second: Seq<FrameView>,
    id: u32,
)
    requires
        paid(a, b, first, id),
        paid(b, c, second, id),
    ensures
        paid(a, c, first + second, id),
{
    totals_join(first, second);
    ordering::frames_join(first, second, id);
}

proof fn frame_is_paid(c: ConnectionView, id: u32, amount: nat, other: u32)
    requires
        c.inv(),
        c.has_pending(id),
        amount <= c.streams[id].front_len(),
        amount <= c.conn_window,
        amount > 0 ==> amount <= c.streams[id].send_window,
    ensures
        paid(c, c.sent(id, amount), seq![ordering::front_frame(c, id, amount)], other),
{
    let frame = ordering::front_frame(c, id, amount);
    ordering::one_frame(frame, other);
    reveal_with_fuel(total, 2);
    assert(seq![frame].drop_last() =~= Seq::<FrameView>::empty());
    assert(c.streams.contains_key(id));
}

proof fn pump_is_paid(c: ConnectionView, id: u32, other: u32)
    requires
        c.inv(),
    ensures
        paid(c, c.pump_stream_data(id), laws::pumped(c, id), other),
    decreases c.queued(id), c.first_len(id),
{
    if c.can_send(id) {
        let amount = c.next_amount(id);
        let next = c.sent(id, amount);
        laws::sent_facts(c, id);
        frame_is_paid(c, id, amount, other);
        pump_is_paid(next, id, other);
        paid_twice(
            c,
            next,
            next.pump_stream_data(id),
            seq![ordering::front_frame(c, id, amount)],
            laws::pumped(next, id),
            other,
        );
    }
}

proof fn turn_is_paid(c: ConnectionView, id: u32, other: u32)
    requires
        c.inv(),
    ensures
        paid(c, c.pump_stream_data_drr(id), ordering::turn_frames(c, id), other),
    decreases c.queued(id),
{
    if c.has_pending(id) {
        if c.streams[id].front_len() == 0 {
            let next = c.sent(id, 0);
            laws::sent_facts(c, id);
            frame_is_paid(c, id, 0, other);
            turn_is_paid(next, id, other);
            paid_twice(
                c,
                next,
                next.pump_stream_data_drr(id),
                seq![ordering::front_frame(c, id, 0)],
                ordering::turn_frames(next, id),
                other,
            );
        } else if c.sendable_drr(id) > 0 {
            let amount = c.sendable_drr(id) as nat;
            let left = (c.streams[id].deficit - amount) as usize;
            let charged = draining::with_deficit(c, id, left);
            assert(c.streams.contains_key(id));
            super::handlers::with_stream_keeps_inv(c, id, charged.streams[id]);
            frame_is_paid(charged, id, amount, other);
        }
    }
}

proof fn visit_is_paid(c: ConnectionView, id: u32, other: u32)
    requires
        c.inv(),
        c.visit_serves(id),
    ensures
        paid(c, c.visit(id), ordering::visit_frames(c, id), other),
{
    let raised = draining::with_deficit(c, id, draining::raised_deficit(c, id));
    assert(c.streams.contains_key(id));
    super::handlers::with_stream_keeps_inv(c, id, raised.streams[id]);
    turn_is_paid(raised, id, other);
}

proof fn round_is_paid(c: ConnectionView, ids: Seq<u32>, other: u32)
    requires
        c.inv(),
    ensures
        paid(c, c.round(ids).0, ordering::round_frames(c, ids), other),
    decreases ids.len(),
{
    if ids.len() > 0 {
        let rest = ids.subrange(1, ids.len() as int);
        if !c.visit_serves(ids[0]) {
            round_is_paid(c, rest, other);
        } else {
            let visited = c.visit(ids[0]);
            visit_is_paid(c, ids[0], other);
            laws::turn_takes_at_most_a_quantum(c, ids[0]);
            if visited.conn_window > 0 {
                round_is_paid(visited, rest, other);
                paid_twice(
                    c,
                    visited,
                    visited.round(rest).0,
                    ordering::visit_frames(c, ids[0]),
                    ordering::round_frames(visited, rest),
                    other,
                );
            }
        }
    }
}

proof fn rounds_are_paid(c: ConnectionView, ids: Seq<u32>, other: u32)
    requires
        c.inv(),
    ensures
        paid(c, c.rounds(ids), ordering::rounds_frames(c, ids), other),
    decreases c.conn_window,
{
    if c.conn_window > 0 && ids.len() > 0 {
        let (after, more) = c.round(ids);
        round_is_paid(c, ids, other);
        laws::round_is_fair(c, ids);
        if after.conn_window < c.conn_window {
            rounds_are_paid(after, more, other);
            paid_twice(
                c,
                after,
                after.rounds(more),
                ordering::round_frames(c, ids),
                ordering::rounds_frames(after, more),
                other,
            );
        }
    }
}

/// What a connection may still send and what it has sent make up what it was
/// granted: a WINDOW_UPDATE for a stream adds its increment to the stream's window
/// and nothing to the connection's, and the data that it lets through is taken
/// from both.
pub proof fn stream_grants_are_spent(c: ConnectionView, id: u32, increment: u32)
    requires
        c.inv(),
        c.streams.contains_key(id),
        increment > 0,
        c.streams[id].send_window + increment <= 0x7fff_ffff,
    ensures
        ({
            let after = c.stream_window_update(id, increment);
            let frames = ordering::event_frames(c, id, ResponseEvent::StreamWindow(increment));
            &&& after.closing == c.closing
            &&& after.conn_window + total(frames) == c.conn_window
            &&& ordering::data_on(frames, id).len() == total(frames)
            &&& after.streams.contains_key(id) ==> after.streams[id].send_window + total(frames)
                == c.streams[id].send_window + increment
            &&& !after.has_pending(id) || after.conn_window <= 0 || after.streams[id].send_window
                <= 0
        }),
{
    let opened = ordering::widened(c, id, increment);
    super::handlers::with_stream_keeps_inv(c, id, opened.streams[id]);
    pump_is_paid(opened, id, id);
    pump_is_local(opened, id);
    laws::pump_is_exhaustive(opened, id);
    pump_keeps_closing(opened, id);
}

/// The frames that pumping a stream sends are all of that stream.
proof fn pump_is_local(c: ConnectionView, id: u32)
    ensures
        ordering::data_on(laws::pumped(c, id), id).len() == total(laws::pumped(c, id)),
    decreases c.queued(id), c.first_len(id),
{
    if c.can_send(id) {
        let amount = c.next_amount(id);
        let next = c.sent(id, amount);
        let frame = ordering::front_frame(c, id, amount);
        pump_is_local(next, id);
        totals_join(seq![frame], laws::pumped(next, id));
        ordering::frames_join(seq![frame], laws::pumped(next, id), id);
        ordering::one_frame(frame, id);
        reveal_with_fuel(total, 2);
        assert(seq![frame].drop_last() =~= Seq::<FrameView>::empty());
    }
}

proof fn pump_keeps_closing(c: ConnectionView, id: u32)
    ensures
        c.pump_stream_data(id).closing == c.closing,
    decreases c.queued(id), c.first_len(id),
{
    if c.can_send(id) {
        pump_keeps_closing(c.sent(id, c.next_amount(id)), id);
    }
}

/// The same of a WINDOW_UPDATE for the connection: its increment is added to the
/// connection's window and to no stream's, and the data that it lets through is
/// taken from the connection's and from the streams' windows. Nothing that could
/// be sent is left.
pub proof fn connection_grants_are_spent(
    c: ConnectionView,
    increment: u32,
    ids: Seq<u32>,
    id: u32,
)
    requires
        c.inv(),
        c.lists_pending(ids),
        increment > 0,
        c.conn_window + increment <= 0x7fff_ffff,
    ensures
        ({
            let after = c.connection_window_update(increment, ids);
            let frames = ordering::event_frames(
                c,
                id,
                ResponseEvent::ConnectionWindow { increment, ids },
            );
            &&& after.conn_window + total(frames) == c.conn_window + increment
            &&& after.streams.contains_key(id) ==> {
                &&& c.streams.contains_key(id)
                &&& after.streams[id].send_window + ordering::data_on(frames, id).len()
                    == c.streams[id].send_window
            }
            &&& after.conn_window <= 0 || draining::settled(after, id)
        }),
{
    let opened = ConnectionView { conn_window: (c.conn_window + increment) as i64, ..c };
    rounds_are_paid(opened, ids, id);
    assert(opened.lists_pending(ids)) by {
        assert forall|x: u32| #[trigger] ids.contains(x) <==> opened.has_pending(x) by {
            assert(ids.contains(x) <==> c.has_pending(x));
        }
    }
    draining::draining_is_exhaustive(opened, ids, id);
}

/// What is queued for a response is paid for as it goes out, and goes out as far
/// as both windows allow.
pub proof fn responses_are_paid(
    c: ConnectionView,
    id: u32,
    data: Seq<u8>,
    end_stream: bool,
)
    requires
        c.inv(),
        c.streams.contains_key(id),
        c.streams[id].response_open(),
        c.streams[id].pending_data.len() < MAX_PENDING_CHUNKS,
    ensures
        ({
            let after = c.response_data(id, data, end_stream);
            let frames = ordering::event_frames(
                c,
                id,
                ResponseEvent::Msg(MsgView::Data { data, end_stream }),
            );
            &&& after.conn_window + total(frames) == c.conn_window
            &&& after.streams.contains_key(id) ==> after.streams[id].send_window + total(frames)
                == c.streams[id].send_window
            &&& !after.has_pending(id) || after.conn_window <= 0 || after.streams[id].send_window
                <= 0
        }),
{
    let queued = ordering::with_chunk(c, id, data, end_stream);
    super::handlers::with_stream_keeps_inv(c, id, queued.streams[id]);
    pump_is_paid(queued, id, id);
    pump_is_local(queued, id);
    laws::pump_is_exhaustive(queued, id);
}

/// A grant that takes a window beyond 2^31-1 is an error of whoever it is for: a
/// stream is reset with FLOW_CONTROL_ERROR, and the connection is closed for the
/// connection's own window.
pub proof fn windows_do_not_overflow(c: ConnectionView, id: u32, increment: u32, ids: Seq<u32>)
    requires
        increment > 0,
        !c.reset_budget_spent(),
    ensures
        c.streams.contains_key(id) && c.streams[id].send_window + increment > 0x7fff_ffff ==> {
            let after = c.stream_window_update(id, increment);
            &&& !after.streams.contains_key(id)
            &&& after.closing == c.closing
            &&& after.out == c.out + wire::wire(
                FrameView::Reset { stream_id: id, error_code: Reason::FlowControlError.code() },
            )
        },
        c.conn_window + increment > 0x7fff_ffff ==> {
            let after = c.connection_window_update(increment, ids);
            &&& after.closing
            &&& after.streams == c.streams
            &&& after.conn_window == c.conn_window
            &&& after == c.goaway(Reason::FlowControlError, "connection window overflow")
        },
        !c.streams.contains_key(id) && c.closed.contains(id) ==> c.stream_window_update(
            id,
            increment,
        ) == c,
        !c.streams.contains_key(id) && !c.closed.contains(id) ==> c.stream_window_update(
            id,
            increment,
        ).closing,
{
}

/// Frames are as large as they can be: a DATA frame takes all of the chunk unless
/// the peer's frame size or a window does not let it.
pub proof fn frames_are_as_large_as_they_can_be(c: ConnectionView, id: u32)
    requires
        c.inv(),
        c.has_pending(id),
        c.streams[id].front_len() > 0,
        c.conn_window > 0,
        c.streams[id].send_window > 0,
    ensures
        ({
            let amount = c.next_amount(id);
            &&& c.can_send(id)
            &&& amount == c.streams[id].front_len() || amount == c.peer.max_frame_size || amount
                == c.conn_window || amount == c.streams[id].send_window
            &&& amount <= c.streams[id].front_len()
            &&& amount <= c.peer.max_frame_size
            &&& amount <= c.conn_window
            &&& amount <= c.streams[id].send_window
            &&& laws::pumped(c, id).len() > 0
            &&& laws::pumped(c, id)[0] matches FrameView::Data { stream_id, data, .. } && stream_id
                == id && data.len() == amount
        }),
{
}

/// In its turn a stream sends as large a frame as it could send alone, and what it
/// does not use of its quantum is kept for its next turn.
pub proof fn turns_are_used(c: ConnectionView, id: u32)
    requires
        c.inv(),
        c.visit_serves(id),
        c.conn_window > 0,
        c.streams[id].front_len() > 0,
    ensures
        ({
            let after = c.visit(id);
            let amount = c.next_amount(id);
            &&& after.out == c.out + wire::wire(ordering::front_frame(c, id, amount))
            &&& after.conn_window == c.conn_window - amount
            &&& after.streams.contains_key(id) && c.streams[id].deficit + c.peer.max_frame_size
                <= usize::MAX ==> after.streams[id].deficit + amount == c.streams[id].deficit
                + c.peer.max_frame_size
        }),
{
    let raised = draining::with_deficit(c, id, draining::raised_deficit(c, id));
    assert(c.streams.contains_key(id));
    let amount = raised.sendable_drr(id);
    assert(amount == c.sendable(id));
    assert(raised.has_pending(id));
    let charged = draining::with_deficit(
        raised,
        id,
        (raised.streams[id].deficit - amount) as usize,
    );
    assert(c.visit(id) == charged.sent(id, amount as nat));
}

} // verus!
