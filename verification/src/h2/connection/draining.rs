//! What holds of draining the streams by deficit round-robin.

use vstd::prelude::*;

use super::laws;
use super::model::ConnectionView;
use crate::h2::stream::StreamView;

verus! {

/// From one connection to a later one, the stream has sent the front of its
/// queue: its window has shrunk by as much as the queue, not below zero for it,
/// and what is queued is the rest.
pub open spec fn front_sent(before: ConnectionView, after: ConnectionView, id: u32) -> bool {
    after.streams.contains_key(id) ==> {
        let queue = laws::queued_data(before.streams[id].pending_data);
        let sent = before.streams[id].send_window - after.streams[id].send_window;
        &&& before.streams.contains_key(id)
        &&& 0 <= sent <= queue.len()
        &&& sent > 0 ==> after.streams[id].send_window >= 0
        &&& laws::queued_data(after.streams[id].pending_data) == queue.subrange(
            sent,
            queue.len() as int,
        )
    }
}

/// The stream is as it was.
pub open spec fn untouched(before: ConnectionView, after: ConnectionView, id: u32) -> bool {
    &&& after.streams.contains_key(id) == before.streams.contains_key(id)
    &&& after.streams[id] == before.streams[id]
}

/// Nothing more can be sent on the stream while its own window stays as it is.
pub open spec fn settled(c: ConnectionView, id: u32) -> bool {
    !c.has_pending(id) || c.streams[id].send_window <= 0
}

proof fn untouched_sent_nothing(before: ConnectionView, after: ConnectionView, id: u32)
    requires
        untouched(before, after, id),
    ensures
        front_sent(before, after, id),
{
    let queue = laws::queued_data(before.streams[id].pending_data);
    assert(queue.subrange(0, queue.len() as int) =~= queue);
}

proof fn front_sent_twice(a: ConnectionView, b: ConnectionView, c: ConnectionView, id: u32)
    requires
        front_sent(a, b, id),
        front_sent(b, c, id),
    ensures
        front_sent(a, c, id),
{
    if c.streams.contains_key(id) {
        let queue = laws::queued_data(a.streams[id].pending_data);
        let first = a.streams[id].send_window - b.streams[id].send_window;
        let second = b.streams[id].send_window - c.streams[id].send_window;
        let rest = queue.subrange(first, queue.len() as int);
        assert(rest.subrange(second, rest.len() as int) =~= queue.subrange(
            first + second,
            queue.len() as int,
        ));
    }
}

/// The stream with another deficit.
pub open spec fn with_deficit(c: ConnectionView, id: u32, deficit: usize) -> ConnectionView {
    c.with_stream(id, StreamView { deficit, ..c.streams[id] })
}

proof fn deficit_sends_nothing(c: ConnectionView, id: u32, deficit: usize, other: u32)
    requires
        c.streams.contains_key(id),
    ensures
        front_sent(c, with_deficit(c, id, deficit), other),
{
    let queue = laws::queued_data(c.streams[other].pending_data);
    assert(queue.subrange(0, queue.len() as int) =~= queue);
}

proof fn frame_sends_the_front(c: ConnectionView, id: u32, amount: nat, other: u32)
    requires
        c.has_pending(id),
        amount <= c.streams[id].front_len(),
        amount > 0 ==> amount <= c.streams[id].send_window,
    ensures
        front_sent(c, c.sent(id, amount), other),
{
    let after = c.sent(id, amount);
    if other == id {
        laws::queued_data_front(c.streams[id].pending_data, amount);
        let queue = laws::queued_data(c.streams[id].pending_data);
        if after.streams.contains_key(id) {
            let rest = laws::queued_data(after.streams[id].pending_data);
            assert(queue.subrange(amount as int, queue.len() as int) =~= rest);
        }
    } else {
        untouched_sent_nothing(c, after, other);
    }
}

proof fn turn_sends_the_front(c: ConnectionView, id: u32, other: u32)
    requires
        c.inv(),
    ensures
        front_sent(c, c.pump_stream_data_drr(id), other),
    decreases c.queued(id),
{
    if !c.has_pending(id) {
        untouched_sent_nothing(c, c, other);
    } else if c.streams[id].front_len() == 0 {
        let next = c.sent(id, 0);
        laws::sent_facts(c, id);
        frame_sends_the_front(c, id, 0, other);
        turn_sends_the_front(next, id, other);
        front_sent_twice(c, next, next.pump_stream_data_drr(id), other);
    } else if c.sendable_drr(id) <= 0 {
        untouched_sent_nothing(c, c, other);
    } else {
        let amount = c.sendable_drr(id) as nat;
        let charged = with_deficit(c, id, (c.streams[id].deficit - amount) as usize);
        deficit_sends_nothing(c, id, (c.streams[id].deficit - amount) as usize, other);
        frame_sends_the_front(charged, id, amount, other);
        front_sent_twice(c, charged, charged.sent(id, amount), other);
    }
}

/// The deficit that a stream's turn starts with.
pub open spec fn raised_deficit(c: ConnectionView, id: u32) -> usize {
    let deficit = c.streams[id].deficit + c.peer.max_frame_size;
    if deficit > usize::MAX {
        usize::MAX
    } else {
        deficit as usize
    }
}

proof fn visit_sends_the_front(c: ConnectionView, id: u32, other: u32)
    requires
        c.inv(),
        c.visit_serves(id),
    ensures
        front_sent(c, c.visit(id), other),
{
    let raised = with_deficit(c, id, raised_deficit(c, id));
    assert(c.streams.contains_key(id));
    super::handlers::with_stream_keeps_inv(c, id, raised.streams[id]);
    deficit_sends_nothing(c, id, raised_deficit(c, id), other);
    turn_sends_the_front(raised, id, other);
    front_sent_twice(c, raised, c.visit(id), other);
}

proof fn round_sends_the_front(c: ConnectionView, ids: Seq<u32>, other: u32)
    requires
        c.inv(),
    ensures
        front_sent(c, c.round(ids).0, other),
    decreases ids.len(),
{
    if ids.len() == 0 {
        untouched_sent_nothing(c, c, other);
    } else {
        let rest = ids.subrange(1, ids.len() as int);
        if !c.visit_serves(ids[0]) {
            round_sends_the_front(c, rest, other);
        } else {
            let visited = c.visit(ids[0]);
            visit_sends_the_front(c, ids[0], other);
            if visited.conn_window > 0 {
                laws::turn_takes_at_most_a_quantum(c, ids[0]);
                round_sends_the_front(visited, rest, other);
                front_sent_twice(c, visited, visited.round(rest).0, other);
            }
        }
    }
}

/// Draining sends every stream's data in order and without gaps, and within the
/// stream's own window.
pub proof fn draining_keeps_the_order(c: ConnectionView, ids: Seq<u32>, id: u32)
    requires
        c.inv(),
    ensures
        front_sent(c, c.rounds(ids), id),
    decreases c.conn_window,
{
    if c.conn_window <= 0 || ids.len() == 0 {
        untouched_sent_nothing(c, c, id);
    } else {
        let (after, more) = c.round(ids);
        round_sends_the_front(c, ids, id);
        laws::round_is_fair(c, ids);
        if after.conn_window < c.conn_window {
            draining_keeps_the_order(after, more, id);
            front_sent_twice(c, after, after.rounds(more), id);
        }
    }
}

/// A turn with an open window and a deficit sends something, or the queue is
/// used up.
proof fn turn_makes_progress(c: ConnectionView, id: u32)
    requires
        c.inv(),
        c.has_pending(id),
        c.streams[id].send_window > 0,
        c.conn_window > 0,
        c.streams[id].deficit > 0,
    ensures
        ({
            let after = c.pump_stream_data_drr(id);
            after.conn_window < c.conn_window || !after.has_pending(id)
        }),
    decreases c.queued(id),
{
    if c.streams[id].front_len() == 0 {
        let next = c.sent(id, 0);
        laws::sent_facts(c, id);
        if next.has_pending(id) {
            turn_makes_progress(next, id);
        }
    }
}

/// What a round does to the streams: those outside the list are left alone,
/// those that leave the list have nothing more to send, and a round that sends
/// nothing leaves no stream on the list.
spec fn round_settled(
    c: ConnectionView,
    ids: Seq<u32>,
    after: ConnectionView,
    kept: Seq<u32>,
) -> bool {
    &&& kept.no_duplicates()
    &&& forall|x: u32| #[trigger] kept.contains(x) ==> ids.contains(x)
    &&& forall|x: u32| !ids.contains(x) ==> #[trigger] untouched(c, after, x)
    &&& after.conn_window > 0 ==> forall|x: u32|
        ids.contains(x) && !kept.contains(x) ==> #[trigger] settled(after, x)
    &&& after.conn_window == c.conn_window ==> kept.len() == 0
}

proof fn round_settles(c: ConnectionView, ids: Seq<u32>)
    requires
        c.inv(),
        c.conn_window > 0,
        ids.no_duplicates(),
    ensures
        round_settled(c, ids, c.round(ids).0, c.round(ids).1),
    decreases ids.len(), 1int,
{
    if ids.len() > 0 {
        let first = ids[0];
        let rest = ids.subrange(1, ids.len() as int);
        let (after, kept) = c.round(ids);
        assert(rest.no_duplicates());
        assert(!rest.contains(first));
        assert forall|x: u32| #[trigger] ids.contains(x) implies x == first || rest.contains(x) by {
            let i = choose|i: int| 0 <= i < ids.len() && ids[i] == x;
            if i > 0 {
                assert(rest[i - 1] == x);
            }
        }
        assert forall|x: u32| #[trigger] rest.contains(x) implies ids.contains(x) by {
            let i = choose|i: int| 0 <= i < rest.len() && rest[i] == x;
            assert(ids[i + 1] == x);
        }
        assert(ids.contains(first));
        if !c.visit_serves(first) {
            round_settles(c, rest);
            assert(untouched(c, after, first));
        } else {
            round_settles_visit(c, ids);
        }
    }
}

proof fn round_settles_visit(c: ConnectionView, ids: Seq<u32>)
    requires
        c.inv(),
        c.conn_window > 0,
        ids.no_duplicates(),
        ids.len() > 0,
        c.visit_serves(ids[0]),
    ensures
        round_settled(c, ids, c.round(ids).0, c.round(ids).1),
    decreases ids.len(), 0int,
{
    let first = ids[0];
    let rest = ids.subrange(1, ids.len() as int);
    let (after, kept) = c.round(ids);
    let visited = c.visit(first);
    let head = if visited.has_pending(first) {
        seq![first]
    } else {
        Seq::empty()
    };
    assert(c.streams.contains_key(first));
    laws::turn_takes_at_most_a_quantum(c, first);
    let raised = with_deficit(c, first, raised_deficit(c, first));
    super::handlers::with_stream_keeps_inv(c, first, raised.streams[first]);
    turn_makes_progress(raised, first);
    assert(visited.conn_window < c.conn_window || head.len() == 0);
    assert(rest.no_duplicates());
    assert(!rest.contains(first)) by {
        if rest.contains(first) {
            let i = choose|i: int| 0 <= i < rest.len() && rest[i] == first;
            assert(ids[i + 1] == ids[0]);
        }
    }
    assert forall|x: u32| #[trigger] ids.contains(x) implies x == first || rest.contains(x) by {
        let i = choose|i: int| 0 <= i < ids.len() && ids[i] == x;
        if i > 0 {
            assert(rest[i - 1] == x);
        }
    }
    assert forall|x: u32| #[trigger] rest.contains(x) implies ids.contains(x) by {
        let i = choose|i: int| 0 <= i < rest.len() && rest[i] == x;
        assert(ids[i + 1] == x);
    }
    assert(ids.contains(first));
    assert forall|x: u32| x != first implies #[trigger] untouched(c, visited, x) by {
        assert(visited.streams.contains_key(x) == c.streams.contains_key(x));
    }
    assert forall|x: u32| #[trigger] head.contains(x) implies x == first by {}
    if visited.conn_window > 0 {
        let (end, more) = visited.round(rest);
        round_settles(visited, rest);
        laws::round_is_fair(visited, rest);
        assert(kept == head + more);
        assert forall|x: u32| #[trigger] kept.contains(x) implies head.contains(x)
            || more.contains(x) by {
            let i = choose|i: int| 0 <= i < kept.len() && kept[i] == x;
            if i < head.len() {
                assert(head[i] == x);
            } else {
                assert(more[i - head.len()] == x);
            }
        }
        assert forall|x: u32| #[trigger] more.contains(x) implies kept.contains(x) by {
            let i = choose|i: int| 0 <= i < more.len() && more[i] == x;
            assert(kept[i + head.len()] == x);
        }
        assert(kept.no_duplicates()) by {
            assert forall|i: int, j: int| 0 <= i < j < kept.len() implies kept[i] != kept[j] by {
                if i < head.len() {
                    assert(more[j - head.len()] == kept[j]);
                    assert(more.contains(kept[j]));
                    assert(rest.contains(kept[j]));
                } else {
                    assert(more[i - head.len()] == kept[i]);
                    assert(more[j - head.len()] == kept[j]);
                }
            }
        }
        assert forall|x: u32| !ids.contains(x) implies #[trigger] untouched(c, after, x) by {
            assert(untouched(c, visited, x));
            assert(untouched(visited, end, x));
        }
        assert(untouched(visited, end, first));
        if after.conn_window > 0 {
            assert forall|x: u32| ids.contains(x) && !kept.contains(x) implies #[trigger] settled(
                after,
                x,
            ) by {
                if x == first {
                    if head.len() > 0 {
                        assert(kept[0] == first);
                    }
                } else {
                    assert(rest.contains(x));
                    assert(settled(end, x));
                }
            }
        }
    } else {
        assert(kept == head);
    }
}

/// What draining comes to: streams outside the list are left alone, and while
/// the connection window is open those on it have nothing more to send.
proof fn rounds_settle(c: ConnectionView, ids: Seq<u32>)
    requires
        c.inv(),
        ids.no_duplicates(),
    ensures
        forall|x: u32| !ids.contains(x) ==> #[trigger] untouched(c, c.rounds(ids), x),
        c.rounds(ids).conn_window > 0 ==> forall|x: u32|
            ids.contains(x) ==> #[trigger] settled(c.rounds(ids), x),
    decreases c.conn_window,
{
    let last = c.rounds(ids);
    if c.conn_window > 0 && ids.len() > 0 {
        let (after, more) = c.round(ids);
        laws::round_is_fair(c, ids);
        round_settles(c, ids);
        if after.conn_window < c.conn_window {
            laws::rounds_stay_within_the_window(after, more);
            rounds_settle(after, more);
            assert forall|x: u32| !ids.contains(x) implies #[trigger] untouched(c, last, x) by {
                assert(untouched(c, after, x));
                assert(untouched(after, last, x));
            }
            if last.conn_window > 0 {
                assert forall|x: u32| ids.contains(x) implies #[trigger] settled(last, x) by {
                    if !more.contains(x) {
                        assert(settled(after, x));
                        assert(untouched(after, last, x));
                    }
                }
            }
        }
    }
}

/// Draining goes on until nothing more can be sent: the connection window is
/// closed, or every stream has sent its queue or used up its own window.
pub proof fn draining_is_exhaustive(c: ConnectionView, ids: Seq<u32>, id: u32)
    requires
        c.inv(),
        c.lists_pending(ids),
    ensures
        c.rounds(ids).conn_window <= 0 || settled(c.rounds(ids), id),
{
    rounds_settle(c, ids);
    let last = c.rounds(ids);
    if last.conn_window > 0 && !ids.contains(id) {
        assert(untouched(c, last, id));
    }
}

} // verus!
