//! Flow control: what DATA goes out as the windows open (RFC 9113 Section 6.9).

use vstd::prelude::*;

use super::handlers::entry_edited;
use super::model::{self, ConnectionView};
use super::Connection;
use crate::fx::{map_get, map_get_mut, map_keys, set_contains};
use crate::h2::error::Reason;
use crate::h2::stream::StreamView;
use crate::octets::bytes_slice;

verus! {

broadcast use vstd::std_specs::hash::group_hash_axioms;

/// The smaller of two numbers.
fn smaller(a: u64, b: u64) -> (m: u64)
    ensures
        m == if a < b {
            a
        } else {
            b
        },
{
    if a < b {
        a
    } else {
        b
    }
}

/// Sending leaves the invariant: windows only shrink, and not below zero.
proof fn sent_keeps_inv(c: ConnectionView, id: u32, amount: nat)
    requires
        c.inv(),
        c.has_pending(id),
        amount <= c.streams[id].front_len(),
        amount > 0 ==> amount <= c.conn_window && amount <= c.streams[id].send_window,
    ensures
        ({
            let stream = c.streams[id];
            let after = StreamView {
                local_ended: stream.front_ends(amount),
                ..stream.front_taken(amount)
            };
            model::window_in_bounds(after.send_window, c.peer.initial_window_size)
        }),
{
    assert(c.streams.contains_key(id));
}

/// What goes into the next DATA frame is there to be sent, and the queue is
/// shorter for it.
proof fn sending_shrinks_the_queue(c: ConnectionView, id: u32)
    requires
        c.inv(),
        c.can_send(id),
    ensures
        ({
            let amount = c.next_amount(id);
            let after = c.sent(id, amount);
            &&& amount <= c.streams[id].front_len()
            &&& amount == 0 ==> c.streams[id].front_len() == 0
            &&& amount > 0 ==> amount <= c.conn_window && amount <= c.streams[id].send_window
            &&& after.queued(id) < c.queued(id) || (after.queued(id) == c.queued(id)
                && after.first_len(id) < c.first_len(id))
            &&& c.pump_stream_data(id) == after.pump_stream_data(id)
        }),
{
}

impl Connection {
    /// Sends the first `amount` octets of the stream's first queued chunk in
    /// one DATA frame.
    fn send_front(&mut self, stream_id: u32, amount: usize)
        requires
            old(self).wf(),
            old(self)@.has_pending(stream_id),
            amount <= old(self)@.streams[stream_id].front_len(),
            amount == 0 ==> old(self)@.streams[stream_id].front_len() == 0,
            amount > 0 ==> amount <= old(self)@.conn_window && amount
                <= old(self)@.streams[stream_id].send_window,
        ensures
            final(self).wf(),
            final(self)@ == old(self)@.sent(stream_id, amount as nat),
    {
        let ghost before = *self;
        proof {
            sent_keeps_inv(before@, stream_id, amount as nat);
        }
        let mut retire = false;
        if let Some(entry) = map_get_mut(&mut self.streams, &stream_id) {
            let (chunk, frame_end) = entry.take_front(amount);
            self.writer.write_data(&mut self.out, stream_id, frame_end, bytes_slice(&chunk));
            if frame_end {
                entry.local_ended = true;
                retire = entry.task_done;
            }
        }
        if amount > 0 {
            self.conn_window = self.conn_window - amount as i64;
        }
        proof {
            entry_edited(before@, before.streams@, stream_id, self.streams@[stream_id]);
        }
        // The chunk is fully consumed, carried END_STREAM, and the task is
        // gone: retire the stream.
        if retire {
            self.retire(stream_id);
        }
    }

    /// How much of a chunk of `len` octets may go into one DATA frame on a
    /// stream with the given window.
    fn frame_amount(&self, len: usize, send_window: i64) -> (amount: usize)
        requires
            self.wf(),
            self@.conn_window > 0,
            send_window > 0,
        ensures
            amount == ({
                let window = if self@.conn_window < send_window {
                    self@.conn_window as int
                } else {
                    send_window as int
                };
                let open = if len < window {
                    len as int
                } else {
                    window
                };
                if open < self@.peer.max_frame_size {
                    open
                } else {
                    self@.peer.max_frame_size as int
                }
            }),
    {
        let available: u64 = smaller(self.conn_window as u64, send_window as u64);
        let open: u64 = smaller(len as u64, available);
        smaller(open, self.peer.max_frame_size as u64) as usize
    }

    /// What goes into the stream's next DATA frame: `None` where nothing may be
    /// sent, 0 where the first chunk is empty.
    fn amount_to_send(&self, stream_id: u32) -> (amount: Option<usize>)
        requires
            self.wf(),
        ensures
            match amount {
                None => !self@.can_send(stream_id),
                Some(n) => self@.can_send(stream_id) && n == self@.next_amount(stream_id),
            },
    {
        match map_get(&self.streams, &stream_id) {
            None => None,
            Some(entry) => {
                assert(self@.streams.contains_key(stream_id));
                assert(self@.streams[stream_id] == entry@);
                if entry.local_ended {
                    return None;
                }
                match entry.front_len() {
                    None => None,
                    // Zero-length frames are not flow controlled.
                    Some(len) => if len == 0 {
                        Some(0)
                    } else if self.conn_window <= 0 || entry.send_window <= 0 {
                        None
                    } else {
                        Some(self.frame_amount(len, entry.send_window))
                    },
                }
            },
        }
    }

    /// Sends queued DATA chunks for one stream, respecting the flow control
    /// windows and the peer's max frame size. Returns when the window is
    /// exhausted or the queue is empty.
    pub fn pump_stream_data(&mut self, stream_id: u32)
        requires
            old(self).wf(),
        ensures
            final(self).wf(),
            final(self)@ == old(self)@.pump_stream_data(stream_id),
    {
        loop
            invariant
                self.wf(),
                self@.pump_stream_data(stream_id) == old(self)@.pump_stream_data(stream_id),
            decreases self@.queued(stream_id), self@.first_len(stream_id),
        {
            let amount: usize = match self.amount_to_send(stream_id) {
                None => {
                    return ;
                },
                Some(amount) => amount,
            };
            proof {
                sending_shrinks_the_queue(self@, stream_id);
            }
            self.send_front(stream_id, amount);
        }
    }

    /// What may go into the stream's next DATA frame within its deficit: `None`
    /// where nothing may be sent, 0 where the first chunk is empty.
    fn drr_amount(&self, stream_id: u32) -> (amount: Option<usize>)
        requires
            self.wf(),
        ensures
            match amount {
                None => !self@.has_pending(stream_id) || (self@.streams[stream_id].front_len() > 0
                    && self@.sendable_drr(stream_id) <= 0),
                Some(n) => {
                    &&& self@.has_pending(stream_id)
                    &&& n == 0 <==> self@.streams[stream_id].front_len() == 0
                    &&& n > 0 ==> n == self@.sendable_drr(stream_id)
                },
            },
    {
        match map_get(&self.streams, &stream_id) {
            None => None,
            Some(entry) => {
                assert(self@.streams.contains_key(stream_id));
                assert(self@.streams[stream_id] == entry@);
                if entry.local_ended {
                    return None;
                }
                match entry.front_len() {
                    None => None,
                    Some(len) => if len == 0 {
                        Some(0)
                    } else if entry.deficit == 0 || self.conn_window <= 0 || entry.send_window <= 0 {
                        None
                    } else {
                        let open: usize = self.frame_amount(len, entry.send_window);
                        Some(
                            if open < entry.deficit {
                                open
                            } else {
                                entry.deficit
                            },
                        )
                    },
                }
            },
        }
    }

    /// Takes `amount` off the stream's deficit.
    fn charge_deficit(&mut self, stream_id: u32, amount: usize)
        requires
            old(self).wf(),
            old(self)@.streams.contains_key(stream_id),
            amount <= old(self)@.streams[stream_id].deficit,
        ensures
            final(self).wf(),
            final(self)@ == old(self)@.with_stream(
                stream_id,
                StreamView {
                    deficit: (old(self)@.streams[stream_id].deficit - amount) as usize,
                    ..old(self)@.streams[stream_id]
                },
            ),
    {
        let ghost before = *self;
        if let Some(entry) = map_get_mut(&mut self.streams, &stream_id) {
            entry.deficit = entry.deficit - amount;
        }
        proof {
            entry_edited(before@, before.streams@, stream_id, self.streams@[stream_id]);
        }
    }

    /// Like [`Connection::pump_stream_data`] but capped by the stream's deficit
    /// and sends at most one frame (quantum) per call for DRR fairness.
    fn pump_stream_data_drr(&mut self, stream_id: u32)
        requires
            old(self).wf(),
        ensures
            final(self).wf(),
            final(self)@ == old(self)@.pump_stream_data_drr(stream_id),
    {
        loop
            invariant
                self.wf(),
                self@.pump_stream_data_drr(stream_id) == old(self)@.pump_stream_data_drr(stream_id),
            decreases self@.queued(stream_id),
        {
            let amount: usize = match self.drr_amount(stream_id) {
                None => {
                    return ;
                },
                Some(amount) => amount,
            };
            if amount > 0 {
                self.charge_deficit(stream_id, amount);
                // DRR: one frame per quantum.
                self.send_front(stream_id, amount);
                return ;
            }
            self.send_front(stream_id, 0);
        }
    }

    /// A WINDOW_UPDATE frame for one stream: grow its window, checking for the
    /// 2^31-1 overflow (RFC 9113 Sections 6.9 and 6.9.1), and send what it lets
    /// through.
    fn handle_stream_window_update(&mut self, stream_id: u32, increment: u32)
        requires
            old(self).wf(),
            increment > 0,
        ensures
            final(self).wf(),
            final(self)@ == old(self)@.stream_window_update(stream_id, increment),
    {
        let ghost before = *self;
        let overflow = match map_get_mut(&mut self.streams, &stream_id) {
            None => {
                assert(!before@.streams.contains_key(stream_id));
                assert(self@.streams =~= before@.streams);
                assert(self.closed_streams@.contains(stream_id) == self@.closed.contains(stream_id));
                // WINDOW_UPDATE on an idle stream is a connection error (RFC
                // 9113 Section 5.1); closed streams may legitimately receive
                // it.
                if !set_contains(&self.closed_streams, &stream_id) {
                    self.goaway(Reason::ProtocolError, "window update on idle stream");
                }
                return ;
            },
            Some(entry) => {
                assert(before@.streams.contains_key(stream_id));
                if entry.send_window > 0x7fff_ffff - increment as i64 {
                    true
                } else {
                    entry.send_window = entry.send_window + increment as i64;
                    false
                }
            },
        };
        proof {
            assert(before@.streams.contains_key(stream_id));
            assert(before@.streams[stream_id] == before.streams@[stream_id]@);
            entry_edited(before@, before.streams@, stream_id, self.streams@[stream_id]);
        }
        if overflow {
            assert(self@.streams =~= before@.streams);
            self.stream_error(stream_id, Reason::FlowControlError);
        } else {
            self.pump_stream_data(stream_id);
        }
    }

    /// The streams with data to send, in no particular order.
    fn pending_streams(&self) -> (ids: Vec<u32>)
        requires
            self.wf(),
        ensures
            self@.lists_pending(ids@),
    {
        let keys = map_keys(&self.streams);
        let mut ids: Vec<u32> = Vec::new();
        let mut i: usize = 0;
        while i < keys.len()
            invariant
                i <= keys@.len(),
                keys@.no_duplicates(),
                keys@.to_set() == self.streams@.dom(),
                ids@.no_duplicates(),
                forall|id: u32| #[trigger]
                    ids@.contains(id) <==> (keys@.subrange(0, i as int).contains(id)
                        && self@.has_pending(id)),
            decreases keys@.len() - i,
        {
            let id: u32 = keys[i];
            let ghost listed = ids@;
            assert(keys@.to_set().contains(id));
            let ghost seen = keys@.subrange(0, i as int);
            assert(keys@.subrange(0, i + 1) =~= seen.push(id));
            assert(!seen.contains(id)) by {
                if seen.contains(id) {
                    let j = choose|j: int| 0 <= j < seen.len() && seen[j] == id;
                    assert(keys@[j] == keys@[i as int]);
                }
            }
            let mut pending = false;
            if let Some(entry) = map_get(&self.streams, &id) {
                assert(self@.streams[id] == entry@);
                if entry.pending_data.len() > 0 && !entry.local_ended {
                    pending = true;
                }
            }
            assert(self@.streams.contains_key(id));
            assert(pending == self@.has_pending(id));
            if pending {
                ids.push(id);
                proof {
                    assert forall|a: int, b: int| 0 <= a < b < ids@.len() implies ids@[a]
                        != ids@[b] by {
                        if b == listed.len() {
                            assert(listed.contains(listed[a]));
                        }
                    }
                }
            }
            assert forall|x: u32| #[trigger]
                ids@.contains(x) <==> (keys@.subrange(0, i + 1).contains(x) && self@.has_pending(
                    x,
                )) by {
                if x == id {
                    if pending {
                        assert(ids@[listed.len() as int] == id);
                    }
                    assert(seen.push(id)[seen.len() as int] == id);
                    assert(!listed.contains(id));
                } else {
                    if pending {
                        if listed.contains(x) {
                            let j = choose|j: int| 0 <= j < listed.len() && listed[j] == x;
                            assert(ids@[j] == x);
                        }
                        if ids@.contains(x) {
                            let j = choose|j: int| 0 <= j < ids@.len() && ids@[j] == x;
                            assert(listed[j] == x);
                        }
                    }
                    if seen.contains(x) {
                        let j = choose|j: int| 0 <= j < seen.len() && seen[j] == x;
                        assert(seen.push(id)[j] == x);
                    }
                    if seen.push(id).contains(x) {
                        let j = choose|j: int| 0 <= j < seen.len() + 1 && seen.push(id)[j] == x;
                        assert(seen[j] == x);
                    }
                }
            }
            i = i + 1;
        }
        proof {
            assert(keys@.subrange(0, i as int) =~= keys@);
            assert forall|id: u32| self@.has_pending(id) implies keys@.contains(id) by {
                assert(self.streams@.dom().contains(id));
                assert(keys@.to_set().contains(id));
            }
        }
        ids
    }

    /// Whether the stream has data to send.
    fn stream_pending(&self, stream_id: u32) -> (pending: bool)
        requires
            self.wf(),
        ensures
            pending == self@.has_pending(stream_id),
    {
        match map_get(&self.streams, &stream_id) {
            None => false,
            Some(entry) => {
                assert(self@.streams[stream_id] == entry@);
                entry.pending_data.len() > 0 && !entry.local_ended
            },
        }
    }

    /// Serves the stream in its turn, if it can be served: its deficit grows by
    /// a quantum and one frame goes out within it.
    fn visit(&mut self, stream_id: u32) -> (served: bool)
        requires
            old(self).wf(),
        ensures
            final(self).wf(),
            served == old(self)@.visit_serves(stream_id),
            final(self)@ == (if served {
                old(self)@.visit(stream_id)
            } else {
                old(self)@
            }),
    {
        let quantum: usize = self.peer.max_frame_size;
        let ghost before = *self;
        if let Some(entry) = map_get_mut(&mut self.streams, &stream_id) {
            if entry.pending_data.len() == 0 || entry.local_ended || entry.send_window <= 0 {
                assert(before@.streams[stream_id] == entry@);
                return false;
            }
            entry.deficit = entry.deficit.saturating_add(quantum);
        } else {
            return false;
        }
        proof {
            entry_edited(before@, before.streams@, stream_id, self.streams@[stream_id]);
        }
        self.pump_stream_data_drr(stream_id);
        true
    }

    /// One round over the streams in the given order. Returns those that still
    /// have data.
    fn drr_round(&mut self, ids: &Vec<u32>) -> (kept: Vec<u32>)
        requires
            old(self).wf(),
        ensures
            final(self).wf(),
            (final(self)@, kept@) == old(self)@.round(ids@),
    {
        let mut kept: Vec<u32> = Vec::new();
        let mut i: usize = 0;
        assert(ids@.subrange(0, ids@.len() as int) =~= ids@);
        proof {
            let (end, more) = self@.round(ids@);
            assert(Seq::<u32>::empty() + more =~= more);
        }
        while i < ids.len()
            invariant
                i <= ids@.len(),
                self.wf(),
                ({
                    let (end, more) = self@.round(ids@.subrange(i as int, ids@.len() as int));
                    old(self)@.round(ids@) == (end, kept@ + more)
                }),
            decreases ids@.len() - i,
        {
            let id: u32 = ids[i];
            let ghost rest = ids@.subrange(i as int, ids@.len() as int);
            let ghost before = self@;
            let ghost kept_before = kept@;
            assert(rest.subrange(1, rest.len() as int) =~= ids@.subrange(
                i + 1,
                ids@.len() as int,
            ));
            if self.visit(id) {
                if self.stream_pending(id) {
                    kept.push(id);
                    assert(kept@ =~= kept_before + seq![id]);
                } else {
                    assert(kept@ =~= kept_before + Seq::<u32>::empty());
                }
                if self.conn_window <= 0 {
                    return kept;
                }
                proof {
                    let (end, more) = self@.round(rest.subrange(1, rest.len() as int));
                    assert(kept_before + (seq![id] + more) =~= (kept_before + seq![id]) + more);
                    assert(kept_before + (Seq::<u32>::empty() + more) =~= kept_before + more);
                }
            }
            i = i + 1;
        }
        assert(kept@ + Seq::<u32>::empty() =~= kept@);
        kept
    }

    /// Sends queued DATA under the connection window, in deficit round-robin
    /// over the given streams (quantum = the peer's max frame size), so that a
    /// single large response cannot hog the window and starve small ones.
    pub fn drain_in_order(&mut self, ids: Vec<u32>)
        requires
            old(self).wf(),
        ensures
            final(self).wf(),
            final(self)@ == old(self)@.rounds(ids@),
    {
        let ghost target = self@.rounds(ids@);
        let mut turn = ids;
        while self.conn_window > 0 && turn.len() > 0
            invariant
                self.wf(),
                self@.rounds(turn@) == target,
                target == old(self)@.rounds(ids@),
            decreases self.conn_window,
        {
            let window: i64 = self.conn_window;
            let next = self.drr_round(&turn);
            if self.conn_window >= window {
                return ;
            }
            turn = next;
        }
    }

    /// Attempts to drain queued DATA after the flow control windows opened up.
    /// For per-stream `WINDOW_UPDATE` only that stream is pumped; for connection
    /// `WINDOW_UPDATE` we use deficit round-robin
    /// ([`Connection::drain_in_order`]), in whatever order the stream table
    /// hands the streams out.
    pub fn drain_pending_data(&mut self, stream_id: Option<u32>)
        requires
            old(self).wf(),
        ensures
            final(self).wf(),
            match stream_id {
                Some(id) => final(self)@ == old(self)@.pump_stream_data(id),
                None => exists|ids: Seq<u32>| #[trigger]
                    old(self)@.lists_pending(ids) && final(self)@ == old(self)@.rounds(ids),
            },
    {
        match stream_id {
            Some(id) => {
                self.pump_stream_data(id);
            },
            None => {
                let ids = self.pending_streams();
                self.drain_in_order(ids);
            },
        }
    }

    /// A WINDOW_UPDATE frame: grow the sender window, checking for the 2^31-1
    /// overflow (RFC 9113 Sections 6.9 and 6.9.1), and send what it lets
    /// through.
    pub fn handle_window_update(&mut self, stream_id: u32, increment: u32)
        requires
            old(self).wf(),
        ensures
            final(self).wf(),
            stream_id != 0 ==> final(self)@ == old(self)@.stream_window_update(
                stream_id,
                increment,
            ),
            stream_id == 0 ==> exists|ids: Seq<u32>| #[trigger]
                old(self)@.lists_pending(ids) && final(self)@
                    == old(self)@.connection_window_update(increment, ids),
    {
        if stream_id != 0 {
            if increment > 0 {
                self.handle_stream_window_update(stream_id, increment);
            }
            return ;
        }
        let ids = self.pending_streams();
        let ghost order = ids@;
        self.handle_connection_window_update(increment, ids);
        assert(old(self)@.lists_pending(order));
    }

    /// A WINDOW_UPDATE frame for the connection, with the streams served in the
    /// given order.
    pub fn handle_connection_window_update(&mut self, increment: u32, ids: Vec<u32>)
        requires
            old(self).wf(),
        ensures
            final(self).wf(),
            final(self)@ == old(self)@.connection_window_update(increment, ids@),
    {
        if increment == 0 {
            return ;
        }
        if self.conn_window > 0x7fff_ffff - increment as i64 {
            self.goaway(Reason::FlowControlError, "connection window overflow");
            return ;
        }
        self.conn_window = self.conn_window + increment as i64;
        self.drain_in_order(ids);
    }
}

} // verus!
