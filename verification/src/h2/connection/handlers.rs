//! What frames from the peer do to the connection.

use bytes::Bytes;
use vstd::prelude::*;

use super::model::{self, ConnectionView, MAX_CLOSED_STREAMS};
use super::{streams_view, Connection, PeerSettings};
use crate::fx::{
    map_contains, map_get_mut, map_insert, map_keys, map_len, map_remove, set_contains,
    set_insert, set_remove,
};
use crate::h2::codec::{Setting, DEFAULT_MAX_FRAME_SIZE, MAX_FRAME_SIZE_LIMIT};
use crate::h2::error::Reason;
use crate::h2::stream::{StreamEntry, StreamView};
use crate::octets::OctetView;

verus! {

broadcast use vstd::std_specs::hash::group_hash_axioms;

/// Replacing or taking out an entry does the same to what the table holds.
pub(super) proof fn streams_view_update(streams: Map<u32, StreamEntry>, id: u32, entry: StreamEntry)
    ensures
        streams_view(streams.insert(id, entry)) == streams_view(streams).insert(id, entry@),
        streams_view(streams.remove(id)) == streams_view(streams).remove(id),
{
    assert(streams_view(streams.insert(id, entry)) =~= streams_view(streams).insert(id, entry@));
    assert(streams_view(streams.remove(id)) =~= streams_view(streams).remove(id));
}

proof fn seq_drop_front(s: Seq<u32>)
    requires
        s.len() > 0,
        s.no_duplicates(),
    ensures
        s.subrange(1, s.len() as int).no_duplicates(),
        s.subrange(1, s.len() as int).to_set() == s.to_set().remove(s[0]),
{
    let rest = s.subrange(1, s.len() as int);
    assert forall|x: u32| rest.to_set().contains(x) <==> s.to_set().remove(s[0]).contains(x) by {
        if rest.contains(x) {
            let i = choose|i: int| 0 <= i < rest.len() && rest[i] == x;
            assert(s[i + 1] == x);
        }
        if s.contains(x) && x != s[0] {
            let i = choose|i: int| 0 <= i < s.len() && s[i] == x;
            assert(rest[i - 1] == x);
        }
    }
    assert(rest.to_set() =~= s.to_set().remove(s[0]));
}

/// The list of closed streams keeps its bound and its distinct elements.
pub(super) proof fn closed_after_keeps(closed: Seq<u32>, id: u32)
    requires
        closed.no_duplicates(),
        closed.len() <= MAX_CLOSED_STREAMS,
    ensures
        model::closed_after(closed, id).no_duplicates(),
        model::closed_after(closed, id).len() <= MAX_CLOSED_STREAMS,
        model::closed_after(closed, id).contains(id),
{
    if closed.len() >= MAX_CLOSED_STREAMS {
        seq_drop_front(closed);
    }
    let kept = if closed.len() >= MAX_CLOSED_STREAMS {
        closed.subrange(1, closed.len() as int)
    } else {
        closed
    };
    if !kept.contains(id) {
        let all = kept.push(id);
        assert(all[all.len() - 1] == id);
        assert forall|i: int, j: int| 0 <= i < j < all.len() implies all[i] != all[j] by {
            if j == kept.len() {
                assert(kept.contains(kept[i]));
            }
        }
    }
}

/// A stream whose window is within bounds may take any place in the table.
pub(super) proof fn with_stream_keeps_inv(c: ConnectionView, id: u32, stream: StreamView)
    requires
        c.inv(),
        model::window_in_bounds(stream.send_window, c.peer.initial_window_size),
    ensures
        c.with_stream(id, stream).inv(),
{
    let after = c.with_stream(id, stream);
    assert forall|x: u32| #[trigger] after.streams.contains_key(x) implies model::window_in_bounds(
        after.streams[x].send_window,
        after.peer.initial_window_size,
    ) by {
        if x != id {
            assert(c.streams.contains_key(x));
        }
    }
}

/// Editing the entry of an open stream, with its window kept or within bounds.
pub(super) proof fn entry_edited(
    c: ConnectionView,
    streams: Map<u32, StreamEntry>,
    id: u32,
    entry: StreamEntry,
)
    requires
        c.inv(),
        c.streams == streams_view(streams),
        streams.contains_key(id),
        entry.send_window == streams[id].send_window || model::window_in_bounds(
            entry.send_window,
            c.peer.initial_window_size,
        ),
    ensures
        c.streams.contains_key(id),
        c.streams[id] == streams[id]@,
        streams_view(streams.insert(id, entry)) == c.streams.insert(id, entry@),
        c.with_stream(id, entry@).inv(),
{
    assert(c.streams.contains_key(id));
    streams_view_update(streams, id, entry);
    with_stream_keeps_inv(c, id, entry@);
}

impl Connection {
    /// Queues a GOAWAY frame; the connection closes after it is written.
    pub fn goaway(&mut self, reason: Reason, debug: &str)
        requires
            old(self).wf(),
        ensures
            final(self).wf(),
            final(self)@ == old(self)@.goaway(reason, debug),
    {
        self.closing = true;
        self.writer.write_goaway(
            &mut self.out,
            self.highest_stream_id,
            reason.code(),
            debug.as_bytes(),
        );
    }

    /// Begins a graceful shutdown (RFC 9113 Section 6.8): advertises the last
    /// stream id we will process and stops accepting new streams. The drain
    /// phase ([`Connection::finish_graceful_shutdown`]) closes the connection
    /// once in-flight streams finish.
    pub fn begin_graceful_shutdown(&mut self)
        requires
            old(self).wf(),
        ensures
            final(self).wf(),
            final(self)@ == old(self)@.begin_graceful_shutdown(),
    {
        if self.graceful || self.closing {
            return ;
        }
        self.graceful = true;
        self.graceful_last_stream = self.highest_stream_id;
        self.writer.write_goaway(
            &mut self.out,
            self.graceful_last_stream,
            Reason::NoError.code(),
            "graceful shutdown".as_bytes(),
        );
    }

    /// Queues the final GOAWAY that closes the connection. Called when the
    /// graceful drain completes (all streams finished) or ends early.
    pub fn finish_graceful_shutdown(&mut self)
        requires
            old(self).wf(),
        ensures
            final(self).wf(),
            final(self)@ == old(self)@.finish_graceful_shutdown(),
    {
        // An error already queued a GOAWAY; don't overwrite it.
        if self.closing {
            return ;
        }
        self.writer.write_goaway(
            &mut self.out,
            self.graceful_last_stream,
            Reason::NoError.code(),
            "graceful shutdown".as_bytes(),
        );
    }

    /// Remembers a stream id whose stream has ended for good, so frames for it
    /// can be told apart from idle-stream frames (RFC 9113 Section 5.1).
    /// Bounded via LRU eviction to avoid a bulk-clear tail spike at the
    /// boundary.
    pub fn mark_closed(&mut self, stream_id: u32)
        requires
            old(self).wf(),
        ensures
            final(self).wf(),
            final(self)@ == (ConnectionView {
                closed: model::closed_after(old(self)@.closed, stream_id),
                ..old(self)@
            }),
    {
        proof {
            closed_after_keeps(self.closed_order@, stream_id);
        }
        if self.closed_order.len() >= MAX_CLOSED_STREAMS {
            proof {
                seq_drop_front(self.closed_order@);
            }
            if let Some(oldest) = self.closed_order.pop_front() {
                set_remove(&mut self.closed_streams, &oldest);
            }
        }
        let ghost kept = self.closed_order@;
        if set_insert(&mut self.closed_streams, stream_id) {
            self.closed_order.push_back(stream_id);
            proof {
                kept.lemma_push_to_set_commute(stream_id);
            }
        }
        proof {
            assert(self.closed_streams@ =~= self.closed_order@.to_set());
        }
    }

    /// The stream has ended for good.
    pub(super) fn retire(&mut self, stream_id: u32)
        requires
            old(self).wf(),
        ensures
            final(self).wf(),
            final(self)@ == old(self)@.retire(stream_id),
    {
        self.mark_closed(stream_id);
        proof {
            streams_view_update(self.streams@, stream_id, arbitrary());
        }
        let _ = map_remove(&mut self.streams, &stream_id);
    }

    /// Queues a RST_STREAM for a stream error and forgets the stream.
    ///
    /// Bounds the RST_STREAM frames we send for the peer's protocol errors (RFC
    /// 9113 Section 10.5.2): a peer that keeps making errors past the limit
    /// costs the connection, not the stream. InternalError is our own give-up
    /// (a stalled stream), not a peer error, so it does not count.
    pub fn stream_error(&mut self, stream_id: u32, reason: Reason)
        requires
            old(self).wf(),
        ensures
            final(self).wf(),
            final(self)@ == old(self)@.stream_error(stream_id, reason),
    {
        if reason != Reason::InternalError {
            if let Some(max) = self.opts.max_local_error_reset_streams {
                if self.local_error_resets >= max {
                    self.goaway(
                        Reason::EnhanceYourCalm,
                        "too many resets for peer protocol errors",
                    );
                    return ;
                }
            }
            self.local_error_resets = self.local_error_resets.saturating_add(1);
        }
        self.writer.write_reset(&mut self.out, stream_id, reason.code());
        self.retire(stream_id);
    }

    /// Counts one more frame of the stream's open field block.
    fn count_block_frame(&mut self, stream_id: u32) -> (frames: Option<usize>)
        requires
            old(self).wf(),
        ensures
            final(self).wf(),
            match frames {
                Some(n) => {
                    &&& old(self)@.streams.contains_key(stream_id)
                    &&& n == model::one_more(old(self)@.streams[stream_id].continuation_frames)
                    &&& final(self)@ == old(self)@.with_stream(
                        stream_id,
                        StreamView { continuation_frames: n, ..old(self)@.streams[stream_id] },
                    )
                },
                None => !old(self)@.streams.contains_key(stream_id) && final(self)@ == old(self)@,
            },
    {
        let ghost before = *self;
        let frames = match map_get_mut(&mut self.streams, &stream_id) {
            Some(entry) => {
                let frames: usize = entry.continuation_frames.saturating_add(1);
                entry.continuation_frames = frames;
                Some(frames)
            },
            None => None,
        };
        proof {
            if frames is Some {
                entry_edited(before@, before.streams@, stream_id, self.streams@[stream_id]);
            }
        }
        frames
    }

    /// Enforces the CONTINUATION-flood limit (CVE-2024-27919) for a stream
    /// whose field block is still open. Each frame (the opening HEADERS and
    /// every CONTINUATION) adds one; once the count passes the connection's
    /// allowed maximum the offending stream is reset with `RST_STREAM`
    /// `PROTOCOL_ERROR` and the open block is abandoned so the connection keeps
    /// serving other streams.
    pub fn check_continuation_flood(&mut self, stream_id: u32)
        requires
            old(self).wf(),
        ensures
            final(self).wf(),
            final(self)@ == old(self)@.check_continuation_flood(stream_id),
    {
        let over_limit = match self.count_block_frame(stream_id) {
            Some(frames) => frames > self.opts.max_continuation_frames,
            None => {
                return ;
            },
        };
        if over_limit {
            if let Some(open) = self.decoder.block_stream() {
                if open == stream_id {
                    self.decoder.clear_block();
                }
            }
            self.stream_error(stream_id, Reason::ProtocolError);
        }
    }

    /// A HEADERS block arrived on a stream with no entry: validate and open it
    /// (RFC 9113 Sections 5.1.1 and 6.2).
    pub fn open_request_stream(
        &mut self,
        stream_id: u32,
        end_stream: bool,
        end_headers: bool,
        block: &[u8],
    )
        requires
            old(self).wf(),
        ensures
            final(self).wf(),
            final(self)@ == old(self)@.open_request_stream(
                stream_id,
                end_stream,
                end_headers,
                block@,
            ),
    {
        if stream_id % 2 == 0 {
            self.goaway(Reason::ProtocolError, "headers on invalid stream");
            return ;
        }
        if stream_id <= self.highest_stream_id {
            // Stream ids must increase (RFC 9113 Section 5.1.1): connection
            // error PROTOCOL_ERROR.
            self.goaway(Reason::ProtocolError, "non-increasing stream id");
            return ;
        }
        self.highest_stream_id = stream_id;
        assert(streams_view(self.streams@).dom() =~= self.streams@.dom());
        if map_len(&self.streams) >= self.opts.max_concurrent_streams as usize {
            self.writer.write_reset(&mut self.out, stream_id, Reason::RefusedStream.code());
            return ;
        }
        let mut entry = StreamEntry::new();
        entry.send_window = self.peer.initial_window_size as i64;
        // A request that ended with HEADERS (typical GET) has no body reader.
        entry.has_body = !end_stream;
        entry.pending_end_stream = end_stream;
        entry.extend_block(block);
        assert(Seq::<u8>::empty() + block@ =~= block@);
        if end_headers {
            self.complete_blocks.push_back(stream_id);
        } else {
            // The opening HEADERS is the first frame of the block.
            entry.continuation_frames = 1;
        }
        proof {
            streams_view_update(self.streams@, stream_id, entry);
            with_stream_keeps_inv(self@, stream_id, entry@);
        }
        map_insert(&mut self.streams, stream_id, entry);
    }

    /// Adds a fragment to the field block of an open stream.
    fn extend_block(&mut self, stream_id: u32, end_headers: bool, block: &[u8])
        requires
            old(self).wf(),
            old(self)@.streams.contains_key(stream_id),
        ensures
            final(self).wf(),
            final(self)@ == old(self)@.extend_block(stream_id, end_headers, block@),
    {
        let ghost before = *self;
        if let Some(entry) = map_get_mut(&mut self.streams, &stream_id) {
            entry.extend_block(block);
            if end_headers {
                entry.continuation_frames = 0;
            }
        }
        proof {
            entry_edited(before@, before.streams@, stream_id, self.streams@[stream_id]);
        }
        if end_headers {
            self.complete_blocks.push_back(stream_id);
        } else {
            // The field block stays open: count this frame towards the
            // CONTINUATION-flood budget.
            self.check_continuation_flood(stream_id);
        }
    }

    /// A HEADERS frame: the start of a request field block, a trailer section,
    /// or a protocol violation.
    pub fn handle_headers_frame(
        &mut self,
        stream_id: u32,
        end_stream: bool,
        end_headers: bool,
        block: &[u8],
    )
        requires
            old(self).wf(),
        ensures
            final(self).wf(),
            final(self)@ == old(self)@.handle_headers_frame(
                stream_id,
                end_stream,
                end_headers,
                block@,
            ),
    {
        // During graceful shutdown, the peer must not open streams beyond the
        // id advertised in GOAWAY (RFC 9113 Section 6.8).
        if self.graceful && stream_id > self.graceful_last_stream {
            return ;
        }
        let ghost before = *self;
        let known = match map_get_mut(&mut self.streams, &stream_id) {
            None => None,
            Some(entry) => {
                if !entry.remote_ended {
                    entry.pending_end_stream = end_stream;
                }
                Some(entry.remote_ended)
            },
        };
        match known {
            None => {
                assert(!before@.streams.contains_key(stream_id));
                self.open_request_stream(stream_id, end_stream, end_headers, block);
            },
            Some(remote_ended) => {
                proof {
                    entry_edited(before@, before.streams@, stream_id, self.streams@[stream_id]);
                }
                if remote_ended {
                    assert(self@.streams =~= before@.streams);
                    self.stream_error(stream_id, Reason::StreamClosed);
                } else {
                    self.extend_block(stream_id, end_headers, block);
                }
            },
        }
    }

    /// A CONTINUATION fragment of the open field block.
    pub fn handle_continuation(&mut self, stream_id: u32, end_headers: bool, block: &[u8])
        requires
            old(self).wf(),
        ensures
            final(self).wf(),
            final(self)@ == old(self)@.handle_continuation(stream_id, end_headers, block@),
    {
        if !map_contains(&self.streams, &stream_id) {
            // The codec already rejects stray CONTINUATION frames; this guard
            // keeps the module safe on its own.
            self.goaway(Reason::ProtocolError, "continuation on unknown stream");
            return ;
        }
        self.extend_block(stream_id, end_headers, block);
    }

    /// Removes the completed-block marker for a stream, if any. FIFO for
    /// fairness.
    pub fn take_complete_block(&mut self) -> (stream_id: Option<u32>)
        requires
            old(self).wf(),
        ensures
            final(self).wf(),
            final(self)@ == old(self)@.take_complete_block(),
            stream_id == old(self)@.next_complete_block(),
    {
        loop
            invariant
                self.wf(),
                self@.take_complete_block() == old(self)@.take_complete_block(),
                self@.next_complete_block() == old(self)@.next_complete_block(),
            decreases self@.complete_blocks.len(),
        {
            let ghost before = *self;
            match self.complete_blocks.pop_front() {
                Some(stream_id) => {
                    assert(self@ == before@.without_first_block());
                    // The stream may have been removed in the meantime (e.g.
                    // by a stream error); skip stale completions.
                    if map_contains(&self.streams, &stream_id) {
                        return Some(stream_id);
                    }
                },
                None => {
                    return None;
                },
            }
        }
    }

    /// A DATA frame: forward to the body reader and restore flow-control
    /// windows (RFC 9113 Sections 6.1 and 6.9.2).
    ///
    /// Returns the payload where it is to be delivered to the stream's body
    /// reader; [`Connection::data_delivered`] takes the outcome.
    pub fn handle_data_frame(&mut self, stream_id: u32, end_stream: bool, data: Bytes) -> (deliver:
        Option<Bytes>)
        requires
            old(self).wf(),
        ensures
            final(self).wf(),
            final(self)@ == old(self)@.handle_data_frame(stream_id, end_stream, data@.len()),
            match deliver {
                Some(payload) => payload@ == data@ && old(self)@.accepts_data(stream_id) && (
                data@.len() > 0 || end_stream),
                None => !old(self)@.accepts_data(stream_id) || (data@.len() == 0 && !end_stream),
            },
    {
        let len: usize = data.len();
        if len == 0 && !end_stream {
            // Empty chunks won't be very useful.
            return None;
        }
        // A WINDOW_UPDATE frame with a zero increment is prohibited (RFC 9113
        // Section 6.9).
        if len > 0 {
            self.writer.write_window_update(&mut self.out, stream_id, len as u32);
            self.writer.write_window_update(&mut self.out, 0, len as u32);
        }
        let ghost before = *self;
        let state = match map_get_mut(&mut self.streams, &stream_id) {
            None => {
                if set_contains(&self.closed_streams, &stream_id) {
                    StreamDataState::Closed
                } else {
                    StreamDataState::Idle
                }
            },
            Some(entry) => {
                if !entry.request_started || entry.remote_ended {
                    StreamDataState::Bad
                } else {
                    entry.data_sum = entry.data_sum.wrapping_add(len as u64);
                    StreamDataState::Deliver
                }
            },
        };
        proof {
            if before.streams@.contains_key(stream_id) {
                entry_edited(before@, before.streams@, stream_id, self.streams@[stream_id]);
            } else {
                assert(!before@.streams.contains_key(stream_id));
            }
            assert(self.closed_streams@.contains(stream_id) == self@.closed.contains(stream_id));
        }
        match state {
            StreamDataState::Idle => {
                // DATA on an idle stream: connection error (RFC 9113 Section
                // 5.1).
                self.goaway(Reason::ProtocolError, "data on idle stream");
                None
            },
            StreamDataState::Closed => {
                // DATA on a closed stream: stream error (RFC 9113 Section 5.1).
                self.writer.write_reset(&mut self.out, stream_id, Reason::StreamClosed.code());
                None
            },
            StreamDataState::Bad => {
                assert(self@.streams =~= before@.streams);
                self.stream_error(stream_id, Reason::StreamClosed);
                None
            },
            StreamDataState::Deliver => Some(data),
        }
    }

    /// Takes what became of a DATA payload that went to the body reader.
    /// Returns whether the end of the body is to be signalled to the reader
    /// next; [`Connection::body_end_delivered`] takes the outcome of that.
    pub fn data_delivered(&mut self, stream_id: u32, end_stream: bool, delivered: bool) -> (signal:
        bool)
        requires
            old(self).wf(),
        ensures
            final(self).wf(),
            final(self)@ == old(self)@.data_delivered(stream_id, end_stream, delivered),
            signal == old(self)@.signals_after_delivery(stream_id, end_stream, delivered),
    {
        if !delivered {
            self.retire(stream_id);
            false
        } else if end_stream {
            self.end_request_body(stream_id)
        } else {
            false
        }
    }

    /// The request body ended: close the request side and enforce the declared
    /// `content-length` (RFC 9113 Section 8.1.2.6).
    ///
    /// Returns whether the end is to be signalled to the stream's body reader;
    /// [`Connection::body_end_delivered`] takes the outcome.
    pub fn end_request_body(&mut self, stream_id: u32) -> (signal: bool)
        requires
            old(self).wf(),
        ensures
            final(self).wf(),
            final(self)@ == old(self)@.end_request_body(stream_id),
            signal == old(self)@.signals_body_end(stream_id),
    {
        let ghost before = *self;
        let (mismatch, signal) = match map_get_mut(&mut self.streams, &stream_id) {
            None => {
                assert(!before@.streams.contains_key(stream_id));
                return false;
            },
            Some(entry) => {
                if entry.remote_ended {
                    (None, false)
                } else {
                    entry.remote_ended = true;
                    let wrong = match entry.content_length {
                        Some(declared) => entry.data_sum != declared,
                        None => false,
                    };
                    (Some(wrong), !wrong && entry.has_body)
                }
            },
        };
        proof {
            entry_edited(before@, before.streams@, stream_id, self.streams@[stream_id]);
        }
        match mismatch {
            None => {
                assert(self@.streams =~= before@.streams);
            },
            Some(wrong) => {
                if wrong {
                    self.stream_error(stream_id, Reason::ProtocolError);
                }
            },
        }
        signal
    }

    /// Takes whether the end of the body reached the body reader.
    pub fn body_end_delivered(&mut self, stream_id: u32, delivered: bool)
        requires
            old(self).wf(),
        ensures
            final(self).wf(),
            final(self)@ == old(self)@.body_end_delivered(stream_id, delivered),
    {
        if !delivered {
            self.retire(stream_id);
        }
    }

    /// A RST_STREAM frame from the peer. Returns the code that the stream's
    /// task is to be told, if any.
    pub fn handle_reset_frame(&mut self, stream_id: u32, error_code: u32) -> (notice: Option<u32>)
        requires
            old(self).wf(),
        ensures
            final(self).wf(),
            final(self)@ == old(self)@.handle_reset_frame(stream_id),
            notice == old(self)@.reset_notice(stream_id, error_code),
    {
        let ghost before = *self;
        proof {
            streams_view_update(self.streams@, stream_id, arbitrary());
            assert(self.closed_streams@.contains(stream_id) == self@.closed.contains(stream_id));
            assert(self.streams@.contains_key(stream_id) == self@.streams.contains_key(stream_id));
        }
        // RFC 9113 Section 5.1: RST_STREAM on a stream that never existed is a
        // connection error.
        let entry = match map_remove(&mut self.streams, &stream_id) {
            Some(entry) => entry,
            None => {
                assert(self@.streams =~= before@.streams);
                if !set_contains(&self.closed_streams, &stream_id) {
                    self.goaway(Reason::ProtocolError, "rst on idle stream");
                }
                return None;
            },
        };
        proof {
            assert forall|x: u32| #[trigger] self@.streams.contains_key(x) implies
                model::window_in_bounds(
                self@.streams[x].send_window,
                self@.peer.initial_window_size,
            ) by {
                assert(before@.streams.contains_key(x));
            }
        }
        if !entry.request_started {
            // The peer reset a stream whose request we never accepted: bound
            // how many such streams a peer may churn through (RFC 9113 Section
            // 10.5.2).
            if let Some(max) = self.opts.max_pending_accept_reset_streams {
                if self.pending_accept_resets >= max {
                    self.goaway(Reason::EnhanceYourCalm, "too many resets before accept");
                    return None;
                }
            }
            self.pending_accept_resets = self.pending_accept_resets.saturating_add(1);
        }
        self.mark_closed(stream_id);
        // Unblock the task: the body reader reports the reset and the task
        // ends.
        if !entry.remote_ended {
            Some(error_code)
        } else {
            None
        }
    }

    /// Adopts the peer's initial window size and moves every stream's send
    /// window with it. Returns whether some window is beyond 2^31-1 now.
    fn change_initial_window(&mut self, value: u32) -> (overflow: bool)
        requires
            old(self).wf(),
        ensures
            final(self).wf(),
            final(self)@ == (ConnectionView {
                peer: PeerSettings { initial_window_size: value, ..old(self)@.peer },
                ..old(self)@
            }).shift_windows(value - old(self)@.peer.initial_window_size),
            overflow == final(self)@.window_overflow(),
    {
        let ghost before = *self;
        let delta: i64 = value as i64 - self.peer.initial_window_size as i64;
        self.peer.initial_window_size = value;
        let keys = map_keys(&self.streams);
        let mut overflow = false;
        let mut i: usize = 0;
        assert forall|id: u32| #[trigger] before.streams@.contains_key(id) implies
            model::window_in_bounds(
            before.streams@[id].send_window,
            before.peer.initial_window_size,
        ) by {
            assert(before@.streams.contains_key(id));
        }
        while i < keys.len()
            invariant
                i <= keys@.len(),
                keys@.no_duplicates(),
                keys@.to_set() == before.streams@.dom(),
                delta == value - before.peer.initial_window_size,
                forall|id: u32| #[trigger]
                    before.streams@.contains_key(id) ==> model::window_in_bounds(
                        before.streams@[id].send_window,
                        before.peer.initial_window_size,
                    ),
                *self == (Connection {
                    peer: PeerSettings { initial_window_size: value, ..before.peer },
                    streams: self.streams,
                    ..before
                }),
                self.streams@.dom() == before.streams@.dom(),
                forall|j: int|
                    0 <= j < i ==> {
                        let id = #[trigger] keys@[j];
                        &&& self.streams@[id]@ == (StreamView {
                            send_window: (before.streams@[id].send_window + delta) as i64,
                            ..before.streams@[id]@
                        })
                    },
                forall|j: int|
                    i <= j < keys@.len() ==> self.streams@[#[trigger] keys@[j]]
                        == before.streams@[keys@[j]],
                overflow == exists|j: int|
                    0 <= j < i && self.streams@[#[trigger] keys@[j]].send_window > 0x7fff_ffff,
            decreases keys@.len() - i,
        {
            let id: u32 = keys[i];
            assert(keys@.to_set().contains(id));
            let ghost entries = self.streams@;
            if let Some(entry) = map_get_mut(&mut self.streams, &id) {
                entry.send_window = entry.send_window + delta;
                if entry.send_window > 0x7fff_ffff {
                    overflow = true;
                }
            }
            assert(self.streams@.dom() =~= before.streams@.dom());
            assert(self.streams@[keys@[i as int]].send_window == entries[id].send_window + delta);
            i = i + 1;
        }
        proof {
            let target = (ConnectionView {
                peer: PeerSettings { initial_window_size: value, ..before@.peer },
                ..before@
            }).shift_windows(delta as int);
            assert forall|id: u32| #[trigger] self@.streams.contains_key(id) implies {
                &&& self@.streams[id] == target.streams[id]
                &&& model::window_in_bounds(self@.streams[id].send_window, value)
                &&& exists|j: int| 0 <= j < keys@.len() && #[trigger] keys@[j] == id
            } by {
                assert(keys@.to_set().contains(id));
                let j = choose|j: int| 0 <= j < keys@.len() && #[trigger] keys@[j] == id;
                assert(before.streams@.contains_key(keys@[j]));
            }
            assert(self@.streams =~= target.streams);
            if overflow {
                let j = choose|j: int|
                    0 <= j < i && self.streams@[#[trigger] keys@[j]].send_window > 0x7fff_ffff;
                assert(keys@.to_set().contains(keys@[j]));
                assert(self@.streams.contains_key(keys@[j]));
            }
            if self@.window_overflow() {
                let id = choose|id: u32| #[trigger]
                    self@.streams.contains_key(id) && self@.streams[id].send_window > 0x7fff_ffff;
                let j = choose|j: int| 0 <= j < keys@.len() && #[trigger] keys@[j] == id;
                assert(self.streams@[keys@[j]].send_window > 0x7fff_ffff);
            }
        }
        overflow
    }

    /// Applies one of the peer's settings. Returns `false` where the value is a
    /// connection error after which nothing more takes effect.
    fn apply_setting(&mut self, setting: Setting) -> (go_on: bool)
        requires
            old(self).wf(),
        ensures
            final(self).wf(),
            final(self)@ == old(self)@.apply_setting(setting),
            go_on == !ConnectionView::setting_stops(setting),
    {
        if setting.id == 0x01 {
            self.peer.header_table_size = setting.value;
        } else if setting.id == 0x02 {
            self.peer.enable_push = setting.value;
        } else if setting.id == 0x04 {
            // Each setting applies to all open streams at the moment it is
            // processed (RFC 9113 Section 6.9.2); a window beyond 2^31-1 is a
            // connection error.
            if self.change_initial_window(setting.value) {
                self.goaway(Reason::FlowControlError, "initial window overflow");
            }
        } else if setting.id == 0x05 {
            // SETTINGS_MAX_FRAME_SIZE: bounds-checked, since the value MUST be
            // in [2^14, 2^24-1] (RFC 9113 Section 6.5.2). Anything else is a
            // connection error.
            if setting.value < DEFAULT_MAX_FRAME_SIZE as u32 || setting.value
                > MAX_FRAME_SIZE_LIMIT as u32 {
                self.goaway(Reason::ProtocolError, "invalid SETTINGS_MAX_FRAME_SIZE");
                return false;
            }
            self.peer.max_frame_size = setting.value as usize;
            self.writer.max_frame_size = setting.value as usize;
        } else if setting.id == 0x06 {
            self.peer.max_header_list_size = setting.value;
        }
        true
    }

    /// Applies the peer's settings in order. Returns the header table sizes
    /// that the field block encoder is to adopt, in order.
    pub fn apply_peer_settings(&mut self, settings: &[Setting]) -> (table_sizes: Vec<u32>)
        requires
            old(self).wf(),
        ensures
            final(self).wf(),
            final(self)@ == old(self)@.apply_peer_settings(settings@),
            table_sizes@ == ConnectionView::table_sizes(settings@),
    {
        let mut table_sizes: Vec<u32> = Vec::new();
        let mut i: usize = 0;
        assert(settings@.subrange(0, settings@.len() as int) =~= settings@);
        while i < settings.len()
            invariant
                i <= settings@.len(),
                self.wf(),
                self@.apply_peer_settings(settings@.subrange(i as int, settings@.len() as int))
                    == old(self)@.apply_peer_settings(settings@),
                table_sizes@ + ConnectionView::table_sizes(
                    settings@.subrange(i as int, settings@.len() as int),
                ) == ConnectionView::table_sizes(settings@),
            decreases settings@.len() - i,
        {
            let setting: Setting = settings[i];
            let ghost rest = settings@.subrange(i as int, settings@.len() as int);
            let ghost sizes = table_sizes@;
            assert(rest.subrange(1, rest.len() as int) =~= settings@.subrange(
                i + 1,
                settings@.len() as int,
            ));
            if !self.apply_setting(setting) {
                assert(table_sizes@ + Seq::<u32>::empty() =~= table_sizes@);
                return table_sizes;
            }
            if setting.id == 0x01 {
                table_sizes.push(setting.value);
                assert(table_sizes@ =~= sizes + seq![setting.value]);
            }
            i = i + 1;
            proof {
                let more = ConnectionView::table_sizes(
                    settings@.subrange(i as int, settings@.len() as int),
                );
                assert(sizes + (seq![setting.value] + more) =~= (sizes + seq![setting.value])
                    + more);
            }
        }
        assert(table_sizes@ + Seq::<u32>::empty() =~= table_sizes@);
        table_sizes
    }
}

/// Where a DATA frame finds its stream.
#[derive(Clone, Copy, Debug, PartialEq, Eq)]
enum StreamDataState {
    Idle,
    Closed,
    Bad,
    Deliver,
}

} // verus!
