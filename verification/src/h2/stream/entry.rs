//! Per-stream state kept by the connection.

use std::collections::VecDeque;

use bytes::Bytes;
use http::HeaderMap;
use vstd::prelude::*;

use crate::headers::HeaderView;
use crate::octets::OctetView;

verus! {

/// Per-stream state kept by the connection (RFC 9113 Section 5.1).
#[derive(Debug)]
pub struct StreamEntry {
    /// Body frames may arrive: there is a body reader to deliver them to.
    /// `false` when the request ended with HEADERS (typical GET).
    pub has_body: bool,
    /// Field block fragments between HEADERS and END_HEADERS.
    pub field_block: Vec<u8>,
    /// The END_STREAM flag of the frame that opened the field block.
    pub pending_end_stream: bool,
    /// The request HEADERS were parsed and the request dispatched.
    pub request_started: bool,
    /// The peer sent END_STREAM on this stream (request side done).
    pub remote_ended: bool,
    /// We sent END_STREAM on this stream (response side done).
    pub local_ended: bool,
    /// Parsed `content-length`, when present; enforced at end-of-body.
    pub content_length: Option<u64>,
    /// Sum of DATA payload lengths received so far.
    pub data_sum: u64,
    /// A trailer section was already received (only one is allowed).
    pub trailers_seen: bool,
    /// The response producer has finished. The stream itself lives on until
    /// `local_ended` so any flow-controlled `pending_data` can still be drained
    /// by WINDOW_UPDATE.
    pub task_done: bool,
    /// Server-side flow-control window for this stream (RFC 9113 Section 6.9):
    /// DATA payloads we may still send.
    pub send_window: i64,
    /// DATA chunks queued because the peer's flow-control window ran out; each
    /// entry is `(bytes, end_stream)`. Drained as the window opens up
    /// (WINDOW_UPDATE or SETTINGS_INITIAL_WINDOW_SIZE).
    pub pending_data: VecDeque<(Bytes, bool)>,
    /// Trailers that go out once `pending_data` is drained; the response is
    /// complete but for what waits here and there.
    pub trailers: Option<HeaderMap>,
    /// Deficit for DRR fairness when draining `pending_data` across streams
    /// under connection flow-control.
    pub deficit: usize,
    /// Header field size.
    pub header_list_size: usize,
    /// Frames seen so far in the open field block (HEADERS without END_HEADERS
    /// plus each CONTINUATION). Resets to 0 when the block completes; bounded
    /// by the connection's continuation-flood limit.
    pub continuation_frames: usize,
}

/// What a [`StreamEntry`] holds.
#[verifier::ext_equal]
pub struct StreamView {
    pub has_body: bool,
    pub field_block: Seq<u8>,
    pub pending_end_stream: bool,
    pub request_started: bool,
    pub remote_ended: bool,
    pub local_ended: bool,
    pub content_length: Option<u64>,
    pub data_sum: u64,
    pub trailers_seen: bool,
    pub task_done: bool,
    pub send_window: i64,
    pub pending_data: Seq<(Seq<u8>, bool)>,
    pub trailers: Option<Map<Seq<u8>, Seq<Seq<u8>>>>,
    pub deficit: usize,
    pub header_list_size: usize,
    pub continuation_frames: usize,
}

/// What a list of queued chunks holds.
pub open spec fn chunks_view(chunks: Seq<(Bytes, bool)>) -> Seq<(Seq<u8>, bool)> {
    chunks.map_values(|chunk: (Bytes, bool)| (chunk.0@, chunk.1))
}

impl View for StreamEntry {
    type V = StreamView;

    open spec fn view(&self) -> StreamView {
        StreamView {
            has_body: self.has_body,
            field_block: self.field_block@,
            pending_end_stream: self.pending_end_stream,
            request_started: self.request_started,
            remote_ended: self.remote_ended,
            local_ended: self.local_ended,
            content_length: self.content_length,
            data_sum: self.data_sum,
            trailers_seen: self.trailers_seen,
            task_done: self.task_done,
            send_window: self.send_window,
            pending_data: chunks_view(self.pending_data@),
            trailers: match self.trailers {
                Some(trailers) => Some(trailers@),
                None => None,
            },
            deficit: self.deficit,
            header_list_size: self.header_list_size,
            continuation_frames: self.continuation_frames,
        }
    }
}

impl StreamView {
    /// A stream on which nothing has happened yet.
    pub open spec fn fresh() -> StreamView {
        StreamView {
            has_body: false,
            field_block: Seq::empty(),
            pending_end_stream: false,
            request_started: false,
            remote_ended: false,
            local_ended: false,
            content_length: None,
            data_sum: 0,
            trailers_seen: false,
            task_done: false,
            send_window: 65535,
            pending_data: Seq::empty(),
            trailers: None,
            deficit: 0,
            header_list_size: 0,
            continuation_frames: 0,
        }
    }

    /// More of the response may come: it has not ended, and no trailers wait.
    pub open spec fn response_open(self) -> bool {
        !self.local_ended && self.trailers is None
    }

    /// The length of the first queued chunk.
    pub open spec fn front_len(self) -> nat {
        if self.pending_data.len() == 0 {
            0
        } else {
            self.pending_data[0].0.len()
        }
    }

    /// The stream after the first `amount` octets of the first queued chunk
    /// have left: a chunk that is used up leaves the queue.
    pub open spec fn front_taken(self, amount: nat) -> StreamView {
        let (data, end) = self.pending_data[0];
        StreamView {
            pending_data: if amount == data.len() {
                self.pending_data.subrange(1, self.pending_data.len() as int)
            } else {
                self.pending_data.update(
                    0,
                    (data.subrange(amount as int, data.len() as int), end),
                )
            },
            send_window: (self.send_window - amount) as i64,
            ..self
        }
    }

    /// Whether taking `amount` octets off the queue ends the stream.
    pub open spec fn front_ends(self, amount: nat) -> bool {
        self.pending_data[0].1 && amount == self.pending_data[0].0.len()
    }
}

impl StreamEntry {
    pub fn new() -> (entry: Self)
        ensures
            entry@ == StreamView::fresh(),
    {
        let entry = StreamEntry {
            has_body: false,
            field_block: Vec::new(),
            pending_end_stream: false,
            request_started: false,
            remote_ended: false,
            local_ended: false,
            content_length: None,
            data_sum: 0,
            trailers_seen: false,
            task_done: false,
            send_window: 65535,
            pending_data: VecDeque::new(),
            trailers: None,
            deficit: 0,
            header_list_size: 0,
            continuation_frames: 0,
        };
        assert(entry@.pending_data =~= Seq::<(Seq<u8>, bool)>::empty());
        entry
    }

    /// Extends the in-flight field block with one fragment (HEADERS or
    /// CONTINUATION payload).
    pub fn extend_block(&mut self, block: &[u8])
        ensures
            final(self)@ == (StreamView {
                field_block: old(self)@.field_block + block@,
                ..old(self)@
            }),
    {
        let ghost before = self.field_block@;
        self.field_block.extend_from_slice(block);
        assert(self.field_block@ =~= before + block@);
    }

    /// Takes and clears the accumulated field block.
    pub fn take_block(&mut self) -> (block: Vec<u8>)
        ensures
            block@ == old(self)@.field_block,
            final(self)@ == (StreamView { field_block: Seq::empty(), ..old(self)@ }),
    {
        let mut block: Vec<u8> = Vec::new();
        std::mem::swap(&mut block, &mut self.field_block);
        block
    }

    /// The length of the first queued chunk, if there is one.
    pub fn front_len(&self) -> (len: Option<usize>)
        ensures
            match len {
                Some(n) => self@.pending_data.len() > 0 && n == self@.pending_data[0].0.len(),
                None => self@.pending_data.len() == 0,
            },
    {
        if self.pending_data.len() == 0 {
            None
        } else {
            Some(self.pending_data[0].0.len())
        }
    }

    /// Queues a DATA chunk.
    pub fn queue_data(&mut self, data: Bytes, end_stream: bool)
        ensures
            final(self)@ == (StreamView {
                pending_data: old(self)@.pending_data.push((data@, end_stream)),
                ..old(self)@
            }),
    {
        let ghost before = self.pending_data@;
        self.pending_data.push_back((data, end_stream));
        assert(chunks_view(self.pending_data@) =~= chunks_view(before).push((data@, end_stream)));
    }

    /// Takes the first `amount` octets off the queue; the second value tells
    /// whether they end the stream.
    pub fn take_front(&mut self, amount: usize) -> (taken: (Bytes, bool))
        requires
            old(self)@.pending_data.len() > 0,
            amount <= old(self)@.pending_data[0].0.len(),
            amount == 0 ==> old(self)@.pending_data[0].0.len() == 0,
            old(self).send_window >= amount || amount == 0,
        ensures
            taken.0@ == old(self)@.pending_data[0].0.subrange(0, amount as int),
            taken.1 == old(self)@.front_ends(amount as nat),
            final(self)@ == old(self)@.front_taken(amount as nat),
    {
        let ghost before = self@;
        let ghost queue = self.pending_data@;
        let (mut data, end) = match self.pending_data.pop_front() {
            Some(front) => front,
            None => (Bytes::new(), false),
        };
        assert(before.pending_data[0] == (data@, end));
        if amount > 0 {
            self.send_window = self.send_window - amount as i64;
        }
        if amount == data.len() {
            assert(chunks_view(self.pending_data@) =~= before.pending_data.subrange(
                1,
                before.pending_data.len() as int,
            ));
            assert(data@.subrange(0, amount as int) =~= data@);
            return (data, end);
        }
        let chunk = data.split_to(amount);
        self.pending_data.push_front((data, end));
        assert(chunks_view(self.pending_data@) =~= before.front_taken(amount as nat).pending_data);
        (chunk, false)
    }
}

} // verus!
