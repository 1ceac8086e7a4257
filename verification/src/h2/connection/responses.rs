//! Responses on their way to the wire.

use std::collections::VecDeque;

use bytes::Bytes;
use http::HeaderMap;
use vstd::prelude::*;

use super::handlers::entry_edited;
use super::model::{ConnectionView, MAX_PENDING_CHUNKS};
use super::Connection;
use crate::fx::{map_get, map_get_mut, map_keys};
use crate::h2::error::Reason;
use crate::h2::stream::fields;
use crate::h2::stream::{response_fields, trailer_fields, FieldList};
use crate::headers::{self, headers_iter, HeaderView};
use crate::octets::OctetView;

verus! {

broadcast use vstd::std_specs::hash::group_hash_axioms;

/// Messages a response producer sends to the connection. The connection turns
/// them into frames; order is preserved (FIFO), so the response header always
/// precedes its body.
#[derive(Debug)]
#[allow(inconsistent_fields)]
pub enum StreamMsg {
    /// Final response headers. `end_stream` sets END_STREAM on the HEADERS
    /// frame (only used when the response has no body).
    Headers { status: u16, headers: HeaderMap, end_stream: bool },
    /// Interim response (100 Continue, 103 Early Hints); never carries
    /// END_STREAM.
    Informational { status: u16, headers: HeaderMap },
    Data { data: Bytes, end_stream: bool },
    Trailers { trailers: HeaderMap },
    /// Stream error initiated by the response producer (e.g. a body error).
    Reset { error_code: u32 },
    /// The response producer has finished; the connection may drop its state.
    Closed,
}

/// What a [`StreamMsg`] says.
#[verifier::ext_equal]
#[allow(inconsistent_fields)]
pub enum MsgView {
    Headers { status: u16, headers: Map<Seq<u8>, Seq<Seq<u8>>>, end_stream: bool },
    Informational { status: u16, headers: Map<Seq<u8>, Seq<Seq<u8>>> },
    Data { data: Seq<u8>, end_stream: bool },
    Trailers { trailers: Map<Seq<u8>, Seq<Seq<u8>>> },
    Reset { error_code: u32 },
    Closed,
}

impl View for StreamMsg {
    type V = MsgView;

    open spec fn view(&self) -> MsgView {
        match *self {
            StreamMsg::Headers { status, headers, end_stream } => MsgView::Headers {
                status,
                headers: headers@,
                end_stream,
            },
            StreamMsg::Informational { status, headers } => MsgView::Informational {
                status,
                headers: headers@,
            },
            StreamMsg::Data { data, end_stream } => MsgView::Data { data: data@, end_stream },
            StreamMsg::Trailers { trailers } => MsgView::Trailers { trailers: trailers@ },
            StreamMsg::Reset { error_code } => MsgView::Reset { error_code },
            StreamMsg::Closed => MsgView::Closed,
        }
    }
}

/// A field block to be encoded and handed to [`Connection::write_field_block`].
#[derive(Debug)]
pub struct FieldBlock {
    pub fields: FieldList,
    pub end_stream: bool,
}

/// The status code is one of three digits.
pub open spec fn status_valid(msg: MsgView) -> bool {
    match msg {
        MsgView::Headers { status, .. } => 100 <= status <= 999,
        MsgView::Informational { status, .. } => 100 <= status <= 999,
        _ => true,
    }
}

/// The fields of a response, in whatever order its headers are handed out.
pub open spec fn lists_response(
    list: Seq<(Seq<u8>, Seq<u8>)>,
    status: u16,
    headers: Map<Seq<u8>, Seq<Seq<u8>>>,
) -> bool {
    exists|order: Seq<(Seq<u8>, Seq<u8>)>| #[trigger]
        headers::grouped(order) == headers && list == fields::response_fields_of(status, order)
}

/// What a message does to the connection.
pub open spec fn msg_handled(c: ConnectionView, id: u32, msg: MsgView) -> ConnectionView {
    match msg {
        MsgView::Informational { .. } => c,
        MsgView::Headers { end_stream, .. } => c.response_started(id, end_stream),
        MsgView::Data { data, end_stream } => c.response_data(id, data, end_stream),
        MsgView::Trailers { trailers } => c.response_trailers(id, trailers),
        MsgView::Reset { error_code } => c.response_reset(id, error_code),
        MsgView::Closed => c.response_closed(id),
    }
}

/// The field block that a message asks for.
pub open spec fn asks_for(
    c: ConnectionView,
    id: u32,
    msg: MsgView,
    block: Option<FieldBlock>,
) -> bool {
    match msg {
        MsgView::Informational { status, headers } => {
            &&& block is Some
            &&& lists_response(block->0.fields@, status, headers)
            &&& !block->0.end_stream
        },
        MsgView::Headers { status, headers, end_stream } => if c.takes_response(id) {
            &&& block is Some
            &&& lists_response(block->0.fields@, status, headers)
            &&& block->0.end_stream == end_stream
        } else {
            block is None
        },
        MsgView::Trailers { trailers } => if c.takes_trailers(id) {
            &&& block is Some
            &&& headers::grouped(block->0.fields@) == trailers
            &&& block->0.end_stream
        } else {
            block is None
        },
        _ => block is None,
    }
}

impl Connection {
    /// Writes an encoded response field block as HEADERS and CONTINUATION
    /// frames.
    pub fn write_field_block(&mut self, stream_id: u32, end_stream: bool, block: &[u8])
        requires
            old(self).wf(),
        ensures
            final(self).wf(),
            final(self)@ == old(self)@.write_field_block(stream_id, end_stream, block@),
    {
        self.writer.write_field_block(&mut self.out, stream_id, end_stream, block);
    }

    /// Ends the response side of the stream, or not, unless it has ended:
    /// whether the stream's response still goes out.
    fn start_response(&mut self, stream_id: u32, end_stream: bool) -> (goes_out: bool)
        requires
            old(self).wf(),
        ensures
            final(self).wf(),
            final(self)@ == old(self)@.response_started(stream_id, end_stream),
            goes_out == old(self)@.takes_response(stream_id),
    {
        let ghost before = *self;
        let (known, goes_out) = match map_get_mut(&mut self.streams, &stream_id) {
            None => (false, true),
            Some(entry) => {
                if entry.local_ended || entry.trailers.is_some() {
                    // No double END_STREAM (the body continued after the
                    // trailer section).
                    (true, false)
                } else {
                    entry.local_ended = end_stream;
                    (true, true)
                }
            },
        };
        proof {
            if known {
                entry_edited(before@, before.streams@, stream_id, self.streams@[stream_id]);
                if !goes_out {
                    assert(self@.streams =~= before@.streams);
                }
            } else {
                assert(!before@.streams.contains_key(stream_id));
            }
        }
        goes_out
    }

    /// Queues a chunk of the response body and sends what the windows allow.
    fn queue_response_data(&mut self, stream_id: u32, data: Bytes, end_stream: bool)
        requires
            old(self).wf(),
        ensures
            final(self).wf(),
            final(self)@ == old(self)@.response_data(stream_id, data@, end_stream),
    {
        let ghost before = *self;
        let full = match map_get_mut(&mut self.streams, &stream_id) {
            None => {
                assert(!before@.streams.contains_key(stream_id));
                return ;
            },
            Some(entry) => {
                if entry.local_ended || entry.trailers.is_some() {
                    // No DATA after END_STREAM (the body continued after the
                    // trailer section).
                    None
                } else if entry.pending_data.len() >= MAX_PENDING_CHUNKS {
                    Some(true)
                } else {
                    entry.queue_data(data, end_stream);
                    Some(false)
                }
            },
        };
        proof {
            entry_edited(before@, before.streams@, stream_id, self.streams@[stream_id]);
            if full != Some(false) {
                assert(self@.streams =~= before@.streams);
            }
        }
        match full {
            None => {},
            Some(full) => {
                if full {
                    // The window never opened: give up on the stream.
                    self.stream_error(stream_id, Reason::InternalError);
                } else {
                    self.pump_stream_data(stream_id);
                }
            },
        }
    }

    /// Ends the response side with trailers: those that go out at once. Behind
    /// queued data they wait.
    fn end_with_trailers(&mut self, stream_id: u32, trailers: HeaderMap) -> (now: Option<HeaderMap>)
        requires
            old(self).wf(),
        ensures
            final(self).wf(),
            final(self)@ == old(self)@.response_trailers(stream_id, trailers@),
            match now {
                Some(t) => old(self)@.takes_trailers(stream_id) && t == trailers,
                None => !old(self)@.takes_trailers(stream_id),
            },
    {
        let ghost before = *self;
        let ghost mut open = false;
        let now = match map_get_mut(&mut self.streams, &stream_id) {
            None => {
                assert(!before@.streams.contains_key(stream_id));
                return None;
            },
            Some(entry) => {
                if entry.local_ended || entry.trailers.is_some() {
                    None
                } else {
                    proof {
                        open = true;
                    }
                    if entry.pending_data.len() == 0 {
                        entry.local_ended = true;
                        Some(trailers)
                    } else {
                        entry.trailers = Some(trailers);
                        None
                    }
                }
            },
        };
        proof {
            entry_edited(before@, before.streams@, stream_id, self.streams@[stream_id]);
            if !open {
                assert(self@.streams =~= before@.streams);
            }
        }
        now
    }

    /// Some stream whose trailers have waited for its queued data, which is all
    /// sent.
    fn stream_with_due_trailers(&self) -> (due: Option<u32>)
        requires
            self.wf(),
        ensures
            match due {
                Some(id) => self@.trailers_due(id),
                None => forall|id: u32| !#[trigger] self@.trailers_due(id),
            },
    {
        let keys = map_keys(&self.streams);
        let mut i: usize = 0;
        while i < keys.len()
            invariant
                i <= keys@.len(),
                keys@.to_set() == self.streams@.dom(),
                forall|j: int| 0 <= j < i ==> !self@.trailers_due(#[trigger] keys@[j]),
            decreases keys@.len() - i,
        {
            let id: u32 = keys[i];
            if let Some(entry) = map_get(&self.streams, &id) {
                assert(self@.streams[id] == entry@);
                if !entry.local_ended && entry.trailers.is_some() && entry.pending_data.len() == 0 {
                    return Some(id);
                }
            }
            i = i + 1;
        }
        assert forall|id: u32| !#[trigger] self@.trailers_due(id) by {
            if self@.streams.contains_key(id) {
                assert(self.streams@.dom().contains(id));
                assert(keys@.to_set().contains(id));
                assert(keys@.contains(id));
            }
        }
        None
    }

    /// Trailers that have waited for the queued data of their stream, where it
    /// is all sent: the stream, and the field block that is to be encoded and
    /// written. To be called until there are none, whenever data may have gone
    /// out.
    pub fn next_trailers(&mut self) -> (due: Option<(u32, FieldBlock)>)
        requires
            old(self).wf(),
        ensures
            final(self).wf(),
            match due {
                Some((id, block)) => {
                    &&& old(self)@.trailers_due(id)
                    &&& final(self)@ == old(self)@.trailers_released(id)
                    &&& headers::grouped(block.fields@) == old(self)@.streams[id].trailers->0
                    &&& block.end_stream
                },
                None => {
                    &&& forall|id: u32| !#[trigger] old(self)@.trailers_due(id)
                    &&& final(self)@ == old(self)@
                },
            },
    {
        let stream_id: u32 = match self.stream_with_due_trailers() {
            Some(id) => id,
            None => {
                return None;
            },
        };
        let ghost before = *self;
        let (trailers, done) = match map_get_mut(&mut self.streams, &stream_id) {
            Some(entry) => {
                entry.local_ended = true;
                (entry.trailers.take(), entry.task_done)
            },
            None => (None, false),
        };
        proof {
            entry_edited(before@, before.streams@, stream_id, self.streams@[stream_id]);
        }
        if done {
            self.retire(stream_id);
        }
        match trailers {
            Some(trailers) => {
                let order = headers_iter(&trailers);
                Some((stream_id, FieldBlock { fields: trailer_fields(&order), end_stream: true }))
            },
            None => None,
        }
    }

    /// The response producer has finished.
    ///
    /// If the whole response was already sent (END_STREAM flushed), the stream
    /// is torn down now. Otherwise flow control left DATA queued, and perhaps
    /// trailers behind it; the stream stays so a later WINDOW_UPDATE can flush
    /// them.
    fn close_response(&mut self, stream_id: u32)
        requires
            old(self).wf(),
        ensures
            final(self).wf(),
            final(self)@ == old(self)@.response_closed(stream_id),
    {
        let ghost before = *self;
        let ended = match map_get_mut(&mut self.streams, &stream_id) {
            None => {
                assert(!before@.streams.contains_key(stream_id));
                return ;
            },
            Some(entry) => {
                entry.task_done = true;
                entry.local_ended
            },
        };
        proof {
            entry_edited(before@, before.streams@, stream_id, self.streams@[stream_id]);
        }
        if ended {
            self.retire(stream_id);
        }
    }

    /// One response-side message. Returns the field block that is to be encoded
    /// and written, if any. Trailers behind queued data come from
    /// [`Connection::next_trailers`].
    pub fn handle_stream_msg(&mut self, stream_id: u32, msg: StreamMsg) -> (block: Option<
        FieldBlock,
    >)
        requires
            old(self).wf(),
            status_valid(msg@),
        ensures
            final(self).wf(),
            final(self)@ == msg_handled(old(self)@, stream_id, msg@),
            asks_for(old(self)@, stream_id, msg@, block),
    {
        match msg {
            StreamMsg::Informational { status, headers } => {
                let order = headers_iter(&headers);
                Some(FieldBlock { fields: response_fields(status, &order), end_stream: false })
            },
            StreamMsg::Headers { status, headers, end_stream } => {
                if !self.start_response(stream_id, end_stream) {
                    return None;
                }
                let order = headers_iter(&headers);
                Some(FieldBlock { fields: response_fields(status, &order), end_stream })
            },
            StreamMsg::Data { data, end_stream } => {
                self.queue_response_data(stream_id, data, end_stream);
                None
            },
            StreamMsg::Trailers { trailers } => {
                match self.end_with_trailers(stream_id, trailers) {
                    Some(trailers) => {
                        let order = headers_iter(&trailers);
                        Some(FieldBlock { fields: trailer_fields(&order), end_stream: true })
                    },
                    None => None,
                }
            },
            StreamMsg::Reset { error_code } => {
                self.writer.write_reset(&mut self.out, stream_id, error_code);
                self.retire(stream_id);
                None
            },
            StreamMsg::Closed => {
                self.close_response(stream_id);
                None
            },
        }
    }
}

/// A chunk of data and the blank end of the stream right behind it.
pub open spec fn merges(first: MsgView, second: MsgView) -> bool {
    first is Data && (second matches MsgView::Data { data, end_stream } && end_stream && data.len()
        == 0)
}

/// Messages with every blank end of the stream merged into the chunk of data
/// before it.
pub open spec fn merged(msgs: Seq<MsgView>) -> Seq<MsgView>
    decreases msgs.len(),
{
    if msgs.len() == 0 {
        Seq::empty()
    } else if msgs.len() > 1 && merges(msgs[0], msgs[1]) {
        seq![MsgView::Data { data: msgs[0]->Data_data, end_stream: true }] + merged(
            msgs.subrange(2, msgs.len() as int),
        )
    } else {
        seq![msgs[0]] + merged(msgs.subrange(1, msgs.len() as int))
    }
}

/// What a list of messages says.
pub open spec fn msgs_view(msgs: Seq<StreamMsg>) -> Seq<MsgView> {
    msgs.map_values(|msg: StreamMsg| msg@)
}

/// Whether a message is the blank end of the stream.
fn is_blank_end(msg: &StreamMsg) -> (yes: bool)
    ensures
        yes == (msg@ matches MsgView::Data { data, end_stream } && end_stream && data.len() == 0),
{
    match msg {
        StreamMsg::Data { data, end_stream } => *end_stream && data.len() == 0,
        _ => false,
    }
}

/// Merges every blank end of the stream into the chunk of data before it, so
/// that END_STREAM goes out with the data instead of in a frame of its own.
pub fn merge_end_stream(msgs: VecDeque<StreamMsg>) -> (merged_msgs: Vec<StreamMsg>)
    ensures
        msgs_view(merged_msgs@) == merged(msgs_view(msgs@)),
{
    let ghost target = merged(msgs_view(msgs@));
    let mut left = msgs;
    let mut out: Vec<StreamMsg> = Vec::new();
    assert(msgs_view(out@) + target =~= target);
    loop
        invariant
            msgs_view(out@) + merged(msgs_view(left@)) == target,
        ensures
            msgs_view(out@) == target,
        decreases left@.len(),
    {
        let ghost rest = msgs_view(left@);
        let ghost done = msgs_view(out@);
        let first = match left.pop_front() {
            Some(msg) => msg,
            None => {
                assert(msgs_view(out@) + Seq::<MsgView>::empty() =~= msgs_view(out@));
                break ;
            },
        };
        assert(msgs_view(left@) =~= rest.subrange(1, rest.len() as int));
        let blank_end = left.len() > 0 && is_blank_end(&left[0]);
        match first {
            StreamMsg::Data { data, end_stream } => {
                if blank_end {
                    // Discard the blank end_stream message.
                    let _ = left.pop_front();
                    assert(msgs_view(left@) =~= rest.subrange(2, rest.len() as int));
                    out.push(StreamMsg::Data { data, end_stream: true });
                } else {
                    out.push(StreamMsg::Data { data, end_stream });
                }
            },
            other => {
                out.push(other);
            },
        }
        let ghost last = out@[out@.len() - 1]@;
        assert(msgs_view(out@) =~= done + seq![last]);
        assert(done + (seq![last] + merged(msgs_view(left@))) =~= (done + seq![last]) + merged(
            msgs_view(left@),
        ));
    }
    out
}

/// The data that messages carry, in order.
pub open spec fn carried(msgs: Seq<MsgView>) -> Seq<u8>
    decreases msgs.len(),
{
    if msgs.len() == 0 {
        Seq::empty()
    } else {
        let rest = carried(msgs.subrange(1, msgs.len() as int));
        match msgs[0] {
            MsgView::Data { data, .. } => data + rest,
            _ => rest,
        }
    }
}

/// Some data message ends the stream.
pub open spec fn ends_with_data(msgs: Seq<MsgView>) -> bool {
    exists|i: int| 0 <= i < msgs.len() && ends_data(#[trigger] msgs[i])
}

/// A data message that ends the stream.
pub open spec fn ends_data(msg: MsgView) -> bool {
    msg matches MsgView::Data { end_stream, .. } && end_stream
}

/// Merging loses nothing: the data is the same, and the stream ends where it
/// ended before.
pub proof fn merging_keeps_the_data(msgs: Seq<MsgView>)
    ensures
        carried(merged(msgs)) == carried(msgs),
        ends_with_data(merged(msgs)) == ends_with_data(msgs),
        merged(msgs).len() <= msgs.len(),
    decreases msgs.len(),
{
    if msgs.len() > 0 {
        let tail = msgs.subrange(1, msgs.len() as int);
        if msgs.len() > 1 && merges(msgs[0], msgs[1]) {
            let rest = msgs.subrange(2, msgs.len() as int);
            merging_keeps_the_data(rest);
            let first = MsgView::Data { data: msgs[0]->Data_data, end_stream: true };
            let out = seq![first] + merged(rest);
            assert(out.subrange(1, out.len() as int) =~= merged(rest));
            assert(tail.subrange(1, tail.len() as int) =~= rest);
            assert(carried(tail) =~= carried(rest));
            assert(ends_data(out[0]));
            assert(ends_data(msgs[1]));
        } else {
            merging_keeps_the_data(tail);
            let out = seq![msgs[0]] + merged(tail);
            assert(out.subrange(1, out.len() as int) =~= merged(tail));
            if ends_with_data(tail) {
                let i = choose|i: int| 0 <= i < tail.len() && ends_data(#[trigger] tail[i]);
                assert(ends_data(msgs[i + 1]));
                let j = choose|j: int|
                    0 <= j < merged(tail).len() && ends_data(#[trigger] merged(tail)[j]);
                assert(ends_data(out[j + 1]));
            }
            if ends_with_data(msgs) && !ends_data(msgs[0]) {
                let i = choose|i: int| 0 <= i < msgs.len() && ends_data(#[trigger] msgs[i]);
                assert(ends_data(tail[i - 1]));
            }
            if ends_with_data(out) && !ends_data(msgs[0]) {
                let j = choose|j: int| 0 <= j < out.len() && ends_data(#[trigger] out[j]);
                assert(ends_data(merged(tail)[j - 1]));
            }
            if ends_data(msgs[0]) {
                assert(ends_data(out[0]));
            }
        }
    }
}

/// Once a response has ended, or its trailers wait for queued data, what more is
/// said of it is dropped: no data and no field block of it goes out (RFC 9113
/// Section 5.1), and its stream stays as it is.
pub proof fn nothing_follows_the_end(
    c: ConnectionView,
    id: u32,
    msg: MsgView,
    block: Option<FieldBlock>,
)
    requires
        c.streams.contains_key(id),
        !c.streams[id].response_open(),
        msg is Headers || msg is Data || msg is Trailers,
        asks_for(c, id, msg, block),
    ensures
        msg_handled(c, id, msg) == c,
        block is None,
{
}

/// A blank end goes out with the chunk of data before it, whatever was said before
/// that: one message is left of the two, which ends the stream.
pub proof fn blank_ends_are_merged(before: Seq<MsgView>, data: Seq<u8>, ended: bool)
    requires
        !(ended && data.len() == 0),
    ensures
        ({
            let last = MsgView::Data { data, end_stream: ended };
            let blank = MsgView::Data { data: Seq::empty(), end_stream: true };
            merged(before.push(last).push(blank)) == merged(before).push(
                MsgView::Data { data, end_stream: true },
            )
        }),
    decreases before.len(),
{
    let last = MsgView::Data { data, end_stream: ended };
    let blank = MsgView::Data { data: Seq::empty(), end_stream: true };
    let msgs = before.push(last).push(blank);
    let whole = MsgView::Data { data, end_stream: true };
    if before.len() == 0 {
        assert(msgs.subrange(2, msgs.len() as int) =~= Seq::<MsgView>::empty());
        assert(msgs[0] == last && msgs[1] == blank);
        reveal_with_fuel(merged, 2);
        assert(merged(msgs) =~= seq![whole]);
        assert(merged(before).push(whole) =~= seq![whole]);
    } else if before.len() > 1 && merges(before[0], before[1]) {
        let rest = before.subrange(2, before.len() as int);
        blank_ends_are_merged(rest, data, ended);
        assert(msgs[0] == before[0] && msgs[1] == before[1]);
        assert(msgs.subrange(2, msgs.len() as int) =~= rest.push(last).push(blank));
        assert(merged(msgs) =~= merged(before).push(whole));
    } else {
        let rest = before.subrange(1, before.len() as int);
        blank_ends_are_merged(rest, data, ended);
        assert(msgs[0] == before[0]);
        assert(msgs[1] == if before.len() > 1 {
            before[1]
        } else {
            last
        });
        assert(!merges(msgs[0], msgs[1]));
        assert(msgs.subrange(1, msgs.len() as int) =~= rest.push(last).push(blank));
        assert(merged(msgs) =~= merged(before).push(whole));
    }
}

} // verus!
