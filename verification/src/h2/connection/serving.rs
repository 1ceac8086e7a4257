//! What holds of serving requests on a connection: from the HEADERS frame that
//! opens a stream to the last octet of its response.

use vstd::prelude::*;

use super::laws;
use super::model::{self, ConnectionView};
use crate::h2::codec::model as wire;
use crate::h2::codec::model::FrameView;
use crate::h2::error::Reason;
use crate::h2::stream::StreamView;

verus! {

/// A HEADERS frame with this id opens a stream.
pub open spec fn opens(c: ConnectionView, id: u32) -> bool {
    &&& !(c.graceful && id > c.graceful_last_stream)
    &&& !c.streams.contains_key(id)
    &&& id % 2 == 1
    &&& id > c.highest_stream_id
    &&& c.streams.len() < c.opts.max_concurrent_streams
}

/// The request that a field block made is handed to its handler: the block is
/// taken and decoded, and the request in it is well-formed.
pub open spec fn request_handed_over(
    c: ConnectionView,
    id: u32,
    header_list_size: usize,
    end_stream: bool,
    content_length: Option<u64>,
) -> ConnectionView {
    c.block_taken(id).list_size_noted(id, header_list_size).request_arrived(
        id,
        true,
    ).spawn_request(id, end_stream, content_length)
}

/// A HEADERS frame opens its stream: nothing is said about it, the stream may be
/// sent as many octets as the peer's initial window size in force, its response
/// is open, and no other stream is touched.
pub proof fn headers_open_a_stream(
    c: ConnectionView,
    id: u32,
    end_stream: bool,
    end_headers: bool,
    block: Seq<u8>,
)
    requires
        opens(c, id),
    ensures
        ({
            let after = c.handle_headers_frame(id, end_stream, end_headers, block);
            let stream = after.streams[id];
            &&& after.streams.contains_key(id)
            &&& after.out == c.out
            &&& after.closing == c.closing
            &&& after.conn_window == c.conn_window
            &&& after.highest_stream_id == id
            &&& stream.send_window == c.peer.initial_window_size
            &&& stream.response_open()
            &&& stream.pending_data.len() == 0
            &&& !stream.task_done
            &&& !stream.remote_ended
            &&& !stream.request_started
            &&& stream.data_sum == 0
            &&& stream.deficit == 0
            &&& stream.field_block == block
            &&& stream.has_body == !end_stream
            &&& laws::other_streams_kept(c, after, id)
        }),
{
}

/// A chunk of a response with nothing queued before it, which both windows and
/// the peer's frame size have room for, goes out whole in one DATA frame at once;
/// both windows shrink by its length.
pub proof fn chunk_goes_out_whole(c: ConnectionView, id: u32, data: Seq<u8>, end_stream: bool)
    requires
        c.streams.contains_key(id),
        c.streams[id].response_open(),
        c.streams[id].pending_data.len() == 0,
        data.len() > 0,
        data.len() <= c.conn_window,
        data.len() <= c.streams[id].send_window,
        data.len() <= c.peer.max_frame_size,
    ensures
        ({
            let after = c.response_data(id, data, end_stream);
            &&& after.out == c.out + wire::wire(
                FrameView::Data { stream_id: id, end_stream, data },
            )
            &&& after.conn_window == c.conn_window - data.len()
            &&& after.streams.contains_key(id) == !(end_stream && c.streams[id].task_done)
            &&& after.streams.contains_key(id) ==> {
                &&& after.streams[id].send_window == c.streams[id].send_window - data.len()
                &&& after.streams[id].pending_data.len() == 0
                &&& after.streams[id].local_ended == end_stream
            }
            &&& laws::other_streams_kept(c, after, id)
        }),
{
    let stream = c.streams[id];
    let queued = c.with_stream(
        id,
        StreamView { pending_data: stream.pending_data.push((data, end_stream)), ..stream },
    );
    let chunks = queued.streams[id].pending_data;
    assert(chunks[0] == (data, end_stream));
    assert(c.response_data(id, data, end_stream) == queued.pump_stream_data(id));
    assert(queued.can_send(id));
    assert(queued.next_amount(id) == data.len());
    let sent = queued.sent(id, data.len());
    assert(data.subrange(0, data.len() as int) =~= data);
    assert(chunks.subrange(1, chunks.len() as int).len() == 0);
    assert(!sent.can_send(id));
    assert(queued.pump_stream_data(id) == sent.pump_stream_data(id));
}

/// A request is answered at once: on a stream that was just opened, a response
/// body that the peer's initial window, the connection window and the peer's
/// frame size have room for goes out whole, and nothing else does.
pub proof fn fresh_request_is_answered_at_once(
    c: ConnectionView,
    id: u32,
    end_stream: bool,
    block: Seq<u8>,
    header_list_size: usize,
    content_length: Option<u64>,
    data: Seq<u8>,
)
    requires
        opens(c, id),
        !(end_stream && (content_length matches Some(n) && n > 0)),
        0 < data.len() <= c.peer.initial_window_size,
        data.len() <= c.conn_window,
        data.len() <= c.peer.max_frame_size,
    ensures
        ({
            let opened = c.handle_headers_frame(id, end_stream, true, block);
            let started = request_handed_over(
                opened,
                id,
                header_list_size,
                end_stream,
                content_length,
            ).response_started(id, false);
            started.response_data(id, data, true).out == c.out + wire::wire(
                FrameView::Data { stream_id: id, end_stream: true, data },
            )
        }),
{
    let opened = c.handle_headers_frame(id, end_stream, true, block);
    let started = request_handed_over(
        opened,
        id,
        header_list_size,
        end_stream,
        content_length,
    ).response_started(id, false);
    chunk_goes_out_whole(started, id, data, true);
}

/// Fragments of a field block, none of which ends it.
pub open spec fn block_continued(
    c: ConnectionView,
    id: u32,
    fragments: Seq<Seq<u8>>,
) -> ConnectionView
    decreases fragments.len(),
{
    if fragments.len() == 0 {
        c
    } else {
        block_continued(c, id, fragments.drop_last()).handle_continuation(
            id,
            false,
            fragments.last(),
        )
    }
}

/// Parts, one behind the other.
pub open spec fn joined(parts: Seq<Seq<u8>>) -> Seq<u8>
    decreases parts.len(),
{
    if parts.len() == 0 {
        Seq::empty()
    } else {
        joined(parts.drop_last()) + parts.last()
    }
}

/// A field block in as many frames as the limit allows is put together in order,
/// is complete with the frame that ends it and not before, and counts anew after
/// it; nothing is said about it.
pub proof fn field_blocks_are_put_together(
    c: ConnectionView,
    id: u32,
    end_stream: bool,
    first: Seq<u8>,
    fragments: Seq<Seq<u8>>,
    last: Seq<u8>,
)
    requires
        opens(c, id),
        1 + fragments.len() <= c.opts.max_continuation_frames,
    ensures
        ({
            let opened = c.handle_headers_frame(id, end_stream, false, first);
            let open = block_continued(opened, id, fragments);
            let done = open.handle_continuation(id, true, last);
            &&& open.streams.contains_key(id)
            &&& open.out == c.out
            &&& open.closing == c.closing
            &&& open.complete_blocks == c.complete_blocks
            &&& open.streams[id].field_block == first + joined(fragments)
            &&& done.out == c.out
            &&& done.streams[id].field_block == first + joined(fragments) + last
            &&& done.streams[id].pending_end_stream == end_stream
            &&& done.streams[id].continuation_frames == 0
            &&& done.complete_blocks == c.complete_blocks.push(id)
            &&& done.block_taken(id).streams[id].field_block.len() == 0
        }),
{
    let opened = c.handle_headers_frame(id, end_stream, false, first);
    fragments_are_counted(opened, id, fragments);
}

proof fn fragments_are_counted(c: ConnectionView, id: u32, fragments: Seq<Seq<u8>>)
    requires
        c.streams.contains_key(id),
        c.streams[id].continuation_frames + fragments.len() <= c.opts.max_continuation_frames,
    ensures
        ({
            let stream = c.streams[id];
            block_continued(c, id, fragments) == c.with_stream(
                id,
                StreamView {
                    field_block: stream.field_block + joined(fragments),
                    continuation_frames: (stream.continuation_frames + fragments.len()) as usize,
                    ..stream
                },
            )
        }),
    decreases fragments.len(),
{
    let stream = c.streams[id];
    let after = block_continued(c, id, fragments);
    if fragments.len() == 0 {
        assert(stream.field_block + joined(fragments) =~= stream.field_block);
        assert(c.streams =~= c.streams.insert(id, stream));
    } else {
        let init = fragments.drop_last();
        fragments_are_counted(c, id, init);
        let before = block_continued(c, id, init);
        assert((stream.field_block + joined(init)) + fragments.last() =~= stream.field_block
            + joined(fragments));
        assert(after.streams =~= c.streams.insert(id, after.streams[id]));
    }
}

/// One frame more than the limit, and the field block is given up: the stream is
/// reset with PROTOCOL_ERROR while the reset budget lasts.
pub proof fn endless_field_blocks_are_given_up(
    c: ConnectionView,
    id: u32,
    end_stream: bool,
    first: Seq<u8>,
    fragments: Seq<Seq<u8>>,
    last: Seq<u8>,
)
    requires
        opens(c, id),
        1 + fragments.len() == c.opts.max_continuation_frames,
        c.opts.max_continuation_frames < usize::MAX,
        !c.reset_budget_spent(),
    ensures
        ({
            let opened = c.handle_headers_frame(id, end_stream, false, first);
            let after = block_continued(opened, id, fragments).handle_continuation(id, false, last);
            &&& !after.streams.contains_key(id)
            &&& after.closing == c.closing
            &&& after.out == c.out + wire::wire(
                FrameView::Reset { stream_id: id, error_code: Reason::ProtocolError.code() },
            )
        }),
{
    let opened = c.handle_headers_frame(id, end_stream, false, first);
    fragments_are_counted(opened, id, fragments);
}

/// DATA frames that do not end the stream, delivered to the body reader one after
/// the other.
pub open spec fn body_received(c: ConnectionView, id: u32, payloads: Seq<Seq<u8>>) -> ConnectionView
    decreases payloads.len(),
{
    if payloads.len() == 0 {
        c
    } else {
        body_received(c, id, payloads.drop_last()).handle_data_frame(
            id,
            false,
            payloads.last().len(),
        ).data_delivered(id, false, true)
    }
}

proof fn payloads_add_up(c: ConnectionView, id: u32, payloads: Seq<Seq<u8>>)
    requires
        c.accepts_data(id),
        c.streams[id].data_sum + joined(payloads).len() <= u64::MAX,
    ensures
        ({
            let after = body_received(c, id, payloads);
            &&& after.accepts_data(id)
            &&& after.streams[id] == (StreamView {
                data_sum: (c.streams[id].data_sum + joined(payloads).len()) as u64,
                ..c.streams[id]
            })
            &&& after.closing == c.closing
            &&& after.opts == c.opts
            &&& after.local_error_resets == c.local_error_resets
        }),
    decreases payloads.len(),
{
    if payloads.len() > 0 {
        payloads_add_up(c, id, payloads.drop_last());
    }
}

/// A request body in any number of DATA frames is accepted exactly where all of
/// them together are as long as was declared, or no length was: then its end is
/// signalled to its reader. A body of any other length costs its stream.
pub proof fn bodies_are_as_long_as_declared(
    c: ConnectionView,
    id: u32,
    payloads: Seq<Seq<u8>>,
    last: Seq<u8>,
)
    requires
        c.accepts_data(id),
        c.streams[id].data_sum == 0,
        !c.closing,
        !c.reset_budget_spent(),
        joined(payloads).len() + last.len() <= u64::MAX,
    ensures
        ({
            let total = joined(payloads).len() + last.len();
            let declared = c.streams[id].content_length;
            let received = body_received(c, id, payloads).handle_data_frame(id, true, last.len());
            let after = received.data_delivered(id, true, true);
            let right = declared is None || declared->0 == total;
            &&& after.streams.contains_key(id) == right
            &&& !after.closing
            &&& right ==> {
                &&& after.out == received.out
                &&& after.streams[id].remote_ended
                &&& !after.accepts_data(id)
                &&& received.signals_body_end(id) == c.streams[id].has_body
            }
            &&& !right ==> {
                &&& !received.signals_body_end(id)
                &&& after.out == received.out + wire::wire(
                    FrameView::Reset { stream_id: id, error_code: Reason::ProtocolError.code() },
                )
            }
        }),
{
    payloads_add_up(c, id, payloads);
}

/// An upload as a whole: a request that declares a length and comes with a body
/// is taken, and its stream is there after the last frame exactly where the
/// frames have as many octets as declared.
pub proof fn uploads_are_taken(
    c: ConnectionView,
    id: u32,
    block: Seq<u8>,
    header_list_size: usize,
    declared: u64,
    payloads: Seq<Seq<u8>>,
    last: Seq<u8>,
)
    requires
        opens(c, id),
        !c.closing,
        !c.reset_budget_spent(),
        joined(payloads).len() + last.len() <= u64::MAX,
    ensures
        ({
            let started = request_handed_over(
                c.handle_headers_frame(id, false, true, block),
                id,
                header_list_size,
                false,
                Some(declared),
            );
            let received = body_received(started, id, payloads).handle_data_frame(
                id,
                true,
                last.len(),
            );
            &&& started.accepts_data(id)
            &&& started.out == c.out
            &&& received.data_delivered(id, true, true).streams.contains_key(id) <==> joined(
                payloads,
            ).len() + last.len() == declared
            &&& received.signals_body_end(id) <==> joined(payloads).len() + last.len() == declared
        }),
{
    let started = request_handed_over(
        c.handle_headers_frame(id, false, true, block),
        id,
        header_list_size,
        false,
        Some(declared),
    );
    bodies_are_as_long_as_declared(started, id, payloads, last);
}

/// A request without a body that declares one costs its stream; any other request
/// is started with nothing said about it.
pub proof fn missing_bodies_are_refused(
    c: ConnectionView,
    id: u32,
    block: Seq<u8>,
    header_list_size: usize,
    content_length: Option<u64>,
)
    requires
        opens(c, id),
        !c.reset_budget_spent(),
    ensures
        ({
            let started = request_handed_over(
                c.handle_headers_frame(id, true, true, block),
                id,
                header_list_size,
                true,
                content_length,
            );
            let missing = content_length is Some && content_length->0 > 0;
            &&& started.closing == c.closing
            &&& missing ==> !started.streams.contains_key(id) && started.out == c.out + wire::wire(
                FrameView::Reset { stream_id: id, error_code: Reason::ProtocolError.code() },
            )
            &&& !missing ==> {
                &&& started.out == c.out
                &&& started.streams.contains_key(id)
                &&& started.streams[id].request_started
                &&& started.streams[id].remote_ended
                &&& started.streams[id].content_length == content_length
                &&& !started.accepts_data(id)
            }
        }),
{
}

/// DATA where none is taken: on a stream whose request side has ended or whose
/// request has not started it costs the stream; on a stream that is closed it is
/// answered with STREAM_CLOSED and counts for nothing; on any other it ends the
/// connection.
pub proof fn unwanted_data_is_answered(c: ConnectionView, id: u32, end_stream: bool, len: nat)
    requires
        !c.accepts_data(id),
        len > 0 || end_stream,
        !c.reset_budget_spent(),
    ensures
        ({
            let after = c.handle_data_frame(id, end_stream, len);
            let granted = c.restore_windows(id, len);
            let reset = wire::wire(
                FrameView::Reset { stream_id: id, error_code: Reason::StreamClosed.code() },
            );
            &&& !after.streams.contains_key(id)
            &&& c.streams.contains_key(id) ==> {
                &&& after.out == granted.out + reset
                &&& after.closing == c.closing
                &&& after.closed.contains(id)
            }
            &&& !c.streams.contains_key(id) && c.closed.contains(id) ==> {
                &&& after.out == granted.out + reset
                &&& after.closing == c.closing
                &&& after.local_error_resets == c.local_error_resets
            }
            &&& !c.streams.contains_key(id) && !c.closed.contains(id) ==> after.closing
            &&& laws::other_streams_kept(c, after, id)
        }),
{
    remembered(c.closed, id);
}

/// A stream that is retired is remembered.
proof fn remembered(closed: Seq<u32>, id: u32)
    ensures
        model::closed_after(closed, id).contains(id),
{
    let kept = if closed.len() >= model::MAX_CLOSED_STREAMS {
        closed.subrange(1, closed.len() as int)
    } else {
        closed
    };
    if !kept.contains(id) {
        assert(kept.push(id)[kept.len() as int] == id);
    }
}

/// Resets by the peer, one after the other.
pub open spec fn peer_resets(c: ConnectionView, ids: Seq<u32>) -> ConnectionView
    decreases ids.len(),
{
    if ids.len() == 0 {
        c
    } else {
        peer_resets(c, ids.drop_last()).handle_reset_frame(ids.last())
    }
}

/// Streams that the peer resets before their requests are accepted are counted:
/// while they fit the budget each costs only itself and is not answered; as soon
/// as one does not, the connection is closing (RFC 9113 Section 10.5.2). Without a
/// budget the connection never closes for them.
pub proof fn accept_budget_holds(c: ConnectionView, ids: Seq<u32>)
    requires
        !c.closing,
        model::within(c.pending_accept_resets, c.opts.max_pending_accept_reset_streams),
        c.pending_accept_resets + ids.len() < usize::MAX,
        ids.no_duplicates(),
        forall|i: int|
            0 <= i < ids.len() ==> c.streams.contains_key(#[trigger] ids[i])
                && !c.streams[ids[i]].request_started,
    ensures
        ({
            let after = peer_resets(c, ids);
            let fits = c.opts.max_pending_accept_reset_streams is None || c.pending_accept_resets
                + ids.len() <= c.opts.max_pending_accept_reset_streams->0;
            &&& after.opts == c.opts
            &&& after.closing == !fits
            &&& fits ==> after.pending_accept_resets == c.pending_accept_resets + ids.len()
                && after.out == c.out
            &&& forall|x: u32|
                #[trigger] after.streams.contains_key(x) <==> c.streams.contains_key(x)
                    && !ids.contains(x)
            &&& forall|x: u32| #[trigger]
                after.streams.contains_key(x) ==> after.streams[x] == c.streams[x]
        }),
    decreases ids.len(),
{
    if ids.len() > 0 {
        let init = ids.drop_last();
        let last = ids.last();
        assert forall|i: int| 0 <= i < init.len() implies c.streams.contains_key(#[trigger] init[i])
            && !c.streams[init[i]].request_started by {
            assert(init[i] == ids[i]);
        }
        accept_budget_holds(c, init);
        let before = peer_resets(c, init);
        assert(c.streams.contains_key(ids[ids.len() - 1]));
        assert(!init.contains(last)) by {
            if init.contains(last) {
                let i = choose|i: int| 0 <= i < init.len() && init[i] == last;
                assert(ids[i] == ids[ids.len() - 1]);
            }
        }
        assert(before.streams.contains_key(last));
        assert forall|x: u32| #[trigger] ids.contains(x) <==> init.contains(x) || x == last by {
            if ids.contains(x) {
                let i = choose|i: int| 0 <= i < ids.len() && ids[i] == x;
                if i < init.len() {
                    assert(init[i] == x);
                }
            }
            if init.contains(x) {
                let i = choose|i: int| 0 <= i < init.len() && init[i] == x;
                assert(ids[i] == x);
            }
            if x == last {
                assert(ids[ids.len() - 1] == x);
            }
        }
    }
}

/// A reset of a request that was accepted costs only its stream: it is gone and
/// remembered, nothing is answered and nothing counted, and its task is told the
/// code while it may still wait for the body.
pub proof fn accepted_requests_may_be_reset(c: ConnectionView, id: u32, code: u32)
    requires
        c.streams.contains_key(id),
        c.streams[id].request_started,
    ensures
        ({
            let after = c.handle_reset_frame(id);
            &&& !after.streams.contains_key(id)
            &&& after.closed.contains(id)
            &&& after.out == c.out
            &&& after.closing == c.closing
            &&& after.pending_accept_resets == c.pending_accept_resets
            &&& laws::other_streams_kept(c, after, id)
            &&& c.reset_notice(id, code) == if c.streams[id].remote_ended {
                None::<u32>
            } else {
                Some(code)
            }
        }),
{
    remembered(c.closed, id);
}

/// A reset of a stream that is closed is ignored; of one that was never open it
/// ends the connection.
pub proof fn stray_resets(c: ConnectionView, id: u32, code: u32)
    requires
        !c.streams.contains_key(id),
    ensures
        c.closed.contains(id) ==> c.handle_reset_frame(id) == c,
        !c.closed.contains(id) ==> c.handle_reset_frame(id).closing,
        c.reset_notice(id, code) is None,
{
}

/// A HEADERS frame on a stream whose request side has ended costs the stream; on
/// any other open stream it begins another field block, which ends the stream
/// where the frame says so.
pub proof fn later_headers(
    c: ConnectionView,
    id: u32,
    end_stream: bool,
    block: Seq<u8>,
)
    requires
        c.streams.contains_key(id),
        !(c.graceful && id > c.graceful_last_stream),
        !c.reset_budget_spent(),
    ensures
        ({
            let after = c.handle_headers_frame(id, end_stream, true, block);
            &&& c.streams[id].remote_ended ==> {
                &&& !after.streams.contains_key(id)
                &&& after.out == c.out + wire::wire(
                    FrameView::Reset { stream_id: id, error_code: Reason::StreamClosed.code() },
                )
            }
            &&& !c.streams[id].remote_ended ==> {
                &&& after.streams.contains_key(id)
                &&& after.out == c.out
                &&& after.streams[id].field_block == c.streams[id].field_block + block
                &&& after.streams[id].pending_end_stream == end_stream
                &&& after.complete_blocks == c.complete_blocks.push(id)
            }
            &&& laws::other_streams_kept(c, after, id)
        }),
{
}

/// Trailers are delivered exactly where they are well-formed, the first and the
/// last of the stream; any others cost the stream.
pub proof fn trailers_end_the_request(c: ConnectionView, id: u32, well_formed: bool)
    requires
        c.streams.contains_key(id),
        !c.closing,
        !c.reset_budget_spent(),
    ensures
        ({
            let after = c.trailers_arrived(id, well_formed);
            let right = well_formed && !c.streams[id].trailers_seen
                && c.streams[id].pending_end_stream;
            &&& c.delivers_trailers(id, well_formed) == right
            &&& after.streams.contains_key(id) == right
            &&& !after.closing
            &&& right ==> after.out == c.out && after.streams[id].trailers_seen
            &&& right ==> !after.delivers_trailers(id, well_formed)
            &&& !right ==> after.out == c.out + wire::wire(
                FrameView::Reset { stream_id: id, error_code: Reason::ProtocolError.code() },
            )
        }),
{
}

/// A field block that cannot be decoded: a header list that is too large costs
/// its stream, anything else the connection.
pub proof fn undecodable_blocks(c: ConnectionView, id: u32)
    requires
        c.streams.contains_key(id),
        !c.closing,
        !c.reset_budget_spent(),
    ensures
        !c.block_undecodable(id, true).closing,
        !c.block_undecodable(id, true).streams.contains_key(id),
        c.block_undecodable(id, true).out == c.out + wire::wire(
            FrameView::Reset { stream_id: id, error_code: Reason::ProtocolError.code() },
        ),
        c.block_undecodable(id, false).closing,
        c.block_undecodable(id, false).streams == c.streams,
        exists|debug: Seq<u8>|
            #![trigger wire::wire(
                FrameView::GoAway {
                    last_stream_id: c.highest_stream_id,
                    error_code: Reason::CompressionError.code(),
                    debug,
                },
            )]
            c.block_undecodable(id, false).out == c.out + wire::wire(
                FrameView::GoAway {
                    last_stream_id: c.highest_stream_id,
                    error_code: Reason::CompressionError.code(),
                    debug,
                },
            ),
{
}

/// A connection error names the highest stream that was opened and the reason,
/// and the connection closes after it; no stream is touched by it.
pub proof fn connection_errors_are_announced(c: ConnectionView, reason: Reason, debug: &str)
    ensures
        ({
            let after = c.goaway(reason, debug);
            &&& after.closing
            &&& after.streams == c.streams
            &&& exists|text: Seq<u8>|
                #![trigger wire::wire(
                    FrameView::GoAway {
                        last_stream_id: c.highest_stream_id,
                        error_code: reason.code(),
                        debug: text,
                    },
                )]
                after.out == c.out + wire::wire(
                    FrameView::GoAway {
                        last_stream_id: c.highest_stream_id,
                        error_code: reason.code(),
                        debug: text,
                    },
                )
        }),
{
}

/// A response that ends with its headers: what more is said of it is dropped, and
/// its stream is gone and remembered once its producer has finished.
pub proof fn headers_may_end_the_response(
    c: ConnectionView,
    id: u32,
    data: Seq<u8>,
    end_stream: bool,
    trailers: Map<Seq<u8>, Seq<Seq<u8>>>,
)
    requires
        c.streams.contains_key(id),
        c.streams[id].response_open(),
    ensures
        ({
            let ended = c.response_started(id, true);
            let gone = ended.response_closed(id);
            &&& c.takes_response(id)
            &&& !ended.takes_response(id)
            &&& ended.out == c.out
            &&& ended.response_data(id, data, end_stream) == ended
            &&& ended.response_trailers(id, trailers) == ended
            &&& !gone.streams.contains_key(id)
            &&& gone.closed.contains(id)
            &&& gone.out == c.out
        }),
{
    remembered(c.closed, id);
}

/// Response headers that do not end the response leave it open.
pub proof fn headers_may_leave_the_response_open(c: ConnectionView, id: u32)
    requires
        c.streams.contains_key(id),
        c.streams[id].response_open(),
    ensures
        c.response_started(id, false).streams[id] == c.streams[id],
        c.response_started(id, false).out == c.out,
        c.response_started(id, false).takes_response(id),
{
}

/// A response that fails resets its stream with its code, which the peer is told
/// once; the stream is gone and remembered, and no budget is charged.
pub proof fn failed_responses_reset_their_stream(c: ConnectionView, id: u32, code: u32)
    ensures
        ({
            let after = c.response_reset(id, code);
            &&& after.out == c.out + wire::wire(
                FrameView::Reset { stream_id: id, error_code: code },
            )
            &&& !after.streams.contains_key(id)
            &&& after.closed.contains(id)
            &&& after.local_error_resets == c.local_error_resets
            &&& after.closing == c.closing
            &&& laws::other_streams_kept(c, after, id)
        }),
{
    remembered(c.closed, id);
}

/// While the windows are closed chunks are queued, up to thirty-two; one more and
/// the stream is given up with INTERNAL_ERROR, which is not counted as the peer's
/// error.
pub proof fn waiting_chunks_are_bounded(
    c: ConnectionView,
    id: u32,
    data: Seq<u8>,
    end_stream: bool,
)
    requires
        c.streams.contains_key(id),
        c.streams[id].response_open(),
        c.streams[id].pending_data.len() == 0 ==> data.len() > 0,
        c.streams[id].pending_data.len() > 0 ==> c.streams[id].front_len() > 0,
        c.conn_window <= 0 || c.streams[id].send_window <= 0,
    ensures
        ({
            let after = c.response_data(id, data, end_stream);
            let waiting = c.streams[id].pending_data;
            &&& waiting.len() < 32 ==> {
                &&& after.out == c.out
                &&& after.streams.contains_key(id)
                &&& after.streams[id].pending_data == waiting.push((data, end_stream))
            }
            &&& waiting.len() >= 32 ==> {
                &&& !after.streams.contains_key(id)
                &&& after.local_error_resets == c.local_error_resets
                &&& after.closing == c.closing
                &&& after.out == c.out + wire::wire(
                    FrameView::Reset { stream_id: id, error_code: Reason::InternalError.code() },
                )
            }
        }),
{
    let stream = c.streams[id];
    let queued = c.with_stream(
        id,
        StreamView { pending_data: stream.pending_data.push((data, end_stream)), ..stream },
    );
    assert(queued.streams[id].pending_data[0] == if stream.pending_data.len() == 0 {
        (data, end_stream)
    } else {
        stream.pending_data[0]
    });
    assert(!queued.can_send(id));
}

/// A body reader that is gone takes its stream with it: the stream is remembered,
/// and the peer is not told.
pub proof fn dropped_readers_drop_the_stream(c: ConnectionView, id: u32, end_stream: bool)
    ensures
        ({
            let after = c.data_delivered(id, end_stream, false);
            &&& !after.streams.contains_key(id)
            &&& after.closed.contains(id)
            &&& after.out == c.out
            &&& after.closing == c.closing
            &&& laws::other_streams_kept(c, after, id)
        }),
{
    remembered(c.closed, id);
}

/// A request body ends once: after that DATA is not taken and ending it again
/// changes nothing.
pub proof fn bodies_end_once(c: ConnectionView, id: u32)
    ensures
        ({
            let ended = c.end_request_body(id);
            &&& ended.end_request_body(id) == ended || ended.closing
            &&& ended.streams.contains_key(id) ==> !ended.accepts_data(id)
            &&& ended.streams.contains_key(id) ==> !ended.signals_body_end(id)
            &&& laws::other_streams_kept(c, ended, id)
        }),
{
}

/// Trailers that waited go out once and end the response: the stream is gone and
/// remembered where its producer has finished, and otherwise it stays until it
/// has.
pub proof fn late_trailers_end_the_response(c: ConnectionView, id: u32)
    requires
        c.trailers_due(id),
    ensures
        ({
            let after = c.trailers_released(id);
            &&& after.out == c.out
            &&& !after.trailers_due(id)
            &&& after.streams.contains_key(id) == !c.streams[id].task_done
            &&& after.streams.contains_key(id) ==> !after.takes_response(id)
            &&& c.streams[id].task_done ==> after.closed.contains(id)
            &&& !after.response_closed(id).streams.contains_key(id)
            &&& laws::other_streams_kept(c, after, id)
        }),
{
    remembered(c.closed, id);
}

/// A producer that finishes before all of its response is sent leaves the stream
/// to the windows: once the last chunk goes out, the stream is gone and
/// remembered.
pub proof fn finished_producers_leave_their_stream(
    c: ConnectionView,
    id: u32,
    data: Seq<u8>,
    increment: u32,
)
    requires
        c.inv(),
        c.streams.contains_key(id),
        c.streams[id].response_open(),
        c.streams[id].pending_data == seq![(data, true)],
        0 < data.len() <= c.conn_window,
        data.len() <= c.peer.max_frame_size,
        increment > 0,
        data.len() <= c.streams[id].send_window + increment <= 0x7fff_ffff,
    ensures
        ({
            let closed = c.response_closed(id);
            let after = closed.stream_window_update(id, increment);
            &&& closed.streams.contains_key(id)
            &&& closed.out == c.out
            &&& !after.streams.contains_key(id)
            &&& after.closed.contains(id)
            &&& after.out == c.out + wire::wire(
                FrameView::Data { stream_id: id, end_stream: true, data },
            )
        }),
{
    remembered(c.closed, id);
    let closed = c.response_closed(id);
    let opened = super::ordering::widened(closed, id, increment);
    assert(opened.can_send(id));
    assert(opened.next_amount(id) == data.len());
    let sent = opened.sent(id, data.len());
    assert(data.subrange(0, data.len() as int) =~= data);
    assert(!sent.can_send(id));
    assert(opened.pump_stream_data(id) == sent.pump_stream_data(id));
}

/// Trailers that wait come due with the last chunk before them, whether or not
/// their producer has finished by then, and not before.
pub proof fn waiting_trailers_come_due(
    c: ConnectionView,
    id: u32,
    data: Seq<u8>,
    trailers: Map<Seq<u8>, Seq<Seq<u8>>>,
    increment: u32,
)
    requires
        c.streams.contains_key(id),
        c.streams[id].response_open(),
        c.streams[id].pending_data == seq![(data, false)],
        0 < data.len() <= c.conn_window,
        data.len() <= c.peer.max_frame_size,
        increment > 0,
        data.len() <= c.streams[id].send_window + increment <= 0x7fff_ffff,
    ensures
        ({
            let told = c.response_trailers(id, trailers);
            let finished = told.response_closed(id);
            &&& told.out == c.out
            &&& !told.trailers_due(id)
            &&& !finished.trailers_due(id)
            &&& told.stream_window_update(id, increment).trailers_due(id)
            &&& finished.stream_window_update(id, increment).trailers_due(id)
            &&& finished.stream_window_update(id, increment).streams[id].trailers == Some(trailers)
        }),
{
    let told = c.response_trailers(id, trailers);
    let finished = told.response_closed(id);
    last_chunk_leaves(told, id, data, increment);
    last_chunk_leaves(finished, id, data, increment);
}

proof fn last_chunk_leaves(c: ConnectionView, id: u32, data: Seq<u8>, increment: u32)
    requires
        c.streams.contains_key(id),
        !c.streams[id].local_ended,
        c.streams[id].pending_data == seq![(data, false)],
        0 < data.len() <= c.conn_window,
        data.len() <= c.peer.max_frame_size,
        increment > 0,
        data.len() <= c.streams[id].send_window + increment <= 0x7fff_ffff,
    ensures
        ({
            let after = c.stream_window_update(id, increment);
            &&& after.streams.contains_key(id)
            &&& !after.streams[id].local_ended
            &&& after.streams[id].pending_data.len() == 0
            &&& after.streams[id].trailers == c.streams[id].trailers
        }),
{
    let opened = super::ordering::widened(c, id, increment);
    assert(opened.can_send(id));
    assert(opened.next_amount(id) == data.len());
    let sent = opened.sent(id, data.len());
    assert(!sent.can_send(id));
    assert(opened.pump_stream_data(id) == sent.pump_stream_data(id));
}

/// The end of a body is signalled after its last DATA frame where that was
/// delivered, the body is as long as declared and there is a reader; never after
/// a frame that does not end the stream.
pub proof fn ends_are_signalled(
    c: ConnectionView,
    id: u32,
    payloads: Seq<Seq<u8>>,
    last: Seq<u8>,
    delivered: bool,
)
    requires
        c.accepts_data(id),
        c.streams[id].data_sum == 0,
        joined(payloads).len() + last.len() <= u64::MAX,
    ensures
        ({
            let received = body_received(c, id, payloads).handle_data_frame(id, true, last.len());
            let declared = c.streams[id].content_length;
            &&& received.signals_after_delivery(id, true, delivered) <==> delivered
                && c.streams[id].has_body && (declared is None || declared->0 == joined(
                payloads,
            ).len() + last.len())
            &&& !c.signals_after_delivery(id, false, delivered)
        }),
{
    payloads_add_up(c, id, payloads);
}

/// A reader that gets the end of its body leaves the stream as it is, so that the
/// response can go on; one that is gone takes the stream with it.
pub proof fn readers_get_the_end(c: ConnectionView, id: u32)
    ensures
        c.body_end_delivered(id, true) == c,
        !c.body_end_delivered(id, false).streams.contains_key(id),
        c.body_end_delivered(id, false).closed.contains(id),
        c.body_end_delivered(id, false).out == c.out,
        laws::other_streams_kept(c, c.body_end_delivered(id, false), id),
{
    remembered(c.closed, id);
}

/// DATA is taken from the moment that the request is handed to its handler until
/// its body ends: before that it costs the stream.
pub proof fn data_is_taken_while_the_request_runs(
    c: ConnectionView,
    id: u32,
    end_stream: bool,
    block: Seq<u8>,
    header_list_size: usize,
    content_length: Option<u64>,
    len: nat,
)
    requires
        opens(c, id),
        len > 0,
        !c.reset_budget_spent(),
        !(end_stream && (content_length matches Some(n) && n > 0)),
    ensures
        ({
            let opened = c.handle_headers_frame(id, end_stream, true, block);
            let started = request_handed_over(
                opened,
                id,
                header_list_size,
                end_stream,
                content_length,
            );
            &&& !opened.accepts_data(id)
            &&& !opened.handle_data_frame(id, false, len).streams.contains_key(id)
            &&& started.accepts_data(id) <==> !end_stream
            &&& started.handle_data_frame(id, false, len).streams.contains_key(id) <==> !end_stream
        }),
{
}

} // verus!
