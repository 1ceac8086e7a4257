//! What a connection holds, and what each event does to it.

use std::time::Duration;

use vstd::prelude::*;
use vstd::string::StringSliceAdditionalSpecFns;

use super::{ConnectionOptions, PeerSettings};
use crate::h2::codec::model::{self, DecoderView, FrameView};
use crate::h2::codec::writer;
use crate::h2::codec::{Setting, DEFAULT_MAX_FRAME_SIZE, MAX_FRAME_SIZE_LIMIT};
use crate::h2::error::Reason;
use crate::h2::stream::StreamView;

verus! {

/// How many closed streams are remembered.
pub const MAX_CLOSED_STREAMS: usize = 4096;

/// How many DATA chunks may wait for the flow-control window on one stream.
pub const MAX_PENDING_CHUNKS: usize = 32;

/// What a [`Connection`](super::Connection) holds.
#[verifier::ext_equal]
pub struct ConnectionView {
    /// The state of the frame decoder.
    pub decoder: DecoderView,
    /// The octets that wait to be written.
    pub out: Seq<u8>,
    pub peer: PeerSettings,
    /// How long the wait for the client's preface may take.
    pub preface_timeout: Option<Duration>,
    pub streams: Map<u32, StreamView>,
    pub conn_window: i64,
    /// The closed streams that are remembered, the oldest first.
    pub closed: Seq<u32>,
    pub opts: ConnectionOptions,
    pub local_error_resets: usize,
    pub pending_accept_resets: usize,
    pub complete_blocks: Seq<u32>,
    pub highest_stream_id: u32,
    pub closing: bool,
    pub graceful: bool,
    pub graceful_last_stream: u32,
}

/// One more, up to the largest number.
pub open spec fn one_more(n: usize) -> usize {
    if n == usize::MAX {
        n
    } else {
        (n + 1) as usize
    }
}

/// A stream's send window stays within these bounds of the peer's initial
/// window size, whatever settings and updates come.
pub open spec fn window_in_bounds(window: i64, initial: u32) -> bool {
    -0x1_0000_0000 <= window - initial <= 0x8000_0000
}

/// A count that a limit applies to.
pub open spec fn within(count: usize, limit: Option<usize>) -> bool {
    match limit {
        Some(max) => count <= max,
        None => true,
    }
}

/// The order of closed streams after one more: the oldest leaves where the
/// list is full, and no stream is listed twice.
pub open spec fn closed_after(closed: Seq<u32>, id: u32) -> Seq<u32> {
    let kept = if closed.len() >= MAX_CLOSED_STREAMS {
        closed.subrange(1, closed.len() as int)
    } else {
        closed
    };
    if kept.contains(id) {
        kept
    } else {
        kept.push(id)
    }
}

impl ConnectionView {
    /// What holds of every connection.
    pub open spec fn inv(self) -> bool {
        &&& DEFAULT_MAX_FRAME_SIZE <= self.peer.max_frame_size <= MAX_FRAME_SIZE_LIMIT
        &&& 0 <= self.conn_window <= 0xffff_ffff
        &&& self.closed.no_duplicates()
        &&& self.closed.len() <= MAX_CLOSED_STREAMS
        &&& within(self.local_error_resets, self.opts.max_local_error_reset_streams)
        &&& within(self.pending_accept_resets, self.opts.max_pending_accept_reset_streams)
        &&& forall|id: u32|
            #[trigger] self.streams.contains_key(id) ==> window_in_bounds(
                self.streams[id].send_window,
                self.peer.initial_window_size,
            )
    }

    /// One more frame waits to be written.
    pub open spec fn write(self, frame: FrameView) -> Self {
        ConnectionView { out: self.out + model::wire(frame), ..self }
    }

    /// A GOAWAY frame was queued; the connection closes after it.
    pub open spec fn goaway(self, reason: Reason, debug: &str) -> Self {
        ConnectionView { closing: true, ..self }.write(
            FrameView::GoAway {
                last_stream_id: self.highest_stream_id,
                error_code: reason.code(),
                debug: debug.spec_bytes(),
            },
        )
    }

    /// A graceful-shutdown GOAWAY was queued.
    pub open spec fn graceful_goaway(self) -> Self {
        self.write(
            FrameView::GoAway {
                last_stream_id: self.graceful_last_stream,
                error_code: Reason::NoError.code(),
                debug: "graceful shutdown".spec_bytes(),
            },
        )
    }

    /// Graceful shutdown has begun (RFC 9113 Section 6.8), unless it had
    /// already or the connection is closing.
    pub open spec fn begin_graceful_shutdown(self) -> Self {
        if self.graceful || self.closing {
            self
        } else {
            ConnectionView {
                graceful: true,
                graceful_last_stream: self.highest_stream_id,
                ..self
            }.graceful_goaway()
        }
    }

    /// The final GOAWAY was queued, unless an error has queued one.
    pub open spec fn finish_graceful_shutdown(self) -> Self {
        if self.closing {
            self
        } else {
            self.graceful_goaway()
        }
    }

    pub open spec fn with_stream(self, id: u32, stream: StreamView) -> Self {
        ConnectionView { streams: self.streams.insert(id, stream), ..self }
    }

    /// The stream has ended for good: it is forgotten but for its id.
    pub open spec fn retire(self, id: u32) -> Self {
        ConnectionView {
            closed: closed_after(self.closed, id),
            streams: self.streams.remove(id),
            ..self
        }
    }

    /// The budget for resets that answer the peer's errors is used up.
    pub open spec fn reset_budget_spent(self) -> bool {
        self.opts.max_local_error_reset_streams matches Some(max) && self.local_error_resets >= max
    }

    /// A stream error: RST_STREAM and the stream is gone, or GOAWAY where the
    /// peer has made too many errors (RFC 9113 Section 10.5.2). INTERNAL_ERROR
    /// is our own give-up and does not count.
    pub open spec fn stream_error(self, id: u32, reason: Reason) -> Self {
        if reason != Reason::InternalError && self.reset_budget_spent() {
            self.goaway(Reason::EnhanceYourCalm, "too many resets for peer protocol errors")
        } else {
            ConnectionView {
                local_error_resets: if reason != Reason::InternalError {
                    one_more(self.local_error_resets)
                } else {
                    self.local_error_resets
                },
                ..self
            }.write(FrameView::Reset { stream_id: id, error_code: reason.code() }).retire(id)
        }
    }

    /// One more frame of an open field block: the stream is reset where the
    /// block spans more frames than allowed, and the block is abandoned.
    pub open spec fn check_continuation_flood(self, id: u32) -> Self {
        if !self.streams.contains_key(id) {
            self
        } else {
            let stream = self.streams[id];
            let frames = one_more(stream.continuation_frames);
            let counted = self.with_stream(
                id,
                StreamView { continuation_frames: frames, ..stream },
            );
            if frames > self.opts.max_continuation_frames {
                let abandoned = if self.decoder.block_stream == Some(id) {
                    ConnectionView {
                        decoder: DecoderView { block_stream: None, ..self.decoder },
                        ..counted
                    }
                } else {
                    counted
                };
                abandoned.stream_error(id, Reason::ProtocolError)
            } else {
                counted
            }
        }
    }

    /// A HEADERS frame on a stream that is not open: it opens the stream, if
    /// the id is odd and above all before it and there is room (RFC 9113
    /// Sections 5.1.1 and 6.2).
    pub open spec fn open_request_stream(
        self,
        id: u32,
        end_stream: bool,
        end_headers: bool,
        block: Seq<u8>,
    ) -> Self {
        if id % 2 == 0 {
            self.goaway(Reason::ProtocolError, "headers on invalid stream")
        } else if id <= self.highest_stream_id {
            self.goaway(Reason::ProtocolError, "non-increasing stream id")
        } else {
            let raised = ConnectionView { highest_stream_id: id, ..self };
            if self.streams.len() >= self.opts.max_concurrent_streams {
                raised.write(
                    FrameView::Reset { stream_id: id, error_code: Reason::RefusedStream.code() },
                )
            } else {
                ConnectionView {
                    complete_blocks: if end_headers {
                        self.complete_blocks.push(id)
                    } else {
                        self.complete_blocks
                    },
                    ..raised
                }.with_stream(
                    id,
                    StreamView {
                        has_body: !end_stream,
                        field_block: block,
                        pending_end_stream: end_stream,
                        send_window: self.peer.initial_window_size as i64,
                        continuation_frames: if end_headers {
                            0
                        } else {
                            1
                        },
                        ..StreamView::fresh()
                    },
                )
            }
        }
    }

    /// A fragment of the stream's field block arrived.
    pub open spec fn extend_block(self, id: u32, end_headers: bool, block: Seq<u8>) -> Self {
        let stream = self.streams[id];
        let extended = StreamView { field_block: stream.field_block + block, ..stream };
        if end_headers {
            ConnectionView { complete_blocks: self.complete_blocks.push(id), ..self }.with_stream(
                id,
                StreamView { continuation_frames: 0, ..extended },
            )
        } else {
            self.with_stream(id, extended).check_continuation_flood(id)
        }
    }

    /// A HEADERS frame: the start of a request field block, a trailer section,
    /// or a protocol violation. During graceful shutdown, streams beyond the
    /// announced id are ignored (RFC 9113 Section 6.8).
    pub open spec fn handle_headers_frame(
        self,
        id: u32,
        end_stream: bool,
        end_headers: bool,
        block: Seq<u8>,
    ) -> Self {
        if self.graceful && id > self.graceful_last_stream {
            self
        } else if !self.streams.contains_key(id) {
            self.open_request_stream(id, end_stream, end_headers, block)
        } else if self.streams[id].remote_ended {
            self.stream_error(id, Reason::StreamClosed)
        } else {
            self.with_stream(
                id,
                StreamView { pending_end_stream: end_stream, ..self.streams[id] },
            ).extend_block(id, end_headers, block)
        }
    }

    /// A CONTINUATION frame of the open field block.
    pub open spec fn handle_continuation(
        self,
        id: u32,
        end_headers: bool,
        block: Seq<u8>,
    ) -> Self {
        if !self.streams.contains_key(id) {
            self.goaway(Reason::ProtocolError, "continuation on unknown stream")
        } else {
            self.extend_block(id, end_headers, block)
        }
    }

    /// The first completed field block whose stream is still there.
    pub open spec fn next_complete_block(self) -> Option<u32>
        decreases self.complete_blocks.len(),
    {
        if self.complete_blocks.len() == 0 {
            None
        } else if self.streams.contains_key(self.complete_blocks[0]) {
            Some(self.complete_blocks[0])
        } else {
            self.without_first_block().next_complete_block()
        }
    }

    /// The connection without the first completed field block.
    pub open spec fn without_first_block(self) -> Self {
        ConnectionView {
            complete_blocks: self.complete_blocks.subrange(1, self.complete_blocks.len() as int),
            ..self
        }
    }

    /// The first completed field block whose stream is still there was taken,
    /// with all the stale ones before it.
    pub open spec fn take_complete_block(self) -> Self
        decreases self.complete_blocks.len(),
    {
        if self.complete_blocks.len() == 0 {
            self
        } else if self.streams.contains_key(self.complete_blocks[0]) {
            self.without_first_block()
        } else {
            self.without_first_block().take_complete_block()
        }
    }

    /// What DATA grants back: as much as arrived, on the stream and on the
    /// connection (RFC 9113 Section 6.9.2).
    pub open spec fn restore_windows(self, id: u32, len: nat) -> Self {
        if len == 0 {
            self
        } else {
            self.write(FrameView::WindowUpdate { stream_id: id, increment: len as u32 }).write(
                FrameView::WindowUpdate { stream_id: 0, increment: len as u32 },
            )
        }
    }

    /// Whether DATA on the stream goes to its body reader.
    pub open spec fn accepts_data(self, id: u32) -> bool {
        self.streams.contains_key(id) && self.streams[id].request_started
            && !self.streams[id].remote_ended
    }

    /// A DATA frame, up to the point where its payload goes to the body reader
    /// (RFC 9113 Section 6.1). Empty frames that do not end the stream are
    /// ignored.
    pub open spec fn handle_data_frame(self, id: u32, end_stream: bool, len: nat) -> Self {
        if len == 0 && !end_stream {
            self
        } else {
            let restored = self.restore_windows(id, len);
            if self.accepts_data(id) {
                let stream = self.streams[id];
                restored.with_stream(
                    id,
                    StreamView {
                        data_sum: ((stream.data_sum + len) % 0x1_0000_0000_0000_0000) as u64,
                        ..stream
                    },
                )
            } else if self.streams.contains_key(id) {
                restored.stream_error(id, Reason::StreamClosed)
            } else if self.closed.contains(id) {
                restored.write(
                    FrameView::Reset { stream_id: id, error_code: Reason::StreamClosed.code() },
                )
            } else {
                restored.goaway(Reason::ProtocolError, "data on idle stream")
            }
        }
    }

    /// What became of a DATA payload that went to the body reader: where the
    /// reader is gone, so is the stream.
    pub open spec fn data_delivered(self, id: u32, end_stream: bool, delivered: bool) -> Self {
        if !delivered {
            self.retire(id)
        } else if end_stream {
            self.end_request_body(id)
        } else {
            self
        }
    }

    /// Whether the end of the request body is to be signalled to a reader.
    pub open spec fn signals_body_end(self, id: u32) -> bool {
        &&& self.streams.contains_key(id)
        &&& !self.streams[id].remote_ended
        &&& !self.body_length_wrong(id)
        &&& self.streams[id].has_body
    }

    /// Whether the end of the request body is to be signalled to a reader after a
    /// DATA payload, delivered or not.
    pub open spec fn signals_after_delivery(
        self,
        id: u32,
        end_stream: bool,
        delivered: bool,
    ) -> bool {
        delivered && end_stream && self.signals_body_end(id)
    }

    /// What became of the end of a request body: where the reader is gone, so is
    /// the stream.
    pub open spec fn body_end_delivered(self, id: u32, delivered: bool) -> Self {
        if delivered {
            self
        } else {
            self.retire(id)
        }
    }

    /// The stream's field block, with the decoder's count for its header list so
    /// far.
    pub open spec fn field_block(self, id: u32) -> Option<(Seq<u8>, usize)> {
        if self.streams.contains_key(id) {
            Some((self.streams[id].field_block, self.streams[id].header_list_size))
        } else {
            None
        }
    }

    /// The body that arrived is not as long as declared.
    pub open spec fn body_length_wrong(self, id: u32) -> bool {
        self.streams[id].content_length matches Some(declared) && self.streams[id].data_sum
            != declared
    }

    /// The request body ended: the request side is closed, and a body of the
    /// wrong length is a stream error (RFC 9113 Section 8.1.2.6).
    pub open spec fn end_request_body(self, id: u32) -> Self {
        if !self.streams.contains_key(id) || self.streams[id].remote_ended {
            self
        } else {
            let ended = self.with_stream(id, StreamView { remote_ended: true, ..self.streams[id] });
            if self.body_length_wrong(id) {
                ended.stream_error(id, Reason::ProtocolError)
            } else {
                ended
            }
        }
    }

    /// The peer has reset too many streams before they were accepted.
    pub open spec fn accept_budget_spent(self) -> bool {
        self.opts.max_pending_accept_reset_streams matches Some(max) && self.pending_accept_resets
            >= max
    }

    /// An RST_STREAM frame from the peer (RFC 9113 Section 5.1). Streams reset
    /// before their request was accepted are counted (Section 10.5.2).
    pub open spec fn handle_reset_frame(self, id: u32) -> Self {
        if !self.streams.contains_key(id) {
            if self.closed.contains(id) {
                self
            } else {
                self.goaway(Reason::ProtocolError, "rst on idle stream")
            }
        } else if self.streams[id].request_started {
            self.retire(id)
        } else if self.accept_budget_spent() {
            ConnectionView { streams: self.streams.remove(id), ..self }.goaway(
                Reason::EnhanceYourCalm,
                "too many resets before accept",
            )
        } else {
            ConnectionView {
                pending_accept_resets: one_more(self.pending_accept_resets),
                ..self
            }.retire(id)
        }
    }

    /// The reset code that the stream's task is told, if it is told any.
    pub open spec fn reset_notice(self, id: u32, error_code: u32) -> Option<u32> {
        if self.streams.contains_key(id) && !self.streams[id].remote_ended && (
        self.streams[id].request_started || !self.accept_budget_spent()) {
            Some(error_code)
        } else {
            None
        }
    }

    /// Every stream's send window moved by `delta`.
    pub open spec fn shift_windows(self, delta: int) -> Self {
        ConnectionView {
            streams: self.streams.map_values(
                |stream: StreamView|
                    StreamView { send_window: (stream.send_window + delta) as i64, ..stream },
            ),
            ..self
        }
    }

    /// Some stream's send window is beyond 2^31-1.
    pub open spec fn window_overflow(self) -> bool {
        exists|id: u32| #[trigger]
            self.streams.contains_key(id) && self.streams[id].send_window > 0x7fff_ffff
    }

    /// One of the peer's settings takes effect (RFC 9113 Section 6.5.2).
    pub open spec fn apply_setting(self, setting: Setting) -> Self {
        if setting.id == 0x01 {
            ConnectionView {
                peer: PeerSettings { header_table_size: setting.value, ..self.peer },
                ..self
            }
        } else if setting.id == 0x02 {
            ConnectionView {
                peer: PeerSettings { enable_push: setting.value, ..self.peer },
                ..self
            }
        } else if setting.id == 0x04 {
            let shifted = ConnectionView {
                peer: PeerSettings { initial_window_size: setting.value, ..self.peer },
                ..self
            }.shift_windows(setting.value - self.peer.initial_window_size);
            if shifted.window_overflow() {
                shifted.goaway(Reason::FlowControlError, "initial window overflow")
            } else {
                shifted
            }
        } else if setting.id == 0x05 {
            if setting.value < DEFAULT_MAX_FRAME_SIZE || setting.value > MAX_FRAME_SIZE_LIMIT {
                self.goaway(Reason::ProtocolError, "invalid SETTINGS_MAX_FRAME_SIZE")
            } else {
                ConnectionView {
                    peer: PeerSettings { max_frame_size: setting.value as usize, ..self.peer },
                    ..self
                }
            }
        } else if setting.id == 0x06 {
            ConnectionView {
                peer: PeerSettings { max_header_list_size: setting.value, ..self.peer },
                ..self
            }
        } else {
            self
        }
    }

    /// A SETTINGS_MAX_FRAME_SIZE outside the legal range, after which no
    /// setting of the frame takes effect.
    pub open spec fn setting_stops(setting: Setting) -> bool {
        setting.id == 0x05 && (setting.value < DEFAULT_MAX_FRAME_SIZE || setting.value
            > MAX_FRAME_SIZE_LIMIT)
    }

    /// The peer's settings take effect in order.
    pub open spec fn apply_peer_settings(self, settings: Seq<Setting>) -> Self
        decreases settings.len(),
    {
        if settings.len() == 0 {
            self
        } else if Self::setting_stops(settings[0]) {
            self.apply_setting(settings[0])
        } else {
            self.apply_setting(settings[0]).apply_peer_settings(
                settings.subrange(1, settings.len() as int),
            )
        }
    }

    /// A larger SETTINGS_INITIAL_WINDOW_SIZE than before has opened the windows of
    /// the streams, on a connection that goes on.
    pub open spec fn windows_opened(self, before: Self) -> bool {
        !self.closing && self.peer.initial_window_size > before.peer.initial_window_size
    }

    /// The header table sizes among the settings that take effect, in order.
    pub open spec fn table_sizes(settings: Seq<Setting>) -> Seq<u32>
        decreases settings.len(),
    {
        if settings.len() == 0 || Self::setting_stops(settings[0]) {
            Seq::empty()
        } else {
            let rest = Self::table_sizes(settings.subrange(1, settings.len() as int));
            if settings[0].id == 0x01 {
                seq![settings[0].value] + rest
            } else {
                rest
            }
        }
    }

    /// How much of the first queued chunk goes into one DATA frame: as much as
    /// both windows and the peer's frame size allow.
    pub open spec fn sendable(self, id: u32) -> int {
        let stream = self.streams[id];
        let len = stream.front_len() as int;
        let window = if self.conn_window < stream.send_window {
            self.conn_window as int
        } else {
            stream.send_window as int
        };
        let open = if len < window {
            len
        } else {
            window
        };
        if open < self.peer.max_frame_size {
            open
        } else {
            self.peer.max_frame_size as int
        }
    }

    /// There is data on the stream that may still be sent.
    pub open spec fn has_pending(self, id: u32) -> bool {
        self.streams.contains_key(id) && !self.streams[id].local_ended
            && self.streams[id].pending_data.len() > 0
    }

    /// A DATA frame can be sent now: an empty one always, others as far as the
    /// windows are open.
    pub open spec fn can_send(self, id: u32) -> bool {
        self.has_pending(id) && (self.streams[id].front_len() == 0 || self.sendable(id) > 0)
    }

    /// The first `amount` octets of the first queued chunk went out in a DATA
    /// frame. Where they end the stream and its task is done, the stream is
    /// retired.
    pub open spec fn sent(self, id: u32, amount: nat) -> Self {
        let stream = self.streams[id];
        let ends = stream.front_ends(amount);
        let after = StreamView { local_ended: ends, ..stream.front_taken(amount) };
        let written = ConnectionView {
            conn_window: (self.conn_window - amount) as i64,
            ..self
        }.write(
            FrameView::Data {
                stream_id: id,
                end_stream: ends,
                data: stream.pending_data[0].0.subrange(0, amount as int),
            },
        ).with_stream(id, after);
        if ends && stream.task_done {
            written.retire(id)
        } else {
            written
        }
    }

    /// How many chunks are queued on a stream.
    pub open spec fn queued(self, id: u32) -> nat {
        if self.streams.contains_key(id) {
            self.streams[id].pending_data.len()
        } else {
            0
        }
    }

    /// The length of the first chunk queued on a stream.
    pub open spec fn first_len(self, id: u32) -> nat {
        if self.streams.contains_key(id) {
            self.streams[id].front_len()
        } else {
            0
        }
    }

    /// What goes into the next DATA frame.
    pub open spec fn next_amount(self, id: u32) -> nat {
        if self.streams[id].front_len() == 0 {
            0
        } else {
            self.sendable(id) as nat
        }
    }

    /// Everything on the stream that the windows allow was sent.
    pub open spec fn pump_stream_data(self, id: u32) -> Self
        decreases self.queued(id), self.first_len(id),
    {
        if self.can_send(id) {
            self.sent(id, self.next_amount(id)).pump_stream_data(id)
        } else {
            self
        }
    }

    /// How much of the first queued chunk goes into a DATA frame under deficit
    /// round-robin: no more than the stream's deficit either.
    pub open spec fn sendable_drr(self, id: u32) -> int {
        let deficit = self.streams[id].deficit as int;
        if self.sendable(id) < deficit {
            self.sendable(id)
        } else {
            deficit
        }
    }

    /// One DATA frame was sent within the stream's deficit, after all the empty
    /// ones before it.
    pub open spec fn pump_stream_data_drr(self, id: u32) -> Self
        decreases self.queued(id),
    {
        if !self.has_pending(id) {
            self
        } else if self.streams[id].front_len() == 0 {
            self.sent(id, 0).pump_stream_data_drr(id)
        } else if self.sendable_drr(id) <= 0 {
            self
        } else {
            let amount = self.sendable_drr(id) as nat;
            self.with_stream(
                id,
                StreamView {
                    deficit: (self.streams[id].deficit - amount) as usize,
                    ..self.streams[id]
                },
            ).sent(id, amount)
        }
    }

    /// A round-robin visit serves the stream.
    pub open spec fn visit_serves(self, id: u32) -> bool {
        self.has_pending(id) && self.streams[id].send_window > 0
    }

    /// The stream's turn: its deficit grows by a quantum, the peer's frame
    /// size, and one frame goes out within it.
    pub open spec fn visit(self, id: u32) -> Self {
        let stream = self.streams[id];
        let deficit = stream.deficit + self.peer.max_frame_size;
        self.with_stream(
            id,
            StreamView {
                deficit: if deficit > usize::MAX {
                    usize::MAX
                } else {
                    deficit as usize
                },
                ..stream
            },
        ).pump_stream_data_drr(id)
    }

    /// One round over the streams in the given order, until the connection
    /// window closes: the connection afterwards and the streams that still have
    /// data.
    pub open spec fn round(self, ids: Seq<u32>) -> (Self, Seq<u32>)
        decreases ids.len(),
    {
        if ids.len() == 0 {
            (self, Seq::empty())
        } else {
            let rest = ids.subrange(1, ids.len() as int);
            if !self.visit_serves(ids[0]) {
                self.round(rest)
            } else {
                let visited = self.visit(ids[0]);
                let kept = if visited.has_pending(ids[0]) {
                    seq![ids[0]]
                } else {
                    Seq::empty()
                };
                if visited.conn_window <= 0 {
                    (visited, kept)
                } else {
                    let (end, more) = visited.round(rest);
                    (end, kept + more)
                }
            }
        }
    }

    /// Rounds over the streams until the connection window closes, no stream
    /// has data, or a round sends nothing.
    pub open spec fn rounds(self, ids: Seq<u32>) -> Self
        decreases self.conn_window,
    {
        if self.conn_window <= 0 || ids.len() == 0 {
            self
        } else {
            let (after, more) = self.round(ids);
            if 0 <= after.conn_window < self.conn_window {
                after.rounds(more)
            } else {
                after
            }
        }
    }

    /// The streams with data to send, each once, in some order.
    pub open spec fn lists_pending(self, ids: Seq<u32>) -> bool {
        &&& ids.no_duplicates()
        &&& forall|id: u32| #[trigger] ids.contains(id) <==> self.has_pending(id)
    }

    /// A WINDOW_UPDATE for the whole connection takes effect before any data is
    /// sent: a window beyond 2^31-1 is a connection error (RFC 9113 Section
    /// 6.9.1).
    pub open spec fn connection_window_grows(self, increment: u32) -> bool {
        increment > 0 && self.conn_window + increment <= 0x7fff_ffff
    }

    /// A WINDOW_UPDATE for one stream, with the data that it lets through.
    pub open spec fn stream_window_update(self, id: u32, increment: u32) -> Self {
        if increment == 0 {
            self
        } else if !self.streams.contains_key(id) {
            if self.closed.contains(id) {
                self
            } else {
                self.goaway(Reason::ProtocolError, "window update on idle stream")
            }
        } else if self.streams[id].send_window + increment > 0x7fff_ffff {
            self.stream_error(id, Reason::FlowControlError)
        } else {
            self.with_stream(
                id,
                StreamView {
                    send_window: (self.streams[id].send_window + increment) as i64,
                    ..self.streams[id]
                },
            ).pump_stream_data(id)
        }
    }

    /// A WINDOW_UPDATE for the connection, with the data that it lets through
    /// when the streams are served in the order `ids`.
    pub open spec fn connection_window_update(self, increment: u32, ids: Seq<u32>) -> Self {
        if increment == 0 {
            self
        } else if !self.connection_window_grows(increment) {
            self.goaway(Reason::FlowControlError, "connection window overflow")
        } else {
            ConnectionView {
                conn_window: (self.conn_window + increment) as i64,
                ..self
            }.rounds(ids)
        }
    }

    /// The stream's field block was taken to be decoded.
    pub open spec fn block_taken(self, id: u32) -> Self {
        if self.streams.contains_key(id) {
            self.with_stream(id, StreamView { field_block: Seq::empty(), ..self.streams[id] })
        } else {
            self
        }
    }

    /// The decoder's count for the stream's header list was noted.
    pub open spec fn list_size_noted(self, id: u32, header_list_size: usize) -> Self {
        self.with_stream(id, StreamView { header_list_size, ..self.streams[id] })
    }

    /// A trailer section arrived, well-formed or not: a second one, or one that
    /// does not end the stream, is a stream error (RFC 9113 Section 8.1).
    pub open spec fn trailers_arrived(self, id: u32, well_formed: bool) -> Self {
        let stream = self.streams[id];
        if !well_formed || stream.trailers_seen {
            self.stream_error(id, Reason::ProtocolError)
        } else {
            let seen = self.with_stream(id, StreamView { trailers_seen: true, ..stream });
            if !stream.pending_end_stream {
                seen.stream_error(id, Reason::ProtocolError)
            } else {
                seen
            }
        }
    }

    /// Whether the trailers go to the body reader.
    pub open spec fn delivers_trailers(self, id: u32, well_formed: bool) -> bool {
        well_formed && !self.streams[id].trailers_seen && self.streams[id].pending_end_stream
    }

    /// A request's field block arrived, well-formed or not. Where no DATA
    /// follows, the request body ends now.
    pub open spec fn request_arrived(self, id: u32, well_formed: bool) -> Self {
        if !well_formed {
            self.stream_error(id, Reason::ProtocolError)
        } else if self.streams[id].pending_end_stream {
            self.end_request_body(id)
        } else {
            self
        }
    }

    /// The field block could not be decoded: a header list beyond the limit is a
    /// stream error (RFC 9113 Section 10.5.1), other compression errors are
    /// connection errors (Section 4.3).
    pub open spec fn block_undecodable(self, id: u32, too_large: bool) -> Self {
        if too_large {
            self.stream_error(id, Reason::ProtocolError)
        } else {
            self.goaway(Reason::CompressionError, "hpack decode error")
        }
    }

    /// The request goes to the handler, unless it ended without delivering its
    /// declared body, which is a stream error (RFC 9113 Section 8.1.2.6).
    pub open spec fn spawn_request(
        self,
        id: u32,
        end_stream: bool,
        content_length: Option<u64>,
    ) -> Self {
        if !self.streams.contains_key(id) {
            self
        } else {
            let started = StreamView {
                request_started: true,
                content_length,
                ..self.streams[id]
            };
            if Self::body_missing(end_stream, content_length) {
                self.with_stream(id, started).stream_error(id, Reason::ProtocolError)
            } else {
                self.with_stream(id, StreamView { remote_ended: end_stream, ..started })
            }
        }
    }

    /// A body was declared but the stream ended without one.
    pub open spec fn body_missing(end_stream: bool, content_length: Option<u64>) -> bool {
        end_stream && (content_length matches Some(declared) && declared != 0)
    }

    /// A response field block was written, split at the peer's frame size.
    pub open spec fn write_field_block(self, id: u32, end_stream: bool, block: Seq<u8>) -> Self {
        ConnectionView {
            out: self.out + writer::field_block_wire(
                id,
                end_stream,
                self.peer.max_frame_size as nat,
                block,
            ),
            ..self
        }
    }

    /// Whether response headers of the stream still go out.
    pub open spec fn takes_response(self, id: u32) -> bool {
        !self.streams.contains_key(id) || self.streams[id].response_open()
    }

    /// Final response headers were produced.
    pub open spec fn response_started(self, id: u32, end_stream: bool) -> Self {
        if self.streams.contains_key(id) && self.streams[id].response_open() {
            self.with_stream(id, StreamView { local_ended: end_stream, ..self.streams[id] })
        } else {
            self
        }
    }

    /// A chunk of the response body was produced: it is queued and sent as far
    /// as the windows allow. A stream whose window never opens is given up.
    pub open spec fn response_data(self, id: u32, data: Seq<u8>, end_stream: bool) -> Self {
        if !self.streams.contains_key(id) || !self.streams[id].response_open() {
            self
        } else if self.streams[id].pending_data.len() >= MAX_PENDING_CHUNKS {
            self.stream_error(id, Reason::InternalError)
        } else {
            self.with_stream(
                id,
                StreamView {
                    pending_data: self.streams[id].pending_data.push((data, end_stream)),
                    ..self.streams[id]
                },
            ).pump_stream_data(id)
        }
    }

    /// Whether response trailers of the stream go out at once.
    pub open spec fn takes_trailers(self, id: u32) -> bool {
        self.streams.contains_key(id) && self.streams[id].response_open()
            && self.streams[id].pending_data.len() == 0
    }

    /// Response trailers were produced: they end the response. While data is
    /// queued they wait for it.
    pub open spec fn response_trailers(
        self,
        id: u32,
        trailers: Map<Seq<u8>, Seq<Seq<u8>>>,
    ) -> Self {
        if self.takes_trailers(id) {
            self.with_stream(id, StreamView { local_ended: true, ..self.streams[id] })
        } else if self.streams.contains_key(id) && self.streams[id].response_open() {
            self.with_stream(id, StreamView { trailers: Some(trailers), ..self.streams[id] })
        } else {
            self
        }
    }

    /// Trailers have waited for the queued data, and it is all sent.
    pub open spec fn trailers_due(self, id: u32) -> bool {
        &&& self.streams.contains_key(id)
        &&& !self.streams[id].local_ended
        &&& self.streams[id].trailers is Some
        &&& self.streams[id].pending_data.len() == 0
    }

    /// The trailers that waited go out and end the response. Where its producer
    /// has finished, the stream is retired.
    pub open spec fn trailers_released(self, id: u32) -> Self {
        let stream = self.streams[id];
        let released = self.with_stream(
            id,
            StreamView { local_ended: true, trailers: None, ..stream },
        );
        if stream.task_done {
            released.retire(id)
        } else {
            released
        }
    }

    /// The response failed: the stream is reset.
    pub open spec fn response_reset(self, id: u32, error_code: u32) -> Self {
        self.write(FrameView::Reset { stream_id: id, error_code }).retire(id)
    }

    /// The response producer has finished. Where the response is not all sent
    /// yet, the stream stays until the windows let the rest through.
    pub open spec fn response_closed(self, id: u32) -> Self {
        if !self.streams.contains_key(id) {
            self
        } else {
            let done = self.with_stream(id, StreamView { task_done: true, ..self.streams[id] });
            if self.streams[id].local_ended {
                done.retire(id)
            } else {
                done
            }
        }
    }

    /// The options are applied, before the handshake.
    pub open spec fn configured(self, options: ConnectionOptions) -> Self {
        ConnectionView {
            opts: options,
            decoder: DecoderView {
                max_frame_size: options.max_frame_size as usize,
                ..self.decoder
            },
            conn_window: options.initial_connection_window_size as i64,
            ..self
        }
    }

    /// The connection's own preface: its SETTINGS (RFC 9113 Sections 3.5 and
    /// 6.5.2).
    pub open spec fn announce(self) -> Self {
        self.write(
            FrameView::Settings {
                ack: false,
                settings: seq![
                    Setting { id: 0x03, value: self.opts.max_concurrent_streams },
                    Setting { id: 0x04, value: self.opts.initial_stream_window_size },
                    Setting { id: 0x05, value: self.opts.max_frame_size },
                    Setting {
                        id: 0x08,
                        value: if self.opts.enable_connect_protocol {
                            1
                        } else {
                            0
                        },
                    },
                ],
            },
        )
    }
}

} // verus!
