//! HTTP/2 connection (RFC 9113 Sections 3.5, 5.1, 6.5, 8.1).

pub mod draining;
pub mod drive;
pub mod flow;
pub mod handlers;
pub mod handling;
pub mod laws;
pub mod model;
pub mod ordering;
pub mod progress;
pub mod requests;
pub mod responses;
pub mod serving;
pub mod settings;
pub mod windows;

use std::collections::VecDeque;
use std::time::Duration;

use rustc_hash::{FxHashMap, FxHashSet};
use vstd::prelude::*;

use super::codec::model::DecoderView;
use super::codec::{
    FrameDecoder, FrameWriter, DEFAULT_CONNECTION_WINDOW_SIZE, DEFAULT_INITIAL_WINDOW_SIZE,
    DEFAULT_MAX_FRAME_SIZE,
};
use super::stream::{StreamEntry, StreamView};
pub use drive::{Effect, Event, Next, ReadFailure, Step, Verdict};
pub use requests::{Dispatch, FieldBlockError, FieldBlockOutcome};
pub use responses::{merge_end_stream, FieldBlock, StreamMsg};

use crate::fx::{map_new, set_new};
use model::ConnectionView;

verus! {

/// Per-connection behavior options.
#[derive(Debug, Clone, Copy)]
pub struct ConnectionOptions {
    /// Answer requests with `100 Continue` when they carry
    /// `expect: 100-continue`.
    pub send_continue_response: bool,
    /// Add a `Date` header to responses.
    pub send_date_header: bool,
    /// `SETTINGS_MAX_CONCURRENT_STREAMS` announced to the peer.
    pub max_concurrent_streams: u32,
    /// `SETTINGS_INITIAL_WINDOW_SIZE`: per-stream DATA credit we start with.
    pub initial_stream_window_size: u32,
    /// Connection-level DATA credit we start with (RFC 9113 Section 6.9.1).
    pub initial_connection_window_size: u32,
    /// Largest frame (payload) we send or receive (`SETTINGS_MAX_FRAME_SIZE`).
    pub max_frame_size: u32,
    /// Largest decoded header list we accept (`SETTINGS_MAX_HEADER_LIST_SIZE`).
    pub max_header_list_size: u32,
    /// Whether to enable Extended CONNECT.
    pub enable_connect_protocol: bool,
    /// Close the connection after this long with no frame from the peer (RFC
    /// 9113 Section 10.5). `None` disables the idle timeout.
    pub idle_timeout: Option<Duration>,
    /// Maximum number of RST_STREAM frames we send in response to protocol
    /// errors made by the peer over the connection's lifetime. `None` disables
    /// the limit; when it is exceeded the connection closes with GOAWAY
    /// `ENHANCE_YOUR_CALM` (RFC 9113 Section 10.5.2).
    pub max_local_error_reset_streams: Option<usize>,
    /// Maximum number of streams the peer reset before we accepted them. `None`
    /// disables the limit; when it is exceeded the connection closes with
    /// GOAWAY `ENHANCE_YOUR_CALM` (RFC 9113 Section 10.5.2).
    pub max_pending_accept_reset_streams: Option<usize>,
    /// Maximum number of frames that may compose a single, not-yet-finalized
    /// header field block (HEADERS/CONTINUATION). Beyond this a stream is reset
    /// as a CONTINUATION flood (CVE-2024-27919).
    pub max_continuation_frames: usize,
}

impl Default for ConnectionOptions {
    fn default() -> (options: Self)
        ensures
            options == (ConnectionOptions {
                send_continue_response: false,
                send_date_header: true,
                max_concurrent_streams: 100,
                initial_stream_window_size: DEFAULT_INITIAL_WINDOW_SIZE,
                initial_connection_window_size: DEFAULT_CONNECTION_WINDOW_SIZE,
                max_frame_size: DEFAULT_MAX_FRAME_SIZE as u32,
                max_header_list_size: u32::MAX,
                enable_connect_protocol: false,
                idle_timeout: None,
                max_local_error_reset_streams: Some(1024),
                max_pending_accept_reset_streams: Some(20),
                max_continuation_frames: 16,
            }),
    {
        ConnectionOptions {
            send_continue_response: false,
            send_date_header: true,
            max_concurrent_streams: 100,
            initial_stream_window_size: DEFAULT_INITIAL_WINDOW_SIZE,
            // RFC 9113 Section 6.9.1: it starts at 65535 and is raised only by
            // the peer's WINDOW_UPDATE.
            initial_connection_window_size: DEFAULT_CONNECTION_WINDOW_SIZE,
            max_frame_size: DEFAULT_MAX_FRAME_SIZE as u32,
            max_header_list_size: u32::MAX,
            enable_connect_protocol: false,
            idle_timeout: None,
            max_local_error_reset_streams: Some(1024),
            max_pending_accept_reset_streams: Some(20),
            max_continuation_frames: 16,
        }
    }
}

/// The peer's current SETTINGS values. Defaults are the RFC 9113 Section 6.5.2
/// initial values; they change as non-ACK SETTINGS frames arrive.
#[derive(Debug, Clone, Copy, PartialEq, Eq, Structural)]
pub struct PeerSettings {
    pub header_table_size: u32,
    pub enable_push: u32,
    pub initial_window_size: u32,
    pub max_frame_size: usize,
    /// Kept for the field block decoder's bomb protection.
    pub max_header_list_size: u32,
}

impl Default for PeerSettings {
    fn default() -> (settings: Self)
        ensures
            settings == (PeerSettings {
                header_table_size: 4096,
                enable_push: 1,
                initial_window_size: 65_535,
                max_frame_size: DEFAULT_MAX_FRAME_SIZE,
                max_header_list_size: u32::MAX,
            }),
    {
        PeerSettings {
            header_table_size: 4096,
            enable_push: 1,
            initial_window_size: 65_535,
            max_frame_size: DEFAULT_MAX_FRAME_SIZE,
            max_header_list_size: u32::MAX,
        }
    }
}

/// An HTTP/2 server connection, without its transport.
///
/// The caller reads from and writes to the transport: it hands what it reads to
/// [`Connection::receive`], performs what the connection asks for, and writes
/// [`Connection::out`].
#[derive(Debug)]
pub struct Connection {
    pub decoder: FrameDecoder,
    pub writer: FrameWriter,
    /// Octets that wait to be written.
    pub out: Vec<u8>,
    /// The peer's settings, updated by non-ACK SETTINGS frames.
    pub peer: PeerSettings,
    /// Bounds the wait for the client's 24-octet preface. A peer that is too
    /// slow is disconnected without a GOAWAY.
    pub preface_timeout: Option<Duration>,
    /// Active streams, keyed by stream id (RFC 9113 Section 5.1).
    pub streams: FxHashMap<u32, StreamEntry>,
    /// Connection-level send window for DATA payloads (RFC 9113 Section 6.9.1);
    /// initial 65,535 octets.
    pub conn_window: i64,
    /// Stream ids whose streams have ended (closed state per RFC 9113 Section
    /// 5.1); used to tell closed-stream frames apart from idle-stream frames.
    pub closed_streams: FxHashSet<u32>,
    /// LRU order for `closed_streams` to avoid bulk clear at the bound.
    pub closed_order: VecDeque<u32>,
    /// Behavior options for this connection.
    pub opts: ConnectionOptions,
    /// RST_STREAM frames this endpoint has sent in response to the peer's
    /// protocol errors (bounded by `opts.max_local_error_reset_streams`).
    pub local_error_resets: usize,
    /// Streams the peer reset before this endpoint accepted them (bounded by
    /// `opts.max_pending_accept_reset_streams`).
    pub pending_accept_resets: usize,
    /// Stream ids whose field block completed (END_HEADERS seen) and awaits
    /// finalization, in FIFO order for fairness.
    pub complete_blocks: VecDeque<u32>,
    /// Highest stream id opened by the peer (RFC 9113 Section 5.1.1).
    pub highest_stream_id: u32,
    /// A connection error is pending; the connection ends after its output is
    /// written.
    pub closing: bool,
    /// Graceful shutdown is in progress: the first GOAWAY is sent and we only
    /// drain already-open streams until they finish (RFC 9113 Section 6.8).
    pub graceful: bool,
    /// Last stream id advertised in the graceful-shutdown GOAWAY; peers must
    /// not open streams beyond it.
    pub graceful_last_stream: u32,
}

/// What the entries of a stream table hold.
pub open spec fn streams_view(streams: Map<u32, StreamEntry>) -> Map<u32, StreamView> {
    streams.map_values(|entry: StreamEntry| entry@)
}

impl View for Connection {
    type V = ConnectionView;

    open spec fn view(&self) -> ConnectionView {
        ConnectionView {
            decoder: self.decoder@,
            out: self.out@,
            peer: self.peer,
            preface_timeout: self.preface_timeout,
            streams: streams_view(self.streams@),
            conn_window: self.conn_window,
            closed: self.closed_order@,
            opts: self.opts,
            local_error_resets: self.local_error_resets,
            pending_accept_resets: self.pending_accept_resets,
            complete_blocks: self.complete_blocks@,
            highest_stream_id: self.highest_stream_id,
            closing: self.closing,
            graceful: self.graceful,
            graceful_last_stream: self.graceful_last_stream,
        }
    }
}

impl Connection {
    /// The parts agree, and the invariant holds.
    pub open spec fn wf(self) -> bool {
        &&& self.writer.max_frame_size == self.peer.max_frame_size
        &&& self.closed_streams@ == self.closed_order@.to_set()
        &&& self@.inv()
    }

    /// Creates a connection in the protocol's initial state: nothing has been
    /// read or written, the peer's settings are those of RFC 9113 Section 6.5.2,
    /// and the options are the default ones.
    pub fn new(preface_timeout: Option<Duration>) -> (connection: Connection)
        ensures
            connection.wf(),
            connection@ == (ConnectionView {
                decoder: DecoderView {
                    buf: Seq::empty(),
                    max_frame_size: DEFAULT_MAX_FRAME_SIZE,
                    block_stream: None,
                },
                out: Seq::empty(),
                peer: PeerSettings {
                    header_table_size: 4096,
                    enable_push: 1,
                    initial_window_size: 65_535,
                    max_frame_size: DEFAULT_MAX_FRAME_SIZE,
                    max_header_list_size: u32::MAX,
                },
                preface_timeout,
                streams: Map::empty(),
                conn_window: 65_535,
                closed: Seq::empty(),
                opts: ConnectionOptions {
                    send_continue_response: false,
                    send_date_header: true,
                    max_concurrent_streams: 100,
                    initial_stream_window_size: DEFAULT_INITIAL_WINDOW_SIZE,
                    initial_connection_window_size: DEFAULT_CONNECTION_WINDOW_SIZE,
                    max_frame_size: DEFAULT_MAX_FRAME_SIZE as u32,
                    max_header_list_size: u32::MAX,
                    enable_connect_protocol: false,
                    idle_timeout: None,
                    max_local_error_reset_streams: Some(1024),
                    max_pending_accept_reset_streams: Some(20),
                    max_continuation_frames: 16,
                },
                local_error_resets: 0,
                pending_accept_resets: 0,
                complete_blocks: Seq::empty(),
                highest_stream_id: 0,
                closing: false,
                graceful: false,
                graceful_last_stream: 0,
            }),
    {
        let connection = Connection {
            decoder: FrameDecoder::new(DEFAULT_MAX_FRAME_SIZE),
            writer: FrameWriter::new(DEFAULT_MAX_FRAME_SIZE),
            out: Vec::new(),
            peer: PeerSettings::default(),
            preface_timeout,
            streams: map_new(),
            conn_window: DEFAULT_CONNECTION_WINDOW_SIZE as i64,
            closed_streams: set_new(),
            closed_order: VecDeque::new(),
            opts: ConnectionOptions::default(),
            local_error_resets: 0,
            pending_accept_resets: 0,
            complete_blocks: VecDeque::new(),
            highest_stream_id: 0,
            closing: false,
            graceful: false,
            graceful_last_stream: 0,
        };
        assert(connection@.streams =~= Map::<u32, StreamView>::empty());
        assert(connection.closed_order@.to_set() =~= Set::<u32>::empty());
        connection
    }
}

} // verus!
