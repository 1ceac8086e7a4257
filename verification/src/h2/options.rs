//! HTTP/2 server configuration.

use std::time::Duration;

use vstd::prelude::*;

use super::codec::{
    DEFAULT_CONNECTION_WINDOW_SIZE, DEFAULT_INITIAL_WINDOW_SIZE, DEFAULT_MAX_FRAME_SIZE,
};
use crate::time::{self, duration_from_secs};

verus! {

/// HTTP/2 server configuration.
///
/// Build one with [`Http2Options::default`] and override individual fields with
/// the builder methods.
///
/// Unlike the framing/header limits below, the connection window settings
/// ([`initial_stream_window_size`](Http2Options::initial_stream_window_size) and
/// [`initial_connection_window_size`](Http2Options::initial_connection_window_size))
/// are advisory: a client may shrink them with its own `SETTINGS`, and the
/// server honours the smaller value.
#[derive(Debug, Clone)]
pub struct Http2Options {
    /// Max time to wait for the client's preface before giving up.
    pub handshake_timeout: Option<Duration>,
    /// Send a `100 Continue` response as soon as a request's headers arrive,
    /// before its body has been fully read.
    pub send_continue_response: bool,
    /// Insert a `Date` header into every response when absent.
    pub send_date_header: bool,
    /// Maximum number of concurrent streams the server allows.
    pub max_concurrent_streams: u32,
    /// Initial per-stream flow-control window the server advertises.
    pub initial_stream_window_size: u32,
    /// Initial connection-level flow-control window the server uses.
    pub initial_connection_window_size: u32,
    /// Largest frame payload the server will send or receive.
    pub max_frame_size: u32,
    /// Largest uncompressed header list the server will accept.
    pub max_header_list_size: u32,
    /// Whether to enable Extended CONNECT.
    pub enable_connect_protocol: bool,
    /// Close a connection after this long with no frame from the peer (RFC 9113
    /// Section 10.5). `None` disables the idle timeout.
    pub idle_timeout: Option<Duration>,
    /// Maximum number of RST_STREAM frames this endpoint sends in response to
    /// protocol errors made by the peer across the lifetime of the connection.
    /// `None` disables the limit.
    pub max_local_error_reset_streams: Option<usize>,
    /// Maximum number of streams the peer reset before this endpoint accepted
    /// them (their request was never dispatched). `None` disables the limit.
    pub max_pending_accept_reset_streams: Option<usize>,
    /// Maximum number of frames that may make up a single, not-yet-finalized
    /// header field block (HEADERS or PUSH_PROMISE without END_HEADERS followed
    /// by CONTINUATION frames). A peer that keeps a field block open across more
    /// frames than this is running a CONTINUATION flood (CVE-2024-27919 et al.)
    /// and the offending stream is reset with `RST_STREAM` `PROTOCOL_ERROR`.
    /// `None` selects a safe default derived from `max_header_list_size` /
    /// `max_frame_size` plus a packing buffer.
    pub max_continuation_frames: Option<usize>,
}

/// The options of a server that configures nothing.
pub open spec fn default_options() -> Http2Options {
    Http2Options {
        handshake_timeout: Some(time::seconds(10)),
        send_continue_response: true,
        send_date_header: true,
        max_concurrent_streams: 200,
        initial_stream_window_size: DEFAULT_INITIAL_WINDOW_SIZE,
        initial_connection_window_size: DEFAULT_CONNECTION_WINDOW_SIZE,
        max_frame_size: DEFAULT_MAX_FRAME_SIZE as u32,
        max_header_list_size: 16_384,
        enable_connect_protocol: false,
        idle_timeout: None,
        max_local_error_reset_streams: Some(1024),
        max_pending_accept_reset_streams: Some(20),
        max_continuation_frames: None,
    }
}

impl Default for Http2Options {
    fn default() -> (options: Self)
        ensures
            options == default_options(),
    {
        Http2Options {
            handshake_timeout: Some(duration_from_secs(10)),
            send_continue_response: true,
            send_date_header: true,
            max_concurrent_streams: 200,
            initial_stream_window_size: DEFAULT_INITIAL_WINDOW_SIZE,
            // RFC 9113 Section 6.9.1: the connection send window starts at
            // 65535; the peer raises it with WINDOW_UPDATE. Do not raise this
            // without also sending a WINDOW_UPDATE that advertises the larger
            // receive window, or the peer will treat our sends as a
            // flow-control violation.
            initial_connection_window_size: DEFAULT_CONNECTION_WINDOW_SIZE,
            max_frame_size: DEFAULT_MAX_FRAME_SIZE as u32,
            max_header_list_size: 16_384,
            enable_connect_protocol: false,
            idle_timeout: None,
            max_local_error_reset_streams: Some(1024),
            max_pending_accept_reset_streams: Some(20),
            max_continuation_frames: None,
        }
    }
}

impl Http2Options {
    /// Sets the maximum time to wait for a client to send the HTTP/2 preface
    /// before aborting the connection.
    pub fn handshake_timeout(self, handshake_timeout: Option<Duration>) -> (options: Self)
        ensures
            options == (Http2Options { handshake_timeout, ..self }),
    {
        Http2Options { handshake_timeout, ..self }
    }

    /// Sends `100 Continue` responses automatically when a request has a body.
    ///
    /// Defaults to `true`.
    pub fn send_continue_response(self, send_continue_response: bool) -> (options: Self)
        ensures
            options == (Http2Options { send_continue_response, ..self }),
    {
        Http2Options { send_continue_response, ..self }
    }

    /// Inserts a `Date` header into responses that lack one.
    ///
    /// Defaults to `true`.
    pub fn send_date_header(self, send_date_header: bool) -> (options: Self)
        ensures
            options == (Http2Options { send_date_header, ..self }),
    {
        Http2Options { send_date_header, ..self }
    }

    /// Sets the maximum number of concurrent streams allowed on a connection.
    ///
    /// Defaults to `200`.
    pub fn max_concurrent_streams(self, max_concurrent_streams: u32) -> (options: Self)
        ensures
            options == (Http2Options { max_concurrent_streams, ..self }),
    {
        Http2Options { max_concurrent_streams, ..self }
    }

    /// Sets the initial per-stream flow-control window size advertised to the
    /// client. Defaults to `1_048_576`.
    pub fn initial_stream_window_size(self, initial_stream_window_size: u32) -> (options: Self)
        ensures
            options == (Http2Options { initial_stream_window_size, ..self }),
    {
        Http2Options { initial_stream_window_size, ..self }
    }

    /// Sets the initial connection-level flow-control window size. Defaults to
    /// `65_535`, where the connection window of HTTP/2 starts.
    pub fn initial_connection_window_size(self, initial_connection_window_size: u32) -> (options: Self)
        ensures
            options == (Http2Options { initial_connection_window_size, ..self }),
    {
        Http2Options { initial_connection_window_size, ..self }
    }

    /// Sets the maximum frame size the server will send or receive. Defaults to
    /// the RFC 9113 default (`16_384`); must not exceed `2^24 - 1`.
    pub fn max_frame_size(self, max_frame_size: u32) -> (options: Self)
        ensures
            options == (Http2Options { max_frame_size, ..self }),
    {
        Http2Options { max_frame_size, ..self }
    }

    /// Sets the maximum size of an uncompressed header list the server will
    /// accept. Defaults to `16_384`.
    pub fn max_header_list_size(self, max_header_list_size: u32) -> (options: Self)
        ensures
            options == (Http2Options { max_header_list_size, ..self }),
    {
        Http2Options { max_header_list_size, ..self }
    }

    /// Sets whether to enable the Extended CONNECT protocol, allowing for example
    /// for tunneling WebSockets over HTTP/2. Defaults to `false`.
    pub fn enable_connect_protocol(self, enable: bool) -> (options: Self)
        ensures
            options == (Http2Options { enable_connect_protocol: enable, ..self }),
    {
        Http2Options { enable_connect_protocol: enable, ..self }
    }

    /// Sets the idle timeout: a connection that receives no frame from the peer
    /// for this long is closed gracefully with a `GOAWAY` (RFC 9113 Section
    /// 10.5). Defaults to `None` (no idle timeout).
    pub fn idle_timeout(self, idle_timeout: Option<Duration>) -> (options: Self)
        ensures
            options == (Http2Options { idle_timeout, ..self }),
    {
        Http2Options { idle_timeout, ..self }
    }

    /// Sets the maximum number of RST_STREAM frames this endpoint sends in
    /// response to protocol errors made by the peer across the lifetime of the
    /// connection. When the peer keeps producing protocol errors past this many
    /// local resets, the connection is closed with a GOAWAY of type
    /// `ENHANCE_YOUR_CALM` (RFC 9113 Section 10.5.2). `None` disables the limit.
    /// Defaults to `Some(1024)`.
    pub fn max_local_error_reset_streams(self, max: Option<usize>) -> (options: Self)
        ensures
            options == (Http2Options { max_local_error_reset_streams: max, ..self }),
    {
        Http2Options { max_local_error_reset_streams: max, ..self }
    }

    /// Sets the maximum number of streams the peer reset before this endpoint
    /// accepted them (their request was never dispatched) that may be counted at
    /// a time. When the peer keeps opening and resetting streams faster than they
    /// are consumed, the connection is closed with a GOAWAY of type
    /// `ENHANCE_YOUR_CALM` (RFC 9113 Section 10.5.2). `None` disables the limit.
    /// Defaults to `Some(20)`.
    pub fn max_pending_accept_reset_streams(self, max: Option<usize>) -> (options: Self)
        ensures
            options == (Http2Options { max_pending_accept_reset_streams: max, ..self }),
    {
        Http2Options { max_pending_accept_reset_streams: max, ..self }
    }

    /// Sets the maximum number of frames that may compose a single header field
    /// block that has not yet been terminated by END_HEADERS. A field block is
    /// opened by a HEADERS (or PUSH_PROMISE) frame without END_HEADERS and
    /// continued by CONTINUATION frames. When a peer keeps one open past this
    /// many frames, it is a CONTINUATION flood and the stream is reset with
    /// `RST_STREAM` `PROTOCOL_ERROR`.
    ///
    /// `None` (the default) computes a safe bound automatically: the configured
    /// `max_header_list_size` divided by `max_frame_size`, plus a ~20% packing
    /// buffer and a fixed slack of 10 frames. This is enough for any
    /// honestly-packed header block while catching floods that never close the
    /// block.
    ///
    /// Defaults to `None`.
    pub fn max_continuation_frames(self, max: Option<usize>) -> (options: Self)
        ensures
            options == (Http2Options { max_continuation_frames: max, ..self }),
    {
        Http2Options { max_continuation_frames: max, ..self }
    }

    /// The number of frames that a header field block may span: the configured
    /// one, or else the safe bound that
    /// [`max_continuation_frames`](Http2Options::max_continuation_frames)
    /// describes.
    pub fn continuation_frame_limit(&self) -> (limit: usize)
        requires
            self.max_continuation_frames is None ==> self.max_frame_size > 0,
        ensures
            limit == continuation_frame_limit(*self),
    {
        match self.max_continuation_frames {
            Some(max) => max,
            None => {
                let limit = safe_frame_limit(self.max_header_list_size, self.max_frame_size);
                if limit > usize::MAX as u64 {
                    usize::MAX
                } else {
                    limit as usize
                }
            },
        }
    }
}

/// The frames that a header list of the given size fills, a fifth of them for
/// packing, and ten more.
pub open spec fn safe_frames(max_header_list_size: u32, max_frame_size: u32) -> int {
    let full = max_header_list_size as int / max_frame_size as int;
    full + full / 5 + 10
}

/// The number of frames that a header field block may span.
pub open spec fn continuation_frame_limit(options: Http2Options) -> usize {
    match options.max_continuation_frames {
        Some(max) => max,
        None => {
            let frames = safe_frames(options.max_header_list_size, options.max_frame_size);
            if frames <= usize::MAX {
                frames as usize
            } else {
                usize::MAX
            }
        },
    }
}

/// The frames that a header list of the given size fills, with some to spare.
fn safe_frame_limit(max_header_list_size: u32, max_frame_size: u32) -> (limit: u64)
    requires
        max_frame_size > 0,
    ensures
        limit == safe_frames(max_header_list_size, max_frame_size),
{
    let full: u32 = max_header_list_size / max_frame_size;
    full as u64 + (full / 5) as u64 + 10
}

/// A server that configures nothing sends what RFC 9113 has a client expect, and is
/// protected: its windows and frame sizes are legal, the connection window is that
/// of the protocol, a client that does not speak is given up, resets are budgeted,
/// and a header list of the largest size fits into the frames that it may span. A
/// connection is not closed for being idle.
pub proof fn defaults_are_safe()
    ensures
        ({
            let options = default_options();
            let limit = continuation_frame_limit(options);
            &&& 16_384 <= options.max_frame_size <= 16_777_215
            &&& options.initial_connection_window_size == 65_535
            &&& 65_535 <= options.initial_stream_window_size <= 0x7fff_ffff
            &&& options.handshake_timeout is Some
            &&& options.idle_timeout is None
            &&& options.max_local_error_reset_streams is Some
            &&& options.max_local_error_reset_streams->0 > 0
            &&& options.max_pending_accept_reset_streams is Some
            &&& options.max_pending_accept_reset_streams->0 > 0
            &&& options.max_header_list_size <= limit * options.max_frame_size
            &&& options.send_continue_response
            &&& options.send_date_header
            &&& !options.enable_connect_protocol
            &&& options.max_concurrent_streams >= 100
        }),
{
}

/// A field block of the largest header list, in frames of the largest size, stays
/// within the limit, however the two are configured, and one that uses up to a
/// fifth more frames does too; a limit that is configured is the limit.
pub proof fn header_lists_fit_the_limit(options: Http2Options, frames: nat)
    requires
        options.max_frame_size > 0,
        options.max_continuation_frames is None,
        safe_frames(options.max_header_list_size, options.max_frame_size) <= usize::MAX,
    ensures
        ({
            let limit = continuation_frame_limit(options);
            &&& options.max_header_list_size <= limit * options.max_frame_size
            &&& frames * options.max_frame_size <= options.max_header_list_size ==> frames + frames
                / 5 <= limit
            &&& limit >= 10
        }),
{
    let list = options.max_header_list_size as int;
    let size = options.max_frame_size as int;
    let full = list / size;
    let limit = continuation_frame_limit(options) as int;
    assert(list < (full + 1) * size) by (nonlinear_arith)
        requires
            size > 0,
            list >= 0,
            full == list / size,
    ;
    assert((full + 1) * size <= limit * size) by (nonlinear_arith)
        requires
            full + 1 <= limit,
            size > 0,
    ;
    if frames * options.max_frame_size <= options.max_header_list_size {
        assert(frames <= full) by (nonlinear_arith)
            requires
                frames * size <= list,
                size > 0,
                full == list / size,
        ;
    }
}

} // verus!
