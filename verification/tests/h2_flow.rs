//! Flow control, budgets and streams of an HTTP/2 connection.

use std::collections::VecDeque;
use std::time::Duration;

use bytes::Bytes;
use http::HeaderMap;
use zincio_http::h2::codec::{
    Frame, FrameDecoder, FrameWriter, Setting, DEFAULT_INITIAL_WINDOW_SIZE,
    DEFAULT_MAX_FRAME_SIZE,
};
use zincio_http::h2::connection::{
    merge_end_stream, Connection, ConnectionOptions, Dispatch, Event, FieldBlockError,
    FieldBlockOutcome, Next, PeerSettings, ReadFailure, Step, StreamMsg, Verdict,
};
use zincio_http::h2::error::Reason;
use zincio_http::h2::options::Http2Options;
use zincio_http::h2::stream::{Header, StreamEntry};

fn connection() -> Connection {
    Connection::new(None)
}

/// The frames that wait to be written.
fn written(conn: &mut Connection) -> Vec<Frame> {
    let mut decoder = FrameDecoder::new(1 << 20);
    decoder.extend(&conn.take_output());
    let mut frames = Vec::new();
    while let Some(frame) = decoder.next_frame().unwrap() {
        frames.push(frame);
    }
    frames
}

fn open_stream(conn: &mut Connection, id: u32, send_window: i64) {
    let mut entry = StreamEntry::new();
    entry.request_started = true;
    entry.send_window = send_window;
    conn.streams.insert(id, entry);
}

fn data(len: usize, end_stream: bool) -> StreamMsg {
    StreamMsg::Data {
        data: Bytes::from(vec![7; len]),
        end_stream,
    }
}

fn sizes(frames: &[Frame]) -> Vec<(u32, usize, bool)> {
    frames
        .iter()
        .map(|f| match f {
            Frame::Data {
                stream_id,
                end_stream,
                data,
            } => (*stream_id, data.len(), *end_stream),
            other => panic!("unexpected frame {other:?}"),
        })
        .collect()
}

fn reset(id: u32, reason: Reason) -> Frame {
    Frame::Reset {
        stream_id: id,
        error_code: reason.code(),
    }
}

fn goaway(last_stream_id: u32, reason: Reason, debug: &'static str) -> Frame {
    Frame::GoAway {
        last_stream_id,
        error_code: reason.code(),
        debug: Bytes::from_static(debug.as_bytes()),
    }
}

fn request_fields() -> Vec<Header> {
    [
        (":method", "POST"),
        (":scheme", "https"),
        (":authority", "example.com"),
        (":path", "/"),
    ]
    .iter()
    .map(|(n, v)| Header::new(Bytes::from_static(n.as_bytes()), Bytes::from_static(v.as_bytes())))
    .collect()
}

#[test]
fn data_waits_for_the_stream_window() {
    let mut conn = connection();
    open_stream(&mut conn, 1, 10);
    assert!(conn.handle_stream_msg(1, data(25, true)).is_none());
    assert_eq!(sizes(&written(&mut conn)), [(1, 10, false)]);
    conn.handle_window_update(1, 20);
    assert_eq!(sizes(&written(&mut conn)), [(1, 15, true)]);
    assert!(conn.streams[&1].local_ended);
    assert_eq!(conn.conn_window, 65_535 - 25);
}

#[test]
fn data_is_cut_to_the_frame_size() {
    let mut conn = connection();
    open_stream(&mut conn, 1, 65_535);
    conn.handle_stream_msg(1, data(40_000, true));
    assert_eq!(
        sizes(&written(&mut conn)),
        [
            (1, DEFAULT_MAX_FRAME_SIZE, false),
            (1, DEFAULT_MAX_FRAME_SIZE, false),
            (1, 40_000 - 2 * DEFAULT_MAX_FRAME_SIZE, true),
        ]
    );
}

#[test]
fn pumping_again_sends_nothing() {
    let mut conn = connection();
    open_stream(&mut conn, 1, 10);
    conn.handle_stream_msg(1, data(25, true));
    written(&mut conn);
    conn.pump_stream_data(1);
    assert!(written(&mut conn).is_empty());
}

#[test]
fn the_connection_window_is_shared_fairly() {
    let mut conn = connection();
    conn.conn_window = 0;
    for id in [1, 3] {
        open_stream(&mut conn, id, 65_535);
        conn.handle_stream_msg(id, data(40_000, true));
    }
    assert!(written(&mut conn).is_empty());
    conn.handle_connection_window_update(50_000, vec![1, 3]);
    let frame = DEFAULT_MAX_FRAME_SIZE;
    assert_eq!(
        sizes(&written(&mut conn)),
        [
            (1, frame, false),
            (3, frame, false),
            (1, frame, false),
            (3, 50_000 - 3 * frame, false),
        ]
    );
    assert_eq!(conn.conn_window, 0);
    // The rest goes out in whatever order the streams are found.
    conn.handle_window_update(0, 60_000);
    let sent: usize = sizes(&written(&mut conn)).iter().map(|s| s.1).sum();
    assert_eq!(sent, 30_000);
    assert!(conn.streams.values().all(|s| s.local_ended));
}

#[test]
fn drained_streams_of_finished_tasks_are_retired() {
    let mut conn = connection();
    open_stream(&mut conn, 1, 0);
    conn.handle_stream_msg(1, data(5, true));
    conn.handle_stream_msg(1, StreamMsg::Closed);
    assert!(conn.streams.contains_key(&1));
    conn.handle_window_update(1, 5);
    assert_eq!(sizes(&written(&mut conn)), [(1, 5, true)]);
    assert!(!conn.streams.contains_key(&1));
    assert!(conn.closed_streams.contains(&1));
}

#[test]
fn too_many_waiting_chunks_reset_the_stream() {
    let mut conn = connection();
    conn.conn_window = 0;
    open_stream(&mut conn, 1, 0);
    for _ in 0..32 {
        conn.handle_stream_msg(1, data(1, false));
    }
    assert!(written(&mut conn).is_empty());
    conn.handle_stream_msg(1, data(1, false));
    assert_eq!(written(&mut conn), [reset(1, Reason::InternalError)]);
    // Giving up is not the peer's error.
    assert_eq!(conn.local_error_resets, 0);
}

#[test]
fn initial_window_changes_move_open_streams() {
    let mut conn = connection();
    open_stream(&mut conn, 1, 65_535 - 100);
    let sizes = conn.apply_peer_settings(&[
        Setting {
            id: 0x01,
            value: 1024,
        },
        Setting { id: 0x04, value: 50 },
        Setting {
            id: 0x01,
            value: 2048,
        },
    ]);
    assert_eq!(sizes, [1024, 2048]);
    assert_eq!(conn.streams[&1].send_window, -50);
    assert_eq!(conn.peer.initial_window_size, 50);
    conn.apply_peer_settings(&[Setting {
        id: 0x04,
        value: 65_535,
    }]);
    assert_eq!(conn.streams[&1].send_window, 65_535 - 100);
    assert!(written(&mut conn).is_empty());
}

#[test]
fn an_overflowing_initial_window_ends_the_connection() {
    let mut conn = connection();
    open_stream(&mut conn, 1, 65_536);
    conn.apply_peer_settings(&[Setting {
        id: 0x04,
        value: 0x7fff_ffff,
    }]);
    assert_eq!(
        written(&mut conn),
        [goaway(0, Reason::FlowControlError, "initial window overflow")]
    );
    assert!(conn.is_closing());
}

#[test]
fn frame_size_settings_apply_to_the_writer() {
    let mut conn = connection();
    conn.apply_peer_settings(&[Setting {
        id: 0x05,
        value: 20_000,
    }]);
    open_stream(&mut conn, 1, 65_535);
    conn.handle_stream_msg(1, data(20_001, false));
    assert_eq!(sizes(&written(&mut conn)), [(1, 20_000, false), (1, 1, false)]);
}

#[test]
fn received_data_is_granted_back() {
    let mut conn = connection();
    open_stream(&mut conn, 1, 0);
    let delivered = conn.handle_data_frame(1, false, Bytes::from_static(b"abc"));
    assert_eq!(delivered, Some(Bytes::from_static(b"abc")));
    assert_eq!(
        written(&mut conn),
        [
            Frame::WindowUpdate {
                stream_id: 1,
                increment: 3
            },
            Frame::WindowUpdate {
                stream_id: 0,
                increment: 3
            },
        ]
    );
    assert_eq!(conn.streams[&1].data_sum, 3);
    assert_eq!(conn.handle_data_frame(1, false, Bytes::new()), None);
    assert!(written(&mut conn).is_empty());
}

#[test]
fn data_on_streams_that_do_not_take_it() {
    // Idle.
    let mut conn = connection();
    assert_eq!(conn.handle_data_frame(1, true, Bytes::new()), None);
    assert_eq!(
        written(&mut conn),
        [goaway(0, Reason::ProtocolError, "data on idle stream")]
    );
    // Closed.
    let mut conn = connection();
    conn.mark_closed(1);
    assert_eq!(conn.handle_data_frame(1, true, Bytes::new()), None);
    assert_eq!(written(&mut conn), [reset(1, Reason::StreamClosed)]);
    assert!(!conn.is_closing());
    // Half closed.
    let mut conn = connection();
    open_stream(&mut conn, 1, 0);
    assert!(!conn.data_delivered(1, true, true));
    assert!(conn.streams[&1].remote_ended);
    assert_eq!(conn.handle_data_frame(1, true, Bytes::new()), None);
    assert_eq!(written(&mut conn), [reset(1, Reason::StreamClosed)]);
}

#[test]
fn bodies_must_be_as_long_as_declared() {
    let mut conn = connection();
    open_stream(&mut conn, 1, 0);
    let entry = conn.streams.get_mut(&1).unwrap();
    entry.content_length = Some(4);
    entry.data_sum = 3;
    assert!(!conn.end_request_body(1));
    assert_eq!(written(&mut conn), [reset(1, Reason::ProtocolError)]);

    let mut conn = connection();
    open_stream(&mut conn, 1, 0);
    let entry = conn.streams.get_mut(&1).unwrap();
    entry.content_length = Some(4);
    entry.data_sum = 4;
    entry.has_body = true;
    assert!(conn.end_request_body(1));
    assert!(written(&mut conn).is_empty());
    // A reader that is gone takes the stream with it.
    conn.body_end_delivered(1, false);
    assert!(conn.streams.is_empty());
}

#[test]
fn stream_ids_increase_and_are_odd() {
    let mut conn = connection();
    conn.handle_headers_frame(2, true, true, &[0x82]);
    assert_eq!(
        written(&mut conn),
        [goaway(0, Reason::ProtocolError, "headers on invalid stream")]
    );
    let mut conn = connection();
    conn.handle_headers_frame(5, true, true, &[0x82]);
    conn.handle_headers_frame(3, true, true, &[0x82]);
    assert_eq!(
        written(&mut conn),
        [goaway(5, Reason::ProtocolError, "non-increasing stream id")]
    );
}

#[test]
fn streams_beyond_the_limit_are_refused() {
    let mut conn = connection();
    conn.opts.max_concurrent_streams = 1;
    conn.handle_headers_frame(1, true, true, &[0x82]);
    conn.handle_headers_frame(3, true, true, &[0x82]);
    assert_eq!(written(&mut conn), [reset(3, Reason::RefusedStream)]);
    assert_eq!(conn.highest_stream_id, 3);
    assert_eq!(conn.streams.len(), 1);
}

#[test]
fn graceful_shutdown_takes_no_new_streams() {
    let mut conn = connection();
    conn.handle_headers_frame(1, true, true, &[0x82]);
    assert_eq!(conn.handle_event(Event::Shutdown), Verdict::Continue);
    assert_eq!(
        written(&mut conn),
        [goaway(1, Reason::NoError, "graceful shutdown")]
    );
    conn.handle_headers_frame(3, true, true, &[0x82]);
    assert!(!conn.streams.contains_key(&3));
    assert!(conn.goes_on(false));
    conn.streams.clear();
    assert!(!conn.goes_on(false));
    // Asking again says nothing.
    conn.handle_event(Event::Shutdown);
    assert!(written(&mut conn).is_empty());
}

#[test]
fn transport_failures_end_the_connection() {
    let mut conn = connection();
    assert_eq!(
        conn.handle_event(Event::ReadFailed(ReadFailure::Disconnected)),
        Verdict::Return
    );
    assert_eq!(
        conn.handle_event(Event::ReadFailed(ReadFailure::Other)),
        Verdict::Fail
    );
    open_stream(&mut conn, 1, 0);
    assert_eq!(
        conn.handle_event(Event::ReadFailed(ReadFailure::Disconnected)),
        Verdict::Fail
    );
    assert_eq!(conn.handle_event(Event::Closed), Verdict::Leave);
}

#[test]
fn continuations_need_a_stream() {
    let mut conn = connection();
    conn.handle_continuation(1, true, &[0x82]);
    assert_eq!(
        written(&mut conn),
        [goaway(0, Reason::ProtocolError, "continuation on unknown stream")]
    );
}

#[test]
fn resets_on_idle_streams_end_the_connection() {
    let mut conn = connection();
    assert_eq!(conn.handle_reset_frame(1, 8), None);
    assert_eq!(
        written(&mut conn),
        [goaway(0, Reason::ProtocolError, "rst on idle stream")]
    );
    let mut conn = connection();
    open_stream(&mut conn, 1, 0);
    assert_eq!(conn.handle_reset_frame(1, 8), Some(8));
    assert_eq!(conn.handle_reset_frame(1, 8), None);
    assert!(written(&mut conn).is_empty());
}

#[test]
fn the_oldest_closed_stream_is_forgotten() {
    let mut conn = connection();
    for id in 0..4096 {
        conn.mark_closed(2 * id + 1);
    }
    assert!(conn.closed_streams.contains(&1));
    conn.mark_closed(9001);
    assert_eq!(conn.closed_streams.len(), 4096);
    assert!(!conn.closed_streams.contains(&1));
    assert!(conn.closed_streams.contains(&9001));
}

#[test]
fn stream_errors_leave_other_streams_alone() {
    let mut conn = connection();
    open_stream(&mut conn, 1, 10);
    open_stream(&mut conn, 3, 20);
    conn.stream_error(1, Reason::ProtocolError);
    assert_eq!(written(&mut conn), [reset(1, Reason::ProtocolError)]);
    assert_eq!(conn.streams.len(), 1);
    assert_eq!(conn.streams[&3].send_window, 20);
    assert_eq!(conn.local_error_resets, 1);
}

#[test]
fn requests_are_dispatched() {
    let mut conn = connection();
    conn.opts.send_continue_response = true;
    conn.handle_headers_frame(1, false, true, &[1, 2, 3]);
    let Next::Decode {
        stream_id: 1,
        block,
        header_list_size: 0,
    } = conn.after_frame()
    else {
        panic!("a complete block is decoded");
    };
    assert_eq!(block, [1, 2, 3]);
    let mut fields = request_fields();
    fields.push(Header::new(
        Bytes::from_static(b"expect"),
        Bytes::from_static(b"100-continue"),
    ));
    let FieldBlockOutcome::Request {
        request,
        end_stream: false,
        signal_end: false,
    } = conn.finalize_field_block(1, Ok(fields), 77)
    else {
        panic!("the request is well formed");
    };
    assert_eq!(
        conn.spawn_request(1, false, &request),
        Some(Dispatch {
            with_body: true,
            send_continue: true,
            is_connect: false,
            send_date_header: true,
        })
    );
    assert_eq!(conn.streams[&1].header_list_size, 77);

    // Trailers end the body.
    conn.handle_headers_frame(1, true, true, &[4]);
    assert!(matches!(conn.after_frame(), Next::Decode { .. }));
    let trailer = Header::new(Bytes::from_static(b"x-sum"), Bytes::from_static(b"9"));
    match conn.finalize_field_block(1, Ok(vec![trailer]), 77) {
        FieldBlockOutcome::Trailers(trailers) => {
            assert_eq!(trailers.get("x-sum").unwrap(), "9");
        }
        other => panic!("unexpected outcome {other:?}"),
    }
    assert!(written(&mut conn).is_empty());
}

#[test]
fn blocks_that_cannot_be_decoded() {
    let mut conn = connection();
    conn.handle_headers_frame(1, true, true, &[1]);
    conn.after_frame();
    conn.finalize_field_block(1, Err(FieldBlockError::HeaderListTooLarge), 0);
    let frames = written(&mut conn);
    assert_eq!(frames.len(), 1);
    assert!(matches!(frames[0], Frame::Reset { stream_id: 1, .. }));
    assert!(!conn.is_closing());

    let mut conn = connection();
    conn.handle_headers_frame(1, true, true, &[1]);
    conn.after_frame();
    conn.finalize_field_block(1, Err(FieldBlockError::Compression), 0);
    assert!(matches!(
        written(&mut conn)[..],
        [Frame::GoAway { error_code: 0x9, .. }]
    ));
    assert!(conn.is_closing());
}

#[test]
fn a_bodyless_request_must_not_declare_a_body() {
    let mut conn = connection();
    conn.handle_headers_frame(1, true, true, &[1]);
    conn.after_frame();
    let mut fields = request_fields();
    fields.push(Header::new(
        Bytes::from_static(b"content-length"),
        Bytes::from_static(b"5"),
    ));
    let FieldBlockOutcome::Request {
        request,
        end_stream: true,
        ..
    } = conn.finalize_field_block(1, Ok(fields), 0)
    else {
        panic!("the fields are well formed");
    };
    assert_eq!(conn.spawn_request(1, true, &request), None);
    assert_eq!(written(&mut conn), [reset(1, Reason::ProtocolError)]);
}

#[test]
fn responses_become_field_blocks_and_data() {
    let mut conn = connection();
    open_stream(&mut conn, 1, 100);
    let mut headers = HeaderMap::new();
    headers.insert("content-type", "text/plain".parse().unwrap());
    headers.insert("connection", "close".parse().unwrap());
    let block = conn
        .handle_stream_msg(
            1,
            StreamMsg::Headers {
                status: 200,
                headers,
                end_stream: false,
            },
        )
        .unwrap();
    assert!(!block.end_stream);
    let fields: Vec<(Bytes, Bytes)> = block
        .fields
        .as_slice()
        .iter()
        .map(|f| (f.name.clone(), f.value.clone()))
        .collect();
    assert_eq!(
        fields,
        [
            (Bytes::from_static(b":status"), Bytes::from_static(b"200")),
            (
                Bytes::from_static(b"content-type"),
                Bytes::from_static(b"text/plain")
            ),
        ]
    );
    conn.write_field_block(1, block.end_stream, &[0x88]);
    conn.handle_stream_msg(1, data(3, false));
    let mut trailers = HeaderMap::new();
    trailers.insert("x-sum", "1".parse().unwrap());
    let block = conn
        .handle_stream_msg(1, StreamMsg::Trailers { trailers })
        .unwrap();
    assert!(block.end_stream);
    assert_eq!(block.fields.as_slice()[0].name, "x-sum");
    // Nothing follows the end of the stream.
    conn.handle_stream_msg(1, data(3, true));
    assert!(conn
        .handle_stream_msg(
            1,
            StreamMsg::Headers {
                status: 200,
                headers: HeaderMap::new(),
                end_stream: true
            }
        )
        .is_none());
    assert_eq!(written(&mut conn).len(), 2);
    conn.handle_stream_msg(1, StreamMsg::Closed);
    assert!(conn.streams.is_empty());
}

fn trailers(name: &'static str) -> StreamMsg {
    let mut trailers = HeaderMap::new();
    trailers.insert(name, "1".parse().unwrap());
    StreamMsg::Trailers { trailers }
}

#[test]
fn trailers_wait_for_queued_data() {
    let mut conn = connection();
    open_stream(&mut conn, 1, 4);
    conn.handle_stream_msg(1, data(10, false));
    assert_eq!(sizes(&written(&mut conn)), [(1, 4, false)]);
    assert!(conn.handle_stream_msg(1, trailers("x-sum")).is_none());
    // What is said after the trailers is dropped.
    assert!(conn.handle_stream_msg(1, trailers("x-late")).is_none());
    conn.handle_stream_msg(1, data(3, true));
    conn.handle_stream_msg(1, StreamMsg::Closed);
    assert!(conn.next_trailers().is_none());
    conn.handle_window_update(1, 5);
    assert_eq!(sizes(&written(&mut conn)), [(1, 5, false)]);
    assert!(conn.next_trailers().is_none());
    conn.handle_window_update(1, 5);
    assert_eq!(sizes(&written(&mut conn)), [(1, 1, false)]);
    let (id, block) = conn.next_trailers().unwrap();
    assert_eq!(id, 1);
    assert!(block.end_stream);
    assert_eq!(block.fields.as_slice().len(), 1);
    assert_eq!(block.fields.as_slice()[0].name, "x-sum");
    assert!(conn.streams.is_empty());
    assert!(conn.next_trailers().is_none());
}

#[test]
fn trailers_that_waited_end_an_open_stream() {
    let mut conn = connection();
    for id in [1, 3] {
        open_stream(&mut conn, id, 0);
        conn.handle_stream_msg(id, data(2, false));
        assert!(conn.handle_stream_msg(id, trailers("x-sum")).is_none());
        conn.handle_window_update(id, 2);
    }
    let mut ids = Vec::new();
    while let Some((id, block)) = conn.next_trailers() {
        assert!(block.end_stream);
        assert!(conn.streams[&id].local_ended);
        ids.push(id);
    }
    ids.sort();
    assert_eq!(ids, [1, 3]);
    conn.handle_stream_msg(1, StreamMsg::Closed);
    assert!(!conn.streams.contains_key(&1));
}

#[test]
fn trailers_do_not_follow_the_end_of_the_stream() {
    let mut conn = connection();
    open_stream(&mut conn, 1, 0);
    conn.handle_stream_msg(1, data(2, true));
    assert!(conn.handle_stream_msg(1, trailers("x-sum")).is_none());
    conn.handle_window_update(1, 2);
    assert_eq!(sizes(&written(&mut conn)), [(1, 2, true)]);
    assert!(conn.next_trailers().is_none());
    conn.handle_stream_msg(1, StreamMsg::Closed);
    assert!(conn.streams.is_empty());
}

#[test]
fn a_larger_initial_window_lets_data_through() {
    let mut conn = connection();
    for id in [1, 3] {
        open_stream(&mut conn, id, 0);
        conn.handle_stream_msg(id, data(4, true));
    }
    assert!(written(&mut conn).is_empty());
    let settings = |value| {
        let mut wire = Vec::new();
        FrameWriter::new(DEFAULT_MAX_FRAME_SIZE)
            .write_settings(&mut wire, &[Setting { id: 0x04, value }]);
        wire
    };
    conn.receive(&settings(65_530));
    assert!(matches!(conn.process_frame(), Step::Frame(_)));
    assert_eq!(written(&mut conn).len(), 1);
    conn.receive(&settings(65_538));
    assert!(matches!(conn.process_frame(), Step::Frame(_)));
    let frames = written(&mut conn);
    assert!(matches!(frames[0], Frame::Settings { ack: true, .. }));
    let mut sent = sizes(&frames[1..]);
    sent.sort();
    assert_eq!(sent, [(1, 3, false), (3, 3, false)]);
}

#[test]
fn interim_responses_do_not_end_the_stream() {
    let mut conn = connection();
    open_stream(&mut conn, 1, 100);
    let block = conn
        .handle_stream_msg(
            1,
            StreamMsg::Informational {
                status: 103,
                headers: HeaderMap::new(),
            },
        )
        .unwrap();
    assert!(!block.end_stream);
    assert_eq!(block.fields.as_slice()[0].value, "103");
    assert!(!conn.streams[&1].local_ended);
}

#[test]
fn tasks_can_reset_their_stream() {
    let mut conn = connection();
    open_stream(&mut conn, 1, 100);
    assert!(conn
        .handle_stream_msg(1, StreamMsg::Reset { error_code: 2 })
        .is_none());
    assert_eq!(written(&mut conn), [reset(1, Reason::InternalError)]);
    assert!(conn.streams.is_empty());
}

#[test]
fn a_blank_end_is_merged() {
    let msgs = VecDeque::from(vec![
        data(2, false),
        data(0, true),
        StreamMsg::Closed,
        data(0, true),
    ]);
    let merged = merge_end_stream(msgs);
    assert_eq!(merged.len(), 3);
    assert!(matches!(
        &merged[0],
        StreamMsg::Data { data, end_stream: true } if data.len() == 2
    ));
    assert!(matches!(merged[1], StreamMsg::Closed));
    assert!(matches!(
        &merged[2],
        StreamMsg::Data { data, end_stream: true } if data.is_empty()
    ));
}

#[test]
fn defaults() {
    let options = ConnectionOptions::default();
    assert_eq!(options.max_concurrent_streams, 100);
    assert_eq!(options.initial_stream_window_size, DEFAULT_INITIAL_WINDOW_SIZE);
    assert_eq!(options.initial_connection_window_size, 65_535);
    assert_eq!(options.max_frame_size, 16_384);
    assert_eq!(options.max_header_list_size, u32::MAX);
    assert_eq!(options.max_local_error_reset_streams, Some(1024));
    assert_eq!(options.max_pending_accept_reset_streams, Some(20));
    assert_eq!(options.max_continuation_frames, 16);
    assert!(options.send_date_header);
    assert!(!options.send_continue_response);
    let peer = PeerSettings::default();
    assert_eq!(peer.initial_window_size, 65_535);
    assert_eq!(peer.header_table_size, 4096);
    assert_eq!(peer.enable_push, 1);
    assert_eq!(connection().conn_window, 65_535);
}

#[test]
fn options_are_set_one_by_one() {
    let options = Http2Options::default();
    assert_eq!(options.handshake_timeout, Some(Duration::from_secs(10)));
    assert_eq!(options.max_concurrent_streams, 200);
    assert_eq!(options.initial_connection_window_size, 65_535);
    assert_eq!(options.max_header_list_size, 16_384);
    let options = options
        .handshake_timeout(Some(Duration::from_secs(3)))
        .send_continue_response(false)
        .send_date_header(false)
        .max_concurrent_streams(7)
        .initial_stream_window_size(1)
        .initial_connection_window_size(2)
        .max_frame_size(20_000)
        .max_header_list_size(3)
        .enable_connect_protocol(true)
        .idle_timeout(Some(Duration::from_secs(4)))
        .max_local_error_reset_streams(None)
        .max_pending_accept_reset_streams(Some(5))
        .max_continuation_frames(Some(6));
    assert_eq!(options.handshake_timeout, Some(Duration::from_secs(3)));
    assert!(!options.send_continue_response);
    assert!(!options.send_date_header);
    assert_eq!(options.max_concurrent_streams, 7);
    assert_eq!(options.initial_stream_window_size, 1);
    assert_eq!(options.initial_connection_window_size, 2);
    assert_eq!(options.max_frame_size, 20_000);
    assert_eq!(options.max_header_list_size, 3);
    assert!(options.enable_connect_protocol);
    assert_eq!(options.idle_timeout, Some(Duration::from_secs(4)));
    assert_eq!(options.max_local_error_reset_streams, None);
    assert_eq!(options.max_pending_accept_reset_streams, Some(5));
    assert_eq!(options.max_continuation_frames, Some(6));
}

#[test]
fn continuation_frames_have_a_safe_bound() {
    let options = Http2Options::default();
    assert_eq!(options.continuation_frame_limit(), 11);
    let options = options.max_header_list_size(1_000_000);
    assert_eq!(options.continuation_frame_limit(), 61 + 12 + 10);
    let options = options.max_continuation_frames(Some(6));
    assert_eq!(options.continuation_frame_limit(), 6);
}

#[test]
fn a_connection_starts_with_the_protocol_defaults() {
    let conn = Connection::new(Some(Duration::from_secs(5)));
    assert_eq!(conn.peer, PeerSettings::default());
    assert_eq!(conn.peer.max_frame_size, DEFAULT_MAX_FRAME_SIZE);
    assert_eq!(conn.opts.max_concurrent_streams, 100);
    assert_eq!(conn.opts.initial_connection_window_size, 65_535);
    assert_eq!(conn.preface_timeout, Some(Duration::from_secs(5)));
    assert!(conn.out.is_empty());
}

#[test]
fn options_leave_the_preface_timeout() {
    let mut conn = Connection::new(Some(Duration::from_secs(5)));
    conn.configure(ConnectionOptions::default());
    assert_eq!(conn.preface_timeout, Some(Duration::from_secs(5)));
    assert_eq!(conn.conn_window, 65_535);
}

#[test]
fn a_blank_end_needs_no_window() {
    let mut conn = connection();
    conn.conn_window = 0;
    open_stream(&mut conn, 1, 0);
    conn.handle_stream_msg(1, data(0, true));
    assert_eq!(sizes(&written(&mut conn)), [(1, 0, true)]);
    assert_eq!(conn.conn_window, 0);
}

#[test]
fn pending_data_is_drained_on_request() {
    let mut conn = connection();
    for id in [1, 3] {
        open_stream(&mut conn, id, 0);
        conn.handle_stream_msg(id, data(4, true));
        conn.streams.get_mut(&id).unwrap().send_window = 10;
    }
    conn.drain_pending_data(Some(3));
    assert_eq!(sizes(&written(&mut conn)), [(3, 4, true)]);
    conn.drain_pending_data(None);
    assert_eq!(sizes(&written(&mut conn)), [(1, 4, true)]);
    conn.drain_in_order(vec![1, 3]);
    assert!(written(&mut conn).is_empty());
}

#[test]
fn our_frame_size_is_not_the_peers() {
    let mut conn = connection();
    conn.configure(ConnectionOptions {
        max_frame_size: 100_000,
        ..Default::default()
    });
    assert_eq!(conn.decoder.max_frame_size(), 100_000);
    assert_eq!(conn.peer.max_frame_size, DEFAULT_MAX_FRAME_SIZE);
    open_stream(&mut conn, 1, 65_535);
    conn.handle_stream_msg(1, data(20_000, true));
    assert_eq!(
        sizes(&written(&mut conn)),
        [
            (1, DEFAULT_MAX_FRAME_SIZE, false),
            (1, 20_000 - DEFAULT_MAX_FRAME_SIZE, true)
        ]
    );
}

#[test]
fn complete_blocks_are_taken_in_order() {
    let mut conn = connection();
    for id in [1, 3, 5] {
        conn.handle_headers_frame(id, true, true, &[0x82]);
    }
    conn.streams.remove(&1);
    assert_eq!(conn.take_complete_block(), Some(3));
    assert_eq!(conn.take_complete_block(), Some(5));
    assert_eq!(conn.take_complete_block(), None);
}

#[test]
fn the_preface_announces_our_settings() {
    let mut conn = connection();
    conn.configure(ConnectionOptions {
        max_concurrent_streams: 5,
        enable_connect_protocol: true,
        ..Default::default()
    });
    assert!(conn.accept_preface(b"PRI * HTTP/2.0\r\n\r\nSM\r\n\r\n"));
    let setting = |id, value| Setting { id, value };
    assert_eq!(
        written(&mut conn),
        [Frame::Settings {
            ack: false,
            settings: vec![
                setting(0x03, 5),
                setting(0x04, DEFAULT_INITIAL_WINDOW_SIZE),
                setting(0x05, 16_384),
                setting(0x08, 1),
            ]
        }]
    );
}
