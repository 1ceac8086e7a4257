//! Reading and answering HTTP/1.x requests.

use http::HeaderMap;
use zincio_http::h1::exchange::{
    after_response, continue_before_response, error_status, has_room_for_mark, mark_connection,
    mark_error_response, read_verdict, request_facts, AfterResponse, Fault, ReadOutcome,
    ReadVerdict, RequestFacts, Version,
};
use zincio_http::h1::lists::{is_visible, lists, parse_unsigned};
use zincio_http::h1::{
    search_header_body_separator, write_chunk_size, DateCache, HeadError, HeadReader, HeadStep,
    Served, Session, SessionAction, SessionEvent, SessionState,
};

/// Reads one head, the transport giving the chunks and then ending.
fn read_head(reader: &mut HeadReader, chunks: &[&[u8]]) -> HeadStep {
    let mut chunks = chunks.iter();
    reader.begin();
    loop {
        match reader.advance() {
            HeadStep::Read => match reader.feed(chunks.next().copied().unwrap_or(&[])) {
                HeadStep::More => {}
                step => return step,
            },
            HeadStep::More => {}
            step => return step,
        }
    }
}

fn head_of(chunks: &[&[u8]]) -> Vec<u8> {
    match read_head(&mut HeadReader::new(1024), chunks) {
        HeadStep::Head(head) => head.to_vec(),
        other => panic!("unexpected step {other:?}"),
    }
}

fn failure_of(reader: &mut HeadReader, chunks: &[&[u8]]) -> HeadError {
    match read_head(reader, chunks) {
        HeadStep::Failed(error) => error,
        other => panic!("unexpected step {other:?}"),
    }
}

const HEAD: &[u8] = b"GET / HTTP/1.1\r\nHost: a\r\n\r\n";

#[test]
fn separators_are_found() {
    assert_eq!(search_header_body_separator(b""), None);
    assert_eq!(search_header_body_separator(b"\n"), None);
    assert_eq!(search_header_body_separator(b"\n\n"), Some((0, 2)));
    assert_eq!(search_header_body_separator(b"\r\n\r\n"), Some((0, 4)));
    assert_eq!(search_header_body_separator(b"a\r\n\r"), None);
    assert_eq!(search_header_body_separator(b"a\r\n\r\nb\n\n"), Some((1, 4)));
    assert_eq!(search_header_body_separator(b"a\n\nb\r\n\r\n"), Some((1, 2)));
    assert_eq!(search_header_body_separator(b"a\n\r\n"), None);
}

#[test]
fn heads_are_cut_out() {
    let mut reader = HeadReader::new(1024);
    let wire = [HEAD, b"body"].concat();
    match read_head(&mut reader, &[&wire]) {
        HeadStep::Head(head) => assert_eq!(head, HEAD),
        other => panic!("unexpected step {other:?}"),
    }
    assert_eq!(reader.into_rest().unwrap(), "body");
    assert_eq!(head_of(&[b"GET / HTTP/1.0\n\n"]), b"GET / HTTP/1.0\n\n");
}

#[test]
fn chunking_of_heads_does_not_matter() {
    for split in 1..HEAD.len() {
        assert_eq!(head_of(&[&HEAD[..split], &HEAD[split..]]), HEAD);
    }
    let octets: Vec<&[u8]> = HEAD.chunks(1).collect();
    assert_eq!(head_of(&octets), HEAD);
}

#[test]
fn leading_white_space_is_dropped() {
    assert_eq!(head_of(&[b"\r\n \tGET / HTTP/1.1\r\n\r\n"]), b"GET / HTTP/1.1\r\n\r\n");
}

#[test]
fn leading_white_space_may_come_on_its_own() {
    assert_eq!(head_of(&[b"\r\n", HEAD]), HEAD);
    assert_eq!(head_of(&[b"  ", b" GET / HTTP/1.1\r\n\r\n"]), b"GET / HTTP/1.1\r\n\r\n");
    let wire = [b" \r\n\t ", HEAD].concat();
    for split in 1..wire.len() {
        assert_eq!(head_of(&[&wire[..split], &wire[split..]]), HEAD);
    }
    let octets: Vec<&[u8]> = wire.chunks(1).collect();
    assert_eq!(head_of(&octets), HEAD);
    assert_eq!(
        failure_of(&mut HeadReader::new(1024), &[b"\r\n", b"GET\r\n"]),
        HeadError::BadFirstLine
    );
}

#[test]
fn left_over_octets_are_looked_at_first() {
    let mut reader = HeadReader::new(1024);
    let wire = [HEAD, HEAD].concat();
    for _ in 0..2 {
        match read_head(&mut reader, &[&wire]) {
            HeadStep::Head(head) => assert_eq!(head, HEAD),
            other => panic!("unexpected step {other:?}"),
        }
    }
    assert!(reader.into_rest().is_none());
}

#[test]
fn bad_first_lines_are_refused_early() {
    for bad in [
        &b"GET /\r\n"[..],
        b"GET / HTTP/1.1 x",
        b"GET\n",
        b"GET / a b HTTP/1.1",
    ] {
        assert_eq!(
            failure_of(&mut HeadReader::new(1024), &[bad]),
            HeadError::BadFirstLine
        );
    }
}

#[test]
fn the_transport_may_end() {
    let mut reader = HeadReader::new(1024);
    assert!(matches!(read_head(&mut reader, &[]), HeadStep::Closed));
    assert!(matches!(read_head(&mut reader, &[b"\r\n"]), HeadStep::Closed));
    assert_eq!(
        failure_of(&mut HeadReader::new(1024), &[b"GET / HT"]),
        HeadError::UnexpectedEof
    );
}

#[test]
fn heads_are_limited() {
    let len = HEAD.len();
    assert!(matches!(
        read_head(&mut HeadReader::new(len), &[HEAD]),
        HeadStep::Head(_)
    ));
    assert_eq!(
        failure_of(&mut HeadReader::new(len - 1), &[HEAD]),
        HeadError::TooLarge
    );
    assert_eq!(failure_of(&mut HeadReader::new(0), &[HEAD]), HeadError::TooLarge);
}

#[test]
fn idleness_ends_with_the_next_octet() {
    let mut reader = HeadReader::new(1024);
    assert!(!reader.is_idle());
    reader.begin();
    reader.mark_idle();
    assert!(matches!(reader.advance(), HeadStep::Read));
    assert!(matches!(reader.feed(&[]), HeadStep::Closed));
    assert!(reader.is_idle());
    assert!(matches!(reader.feed(b"G"), HeadStep::More));
    assert!(!reader.is_idle());
}

#[test]
fn chunk_sizes_are_hexadecimal() {
    for (len, text) in [
        (0usize, "0\r\n"),
        (10, "A\r\n"),
        (16, "10\r\n"),
        (0xdead_beef, "DEADBEEF\r\n"),
        (usize::MAX, "FFFFFFFFFFFFFFFF\r\n"),
    ] {
        let mut buf = [0u8; 18];
        assert_eq!(write_chunk_size(&mut buf, len), text.as_bytes());
    }
}

#[test]
fn dates_are_rendered() {
    let mut cache = DateCache::new();
    assert_eq!(
        cache.get_date_header_value(784_111_777),
        "Sun, 06 Nov 1994 08:49:37 GMT"
    );
    assert_eq!(
        cache.get_date_header_value(784_111_777),
        "Sun, 06 Nov 1994 08:49:37 GMT"
    );
    assert_eq!(
        cache.get_date_header_value(0),
        "Thu, 01 Jan 1970 00:00:00 GMT"
    );
    assert_eq!(
        cache.get_date_header_value(253_402_300_799),
        "Fri, 31 Dec 9999 23:59:59 GMT"
    );
}

#[test]
fn list_members_are_trimmed_words() {
    assert!(lists(b"a, Close ,b", b"close"));
    assert!(lists(b"\tclose", b"close"));
    assert!(lists(b"close", b"CLOSE"));
    assert!(!lists(b"closed", b"close"));
    assert!(!lists(b"a close", b"close"));
    assert!(!lists(b"", b"close"));
    assert!(lists(b"a,,b", b""));
}

#[test]
fn numbers_may_have_a_plus_sign() {
    assert_eq!(parse_unsigned(b"42"), Some(42));
    assert_eq!(parse_unsigned(b"+42"), Some(42));
    assert_eq!(parse_unsigned(b"18446744073709551615"), Some(u64::MAX));
    for bad in [&b""[..], b"+", b"++1", b"-1", b" 1", b"18446744073709551616"] {
        assert_eq!(parse_unsigned(bad), None);
    }
    assert!(is_visible(b"a b\tc"));
    assert!(!is_visible(b"a\x7f"));
    assert!(!is_visible(&[0xe4]));
}

fn headers(fields: &[(&'static str, &str)]) -> HeaderMap {
    let mut map = HeaderMap::new();
    for (name, value) in fields {
        map.append(*name, value.parse().unwrap());
    }
    map
}

fn keeps_alive(value: Option<&str>, version: Version) -> bool {
    let map = match value {
        Some(value) => headers(&[("connection", value)]),
        None => HeaderMap::new(),
    };
    request_facts(&map, version).keep_alive
}

#[test]
fn connections_are_kept_alive_by_version_and_header() {
    assert!(keeps_alive(None, Version::Http11));
    assert!(!keeps_alive(None, Version::Http10));
    assert!(keeps_alive(Some("Keep-Alive"), Version::Http10));
    assert!(!keeps_alive(Some("close"), Version::Http11));
    assert!(!keeps_alive(Some("keep-alive, close"), Version::Http11));
    assert!(keeps_alive(Some("upgrade"), Version::Http11));
}

#[test]
fn request_headers_are_read() {
    let map = headers(&[
        ("content-length", "12"),
        ("transfer-encoding", "gzip, Chunked"),
        ("trailer", "x-sum"),
        ("te", "trailers"),
    ]);
    assert_eq!(
        request_facts(&map, Version::Http11),
        RequestFacts {
            keep_alive: true,
            content_length: 12,
            chunked: true,
            has_trailers: true,
            write_trailers: true,
        }
    );
    let map = headers(&[
        ("content-length", "12x"),
        ("trailer", ""),
        ("te", "gzip"),
        ("te", "trailers"),
    ]);
    assert_eq!(
        request_facts(&map, Version::Http10),
        RequestFacts {
            keep_alive: false,
            content_length: 0,
            chunked: false,
            has_trailers: false,
            write_trailers: false,
        }
    );
}

#[test]
fn read_outcomes_are_judged() {
    for idle in [false, true] {
        assert_eq!(read_verdict(ReadOutcome::Request, idle), ReadVerdict::Serve);
        assert_eq!(read_verdict(ReadOutcome::Closed, idle), ReadVerdict::Finish);
        assert_eq!(read_verdict(ReadOutcome::Cancelled, idle), ReadVerdict::Finish);
        assert_eq!(
            read_verdict(ReadOutcome::Failed(Fault::Other), idle),
            ReadVerdict::Refuse { is_timeout: false }
        );
    }
    for fault in [
        Fault::BrokenPipe,
        Fault::ConnectionReset,
        Fault::ConnectionAborted,
        Fault::UnexpectedEof,
    ] {
        assert_eq!(
            read_verdict(ReadOutcome::Failed(fault), true),
            ReadVerdict::Finish
        );
        assert_eq!(
            read_verdict(ReadOutcome::Failed(fault), false),
            ReadVerdict::Refuse { is_timeout: false }
        );
    }
    assert_eq!(read_verdict(ReadOutcome::TimedOut, true), ReadVerdict::Finish);
    assert_eq!(
        read_verdict(ReadOutcome::TimedOut, false),
        ReadVerdict::Refuse { is_timeout: true }
    );
    assert_eq!(error_status(true), 408);
    assert_eq!(error_status(false), 400);
}

#[test]
fn responses_tell_the_connection() {
    for version in [Version::Http10, Version::Http11] {
        for keep_alive in [false, true] {
            for fields in [&[][..], &[("connection", "something")]] {
                let mut map = headers(fields);
                mark_connection(&mut map, version, keep_alive, false);
                assert_eq!(request_facts(&map, version).keep_alive, keep_alive);
            }
        }
    }
    let mut map = HeaderMap::new();
    mark_connection(&mut map, Version::Http11, true, false);
    assert!(map.is_empty());
    mark_connection(&mut map, Version::Http11, true, true);
    assert_eq!(map, headers(&[("connection", "upgrade")]));
    mark_error_response(&mut map);
    assert_eq!(map, headers(&[("connection", "close")]));
}

#[test]
fn only_a_mark_needs_room() {
    let mut map = HeaderMap::new();
    for i in 0..6554 {
        let name: http::HeaderName = format!("x-{i}").parse().unwrap();
        assert!(has_room_for_mark(&map, Version::Http11, false, false));
        map.append(name, i.into());
    }
    assert!(!has_room_for_mark(&map, Version::Http11, false, false));
    assert!(!has_room_for_mark(&map, Version::Http10, true, false));
    assert!(!has_room_for_mark(&map, Version::Http11, true, true));
    // Nothing is said of the connection.
    assert!(has_room_for_mark(&map, Version::Http11, true, false));
    assert!(has_room_for_mark(&map, Version::Http10, false, false));
    mark_connection(&mut map, Version::Http11, true, false);
    assert_eq!(map.keys_len(), 6554);
}

#[test]
fn what_follows_a_response() {
    assert_eq!(after_response(true, true, false), AfterResponse::Upgrade);
    assert_eq!(after_response(false, true, true), AfterResponse::Stop);
    assert_eq!(after_response(false, false, false), AfterResponse::Stop);
    assert_eq!(after_response(false, false, true), AfterResponse::Next);
}

#[test]
fn continue_goes_out_before_good_responses() {
    assert!(continue_before_response(false, true, 200));
    assert!(continue_before_response(false, true, 302));
    assert!(!continue_before_response(true, true, 200));
    assert!(!continue_before_response(false, false, 200));
    assert!(!continue_before_response(false, true, 400));
    assert!(!continue_before_response(false, true, 503));
}

fn served(keep_alive: bool, expects_continue: bool) -> Served {
    Served {
        version: Version::Http11,
        facts: RequestFacts {
            keep_alive,
            content_length: 0,
            chunked: false,
            has_trailers: false,
            write_trailers: false,
        },
        expects_continue,
    }
}

fn response(continue_sent: bool, upgraded: bool) -> SessionEvent {
    SessionEvent::Response {
        status: 200,
        continue_sent,
        upgraded,
    }
}

#[test]
fn requests_are_served_one_after_the_other() {
    let mut session = Session::new();
    for _ in 0..3 {
        assert_eq!(
            session.step(SessionEvent::Request(served(true, false))),
            SessionAction::Serve
        );
        assert_eq!(
            session.step(response(false, false)),
            SessionAction::SendResponse {
                keep_alive: true,
                upgraded: false
            }
        );
        assert_eq!(
            session.step(SessionEvent::Sent { cancelled: false }),
            SessionAction::ReadRequest
        );
    }
    assert_eq!(
        session.step(SessionEvent::NoRequest {
            outcome: ReadOutcome::TimedOut,
            idle: true
        }),
        SessionAction::Finish
    );
    assert_eq!(session.state, SessionState::Ended);
}

#[test]
fn sessions_end() {
    let sent = SessionEvent::Sent { cancelled: false };
    let mut session = Session::new();
    session.step(SessionEvent::Request(served(false, false)));
    session.step(response(false, false));
    assert_eq!(session.step(sent), SessionAction::Finish);
    assert_eq!(session.step(sent), SessionAction::Nothing);

    let mut session = Session::new();
    session.step(SessionEvent::Request(served(true, false)));
    session.step(response(false, false));
    assert_eq!(
        session.step(SessionEvent::Sent { cancelled: true }),
        SessionAction::Finish
    );

    let mut session = Session::new();
    session.step(SessionEvent::Request(served(true, false)));
    session.step(response(false, true));
    assert_eq!(session.step(sent), SessionAction::HandOver);

    let mut session = Session::new();
    session.step(SessionEvent::Request(served(true, false)));
    assert_eq!(session.step(SessionEvent::Failed), SessionAction::Fail);

    let mut session = Session::new();
    assert_eq!(
        session.step(SessionEvent::NoRequest {
            outcome: ReadOutcome::Failed(Fault::Other),
            idle: false
        }),
        SessionAction::Refuse { is_timeout: false }
    );
    assert_eq!(session.step(SessionEvent::SendFailed), SessionAction::Fail);
}

#[test]
fn a_session_invites_the_body() {
    let mut session = Session::new();
    session.step(SessionEvent::Request(served(true, true)));
    assert_eq!(session.step(response(false, false)), SessionAction::SendContinue);
    assert!(matches!(
        session.step(SessionEvent::Sent { cancelled: false }),
        SessionAction::SendResponse { .. }
    ));
    let mut session = Session::new();
    session.step(SessionEvent::Request(served(true, true)));
    assert!(matches!(
        session.step(response(true, false)),
        SessionAction::SendResponse { .. }
    ));
    assert_eq!(session.step(SessionEvent::SendFailed), SessionAction::Fail);
}

#[test]
fn body_octets_are_taken_from_the_buffer() {
    let mut reader = HeadReader::new(1024);
    let wire = [HEAD, b"body and more"].concat();
    assert!(matches!(read_head(&mut reader, &[&wire]), HeadStep::Head(_)));
    assert_eq!(reader.take_buffered(4), "body");
    assert_eq!(reader.take_buffered(100), " and more");
    assert_eq!(reader.take_buffered(1), "");
}
