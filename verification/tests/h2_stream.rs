//! HTTP/2 request and response fields.

use bytes::Bytes;
use http::{HeaderMap, Method};
use zincio_http::h2::stream::body::{BodyEvent, BodyOutput, BodyReader};
use zincio_http::h2::stream::{
    is_connection_specific, parse_content_length, parse_request, parse_trailers, response_fields,
    request_has_room, te_is_trailers, trailer_fields, trailers_have_room, Header,
    MalformedRequest, StreamEntry,
};

fn headers(fields: &[(&str, &str)]) -> Vec<Header> {
    fields
        .iter()
        .map(|(name, value)| {
            Header::new(
                Bytes::copy_from_slice(name.as_bytes()),
                Bytes::copy_from_slice(value.as_bytes()),
            )
        })
        .collect()
}

fn malformed(fields: &[(&str, &str)]) -> bool {
    parse_request(&headers(fields)).is_err()
}

const GET: [(&str, &str); 4] = [
    (":method", "GET"),
    (":scheme", "https"),
    (":authority", "example.com"),
    (":path", "/index?q=1"),
];

fn get_with(extra: &[(&'static str, &'static str)]) -> Vec<(&'static str, &'static str)> {
    let mut fields = GET.to_vec();
    fields.extend_from_slice(extra);
    fields
}

#[test]
fn requests_are_parsed() {
    let request = parse_request(&headers(&get_with(&[
        ("accept", "a"),
        ("accept", "b"),
        ("content-length", " 12 "),
        ("te", "trailers"),
        ("expect", "100-Continue"),
    ])))
    .unwrap();
    assert_eq!(request.method, Method::GET);
    assert_eq!(request.uri.to_string(), "https://example.com/index?q=1");
    assert_eq!(request.content_length, Some(12));
    assert!(request.expect_continue);
    assert!(!request.is_connect);
    let accept: Vec<_> = request.headers.get_all("accept").iter().collect();
    assert_eq!(accept, ["a", "b"]);
    assert!(!request.headers.contains_key(":method"));
}

#[test]
fn connect_requests_have_only_an_authority() {
    let request = parse_request(&headers(&[
        (":method", "CONNECT"),
        (":authority", "example.com:443"),
    ]))
    .unwrap();
    assert!(request.is_connect);
    assert_eq!(request.method, Method::CONNECT);
    assert_eq!(request.uri.to_string(), "example.com:443");
    assert!(malformed(&[(":method", "CONNECT")]));
}

#[test]
fn pseudo_headers_are_checked() {
    for missing in [0, 1, 3] {
        let mut fields = GET.to_vec();
        fields.remove(missing);
        assert!(malformed(&fields), "without {}", GET[missing].0);
    }
    // Twice, unknown, or after a regular field.
    for (name, value) in GET {
        assert!(malformed(&get_with(&[(name, value)])));
    }
    assert!(malformed(&get_with(&[(":status", "200")])));
    assert!(malformed(&[
        (":method", "GET"),
        (":scheme", "https"),
        (":authority", "example.com"),
        ("accept", "a"),
        (":path", "/"),
    ]));
    let mut fields = GET.to_vec();
    fields[3] = (":path", "");
    assert!(malformed(&fields));
}

#[test]
fn fields_are_checked() {
    for (name, value) in [
        ("Accept", "a"),
        ("connection", "close"),
        ("keep-alive", "1"),
        ("proxy-connection", "close"),
        ("transfer-encoding", "chunked"),
        ("upgrade", "websocket"),
        ("te", "gzip"),
        ("te", "trailers, gzip"),
        ("content-length", "1x"),
        ("bad name", "a"),
        ("x-bad", "a\u{0}b"),
    ] {
        assert!(malformed(&get_with(&[(name, value)])), "{name}: {value}");
    }
    assert!(malformed(&get_with(&[
        ("content-length", "1"),
        ("content-length", "2"),
    ])));
}

#[test]
fn content_lengths_are_bare_digits() {
    assert_eq!(parse_content_length(b"0"), Ok(0));
    assert_eq!(parse_content_length(b" \t42\t "), Ok(42));
    assert_eq!(
        parse_content_length(b"18446744073709551615"),
        Ok(18_446_744_073_709_551_615)
    );
    for bad in [
        &b"18446744073709551616"[..],
        b"",
        b"  ",
        b"+1",
        b"-1",
        b"1 2",
        b"0x10",
        b"1,1",
    ] {
        assert_eq!(parse_content_length(bad), Err(MalformedRequest));
    }
}

#[test]
fn te_admits_only_trailers() {
    assert!(te_is_trailers(b"trailers"));
    assert!(te_is_trailers(b" trailers ,\ttrailers"));
    assert!(te_is_trailers("\u{3000}trailers\u{a0}".as_bytes()));
    assert!(!te_is_trailers(b""));
    assert!(!te_is_trailers(b"trailers,"));
    assert!(!te_is_trailers(b"Trailers"));
    assert!(!te_is_trailers(b"trailers, deflate"));
    assert!(!te_is_trailers(&[b't', 0xff]));
}

#[test]
fn white_space_is_that_of_unicode() {
    for c in '\0'..='\u{ffff}' {
        let white = matches!(
            c,
            '\u{9}'..='\u{d}'
                | ' '
                | '\u{85}'
                | '\u{a0}'
                | '\u{1680}'
                | '\u{2000}'..='\u{200a}'
                | '\u{2028}'
                | '\u{2029}'
                | '\u{202f}'
                | '\u{205f}'
                | '\u{3000}'
        );
        assert_eq!(te_is_trailers(format!("{c}trailers").as_bytes()), white, "{c:?}");
    }
}

#[test]
fn many_fields_of_few_names_are_accepted() {
    let mut fields = GET.to_vec();
    fields.resize(7004, ("x-part", "a"));
    let list = headers(&fields);
    assert!(request_has_room(&list));
    let request = parse_request(&list).unwrap();
    assert_eq!(request.headers.get_all("x-part").iter().count(), 7000);
    let list = headers(&fields[4..]);
    assert!(trailers_have_room(&list));
    let trailers = parse_trailers(&list).unwrap();
    assert_eq!(trailers.get_all("x-part").iter().count(), 7000);
}

#[test]
fn many_names_have_room_up_to_a_bad_field() {
    let names: Vec<String> = (0..7000).map(|i| format!("x-{i}")).collect();
    let mut fields = GET.to_vec();
    fields.extend(names.iter().map(|name| (name.as_str(), "a")));
    assert!(!request_has_room(&headers(&fields)));
    assert!(!trailers_have_room(&headers(&fields[4..])));
    assert!(request_has_room(&headers(&fields[..6554])));
    assert!(trailers_have_room(&headers(&fields[4..6558])));
    // Nothing after a field that is against the rules counts.
    fields[4] = ("Accept", "a");
    let list = headers(&fields);
    assert!(request_has_room(&list));
    assert_eq!(parse_request(&list).unwrap_err(), MalformedRequest);
    let list = headers(&fields[4..]);
    assert!(trailers_have_room(&list));
    assert_eq!(parse_trailers(&list).unwrap_err(), MalformedRequest);
}

#[test]
fn connection_headers_are_known() {
    for name in [
        "connection",
        "keep-alive",
        "proxy-connection",
        "transfer-encoding",
        "upgrade",
    ] {
        assert!(is_connection_specific(name.as_bytes()));
    }
    assert!(!is_connection_specific(b"te"));
    assert!(!is_connection_specific(b"Connection"));
}

#[test]
fn trailers_are_parsed() {
    let trailers = parse_trailers(&headers(&[("x-sum", "1"), ("x-sum", "2")])).unwrap();
    let values: Vec<_> = trailers.get_all("x-sum").iter().collect();
    assert_eq!(values, ["1", "2"]);
    assert!(parse_trailers(&headers(&[])).unwrap().is_empty());
    assert!(parse_trailers(&headers(&[(":path", "/")])).is_err());
    assert!(parse_trailers(&headers(&[("X-Sum", "1")])).is_err());
    assert!(parse_trailers(&headers(&[("x y", "1")])).is_err());
    assert!(parse_trailers(&headers(&[("x", "a\nb")])).is_err());
}

fn pairs(map: &HeaderMap) -> Vec<(Bytes, Bytes)> {
    map.iter()
        .map(|(name, value)| {
            (
                Bytes::copy_from_slice(name.as_str().as_bytes()),
                Bytes::copy_from_slice(value.as_bytes()),
            )
        })
        .collect()
}

#[test]
fn response_fields_begin_with_the_status() {
    let mut map = HeaderMap::new();
    map.insert("content-type", "text/plain".parse().unwrap());
    map.insert("connection", "close".parse().unwrap());
    map.insert("te", "gzip".parse().unwrap());
    for status in [100u16, 204, 404, 999] {
        let list = response_fields(status, &pairs(&map));
        let fields = list.as_slice();
        assert_eq!(fields[0].name, ":status");
        assert_eq!(fields[0].value, status.to_string());
        assert_eq!(fields.len(), 2);
        assert_eq!(fields[1].name, "content-type");
        assert_eq!(fields[1].value, "text/plain");
    }
}

#[test]
fn trailer_fields_are_all_there() {
    // More than the list holds in place.
    let mut map = HeaderMap::new();
    for i in 0..20 {
        map.append("x-part", i.into());
    }
    let list = trailer_fields(&pairs(&map));
    let values: Vec<String> = list
        .as_slice()
        .iter()
        .map(|f| String::from_utf8(f.value.to_vec()).unwrap())
        .collect();
    let expected: Vec<String> = (0..20).map(|i| i.to_string()).collect();
    assert_eq!(values, expected);
}

#[test]
fn field_blocks_are_collected() {
    let mut entry = StreamEntry::new();
    entry.extend_block(&[1, 2]);
    entry.extend_block(&[3]);
    assert_eq!(entry.take_block(), [1, 2, 3]);
    assert_eq!(entry.take_block(), [0u8; 0]);
}

#[test]
fn an_ended_body_stays_ended() {
    let mut body = BodyReader::new();
    assert_eq!(body.step(BodyEvent::Waiting), BodyOutput::Wait);
    assert_eq!(body.step(BodyEvent::Data), BodyOutput::Data);
    assert_eq!(body.step(BodyEvent::Trailers), BodyOutput::Trailers);
    assert_eq!(body.step(BodyEvent::EndStream), BodyOutput::End);
    assert_eq!(body.step(BodyEvent::Data), BodyOutput::End);
    let mut body = BodyReader::new();
    assert_eq!(body.step(BodyEvent::Gone), BodyOutput::End);
    assert_eq!(body.step(BodyEvent::Waiting), BodyOutput::End);
}
