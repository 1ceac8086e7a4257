//! Serving one HTTP/3 request.

use bytes::Bytes;
use http::HeaderMap;
use zincio_http::h3::body::{BodyEvent, BodyOutput, BodyRead, BodyReader};
use zincio_http::h3::{
    body_action, is_100_continue, prepare_response, remove_invalid_http3_headers, BodyAction,
    BodyPart, ResponseWait, WaitAction, WaitEvent,
};
use zincio_http::headers::header_names;

fn map(fields: &[(&'static str, &str)]) -> HeaderMap {
    let mut map = HeaderMap::new();
    for (name, value) in fields {
        map.append(*name, value.parse().unwrap());
    }
    map
}

#[test]
fn connection_headers_are_taken_out() {
    let mut headers = map(&[
        ("keep-alive", "5"),
        ("proxy-connection", "close"),
        ("connection", "close"),
        ("connection", "upgrade"),
        ("transfer-encoding", "chunked"),
        ("upgrade", "h2c"),
        ("te", "gzip"),
        ("accept", "a"),
    ]);
    assert_eq!(header_names(&headers), 7);
    remove_invalid_http3_headers(&mut headers);
    assert_eq!(headers, map(&[("accept", "a")]));
    assert_eq!(header_names(&headers), 1);
    let once = headers.clone();
    remove_invalid_http3_headers(&mut headers);
    assert_eq!(headers, once);

    let mut headers = map(&[("te", "trailers")]);
    remove_invalid_http3_headers(&mut headers);
    assert_eq!(headers, map(&[("te", "trailers")]));
}

#[test]
fn expectations_are_recognised() {
    let headers = map(&[("expect", "100-Continue")]);
    assert!(is_100_continue(true, &headers));
    assert!(!is_100_continue(false, &headers));
    assert!(!is_100_continue(true, &map(&[("expect", "200-ok")])));
    assert!(!is_100_continue(true, &map(&[])));
}

#[test]
fn continue_is_sent_once() {
    let wanted = WaitEvent::Nothing { body_wanted: true };
    let mut wait = ResponseWait::new(true);
    assert_eq!(
        wait.advance(WaitEvent::Nothing { body_wanted: false }),
        WaitAction::Wait
    );
    assert!(wait.continue_before_response(200));
    assert!(!wait.continue_before_response(404));
    assert!(!wait.continue_before_response(599));
    assert!(wait.continue_before_response(600));
    assert_eq!(wait.advance(WaitEvent::EarlyHints), WaitAction::SendEarlyHints);
    assert_eq!(wait.advance(wanted), WaitAction::SendContinue);
    assert_eq!(wait.advance(wanted), WaitAction::Wait);
    assert!(!wait.continue_before_response(200));
    assert_eq!(wait.advance(WaitEvent::Response), WaitAction::Respond);

    let mut wait = ResponseWait::new(false);
    assert_eq!(wait.advance(wanted), WaitAction::Wait);
    assert!(!wait.continue_before_response(200));

    let mut wait = ResponseWait::new(true);
    assert_eq!(wait.advance(WaitEvent::EarlyHintsClosed), WaitAction::Wait);
    assert_eq!(wait.advance(wanted), WaitAction::Wait);
}

#[test]
fn responses_are_prepared() {
    let mut headers = map(&[("connection", "close"), ("server", "z")]);
    let date = Bytes::from_static(b"Sun, 06 Nov 1994 08:49:37 GMT");
    prepare_response(&mut headers, Some(date.clone()), Some(1234));
    assert_eq!(
        headers,
        map(&[
            ("server", "z"),
            ("date", "Sun, 06 Nov 1994 08:49:37 GMT"),
            ("content-length", "1234"),
        ])
    );
    // What is there stays.
    let mut headers = map(&[("date", "now"), ("content-length", "5")]);
    prepare_response(&mut headers, Some(date), Some(6));
    assert_eq!(headers, map(&[("date", "now"), ("content-length", "5")]));
    let mut headers = map(&[]);
    prepare_response(&mut headers, None, None);
    assert!(headers.is_empty());
    prepare_response(&mut headers, None, Some(u64::MAX));
    assert_eq!(headers, map(&[("content-length", "18446744073709551615")]));
}

#[test]
fn body_parts_become_frames() {
    assert!(matches!(
        body_action(BodyPart::Data(Bytes::new())),
        BodyAction::Skip
    ));
    assert!(matches!(
        body_action(BodyPart::Data(Bytes::from_static(b"x"))),
        BodyAction::SendData(data) if data == "x"
    ));
    assert!(matches!(
        body_action(BodyPart::Trailers(map(&[("upgrade", "x"), ("x-sum", "1")]))),
        BodyAction::SendTrailers(trailers) if trailers == map(&[("x-sum", "1")])
    ));
    assert!(matches!(body_action(BodyPart::Other), BodyAction::Skip));
}

#[test]
fn the_request_body_is_data_then_trailers() {
    let mut body = BodyReader::new();
    assert_eq!(body.next_read(), BodyRead::Data);
    assert_eq!(
        body.step(BodyEvent::Busy),
        BodyOutput::Wait { demand: false }
    );
    assert_eq!(
        body.step(BodyEvent::Waiting),
        BodyOutput::Wait { demand: true }
    );
    assert_eq!(body.step(BodyEvent::Data { len: 0 }), BodyOutput::ReadOn);
    assert_eq!(body.step(BodyEvent::Data { len: 3 }), BodyOutput::Data);
    assert_eq!(body.step(BodyEvent::DataEnd), BodyOutput::ReadOn);
    assert_eq!(body.next_read(), BodyRead::Trailers);
    assert_eq!(
        body.step(BodyEvent::Busy),
        BodyOutput::Wait { demand: true }
    );
    assert_eq!(body.step(BodyEvent::Trailers), BodyOutput::Trailers);
    assert_eq!(body.step(BodyEvent::NoTrailers), BodyOutput::End);
    assert_eq!(body.step(BodyEvent::Failed), BodyOutput::Error);
}
