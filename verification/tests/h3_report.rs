//! Error reports of an HTTP/3 connection.

use zincio_http::h3::{h3_code_name, h3_connection_error, h3_stream_error, H3Error};
use zincio_http::stream_error_io_error;

#[test]
fn stream_error_message_includes_stream_id() {
    let error = h3_stream_error(9, "reset by peer with code 0xc");
    let text = error.to_string();
    assert!(text.contains("stream 9"), "got: {text}");
    assert!(text.contains("reset by peer"), "got: {text}");
}

#[test]
fn connection_error_names_known_codes() {
    let error = h3_connection_error(H3Error::GeneralProtocol.code(), None);
    let text = error.to_string();
    assert!(text.contains("HTTP/3 connection error"), "got: {text}");
    assert!(text.contains("GeneralProtocol"), "got: {text}");
    assert!(text.contains("0x101"), "got: {text}");
}

#[test]
fn connection_error_carries_detail() {
    let error = h3_connection_error(H3Error::FrameUnexpected.code(), Some("bad frame"));
    let text = error.to_string();
    assert!(text.contains("FrameUnexpected"), "got: {text}");
    assert!(text.contains("bad frame"), "got: {text}");
}

#[test]
fn unknown_code_is_reported_as_unknown() {
    assert_eq!(h3_code_name(0x0101), "GeneralProtocol");
    assert_eq!(h3_code_name(0x0200), "QpackDecompressionFailed");
    assert_eq!(h3_code_name(0xdead_beef), "Unknown");
}

#[test]
fn qpack_codes_have_names() {
    assert_eq!(h3_code_name(0x0201), "QpackEncoderStream");
    assert_eq!(h3_code_name(0x0202), "QpackDecoderStream");
    assert_eq!(h3_code_name(0x0203), "Unknown");
}

#[test]
fn connection_error_text_is_exact() {
    let error = h3_connection_error(0x0107, Some("too much"));
    assert_eq!(
        error.to_string(),
        format!("HTTP/3 connection error: {} (0x107): too much", h3_code_name(0x0107))
    );
    let error = h3_connection_error(0, None);
    assert_eq!(error.to_string(), "HTTP/3 connection error: Unknown (0x0)");
    let error = h3_connection_error(u64::MAX, None);
    assert_eq!(
        error.to_string(),
        "HTTP/3 connection error: Unknown (0xffffffffffffffff)"
    );
}

#[test]
fn stream_error_text_is_exact() {
    assert_eq!(
        h3_stream_error(u64::MAX, "gone").to_string(),
        "HTTP/3 stream 18446744073709551615 error: gone"
    );
    assert_eq!(h3_stream_error(0, "").to_string(), "HTTP/3 stream 0 error: ");
}

#[test]
fn io_errors_carry_the_message() {
    let error = stream_error_io_error(String::from("stream failed"));
    assert_eq!(error.kind(), std::io::ErrorKind::Other);
    assert_eq!(error.to_string(), "stream failed");
}

#[test]
fn codes_and_errors_correspond() {
    for code in 0..0x300u64 {
        if let Some(error) = H3Error::from_code(code) {
            assert_eq!(error.code(), code);
        }
    }
    assert_eq!(H3Error::from_code(0x0101), Some(H3Error::GeneralProtocol));
    assert_eq!(H3Error::from_code(0x0105), Some(H3Error::FrameUnexpected));
    assert_eq!(H3Error::from_code(0x0106), Some(H3Error::FrameError));
    assert_eq!(H3Error::from_code(0x0107), Some(H3Error::ExcessiveLoad));
    assert_eq!(H3Error::from_code(0x0200), None);
}
