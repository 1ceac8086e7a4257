//! HTTP/3 frames on the wire.

use bytes::{Bytes, BytesMut};
use zincio_http::h3::frame::{
    parse_varint, varint_size, write_varint, Frame, FrameDecoder, FrameError, Settings, FRAME_DATA,
    FRAME_SETTINGS, MAX_FRAME_PAYLOAD, MAX_SETTINGS_ENTRIES, MAX_SETTINGS_PAYLOAD, MAX_VARINT,
    SETTINGS_ENABLE_CONNECT_PROTOCOL, SETTINGS_MAX_FIELD_SECTION_SIZE,
    SETTINGS_QPACK_BLOCKED_STREAMS, SETTINGS_QPACK_MAX_TABLE_CAPACITY,
};

fn decode_all(decoder: &mut FrameDecoder) -> Result<Vec<Frame>, FrameError> {
    let mut frames = Vec::new();
    while let Some(frame) = decoder.next_frame()? {
        frames.push(frame);
    }
    Ok(frames)
}

fn encode_frames(frames: &[Frame]) -> Bytes {
    let mut buf = BytesMut::new();
    for frame in frames {
        frame.encode(&mut buf);
    }
    buf.freeze()
}

#[test]
fn round_trip_all_frame_types() {
    let mut settings = Settings::new();
    settings.insert(SETTINGS_QPACK_MAX_TABLE_CAPACITY, 4096);
    settings.insert(SETTINGS_MAX_FIELD_SECTION_SIZE, 100);
    settings.insert(SETTINGS_QPACK_BLOCKED_STREAMS, 2);
    settings.insert(0x21, 7); // grease: preserved on encode, ignored on decode

    let frames = [
        Frame::Data(Bytes::from_static(b"hello world")),
        Frame::Headers(Bytes::from_static(b"\x3f\xbd\x01")),
        Frame::Settings(settings),
        Frame::CancelPush(7),
        Frame::PushPromise {
            push_id: 1,
            field_section: Bytes::from_static(b"\x05\x00\x80"),
        },
        Frame::Goaway(2),
        Frame::MaxPushId(0),
        Frame::Data(Bytes::new()),
        Frame::Headers(Bytes::new()),
    ];
    let mut decoder = FrameDecoder::new();
    decoder.extend(encode_frames(&frames));
    let got = decode_all(&mut decoder).expect("all frames parse");

    // Reserved grease setting is dropped, everything else round-trips.
    let mut expected = frames.to_vec();
    expected[2] = Frame::Settings(settings_without_grease());
    assert_eq!(got, expected);
}

fn settings_without_grease() -> Settings {
    let mut s = Settings::new();
    s.insert(SETTINGS_QPACK_MAX_TABLE_CAPACITY, 4096);
    s.insert(SETTINGS_MAX_FIELD_SECTION_SIZE, 100);
    s.insert(SETTINGS_QPACK_BLOCKED_STREAMS, 2);
    s
}

#[test]
fn incremental_byte_at_a_time() {
    let wire = encode_frames(&[
        Frame::Headers(Bytes::from_static(b"abc")),
        Frame::Data(Bytes::from_static(b"xy")),
    ]);
    let mut decoder = FrameDecoder::new();
    let mut got = Vec::new();
    for (i, &byte) in wire.iter().enumerate() {
        decoder.extend(Bytes::copy_from_slice(&[byte]));
        while let Some(frame) = decoder.next_frame().unwrap() {
            got.push(frame);
        }
        if i < 4 {
            assert!(got.is_empty(), "frame appeared early at byte {i}");
        }
        if i == 4 {
            // The full HEADERS frame appears exactly when its last
            // byte lands.
            assert_eq!(got, vec![Frame::Headers(Bytes::from_static(b"abc"))]);
        }
    }
    assert_eq!(
        got,
        vec![
            Frame::Headers(Bytes::from_static(b"abc")),
            Frame::Data(Bytes::from_static(b"xy")),
        ]
    );
    assert_eq!(decoder.buffered(), 0);
}

#[test]
fn truncated_prefixes_are_incomplete() {
    // Type byte only.
    let mut decoder = FrameDecoder::new();
    decoder.extend(Bytes::from_static(&[0x00]));
    assert_eq!(decoder.next_frame().unwrap(), None);
    // Type + length, no payload yet.
    decoder.extend(Bytes::from_static(&[0x05]));
    assert_eq!(decoder.next_frame().unwrap(), None);
    // Partial payload.
    decoder.extend(Bytes::from_static(b"he"));
    assert_eq!(decoder.next_frame().unwrap(), None);
    // Rest of the payload completes the frame.
    decoder.extend(Bytes::from_static(b"llo"));
    assert_eq!(
        decode_all(&mut decoder).unwrap(),
        vec![Frame::Data(Bytes::from_static(b"hello"))]
    );

    // A frame declaring an absurd length (far beyond
    // MAX_FRAME_PAYLOAD) is rejected from its header without
    // buffering or allocating the payload.
    let mut decoder = FrameDecoder::new();
    decoder.extend(Bytes::from_static(&[
        0x01, 0xc0, 0xff, 0xff, 0xff, 0xff, 0xff, 0xff, 0xff, 0xff,
    ]));
    assert_eq!(decoder.next_frame().unwrap_err(), FrameError::Frame);
    assert_eq!(decoder.buffered(), 10);
}

#[test]
fn forbidden_http2_frames() {
    for ty in [0x02u8, 0x06, 0x08, 0x09] {
        let mut decoder = FrameDecoder::new();
        decoder.extend(Bytes::copy_from_slice(&[ty, 0x01, 0x00]));
        let err = decoder.next_frame().unwrap_err();
        assert_eq!(err, FrameError::Unexpected(u64::from(ty)));
        assert_eq!(err.h3_code(), 0x0105);
    }
}

#[test]
fn unknown_and_grease_frames_are_skipped() {
    // Unknown type 0x42 with payload, grease 0x21/0x40/0x5f with
    // arbitrary payload, between two known frames.
    let mut wire = BytesMut::new();
    Frame::Headers(Bytes::from_static(b"first")).encode(&mut wire);
    write_varint(0x42, &mut wire);
    write_varint(3, &mut wire);
    wire.extend_from_slice(b"xyz");
    write_varint(0x21, &mut wire);
    write_varint(2, &mut wire);
    wire.extend_from_slice(&[0xde, 0xad]);
    Frame::Data(Bytes::from_static(b"last")).encode(&mut wire);

    let mut decoder = FrameDecoder::new();
    decoder.extend(wire.freeze());
    let frames = decode_all(&mut decoder).unwrap();
    assert_eq!(
        frames,
        vec![
            Frame::Headers(Bytes::from_static(b"first")),
            Frame::Data(Bytes::from_static(b"last")),
        ]
    );
    assert_eq!(decoder.buffered(), 0);
}

#[test]
fn settings_payload_validation() {
    // Empty SETTINGS is legal.
    let mut decoder = FrameDecoder::new();
    decoder.extend(Bytes::from_static(&[0x04, 0x00]));
    assert_eq!(
        decode_all(&mut decoder).unwrap(),
        vec![Frame::Settings(Settings::new())]
    );

    // Duplicate identifier -> H3_SETTINGS_ERROR.
    let mut wire = BytesMut::new();
    Frame::Settings({
        let mut s = Settings::new();
        s.insert(0x06, 1);
        s.insert(0x06, 2);
        s
    })
    .encode(&mut wire);
    let mut decoder = FrameDecoder::new();
    decoder.extend(wire.freeze());
    let err = decoder.next_frame().unwrap_err();
    assert_eq!(err, FrameError::Settings);
    assert_eq!(err.h3_code(), 0x0109);

    // Reserved identifiers 0x02-0x05 -> H3_SETTINGS_ERROR.
    for id in 0x02..=0x05 {
        let mut wire = BytesMut::new();
        Frame::Settings({
            let mut s = Settings::new();
            s.insert(id, 0);
            s
        })
        .encode(&mut wire);
        let mut decoder = FrameDecoder::new();
        decoder.extend(wire.freeze());
        assert_eq!(decoder.next_frame().unwrap_err(), FrameError::Settings);
    }

    // Unknown identifier is preserved (the driver ignores it), known
    // ones surface.
    let mut s = Settings::new();
    s.insert(0x0100, 5);
    s.insert(SETTINGS_ENABLE_CONNECT_PROTOCOL, 1);
    let mut wire = BytesMut::new();
    Frame::Settings(s.clone()).encode(&mut wire);
    let mut decoder = FrameDecoder::new();
    decoder.extend(wire.freeze());
    match decode_all(&mut decoder).unwrap()[0].clone() {
        Frame::Settings(got) => {
            assert_eq!(got.get(0x0100), Some(5));
            assert_eq!(got.get(SETTINGS_ENABLE_CONNECT_PROTOCOL), Some(1));
        }
        other => panic!("expected Settings, got {other:?}"),
    }

    // Odd-length payload (a lone identifier) -> H3_FRAME_ERROR.
    let mut decoder = FrameDecoder::new();
    decoder.extend(Bytes::from_static(&[0x04, 0x01, 0x06]));
    assert_eq!(decoder.next_frame().unwrap_err(), FrameError::Frame);
}

fn distinct_test_ids(n: usize) -> Vec<u64> {
    // Distinct, non-reserved, non-grease identifiers for entry-cap
    // tests (grease `0x21 + 0x1f*k` and reserved `0x02-0x05` are
    // skipped so every entry is inserted).
    let mut ids = Vec::new();
    let mut id = 0x1000u64;
    while ids.len() < n {
        if !(0x02..=0x05).contains(&id) && !(id >= 0x21 && (id - 0x21) % 0x1f == 0) {
            ids.push(id);
        }
        id += 1;
    }
    ids
}

#[test]
fn settings_lookup_returns_first_value() {
    // The first value of an identifier wins.
    let mut s = Settings::new();
    s.insert(0x06, 1);
    s.insert(0x06, 2);
    assert_eq!(s.get(0x06), Some(1));
    assert_eq!(s.len(), 2);
    assert!(!s.is_empty());
    assert!(Settings::new().is_empty());
}

#[test]
fn settings_rejects_too_many_entries() {
    // More than MAX_SETTINGS_ENTRIES distinct identifiers ->
    // H3_SETTINGS_ERROR after bounded work. The wire payload stays
    // under MAX_SETTINGS_PAYLOAD here, so this isolates the entry
    // cap (not the length cap).
    let mut s = Settings::new();
    for id in distinct_test_ids(MAX_SETTINGS_ENTRIES + 1) {
        s.insert(id, 0);
    }
    let mut wire = BytesMut::new();
    Frame::Settings(s).encode(&mut wire);
    assert!((wire.len() as u64) < MAX_SETTINGS_PAYLOAD + 16);
    let mut decoder = FrameDecoder::new();
    decoder.extend(wire.freeze());
    assert_eq!(decoder.next_frame().unwrap_err(), FrameError::Settings);
}

#[test]
fn settings_at_cap_parses() {
    // Exactly MAX_SETTINGS_ENTRIES distinct identifiers is accepted.
    let mut s = Settings::new();
    for id in distinct_test_ids(MAX_SETTINGS_ENTRIES) {
        s.insert(id, 0);
    }
    let mut wire = BytesMut::new();
    Frame::Settings(s).encode(&mut wire);
    let mut decoder = FrameDecoder::new();
    decoder.extend(wire.freeze());
    match decoder.next_frame().unwrap().unwrap() {
        Frame::Settings(got) => assert_eq!(got.len(), MAX_SETTINGS_ENTRIES),
        other => panic!("expected Settings, got {other:?}"),
    }
}

#[test]
fn settings_rejects_oversized_payload_without_buffering() {
    // A SETTINGS length declaration beyond MAX_SETTINGS_PAYLOAD is
    // rejected from the header alone (H3_SETTINGS_ERROR), without
    // waiting for or buffering the payload.
    let mut wire = BytesMut::new();
    write_varint(FRAME_SETTINGS, &mut wire);
    write_varint(MAX_SETTINGS_PAYLOAD + 1, &mut wire);
    let header_len = wire.len();
    let mut decoder = FrameDecoder::new();
    decoder.extend(wire.freeze());
    assert_eq!(decoder.next_frame().unwrap_err(), FrameError::Settings);
    assert_eq!(decoder.buffered(), header_len);
}

#[test]
fn oversized_frames_rejected_from_header() {
    // Any frame declaring beyond MAX_FRAME_PAYLOAD is rejected
    // immediately (H3_FRAME_ERROR) instead of buffering unboundedly.
    let mut wire = BytesMut::new();
    write_varint(FRAME_DATA, &mut wire);
    write_varint(MAX_FRAME_PAYLOAD + 1, &mut wire);
    let mut decoder = FrameDecoder::new();
    decoder.extend(wire.freeze());
    assert_eq!(decoder.next_frame().unwrap_err(), FrameError::Frame);
}

#[test]
fn fixed_value_frames_reject_bad_payloads() {
    // CANCEL_PUSH with no payload -> H3_FRAME_ERROR.
    let mut decoder = FrameDecoder::new();
    decoder.extend(Bytes::from_static(&[0x03, 0x00]));
    assert_eq!(decoder.next_frame().unwrap_err(), FrameError::Frame);

    // CANCEL_PUSH with trailing bytes -> H3_FRAME_ERROR.
    let mut decoder = FrameDecoder::new();
    decoder.extend(Bytes::from_static(&[0x03, 0x02, 0x01, 0x00]));
    assert_eq!(decoder.next_frame().unwrap_err(), FrameError::Frame);

    // CANCEL_PUSH with a redundant 2-byte encoding of 5 -> H3_FRAME_ERROR.
    let mut decoder = FrameDecoder::new();
    decoder.extend(Bytes::from_static(&[0x03, 0x02, 0x40, 0x05]));
    assert_eq!(decoder.next_frame().unwrap_err(), FrameError::Frame);

    // GOAWAY with a minimal 1-byte value parses.
    let mut decoder = FrameDecoder::new();
    decoder.extend(Bytes::from_static(&[0x07, 0x01, 0x05]));
    assert_eq!(decode_all(&mut decoder).unwrap(), vec![Frame::Goaway(5)]);

    // Non-minimal type encoding (0 encoded in 2 bytes) -> error.
    let mut decoder = FrameDecoder::new();
    decoder.extend(Bytes::from_static(&[0x40, 0x00, 0x00]));
    assert_eq!(decoder.next_frame().unwrap_err(), FrameError::Frame);

    // Non-minimal length encoding -> error.
    let mut decoder = FrameDecoder::new();
    decoder.extend(Bytes::from_static(&[0x00, 0x40, 0x00]));
    assert_eq!(decoder.next_frame().unwrap_err(), FrameError::Frame);
}

#[test]
fn push_promise_shapes() {
    // push ID plus field section.
    let mut decoder = FrameDecoder::new();
    decoder.extend(Bytes::from_static(&[0x05, 0x04, 0x01, b'a', b'b', b'c']));
    assert_eq!(
        decode_all(&mut decoder).unwrap(),
        vec![Frame::PushPromise {
            push_id: 1,
            field_section: Bytes::from_static(b"abc"),
        }]
    );

    // Empty field section.
    let mut decoder = FrameDecoder::new();
    decoder.extend(Bytes::from_static(&[0x05, 0x01, 0x01]));
    assert_eq!(
        decode_all(&mut decoder).unwrap(),
        vec![Frame::PushPromise {
            push_id: 1,
            field_section: Bytes::new(),
        }]
    );

    // Missing push ID -> H3_FRAME_ERROR.
    let mut decoder = FrameDecoder::new();
    decoder.extend(Bytes::from_static(&[0x05, 0x00]));
    assert_eq!(decoder.next_frame().unwrap_err(), FrameError::Frame);
}

#[test]
fn varint_edge_encodings() {
    // Boundaries: 2^6-1 (1 byte), 2^6 (2 bytes), 2^14-1, 2^14, 2^30-1,
    // 2^30, 2^62-1 (max).
    for value in [
        (1 << 6) - 1,
        1 << 6,
        (1 << 14) - 1,
        1 << 14,
        (1 << 30) - 1,
        1 << 30,
        MAX_VARINT,
    ] {
        let mut wire = BytesMut::new();
        write_varint(value, &mut wire);
        assert_eq!(wire.len(), varint_size(value));
        let (got, n) = parse_varint(&wire).unwrap().unwrap();
        assert_eq!(got, value);
        assert_eq!(n, wire.len());
    }

    // Non-minimal encodings are rejected.
    assert_eq!(parse_varint(&[0x40, 0x00]), Err(FrameError::Frame)); // 0 in 2 bytes
    assert_eq!(
        parse_varint(&[0x80, 0x00, 0x00, 0x40]),
        Err(FrameError::Frame)
    ); // 64 in 4 bytes
    assert_eq!(parse_varint(&[0x40, 0x40]), Ok(Some((64, 2))));
    // Truncated.
    assert_eq!(parse_varint(&[0x40]), Ok(None));
    assert_eq!(parse_varint(&[]), Ok(None));
}

#[test]
fn clean_eof_with_truncated_frame_is_detectable() {
    let mut decoder = FrameDecoder::new();
    decoder.extend(Bytes::from_static(&[0x01, 0x05, b'a', b'b']));
    assert_eq!(decoder.next_frame().unwrap(), None);
    // Driver's clean-FIN check: buffered() != 0 -> H3_FRAME_ERROR.
    assert_eq!(decoder.buffered(), 4);
}

#[test]
fn frame_types_can_be_peeked_at() {
    let mut decoder = FrameDecoder::new();
    assert_eq!(decoder.peek_frame_type(), None);
    decoder.extend(Bytes::from_static(&[0x40]));
    assert_eq!(decoder.peek_frame_type(), None);
    decoder.extend(Bytes::from_static(&[0x42, 0x00]));
    assert_eq!(decoder.peek_frame_type(), Some(0x42));
    assert_eq!(decoder.buffered(), 3);
    let mut decoder = FrameDecoder::new();
    decoder.extend(Bytes::from_static(&[0x40, 0x01]));
    assert_eq!(decoder.peek_frame_type(), None);
}

#[test]
fn varint_octets_are_exact() {
    for (value, octets) in [
        (37u64, &[0x25][..]),
        (15_293, &[0x7b, 0xbd]),
        (494_878_333, &[0x9d, 0x7f, 0x3e, 0x7d]),
        (
            151_288_809_941_952_652,
            &[0xc2, 0x19, 0x7c, 0x5e, 0xff, 0x14, 0xe8, 0x8c],
        ),
    ] {
        let mut wire = BytesMut::new();
        write_varint(value, &mut wire);
        assert_eq!(&wire[..], octets);
        assert_eq!(parse_varint(octets), Ok(Some((value, octets.len()))));
    }
}

#[test]
fn frame_octets_on_the_wire() {
    let mut wire = BytesMut::new();
    Frame::Goaway(64).encode(&mut wire);
    assert_eq!(&wire[..], [0x07, 0x02, 0x40, 0x40]);
    let mut wire = BytesMut::new();
    Frame::PushPromise {
        push_id: 1,
        field_section: Bytes::from_static(b"ab"),
    }
    .encode(&mut wire);
    assert_eq!(&wire[..], [0x05, 0x03, 0x01, b'a', b'b']);
    let mut settings = Settings::new();
    settings.insert(0x06, 100);
    assert_eq!(settings.iter().len(), 1);
    let mut wire = BytesMut::new();
    Frame::Settings(settings).encode(&mut wire);
    assert_eq!(&wire[..], [0x04, 0x03, 0x06, 0x40, 0x64]);
}

#[test]
fn chunking_of_frames_does_not_matter() {
    let frames = [
        Frame::Headers(Bytes::from_static(b"abcdef")),
        Frame::Data(Bytes::from_static(b"0123456789")),
        Frame::Goaway(5),
    ];
    let wire = encode_frames(&frames);
    for step in [1, 2, 3, 7, 100] {
        let mut decoder = FrameDecoder::new();
        let mut got = Vec::new();
        for chunk in wire.chunks(step) {
            decoder.extend(Bytes::copy_from_slice(chunk));
            got.extend(decode_all(&mut decoder).unwrap());
        }
        assert_eq!(got, frames);
    }
}
