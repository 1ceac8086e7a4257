//! HTTP/2 frames on the wire.

use bytes::Bytes;
use zincio_http::h2::codec::{
    parse_frame, Frame, FrameDecoder, FrameWriter, Priority, Setting, DEFAULT_MAX_FRAME_SIZE,
    FRAME_HEADER_LEN, MAX_FRAME_SIZE_LIMIT,
};
use zincio_http::h2::error::Reason;

fn frame(typ: u8, flags: u8, stream_id: u32, payload: &[u8]) -> Vec<u8> {
    let mut wire = vec![
        (payload.len() >> 16) as u8,
        (payload.len() >> 8) as u8,
        payload.len() as u8,
        typ,
        flags,
    ];
    wire.extend_from_slice(&stream_id.to_be_bytes());
    wire.extend_from_slice(payload);
    wire
}

fn decode_one(wire: &[u8]) -> Result<Option<Frame>, (Reason, &'static str)> {
    let mut decoder = FrameDecoder::new(DEFAULT_MAX_FRAME_SIZE);
    decoder.extend(wire);
    decoder.next_frame().map_err(|e| (e.reason, e.message))
}

fn rejects(wire: &[u8], reason: Reason, message: &str) {
    assert_eq!(decode_one(wire), Err((reason, message)));
}

fn all_frames() -> Vec<Frame> {
    vec![
        Frame::Data {
            stream_id: 1,
            end_stream: true,
            data: Bytes::from_static(b"hello"),
        },
        Frame::Headers {
            stream_id: 3,
            end_stream: false,
            end_headers: true,
            priority: Some(Priority {
                exclusive: true,
                dependency: 1,
                weight: 15,
            }),
            block: Bytes::from_static(&[0x82, 0x84]),
        },
        Frame::Priority {
            stream_id: 5,
            priority: Priority {
                exclusive: false,
                dependency: 0x7fff_ffff,
                weight: 255,
            },
        },
        Frame::Reset {
            stream_id: 7,
            error_code: 0x8,
        },
        Frame::Settings {
            ack: false,
            settings: vec![
                Setting {
                    id: 0x01,
                    value: 4096,
                },
                Setting {
                    id: 0x05,
                    value: 20_000,
                },
            ],
        },
        Frame::Settings {
            ack: true,
            settings: vec![],
        },
        Frame::PushPromise {
            stream_id: 9,
            end_headers: true,
            promised_stream_id: 10,
            block: Bytes::from_static(&[0x87]),
        },
        Frame::Ping {
            ack: false,
            payload: [1, 2, 3, 4, 5, 6, 7, 8],
        },
        Frame::Ping {
            ack: true,
            payload: [8, 7, 6, 5, 4, 3, 2, 1],
        },
        Frame::GoAway {
            last_stream_id: 9,
            error_code: 0xb,
            debug: Bytes::from_static(b"calm down"),
        },
        Frame::WindowUpdate {
            stream_id: 0,
            increment: 0x7fff_ffff,
        },
        Frame::Headers {
            stream_id: 11,
            end_stream: true,
            end_headers: false,
            priority: None,
            block: Bytes::from_static(&[0x82]),
        },
        Frame::Continuation {
            stream_id: 11,
            end_headers: true,
            block: Bytes::from_static(&[0x84]),
        },
    ]
}

fn write(frames: &[Frame]) -> Vec<u8> {
    let w = FrameWriter::new(DEFAULT_MAX_FRAME_SIZE);
    let mut out = Vec::new();
    for frame in frames {
        match frame {
            Frame::Data {
                stream_id,
                end_stream,
                data,
            } => w.write_data(&mut out, *stream_id, *end_stream, data),
            Frame::Headers {
                stream_id,
                end_stream,
                end_headers,
                priority,
                block,
            } => w.write_headers(&mut out, *stream_id, *end_stream, *end_headers, *priority, block),
            Frame::Priority {
                stream_id,
                priority,
            } => w.write_priority(&mut out, *stream_id, *priority),
            Frame::Reset {
                stream_id,
                error_code,
            } => w.write_reset(&mut out, *stream_id, *error_code),
            Frame::Settings { ack: true, .. } => w.write_settings_ack(&mut out),
            Frame::Settings { settings, .. } => w.write_settings(&mut out, settings),
            Frame::PushPromise {
                stream_id,
                promised_stream_id,
                block,
                ..
            } => w.write_push_promise(&mut out, *stream_id, *promised_stream_id, block),
            Frame::Ping { ack: true, payload } => w.write_ping_ack(&mut out, payload),
            Frame::Ping { payload, .. } => w.write_ping(&mut out, payload),
            Frame::GoAway {
                last_stream_id,
                error_code,
                debug,
            } => w.write_goaway(&mut out, *last_stream_id, *error_code, debug),
            Frame::WindowUpdate {
                stream_id,
                increment,
            } => w.write_window_update(&mut out, *stream_id, *increment),
            Frame::Continuation {
                stream_id,
                end_headers,
                block,
            } => w.write_continuation(&mut out, *stream_id, *end_headers, block),
            Frame::Unknown { .. } => unreachable!(),
        }
    }
    out
}

fn decode_all(decoder: &mut FrameDecoder) -> Vec<Frame> {
    let mut frames = Vec::new();
    while let Some(frame) = decoder.next_frame().unwrap() {
        frames.push(frame);
    }
    frames
}

#[test]
fn written_frames_are_read_back() {
    let frames = all_frames();
    let mut decoder = FrameDecoder::new(DEFAULT_MAX_FRAME_SIZE);
    decoder.extend(&write(&frames));
    assert_eq!(decode_all(&mut decoder), frames);
    assert_eq!(decoder.buffered(), 0);
}

#[test]
fn chunking_does_not_matter() {
    let frames = all_frames();
    let wire = write(&frames);
    for step in [1, 2, 7, 100] {
        let mut decoder = FrameDecoder::new(DEFAULT_MAX_FRAME_SIZE);
        let mut got = Vec::new();
        for chunk in wire.chunks(step) {
            decoder.extend(chunk);
            got.extend(decode_all(&mut decoder));
        }
        assert_eq!(got, frames);
    }
}

#[test]
fn frame_octets_are_exact() {
    let w = FrameWriter::new(DEFAULT_MAX_FRAME_SIZE);
    let mut out = Vec::new();
    w.write_data(&mut out, 0x0102_0304, true, b"ab");
    assert_eq!(out, [0, 0, 2, 0, 1, 1, 2, 3, 4, b'a', b'b']);
    let mut out = Vec::new();
    w.write_window_update(&mut out, 5, 0x1000);
    assert_eq!(out, [0, 0, 4, 8, 0, 0, 0, 0, 5, 0, 0, 0x10, 0]);
    let mut out = Vec::new();
    w.write_goaway(&mut out, 3, 1, b"x");
    assert_eq!(
        out,
        [0, 0, 9, 7, 0, 0, 0, 0, 0, 0, 0, 0, 3, 0, 0, 0, 1, b'x']
    );
    let mut out = Vec::new();
    w.write_settings(
        &mut out,
        &[Setting {
            id: 0x0304,
            value: 0x0506_0708,
        }],
    );
    assert_eq!(out, [0, 0, 6, 4, 0, 0, 0, 0, 0, 3, 4, 5, 6, 7, 8]);
}

#[test]
fn long_field_blocks_are_continued() {
    let block: Vec<u8> = (0..50).collect();
    let w = FrameWriter::new(16);
    let mut out = Vec::new();
    w.write_field_block(&mut out, 1, true, &block);
    let mut decoder = FrameDecoder::new(DEFAULT_MAX_FRAME_SIZE);
    decoder.extend(&out);
    let frames = decode_all(&mut decoder);
    assert_eq!(frames.len(), 4);
    let mut got = Vec::new();
    for (i, frame) in frames.iter().enumerate() {
        match frame {
            Frame::Headers {
                stream_id: 1,
                end_stream: true,
                end_headers: false,
                priority: None,
                block,
            } if i == 0 => got.extend_from_slice(block),
            Frame::Continuation {
                stream_id: 1,
                end_headers,
                block,
            } if i > 0 => {
                assert_eq!(*end_headers, i == 3);
                got.extend_from_slice(block);
            }
            other => panic!("unexpected frame {other:?}"),
        }
    }
    assert_eq!(got, block);

    // A block that fits goes out in one frame.
    let mut out = Vec::new();
    w.write_field_block(&mut out, 1, false, &block[..16]);
    let mut decoder = FrameDecoder::new(DEFAULT_MAX_FRAME_SIZE);
    decoder.extend(&out);
    assert!(matches!(
        decode_all(&mut decoder)[..],
        [Frame::Headers {
            end_headers: true,
            ..
        }]
    ));
}

#[test]
fn padding_is_stripped() {
    assert_eq!(
        decode_one(&frame(0x0, 0x08, 1, &[2, b'h', b'i', 0, 0])),
        Ok(Some(Frame::Data {
            stream_id: 1,
            end_stream: false,
            data: Bytes::from_static(b"hi"),
        }))
    );
    assert_eq!(
        decode_one(&frame(
            0x1,
            0x2d,
            3,
            &[1, 0x80, 0, 0, 1, 9, 0x82, 0]
        )),
        Ok(Some(Frame::Headers {
            stream_id: 3,
            end_stream: true,
            end_headers: true,
            priority: Some(Priority {
                exclusive: true,
                dependency: 1,
                weight: 9,
            }),
            block: Bytes::from_static(&[0x82]),
        }))
    );
}

#[test]
fn reserved_bits_are_ignored() {
    assert_eq!(
        decode_one(&frame(0x8, 0, 0x8000_0001, &[0x80, 0, 0, 5])),
        Ok(Some(Frame::WindowUpdate {
            stream_id: 1,
            increment: 5,
        }))
    );
}

#[test]
fn unknown_types_are_handed_on() {
    assert_eq!(
        decode_one(&frame(0x42, 0x07, 9, b"xyz")),
        Ok(Some(Frame::Unknown {
            typ: 0x42,
            flags: 0x07,
            stream_id: 9,
            payload: Bytes::from_static(b"xyz"),
        }))
    );
}

#[test]
fn padding_violations() {
    rejects(
        &frame(0x0, 0x08, 1, &[]),
        Reason::FrameSizeError,
        "PADDED frame payload too short for pad length",
    );
    rejects(
        &frame(0x0, 0x08, 1, &[3, 0, 0]),
        Reason::ProtocolError,
        "padding length is the length of the frame payload or greater",
    );
}

#[test]
fn priority_violations() {
    rejects(
        &frame(0x1, 0x24, 1, &[0, 0, 0, 2]),
        Reason::FrameSizeError,
        "frame payload too short for priority fields",
    );
    rejects(
        &frame(0x1, 0x24, 1, &[0, 0, 0, 1, 0]),
        Reason::ProtocolError,
        "stream priority depends on its own stream identifier",
    );
    rejects(
        &frame(0x2, 0, 1, &[0, 0, 0, 2]),
        Reason::FrameSizeError,
        "PRIORITY frame payload must be exactly 5 octets",
    );
}

#[test]
fn stream_identifier_violations() {
    for (typ, payload) in [
        (0x0u8, &[][..]),
        (0x1, &[]),
        (0x2, &[0, 0, 0, 1, 0]),
        (0x3, &[0, 0, 0, 0]),
        (0x5, &[0, 0, 0, 2]),
    ] {
        rejects(
            &frame(typ, 0x04, 0, payload),
            Reason::ProtocolError,
            "frame must use a non-zero stream identifier",
        );
    }
    rejects(
        &frame(0x4, 0, 1, &[]),
        Reason::ProtocolError,
        "SETTINGS frame must use stream identifier 0",
    );
    rejects(
        &frame(0x6, 0, 1, &[0; 8]),
        Reason::ProtocolError,
        "PING frame must use stream identifier 0",
    );
    rejects(
        &frame(0x7, 0, 1, &[0; 8]),
        Reason::ProtocolError,
        "GOAWAY frame must use stream identifier 0",
    );
}

#[test]
fn payload_size_violations() {
    rejects(
        &frame(0x3, 0, 1, &[0; 3]),
        Reason::FrameSizeError,
        "RST_STREAM frame payload must be exactly 4 octets",
    );
    rejects(
        &frame(0x4, 0x01, 0, &[0; 6]),
        Reason::FrameSizeError,
        "SETTINGS frame with ACK flag must have an empty payload",
    );
    rejects(
        &frame(0x4, 0, 0, &[0; 5]),
        Reason::FrameSizeError,
        "SETTINGS frame payload must be a multiple of 6 octets",
    );
    rejects(
        &frame(0x5, 0x04, 1, &[0; 3]),
        Reason::FrameSizeError,
        "PUSH_PROMISE frame payload must be at least 4 octets",
    );
    rejects(
        &frame(0x6, 0, 0, &[0; 7]),
        Reason::FrameSizeError,
        "PING frame payload must be exactly 8 octets",
    );
    rejects(
        &frame(0x7, 0, 0, &[0; 7]),
        Reason::FrameSizeError,
        "GOAWAY frame payload must be at least 8 octets",
    );
    rejects(
        &frame(0x8, 0, 0, &[0; 5]),
        Reason::FrameSizeError,
        "WINDOW_UPDATE frame payload must be exactly 4 octets",
    );
}

#[test]
fn value_violations() {
    rejects(
        &frame(0x5, 0x04, 1, &[0x80, 0, 0, 0]),
        Reason::ProtocolError,
        "PUSH_PROMISE promised stream identifier is 0",
    );
    rejects(
        &frame(0x8, 0, 0, &[0x80, 0, 0, 0]),
        Reason::ProtocolError,
        "WINDOW_UPDATE frame with zero increment",
    );
    rejects(
        &frame(0x4, 0, 0, &[0, 2, 0, 0, 0, 2]),
        Reason::ProtocolError,
        "SETTINGS_ENABLE_PUSH must be 0 or 1",
    );
    rejects(
        &frame(0x4, 0, 0, &[0, 4, 0x80, 0, 0, 0]),
        Reason::FlowControlError,
        "SETTINGS_INITIAL_WINDOW_SIZE exceeds 2^31-1",
    );
    for value in [16_383u32, MAX_FRAME_SIZE_LIMIT as u32 + 1] {
        let mut payload = vec![0, 5];
        payload.extend_from_slice(&value.to_be_bytes());
        rejects(
            &frame(0x4, 0, 0, &payload),
            Reason::ProtocolError,
            "SETTINGS_MAX_FRAME_SIZE outside 16384..16777215",
        );
    }
}

#[test]
fn oversized_frames_are_refused() {
    // The length alone is enough.
    let mut header = frame(0x0, 0, 1, &[]);
    header[..3].copy_from_slice(&[0, 0x40, 1]);
    rejects(
        &header,
        Reason::FrameSizeError,
        "frame payload exceeds SETTINGS_MAX_FRAME_SIZE",
    );
    let mut decoder = FrameDecoder::new(DEFAULT_MAX_FRAME_SIZE);
    decoder.set_max_frame_size(DEFAULT_MAX_FRAME_SIZE + 1);
    assert_eq!(decoder.max_frame_size(), DEFAULT_MAX_FRAME_SIZE + 1);
    decoder.extend(&header);
    assert_eq!(decoder.next_frame().unwrap(), None);
    assert_eq!(decoder.buffered(), FRAME_HEADER_LEN);
}

#[test]
fn open_field_blocks_admit_only_their_continuation() {
    let open = frame(0x1, 0, 1, &[0x82]);
    for (next, message) in [
        (
            frame(0x6, 0, 0, &[0; 8]),
            "frame received while field block was open",
        ),
        (
            frame(0x9, 0x04, 3, &[0x84]),
            "CONTINUATION frame on a different stream than the open field block",
        ),
    ] {
        let mut decoder = FrameDecoder::new(DEFAULT_MAX_FRAME_SIZE);
        decoder.extend(&open);
        decoder.extend(&next);
        assert!(decoder.next_frame().unwrap().is_some());
        assert_eq!(decoder.block_stream(), Some(1));
        let error = decoder.next_frame().unwrap_err();
        assert_eq!(error.reason, Reason::ProtocolError);
        assert_eq!(error.message, message);
    }
    rejects(
        &frame(0x9, 0x04, 1, &[0x84]),
        Reason::ProtocolError,
        "CONTINUATION frame without a preceding HEADERS or PUSH_PROMISE",
    );

    // Once the block is given up, other frames pass.
    let mut decoder = FrameDecoder::new(DEFAULT_MAX_FRAME_SIZE);
    decoder.extend(&open);
    decoder.extend(&frame(0x6, 0, 0, &[0; 8]));
    assert!(decoder.next_frame().unwrap().is_some());
    decoder.clear_block();
    assert_eq!(decoder.block_stream(), None);
    assert!(matches!(
        decoder.next_frame(),
        Ok(Some(Frame::Ping { ack: false, .. }))
    ));
}

#[test]
fn the_open_field_block_follows_the_frames() {
    let mut decoder = FrameDecoder::new(DEFAULT_MAX_FRAME_SIZE);
    // Each frame, whether it is accepted, and the block that is open after it.
    for (wire, accepted, open) in [
        (frame(0x6, 0, 0, &[0; 8]), true, None),
        (frame(0x1, 0x04, 1, &[0x82]), true, None),
        (frame(0x9, 0, 1, &[0x82]), false, None),
        (frame(0x1, 0, 3, &[0x82]), true, Some(3)),
        (frame(0x6, 0, 0, &[0; 8]), false, Some(3)),
        (frame(0x9, 0, 3, &[0x84]), true, Some(3)),
        (frame(0x9, 0x04, 5, &[0x84]), false, Some(3)),
        (frame(0x9, 0x04, 3, &[0x84]), true, None),
        (frame(0x5, 0, 7, &[0, 0, 0, 8, 0x82]), true, Some(7)),
        (frame(0x9, 0x04, 7, &[]), true, None),
        (frame(0x0, 0, 1, b"hello"), true, None),
    ] {
        decoder.extend(&wire);
        assert_eq!(decoder.next_frame().is_ok(), accepted);
        assert_eq!(decoder.block_stream(), open);
        assert_eq!(decoder.max_frame_size(), DEFAULT_MAX_FRAME_SIZE);
        assert_eq!(decoder.buffered(), 0);
    }
}

#[test]
fn single_frames_are_parsed() {
    let mut decoder = FrameDecoder::new(DEFAULT_MAX_FRAME_SIZE);
    let block = Bytes::from_static(&[0x82]);
    assert!(matches!(
        parse_frame(0x1, 0, 3, block.clone(), &mut decoder),
        Ok(Frame::Headers { stream_id: 3, end_headers: false, .. })
    ));
    assert_eq!(decoder.block_stream(), Some(3));
    assert!(parse_frame(0x6, 0, 0, Bytes::from_static(&[0; 8]), &mut decoder).is_err());
    assert_eq!(decoder.block_stream(), Some(3));
    assert!(parse_frame(0x9, 0x04, 3, block, &mut decoder).is_ok());
    assert_eq!(decoder.block_stream(), None);
}

#[test]
fn incomplete_frames_wait() {
    let wire = frame(0x0, 0, 1, b"hello");
    for n in 0..wire.len() {
        let mut decoder = FrameDecoder::new(DEFAULT_MAX_FRAME_SIZE);
        decoder.extend(&wire[..n]);
        assert_eq!(decoder.next_frame().unwrap(), None);
        assert_eq!(decoder.buffered(), n);
    }
}

#[test]
fn reasons_have_their_codes() {
    assert_eq!(Reason::NoError.code(), 0x0);
    assert_eq!(Reason::FlowControlError.code(), 0x3);
    assert_eq!(Reason::RefusedStream.code(), 0x7);
    assert_eq!(Reason::CompressionError.code(), 0x9);
    assert_eq!(Reason::EnhanceYourCalm.code(), 0xb);
    assert_eq!(Reason::Http11Required.code(), 0xd);
}
