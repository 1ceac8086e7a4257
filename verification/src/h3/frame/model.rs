//! The frames, what they say, and the wire format that relates the two.

use bytes::{Bytes, BytesMut};
use vstd::prelude::*;

use super::settings::{self, Setting, Settings};
use super::varint::{self, varint_size, write_varint};
use super::{
    FrameError, FRAME_CANCEL_PUSH, FRAME_DATA, FRAME_GOAWAY, FRAME_HEADERS, FRAME_MAX_PUSH_ID,
    FRAME_PUSH_PROMISE, FRAME_SETTINGS, MAX_FRAME_PAYLOAD, MAX_SETTINGS_PAYLOAD, MAX_VARINT,
};
use crate::octets::{bytes_slice, OctetView};

verus! {

/// An HTTP/3 frame (RFC 9114 Section 7.2).
///
/// `Data` and `Headers` payloads are opaque byte ranges. `Data` is the streamed
/// body chunk (the driver may hand it to the body reader without copying);
/// `Headers` and `PushPromise` field sections are QPACK-encoded and decoded by
/// the driver.
#[derive(Debug, Clone, PartialEq, Eq)]
#[allow(inconsistent_fields)]
pub enum Frame {
    /// `DATA`: a chunk of the request or response body.
    Data(Bytes),
    /// `HEADERS`: the QPACK-encoded field section.
    Headers(Bytes),
    /// `SETTINGS`: connection parameters (first frame of a control stream).
    Settings(Settings),
    /// `CANCEL_PUSH`: push ID whose push the peer should abandon.
    CancelPush(u64),
    /// `PUSH_PROMISE`: push ID plus the promised request's QPACK-encoded field
    /// section.
    PushPromise { push_id: u64, field_section: Bytes },
    /// `GOAWAY`: the highest stream ID (server) or push ID (client) the sender
    /// will process.
    Goaway(u64),
    /// `MAX_PUSH_ID`: the highest push ID the server may use.
    MaxPushId(u64),
}

/// What a [`Frame`] says: its fields, with every buffer as the octets it holds
/// and settings as the list of parameters.
#[verifier::ext_equal]
#[allow(inconsistent_fields)]
pub enum FrameView {
    Data(Seq<u8>),
    Headers(Seq<u8>),
    Settings(Seq<Setting>),
    CancelPush(u64),
    PushPromise { push_id: u64, field_section: Seq<u8> },
    Goaway(u64),
    MaxPushId(u64),
}

impl View for Frame {
    type V = FrameView;

    open spec fn view(&self) -> FrameView {
        match *self {
            Frame::Data(payload) => FrameView::Data(payload@),
            Frame::Headers(payload) => FrameView::Headers(payload@),
            Frame::Settings(settings) => FrameView::Settings(settings@),
            Frame::CancelPush(push_id) => FrameView::CancelPush(push_id),
            Frame::PushPromise { push_id, field_section } => FrameView::PushPromise {
                push_id,
                field_section: field_section@,
            },
            Frame::Goaway(stream_id) => FrameView::Goaway(stream_id),
            Frame::MaxPushId(push_id) => FrameView::MaxPushId(push_id),
        }
    }
}

/// What [`FrameDecoder::next_frame`](super::FrameDecoder::next_frame) came to.
pub open spec fn next_result(r: Result<Option<Frame>, FrameError>) -> Result<
    Option<FrameView>,
    FrameError,
> {
    match r {
        Ok(Some(frame)) => Ok(Some(frame@)),
        Ok(None) => Ok(None),
        Err(error) => Err(error),
    }
}

/// Every settings frame that was handed out has its index in order.
pub open spec fn settings_wf(frame: Frame) -> bool {
    frame matches Frame::Settings(settings) ==> settings.wf()
}

/// The frame types that HTTP/3 defines.
pub open spec fn known_type(ty: u64) -> bool {
    ty == FRAME_DATA || ty == FRAME_HEADERS || ty == FRAME_CANCEL_PUSH || ty == FRAME_SETTINGS || ty
        == FRAME_PUSH_PROMISE || ty == FRAME_GOAWAY || ty == FRAME_MAX_PUSH_ID
}

/// HTTP/2 frame types without an HTTP/3 equivalent (RFC 9114 Section 7.2.8).
pub open spec fn http2_type(ty: u64) -> bool {
    ty == 0x02 || ty == 0x06 || ty == 0x08 || ty == 0x09
}

/// The variable-length integer that fills a payload exactly.
pub open spec fn whole_varint(payload: Seq<u8>) -> Result<u64, FrameError> {
    match varint::varint_at_start(payload) {
        Err(error) => Err(error),
        Ok(None) => Err(FrameError::Frame),
        Ok(Some((value, n))) => if n != payload.len() {
            Err(FrameError::Frame)
        } else {
            Ok(value)
        },
    }
}

/// What a frame of a known type with the given payload says.
pub open spec fn frame_of(ty: u64, payload: Seq<u8>) -> Result<FrameView, FrameError> {
    if ty == FRAME_DATA {
        Ok(FrameView::Data(payload))
    } else if ty == FRAME_HEADERS {
        Ok(FrameView::Headers(payload))
    } else if ty == FRAME_SETTINGS {
        match settings::settings_of(payload) {
            Err(error) => Err(error),
            Ok(entries) => Ok(FrameView::Settings(entries)),
        }
    } else if ty == FRAME_PUSH_PROMISE {
        match varint::varint_at_start(payload) {
            Err(error) => Err(error),
            Ok(None) => Err(FrameError::Frame),
            Ok(Some((push_id, n))) => Ok(
                FrameView::PushPromise {
                    push_id,
                    field_section: payload.subrange(n as int, payload.len() as int),
                },
            ),
        }
    } else {
        match whole_varint(payload) {
            Err(error) => Err(error),
            Ok(value) => Ok(
                if ty == FRAME_CANCEL_PUSH {
                    FrameView::CancelPush(value)
                } else if ty == FRAME_GOAWAY {
                    FrameView::Goaway(value)
                } else {
                    FrameView::MaxPushId(value)
                },
            ),
        }
    }
}

/// What the head of a buffer tells of the frame that starts there.
pub enum Head {
    /// The type or the length is not complete.
    Incomplete,
    /// The frame is refused by its type, its length, or a redundant encoding.
    Refused(FrameError),
    /// A frame of type `ty`: `header` octets of type and length, then `len`
    /// octets of payload.
    Frame { ty: u64, header: nat, len: nat },
}

/// The head of a buffer.
pub open spec fn head(buf: Seq<u8>) -> Head {
    match varint::varint_at(buf, 0) {
        Err(error) => Head::Refused(error),
        Ok(None) => Head::Incomplete,
        Ok(Some((ty, type_len))) => if http2_type(ty) {
            Head::Refused(FrameError::Unexpected(ty))
        } else {
            match varint::varint_at(buf, type_len) {
                Err(error) => Head::Refused(error),
                Ok(None) => Head::Incomplete,
                Ok(Some((len, len_len))) => if ty == FRAME_SETTINGS && len > MAX_SETTINGS_PAYLOAD {
                    Head::Refused(FrameError::Settings)
                } else if len > MAX_FRAME_PAYLOAD {
                    Head::Refused(FrameError::Frame)
                } else {
                    Head::Frame { ty, header: type_len + len_len, len: len as nat }
                },
            }
        },
    }
}

/// Taking the next frame off a buffer: what stays in the buffer and the
/// outcome. Frames of unknown types are skipped. A refused or incomplete frame
/// stays; a complete frame is consumed even where its payload is malformed.
pub open spec fn next_step(buf: Seq<u8>) -> (Seq<u8>, Result<Option<FrameView>, FrameError>)
    decreases buf.len(),
{
    match head(buf) {
        Head::Refused(error) => (buf, Err(error)),
        Head::Incomplete => (buf, Ok(None)),
        Head::Frame { ty, header, len } => {
            let rest = buf.subrange((header + len) as int, buf.len() as int);
            if header + len > buf.len() {
                (buf, Ok(None))
            } else if !known_type(ty) {
                if rest.len() < buf.len() {
                    next_step(rest)
                } else {
                    (buf, Ok(None))
                }
            } else {
                match frame_of(ty, buf.subrange(header as int, (header + len) as int)) {
                    Err(error) => (rest, Err(error)),
                    Ok(frame) => (rest, Ok(Some(frame))),
                }
            }
        },
    }
}

/// The encodings of SETTINGS parameters.
pub open spec fn settings_octets(entries: Seq<Setting>) -> Seq<u8>
    decreases entries.len(),
{
    if entries.len() == 0 {
        Seq::empty()
    } else {
        settings_octets(entries.drop_last()) + varint::varint_octets(entries.last().0)
            + varint::varint_octets(entries.last().1)
    }
}

/// The type of a frame.
pub open spec fn type_of(frame: FrameView) -> u64 {
    match frame {
        FrameView::Data(_) => FRAME_DATA,
        FrameView::Headers(_) => FRAME_HEADERS,
        FrameView::Settings(_) => FRAME_SETTINGS,
        FrameView::CancelPush(_) => FRAME_CANCEL_PUSH,
        FrameView::PushPromise { .. } => FRAME_PUSH_PROMISE,
        FrameView::Goaway(_) => FRAME_GOAWAY,
        FrameView::MaxPushId(_) => FRAME_MAX_PUSH_ID,
    }
}

/// The payload of a frame.
pub open spec fn payload_of(frame: FrameView) -> Seq<u8> {
    match frame {
        FrameView::Data(payload) => payload,
        FrameView::Headers(payload) => payload,
        FrameView::Settings(entries) => settings_octets(entries),
        FrameView::CancelPush(push_id) => varint::varint_octets(push_id),
        FrameView::PushPromise { push_id, field_section } => varint::varint_octets(push_id)
            + field_section,
        FrameView::Goaway(stream_id) => varint::varint_octets(stream_id),
        FrameView::MaxPushId(push_id) => varint::varint_octets(push_id),
    }
}

/// A frame on the wire: type, length, payload.
pub open spec fn wire_frame(ty: u64, payload: Seq<u8>) -> Seq<u8> {
    varint::varint_octets(ty) + varint::varint_octets(payload.len() as u64) + payload
}

/// The wire form of a frame.
pub open spec fn wire(frame: FrameView) -> Seq<u8> {
    wire_frame(type_of(frame), payload_of(frame))
}

/// Every number in the frame fits a variable-length integer.
pub open spec fn encodable(frame: FrameView) -> bool {
    &&& payload_of(frame).len() <= MAX_VARINT
    &&& match frame {
        FrameView::Settings(entries) => forall|i: int|
            0 <= i < entries.len() ==> (#[trigger] entries[i]).0 <= MAX_VARINT && entries[i].1
                <= MAX_VARINT,
        FrameView::CancelPush(push_id) => push_id <= MAX_VARINT,
        FrameView::PushPromise { push_id, .. } => push_id <= MAX_VARINT,
        FrameView::Goaway(stream_id) => stream_id <= MAX_VARINT,
        FrameView::MaxPushId(push_id) => push_id <= MAX_VARINT,
        _ => true,
    }
}

/// How much a parameter adds to a SETTINGS payload.
proof fn settings_octets_step(entries: Seq<Setting>, i: int)
    requires
        0 <= i < entries.len(),
        entries[i].0 <= MAX_VARINT,
        entries[i].1 <= MAX_VARINT,
    ensures
        settings_octets(entries.subrange(0, i + 1)) == settings_octets(entries.subrange(0, i))
            + varint::varint_octets(entries[i].0) + varint::varint_octets(entries[i].1),
        settings_octets(entries.subrange(0, i + 1)).len() == settings_octets(
            entries.subrange(0, i),
        ).len() + varint::varint_len(entries[i].0) + varint::varint_len(entries[i].1),
{
    assert(entries.subrange(0, i + 1).drop_last() =~= entries.subrange(0, i));
    varint::varint_round_trip(entries[i].0, Seq::empty());
    varint::varint_round_trip(entries[i].1, Seq::empty());
}

/// A payload is no shorter than what its first parameters take.
proof fn settings_octets_grow(entries: Seq<Setting>, i: int)
    requires
        0 <= i <= entries.len(),
    ensures
        settings_octets(entries.subrange(0, i)).len() <= settings_octets(entries).len(),
    decreases entries.len() - i,
{
    if i == entries.len() {
        assert(entries.subrange(0, i) =~= entries);
    } else {
        settings_octets_grow(entries, i + 1);
        assert(entries.subrange(0, i + 1).drop_last() =~= entries.subrange(0, i));
    }
}

impl Frame {
    /// Whether this is one of the known HTTP/3 frame types (RFC 9114 Section
    /// 7.2).
    ///
    /// The decoder never surfaces unknown or reserved (grease) frame types
    /// (they are consumed and skipped, Section 7.2.8), so every frame it
    /// returns is by construction a known type. This method documents the
    /// request-stream rule (Section 4.1) that after the trailers only unknown
    /// frames may still appear.
    pub fn is_known(&self) -> (known: bool)
        ensures
            known,
            known == known_type(type_of(self@)),
    {
        match self {
            Frame::Data(_) => true,
            Frame::Headers(_) => true,
            Frame::Settings(_) => true,
            Frame::CancelPush(_) => true,
            Frame::PushPromise { .. } => true,
            Frame::Goaway(_) => true,
            Frame::MaxPushId(_) => true,
        }
    }

    /// Serializes this frame (type, length, payload) into `dst`.
    pub fn encode(&self, dst: &mut BytesMut)
        requires
            encodable(self@),
            old(dst)@.len() + payload_of(self@).len() + 24 <= isize::MAX,
        ensures
            final(dst)@ == old(dst)@ + wire(self@),
    {
        let ghost before = dst@;
        match self {
            Frame::Data(payload) => {
                write_varint(FRAME_DATA, dst);
                write_varint(payload.len() as u64, dst);
                dst.extend_from_slice(bytes_slice(payload));
            },
            Frame::Headers(payload) => {
                write_varint(FRAME_HEADERS, dst);
                write_varint(payload.len() as u64, dst);
                dst.extend_from_slice(bytes_slice(payload));
            },
            Frame::Settings(settings) => {
                write_varint(FRAME_SETTINGS, dst);
                let len: usize = settings_len(settings);
                write_varint(len as u64, dst);
                encode_settings(settings, dst);
            },
            Frame::CancelPush(push_id) => {
                proof {
                    varint::varint_round_trip(*push_id, Seq::empty());
                }
                write_varint(FRAME_CANCEL_PUSH, dst);
                write_varint(varint_size(*push_id) as u64, dst);
                write_varint(*push_id, dst);
            },
            Frame::PushPromise { push_id, field_section } => {
                proof {
                    varint::varint_round_trip(*push_id, Seq::empty());
                }
                write_varint(FRAME_PUSH_PROMISE, dst);
                write_varint((varint_size(*push_id) + field_section.len()) as u64, dst);
                write_varint(*push_id, dst);
                dst.extend_from_slice(bytes_slice(field_section));
            },
            Frame::Goaway(stream_id) => {
                proof {
                    varint::varint_round_trip(*stream_id, Seq::empty());
                }
                write_varint(FRAME_GOAWAY, dst);
                write_varint(varint_size(*stream_id) as u64, dst);
                write_varint(*stream_id, dst);
            },
            Frame::MaxPushId(push_id) => {
                proof {
                    varint::varint_round_trip(*push_id, Seq::empty());
                }
                write_varint(FRAME_MAX_PUSH_ID, dst);
                write_varint(varint_size(*push_id) as u64, dst);
                write_varint(*push_id, dst);
            },
        }
        assert(dst@ =~= before + wire(self@));
    }
}

/// The length of a SETTINGS payload.
fn settings_len(settings: &Settings) -> (len: usize)
    requires
        encodable(FrameView::Settings(settings@)),
        settings_octets(settings@).len() <= isize::MAX,
    ensures
        len == settings_octets(settings@).len(),
{
    let entries = settings.iter();
    let mut len: usize = 0;
    let mut i: usize = 0;
    while i < entries.len()
        invariant
            i <= entries@.len(),
            len == settings_octets(entries@.subrange(0, i as int)).len(),
            encodable(FrameView::Settings(entries@)),
            settings_octets(entries@).len() <= isize::MAX,
        decreases entries@.len() - i,
    {
        proof {
            settings_octets_step(entries@, i as int);
            settings_octets_grow(entries@, i + 1);
        }
        len = len + varint_size(entries[i].0) + varint_size(entries[i].1);
        i = i + 1;
    }
    assert(entries@.subrange(0, i as int) =~= entries@);
    len
}

/// Writes a SETTINGS payload.
fn encode_settings(settings: &Settings, dst: &mut BytesMut)
    requires
        encodable(FrameView::Settings(settings@)),
        old(dst)@.len() + settings_octets(settings@).len() + 8 <= isize::MAX,
    ensures
        final(dst)@ == old(dst)@ + settings_octets(settings@),
{
    let ghost before = dst@;
    let entries = settings.iter();
    let mut i: usize = 0;
    while i < entries.len()
        invariant
            i <= entries@.len(),
            dst@ == before + settings_octets(entries@.subrange(0, i as int)),
            encodable(FrameView::Settings(entries@)),
            before.len() + settings_octets(entries@).len() + 8 <= isize::MAX,
        decreases entries@.len() - i,
    {
        proof {
            settings_octets_step(entries@, i as int);
            settings_octets_grow(entries@, i + 1);
        }
        write_varint(entries[i].0, dst);
        write_varint(entries[i].1, dst);
        assert(dst@ =~= before + settings_octets(entries@.subrange(0, i + 1)));
        i = i + 1;
    }
    assert(entries@.subrange(0, i as int) =~= entries@);
}

} // verus!
