//! What holds of the codec as a whole: what is written is read back, and what
//! is read does not depend on how the octets arrive.

use vstd::prelude::*;

use super::model::{self, FrameView, Head};
use super::settings::{self, Setting};
use super::varint;
use super::{
    FrameError, FRAME_SETTINGS, MAX_FRAME_PAYLOAD, MAX_SETTINGS_ENTRIES, MAX_SETTINGS_PAYLOAD,
    MAX_VARINT,
};

verus! {

/// The parameters without those under grease identifiers.
pub open spec fn without_grease(entries: Seq<Setting>) -> Seq<Setting>
    decreases entries.len(),
{
    if entries.len() == 0 {
        Seq::empty()
    } else {
        let init = without_grease(entries.drop_last());
        if settings::grease(entries.last().0) {
            init
        } else {
            init.push(entries.last())
        }
    }
}

/// Parameters that a peer accepts: no more than the limit, no reserved
/// identifier, and no identifier twice but for grease.
pub open spec fn settings_legal(entries: Seq<Setting>) -> bool {
    &&& entries.len() <= MAX_SETTINGS_ENTRIES
    &&& forall|i: int|
        0 <= i < entries.len() ==> !settings::reserved_setting((#[trigger] entries[i]).0)
    &&& forall|i: int, j: int|
        0 <= i < j < entries.len() && (#[trigger] entries[i]).0 == (#[trigger] entries[j]).0
            ==> settings::grease(entries[i].0)
}

/// What the peer reads of a frame: settings lose their grease.
pub open spec fn as_read(frame: FrameView) -> FrameView {
    match frame {
        FrameView::Settings(entries) => FrameView::Settings(without_grease(entries)),
        _ => frame,
    }
}

/// A frame that a peer accepts.
pub open spec fn legal(frame: FrameView) -> bool {
    &&& model::encodable(frame)
    &&& model::payload_of(frame).len() <= MAX_FRAME_PAYLOAD
    &&& frame matches FrameView::Settings(entries) ==> settings_legal(entries)
}

proof fn without_grease_lookup(entries: Seq<Setting>, id: u64)
    requires
        forall|i: int| 0 <= i < entries.len() ==> (#[trigger] entries[i]).0 != id,
    ensures
        settings::first_value(without_grease(entries), id) is None,
    decreases entries.len(),
{
    if entries.len() > 0 {
        let init = entries.drop_last();
        assert forall|i: int| 0 <= i < init.len() implies (#[trigger] init[i]).0 != id by {
            assert(init[i] == entries[i]);
        }
        without_grease_lookup(init, id);
        let kept = without_grease(init);
        if !settings::grease(entries.last().0) {
            assert(kept.push(entries.last()).drop_last() =~= kept);
        }
    }
}

proof fn grease_is_not_kept(entries: Seq<Setting>, id: u64)
    requires
        settings::grease(id),
    ensures
        settings::first_value(without_grease(entries), id) is None,
    decreases entries.len(),
{
    if entries.len() > 0 {
        grease_is_not_kept(entries.drop_last(), id);
        let kept = without_grease(entries.drop_last());
        if !settings::grease(entries.last().0) {
            assert(kept.push(entries.last()).drop_last() =~= kept);
        }
    }
}

/// The octets of the parameters from `i` on.
spec fn octets_from(entries: Seq<Setting>, i: int) -> Seq<u8>
    decreases entries.len() - i,
{
    if i < 0 || i >= entries.len() {
        Seq::empty()
    } else {
        varint::varint_octets(entries[i].0) + varint::varint_octets(entries[i].1) + octets_from(
            entries,
            i + 1,
        )
    }
}

proof fn octets_split(entries: Seq<Setting>, i: int)
    requires
        0 <= i <= entries.len(),
    ensures
        model::settings_octets(entries) == model::settings_octets(entries.subrange(0, i))
            + octets_from(entries, i),
    decreases entries.len() - i,
{
    if i == entries.len() {
        assert(entries.subrange(0, i) =~= entries);
        assert(model::settings_octets(entries) =~= model::settings_octets(entries) + Seq::<
            u8,
        >::empty());
    } else {
        octets_split(entries, i + 1);
        assert(entries.subrange(0, i + 1).drop_last() =~= entries.subrange(0, i));
        assert(model::settings_octets(entries) =~= model::settings_octets(entries.subrange(0, i))
            + octets_from(entries, i));
    }
}

proof fn settings_read_from(entries: Seq<Setting>, i: int)
    requires
        0 <= i <= entries.len(),
        settings_legal(entries),
        forall|k: int|
            0 <= k < entries.len() ==> (#[trigger] entries[k]).0 <= MAX_VARINT && entries[k].1
                <= MAX_VARINT,
    ensures
        settings::settings_from(
            octets_from(entries, i),
            i as nat,
            without_grease(entries.subrange(0, i)),
        ) == Ok::<_, FrameError>(without_grease(entries)),
    decreases entries.len() - i,
{
    let before = entries.subrange(0, i);
    if i == entries.len() {
        assert(before =~= entries);
    } else {
        let (id, value) = entries[i];
        assert(entries[i].0 <= MAX_VARINT);
        let after = octets_from(entries, i + 1);
        let a = varint::varint_octets(id);
        let b = varint::varint_octets(value);
        let rest = octets_from(entries, i);
        varint::varint_round_trip(id, b + after);
        varint::varint_round_trip(value, after);
        assert(rest =~= a + (b + after));
        assert(rest.subrange(a.len() as int, rest.len() as int) =~= b + after);
        assert(rest.subrange((a.len() + b.len()) as int, rest.len() as int) =~= after);
        if settings::grease(id) {
            grease_is_not_kept(before, id);
        } else {
            assert forall|k: int| 0 <= k < before.len() implies (#[trigger] before[k]).0 != id by {
                assert(before[k] == entries[k]);
                assert(entries[i].0 == id);
            }
            without_grease_lookup(before, id);
        }
        assert(entries.subrange(0, i + 1).drop_last() =~= before);
        assert(!settings::reserved_setting(entries[i].0));
        settings_read_from(entries, i + 1);
    }
}

proof fn settings_read_back(entries: Seq<Setting>)
    requires
        settings_legal(entries),
        model::encodable(FrameView::Settings(entries)),
    ensures
        settings::settings_from(model::settings_octets(entries), 0, Seq::empty()) == Ok::<
            _,
            FrameError,
        >(without_grease(entries)),
        model::settings_octets(entries).len() <= 16 * entries.len(),
{
    octets_split(entries, 0);
    assert(entries.subrange(0, 0) =~= Seq::<Setting>::empty());
    assert(model::settings_octets(entries) =~= octets_from(entries, 0));
    settings_read_from(entries, 0);
    settings_octets_bound(entries);
}

proof fn settings_octets_bound(entries: Seq<Setting>)
    requires
        forall|k: int|
            0 <= k < entries.len() ==> (#[trigger] entries[k]).0 <= MAX_VARINT && entries[k].1
                <= MAX_VARINT,
    ensures
        model::settings_octets(entries).len() <= 16 * entries.len(),
    decreases entries.len(),
{
    if entries.len() > 0 {
        assert forall|k: int| 0 <= k < entries.drop_last().len() implies (
        #[trigger] entries.drop_last()[k]).0 <= MAX_VARINT && entries.drop_last()[k].1
            <= MAX_VARINT by {
            assert(entries.drop_last()[k] == entries[k]);
        }
        settings_octets_bound(entries.drop_last());
        let last = entries[entries.len() - 1];
        varint::varint_round_trip(last.0, Seq::empty());
        varint::varint_round_trip(last.1, Seq::empty());
    }
}

/// The head of a frame on the wire gives its type and its length.
proof fn head_read_back(ty: u64, payload: Seq<u8>, rest: Seq<u8>)
    requires
        ty <= MAX_VARINT,
        !model::http2_type(ty),
        payload.len() <= MAX_FRAME_PAYLOAD,
        ty == FRAME_SETTINGS ==> payload.len() <= MAX_SETTINGS_PAYLOAD,
    ensures
        ({
            let w = model::wire_frame(ty, payload) + rest;
            let header = varint::varint_octets(ty).len() + varint::varint_octets(
                payload.len() as u64,
            ).len();
            &&& model::head(w) == (Head::Frame { ty, header, len: payload.len() })
            &&& header > 0
            &&& w.len() == header + payload.len() + rest.len()
            &&& w.subrange(header as int, (header + payload.len()) as int) == payload
            &&& w.subrange((header + payload.len()) as int, w.len() as int) == rest
        }),
{
    let w = model::wire_frame(ty, payload) + rest;
    let a = varint::varint_octets(ty);
    let b = varint::varint_octets(payload.len() as u64);
    varint::varint_round_trip(ty, b + payload + rest);
    varint::varint_round_trip(payload.len() as u64, payload + rest);
    assert(w.subrange(0, w.len() as int) =~= a + (b + payload + rest));
    assert(w.subrange(a.len() as int, w.len() as int) =~= b + (payload + rest));
    assert(w.subrange((a.len() + b.len()) as int, (a.len() + b.len() + payload.len()) as int)
        =~= payload);
    assert(w.subrange((a.len() + b.len() + payload.len()) as int, w.len() as int) =~= rest);
}

/// A frame that a peer accepts is read back from its wire form, whatever
/// follows it in the buffer, and exactly its octets are consumed. Only grease
/// settings are lost on the way.
pub proof fn written_frame_is_read_back(frame: FrameView, rest: Seq<u8>)
    requires
        legal(frame),
    ensures
        model::next_step(model::wire(frame) + rest) == (
            rest,
            Ok::<_, FrameError>(Some(as_read(frame))),
        ),
{
    let payload = model::payload_of(frame);
    let ty = model::type_of(frame);
    match frame {
        FrameView::Settings(entries) => {
            settings_read_back(entries);
        },
        FrameView::CancelPush(value) => {
            varint::varint_round_trip(value, Seq::empty());
            assert(payload + Seq::<u8>::empty() =~= payload);
        },
        FrameView::Goaway(value) => {
            varint::varint_round_trip(value, Seq::empty());
            assert(payload + Seq::<u8>::empty() =~= payload);
        },
        FrameView::MaxPushId(value) => {
            varint::varint_round_trip(value, Seq::empty());
            assert(payload + Seq::<u8>::empty() =~= payload);
        },
        FrameView::PushPromise { push_id, field_section } => {
            varint::varint_round_trip(push_id, field_section);
            let n = varint::varint_octets(push_id).len() as int;
            assert(payload.subrange(n, payload.len() as int) =~= field_section);
        },
        _ => {},
    }
    assert(model::frame_of(ty, payload) == Ok::<_, FrameError>(as_read(frame)));
    head_read_back(ty, payload, rest);
}

/// Frames of unknown types are skipped (RFC 9114 Section 7.2.8): what the
/// decoder returns is what it would return without them.
pub proof fn unknown_frame_is_skipped(ty: u64, payload: Seq<u8>, rest: Seq<u8>)
    requires
        ty <= MAX_VARINT,
        !model::known_type(ty),
        !model::http2_type(ty),
        payload.len() <= MAX_FRAME_PAYLOAD,
    ensures
        model::next_step(model::wire_frame(ty, payload) + rest) == model::next_step(rest),
{
    head_read_back(ty, payload, rest);
}

/// A declared length beyond the limits is refused from the header alone, and
/// nothing is consumed.
pub proof fn oversized_frame_is_refused(ty: u64, len: u64, rest: Seq<u8>)
    requires
        ty <= MAX_VARINT,
        len <= MAX_VARINT,
        !model::http2_type(ty),
        len > MAX_FRAME_PAYLOAD || (ty == FRAME_SETTINGS && len > MAX_SETTINGS_PAYLOAD),
    ensures
        ({
            let buf = varint::varint_octets(ty) + varint::varint_octets(len) + rest;
            model::next_step(buf) == (
                buf,
                Err::<Option<FrameView>, _>(
                    if ty == FRAME_SETTINGS {
                        FrameError::Settings
                    } else {
                        FrameError::Frame
                    },
                ),
            )
        }),
{
    let a = varint::varint_octets(ty);
    let b = varint::varint_octets(len);
    let w = a + b + rest;
    varint::varint_round_trip(ty, b + rest);
    varint::varint_round_trip(len, rest);
    assert(w.subrange(0, w.len() as int) =~= a + (b + rest));
    assert(w.subrange(a.len() as int, w.len() as int) =~= b + rest);
}

proof fn head_is_prefix_stable(buf: Seq<u8>, more: Seq<u8>)
    ensures
        !(model::head(buf) is Incomplete) ==> model::head(buf + more) == model::head(buf),
        model::head(buf) matches Head::Frame { header, .. } ==> 0 < header <= buf.len(),
{
    if buf.len() > 0 {
        let e = buf + more;
        assert(buf.subrange(0, buf.len() as int) =~= buf);
        assert(e.subrange(0, e.len() as int) =~= e);
        varint::varint_is_prefix_stable(buf, more);
        varint::varint_is_canonical(buf);
        if let Ok(Some((ty, n))) = varint::varint_at_start(buf) {
            let tail = buf.subrange(n as int, buf.len() as int);
            varint::varint_is_prefix_stable(tail, more);
            varint::varint_is_canonical(tail);
            assert(e.subrange(n as int, e.len() as int) =~= tail + more);
        }
    }
}

/// What happens when more octets arrive: a frame or an error stays what it is
/// and the new octets stay in the buffer; where more octets were needed, the
/// decoder goes on from what it had left.
pub proof fn next_step_extended(buf: Seq<u8>, more: Seq<u8>)
    ensures
        ({
            let (left, outcome) = model::next_step(buf);
            model::next_step(buf + more) == if outcome == Ok::<Option<FrameView>, FrameError>(
                None,
            ) {
                model::next_step(left + more)
            } else {
                (left + more, outcome)
            }
        }),
        model::next_step(buf).0.len() <= buf.len(),
        model::next_step(buf).1 matches Ok(Some(_)) ==> model::next_step(buf).0.len() < buf.len(),
    decreases buf.len(),
{
    head_is_prefix_stable(buf, more);
    if let Head::Frame { ty, header, len } = model::head(buf) {
        let end = (header + len) as int;
        let e = buf + more;
        if end <= buf.len() {
            let rest = buf.subrange(end, buf.len() as int);
            assert(e.subrange(end, e.len() as int) =~= rest + more);
            assert(e.subrange(header as int, end) =~= buf.subrange(header as int, end));
            if !model::known_type(ty) {
                next_step_extended(rest, more);
            }
        }
    }
}

/// All that the decoder makes of a buffer: the frames up to the point where it
/// needs more octets or meets an error, what is left there, and the error.
pub open spec fn decode_all(buf: Seq<u8>) -> (Seq<u8>, Seq<FrameView>, Option<FrameError>)
    decreases buf.len(),
{
    let (left, outcome) = model::next_step(buf);
    match outcome {
        Err(error) => (left, Seq::empty(), Some(error)),
        Ok(None) => (left, Seq::empty(), None),
        Ok(Some(frame)) => if left.len() < buf.len() {
            let (end, frames, error) = decode_all(left);
            (end, seq![frame] + frames, error)
        } else {
            (left, seq![frame], None)
        },
    }
}

/// The frames do not depend on how the octets are cut into pieces: decoding
/// `a` and then `b` gives what decoding both at once gives, up to the error
/// that ends it, if there is one.
pub proof fn decoding_ignores_chunking(a: Seq<u8>, b: Seq<u8>)
    ensures
        ({
            let (left1, frames1, error1) = decode_all(a);
            let (left2, frames2, error2) = decode_all(left1 + b);
            decode_all(a + b) == if error1 is Some {
                (left1 + b, frames1, error1)
            } else {
                (left2, frames1 + frames2, error2)
            }
        }),
    decreases a.len(),
{
    let (left, outcome) = model::next_step(a);
    next_step_extended(a, b);
    match outcome {
        Err(_) => {},
        Ok(None) => {
            let (left2, frames2, error2) = decode_all(left + b);
            assert(Seq::<FrameView>::empty() + frames2 =~= frames2);
            next_step_extended(a + b, Seq::empty());
            next_step_extended(left + b, Seq::empty());
        },
        Ok(Some(frame)) => {
            decoding_ignores_chunking(left, b);
            let (left1, frames1, error1) = decode_all(left);
            let (left2, frames2, error2) = decode_all(left1 + b);
            assert(seq![frame] + (frames1 + frames2) =~= (seq![frame] + frames1) + frames2);
        },
    }
}

/// The wire forms of frames, one after the other.
pub open spec fn wire_all(frames: Seq<FrameView>) -> Seq<u8>
    decreases frames.len(),
{
    if frames.len() == 0 {
        Seq::empty()
    } else {
        model::wire(frames[0]) + wire_all(frames.drop_first())
    }
}

/// Frames written one after the other are read back in order, and at a clean
/// end of the stream nothing is left: a stream that ends with octets still
/// buffered was cut short.
pub proof fn written_frames_are_read_back(frames: Seq<FrameView>)
    requires
        forall|i: int| 0 <= i < frames.len() ==> legal(#[trigger] frames[i]),
    ensures
        decode_all(wire_all(frames)) == (
            Seq::<u8>::empty(),
            frames.map_values(|frame: FrameView| as_read(frame)),
            None::<FrameError>,
        ),
    decreases frames.len(),
{
    let read = frames.map_values(|frame: FrameView| as_read(frame));
    if frames.len() == 0 {
        assert(read =~= Seq::<FrameView>::empty());
    } else {
        let rest = frames.drop_first();
        assert forall|i: int| 0 <= i < rest.len() implies legal(#[trigger] rest[i]) by {
            assert(rest[i] == frames[i + 1]);
        }
        written_frames_are_read_back(rest);
        assert(legal(frames[0]));
        written_frame_is_read_back(frames[0], wire_all(rest));
        next_step_extended(wire_all(frames), Seq::empty());
        assert(read =~= seq![as_read(frames[0])] + rest.map_values(
            |frame: FrameView| as_read(frame),
        ));
    }
}

/// Frames of the HTTP/2 types that HTTP/3 does not have are refused by their type,
/// which the error names, and no others are (RFC 9114 Section 7.2.8).
pub proof fn http2_frames_are_refused(ty: u64, rest: Seq<u8>)
    requires
        ty <= MAX_VARINT,
    ensures
        ({
            let buf = varint::varint_octets(ty) + rest;
            &&& ty == 0x02 || ty == 0x06 || ty == 0x08 || ty == 0x09 ==> model::next_step(buf) == (
                buf,
                Err::<Option<FrameView>, FrameError>(FrameError::Unexpected(ty)),
            )
            &&& ty != 0x02 && ty != 0x06 && ty != 0x08 && ty != 0x09 ==> !(model::head(
                buf,
            ) matches Head::Refused(error) && error is Unexpected)
        }),
{
    let buf = varint::varint_octets(ty) + rest;
    varint::varint_round_trip(ty, rest);
    assert(buf.subrange(0, buf.len() as int) =~= buf);
    let n = varint::varint_len(ty);
    if let Err(error) = varint::varint_at(buf, n) {
        assert(error == FrameError::Frame);
    }
}

/// The payload of a frame with one value is the encoding of that value and
/// nothing else.
pub proof fn single_values_fill_their_payload(payload: Seq<u8>, value: u64)
    ensures
        model::whole_varint(payload) == Ok::<u64, FrameError>(value) <==> value <= MAX_VARINT
            && payload == varint::varint_octets(value),
{
    let none = Seq::<u8>::empty();
    varint::varint_is_canonical(payload);
    if value <= MAX_VARINT {
        varint::varint_round_trip(value, none);
        assert(varint::varint_octets(value) + none =~= varint::varint_octets(value));
    }
    if let Ok(Some((v, n))) = varint::varint_at_start(payload) {
        if n == payload.len() {
            assert(payload.subrange(0, n as int) =~= payload);
        }
    }
}

/// Parameters that may be kept: identifiers that HTTP/3 does not forbid, no
/// grease, and none twice.
pub open spec fn kept_settings(entries: Seq<Setting>) -> bool {
    &&& forall|i: int|
        0 <= i < entries.len() ==> !(0x02 <= (#[trigger] entries[i]).0 <= 0x05) && (entries[i].0
            < 0x21 || (entries[i].0 - 0x21) % 0x1f != 0)
    &&& forall|i: int, j: int|
        0 <= i < j < entries.len() ==> (#[trigger] entries[i]).0 != (#[trigger] entries[j]).0
}

/// SETTINGS that are read hold no identifier that HTTP/3 forbids, no grease, none
/// twice, and no more than thirty-two parameters.
pub proof fn read_settings_are_legal(payload: Seq<u8>)
    ensures
        settings::settings_of(payload) matches Ok(entries) ==> entries.len() <= 32
            && kept_settings(entries),
{
    read_settings_are_kept(payload, 0, Seq::empty());
}

proof fn read_settings_are_kept(rest: Seq<u8>, count: nat, entries: Seq<Setting>)
    requires
        kept_settings(entries),
        entries.len() <= count <= 32,
    ensures
        settings::settings_from(rest, count, entries) matches Ok(all) ==> all.len() <= 32
            && kept_settings(all),
    decreases rest.len(),
{
    if rest.len() > 0 {
        if let Ok(Some((id, n))) = varint::varint_at_start(rest) {
            let after = rest.subrange(n as int, rest.len() as int);
            if let Ok(Some((value, m))) = varint::varint_at_start(after) {
                if count + 1 <= MAX_SETTINGS_ENTRIES && !settings::reserved_setting(id)
                    && settings::first_value(entries, id) is None {
                    settings::first_value_is_first(entries, id);
                    varint::varint_is_canonical(rest);
                    varint::varint_is_canonical(after);
                    let more = if settings::grease(id) {
                        entries
                    } else {
                        entries.push((id, value))
                    };
                    assert(kept_settings(more));
                    let left = rest.subrange((n + m) as int, rest.len() as int);
                    if left.len() < rest.len() {
                        read_settings_are_kept(left, count + 1, more);
                    }
                }
            }
        }
    }
}

} // verus!
