//! The incremental frame decoder.

use std::collections::VecDeque;

use bytes::{Bytes, BytesMut};
use vstd::prelude::*;

use super::model::{self, Frame, Head};
use super::settings::parse_settings;
use super::varint::{self, parse_varint, prefix_len, varint_size};
use super::{
    FrameError, FRAME_CANCEL_PUSH, FRAME_DATA, FRAME_GOAWAY, FRAME_HEADERS, FRAME_MAX_PUSH_ID,
    FRAME_PUSH_PROMISE, FRAME_SETTINGS, MAX_FRAME_PAYLOAD, MAX_SETTINGS_PAYLOAD,
};
use crate::octets::{self, bytes_range, bytes_slice, OctetView};

verus! {

/// The octets of a list of chunks, put together.
pub open spec fn joined(chunks: Seq<Bytes>) -> Seq<u8>
    decreases chunks.len(),
{
    if chunks.len() == 0 {
        Seq::empty()
    } else {
        chunks[0]@ + joined(chunks.subrange(1, chunks.len() as int))
    }
}

proof fn joined_front(first: Bytes, rest: Seq<Bytes>)
    ensures
        joined(seq![first] + rest) == first@ + joined(rest),
{
    assert((seq![first] + rest).subrange(1, rest.len() as int + 1) =~= rest);
}

/// Taking the first chunk off.
proof fn joined_pop(chunks: Seq<Bytes>)
    requires
        joined(chunks).len() > 0,
    ensures
        chunks.len() > 0,
        ({
            let rest = joined(chunks.subrange(1, chunks.len() as int));
            let n = chunks[0]@.len() as int;
            &&& joined(chunks) == chunks[0]@ + rest
            &&& joined(chunks).subrange(0, n) == chunks[0]@
            &&& joined(chunks).subrange(n, joined(chunks).len() as int) == rest
        }),
{
    let rest = joined(chunks.subrange(1, chunks.len() as int));
    let n = chunks[0]@.len() as int;
    assert((chunks[0]@ + rest).subrange(0, n) =~= chunks[0]@);
    assert((chunks[0]@ + rest).subrange(n, n + rest.len()) =~= rest);
}

proof fn joined_back(chunks: Seq<Bytes>, last: Bytes)
    ensures
        joined(chunks.push(last)) == joined(chunks) + last@,
    decreases chunks.len(),
{
    let all = chunks.push(last);
    if chunks.len() == 0 {
        assert(all.subrange(1, all.len() as int) =~= Seq::<Bytes>::empty());
        reveal_with_fuel(joined, 2);
        assert(joined(all) =~= joined(chunks) + last@);
    } else {
        let rest = chunks.subrange(1, chunks.len() as int);
        joined_back(rest, last);
        assert(all.subrange(1, all.len() as int) =~= rest.push(last));
        assert(joined(all) =~= joined(chunks) + last@);
    }
}

/// Incremental HTTP/3 frame decoder.
///
/// The decoder owns its buffer: the driver calls [`FrameDecoder::extend`] with
/// every received chunk and [`FrameDecoder::next_frame`] once per event-loop
/// turn, draining as many complete frames as are buffered.
///
/// The buffer is a `VecDeque<Bytes>` that keeps each QUIC chunk intact.
/// `extend` is zero-copy (push), and `DATA` payloads are returned as refcounted
/// slices when they lie in a single chunk.
#[derive(Debug)]
pub struct FrameDecoder {
    bufs: VecDeque<Bytes>,
    len: usize,
}

impl View for FrameDecoder {
    type V = Seq<u8>;

    closed spec fn view(&self) -> Seq<u8> {
        joined(self.bufs@)
    }
}

impl FrameDecoder {
    /// The count of buffered octets is right.
    pub closed spec fn wf(self) -> bool {
        self.len == joined(self.bufs@).len()
    }

    /// A decoder with an empty buffer.
    pub fn new() -> (decoder: Self)
        ensures
            decoder.wf(),
            decoder@ == Seq::<u8>::empty(),
    {
        FrameDecoder { bufs: VecDeque::new(), len: 0 }
    }

    /// Appends received bytes to the input buffer.
    pub fn extend(&mut self, data: Bytes)
        requires
            old(self).wf(),
            old(self)@.len() + data@.len() <= usize::MAX,
        ensures
            final(self).wf(),
            final(self)@ == old(self)@ + data@,
    {
        let n: usize = data.len();
        if n == 0 {
            assert(self@ =~= old(self)@ + data@);
            return ;
        }
        proof {
            joined_back(self.bufs@, data);
        }
        self.len = self.len + n;
        self.bufs.push_back(data);
    }

    /// Bytes buffered but not yet consumed by a frame.
    pub fn buffered(&self) -> (n: usize)
        requires
            self.wf(),
        ensures
            n == self@.len(),
    {
        self.len
    }

    /// Pops the next complete frame, if any.
    ///
    /// Returns `Ok(None)` when the buffer does not yet hold a complete frame;
    /// callers must extend the buffer and poll again. Unknown and reserved
    /// frame types are consumed and skipped (RFC 9114 Section 7.2.8); a known
    /// frame behind them is still returned.
    pub fn next_frame(&mut self) -> (result: Result<Option<Frame>, FrameError>)
        requires
            old(self).wf(),
        ensures
            final(self).wf(),
            (final(self)@, model::next_result(result)) == model::next_step(old(self)@),
            result matches Ok(Some(frame)) ==> model::settings_wf(frame),
    {
        loop
            invariant
                self.wf(),
                model::next_step(self@) == model::next_step(old(self)@),
            decreases self@.len(),
        {
            let ghost buf = self@;
            proof {
                varint::varint_is_canonical(buf);
                assert(buf.subrange(0, buf.len() as int) =~= buf);
            }
            let (ty, type_len) = match self.parse_varint_at(0)? {
                Some(parsed) => parsed,
                None => return Ok(None),
            };
            if ty == 0x02 || ty == 0x06 || ty == 0x08 || ty == 0x09 {
                return Err(FrameError::Unexpected(ty));
            }
            proof {
                varint::varint_is_canonical(buf.subrange(type_len as int, buf.len() as int));
            }
            let (len, len_len) = match self.parse_varint_at(type_len)? {
                Some(parsed) => parsed,
                None => return Ok(None),
            };
            // Bound per-frame buffering before waiting for (or allocating) the
            // payload: oversized SETTINGS are a settings violation, anything
            // else absurdly large is a frame error. Checking the declared
            // length first means a multi-megabyte abusive frame is rejected
            // from its header without buffering.
            if ty == FRAME_SETTINGS && len > MAX_SETTINGS_PAYLOAD {
                return Err(FrameError::Settings);
            }
            if len > MAX_FRAME_PAYLOAD {
                return Err(FrameError::Frame);
            }
            let header_len: usize = type_len + len_len;
            let total: usize = header_len + len as usize;
            assert(model::head(buf) == (Head::Frame {
                ty,
                header: header_len as nat,
                len: len as nat,
            }));
            if total > self.len {
                return Ok(None);
            }
            if !is_known_frame_type(ty) {
                self.advance(total);
                continue ;
            }
            self.advance(header_len);
            let payload = self.take_bytes(len as usize);
            assert(payload@ =~= buf.subrange(header_len as int, total as int));
            assert(self@ =~= buf.subrange(total as int, buf.len() as int));
            return match parse_payload(ty, payload) {
                Ok(frame) => Ok(Some(frame)),
                Err(error) => Err(error),
            };
        }
    }

    /// Returns the type of the next frame without consuming it, or `None` when
    /// the type varint is incomplete. Used to pre-reject control-plane frames
    /// on request streams (RFC 9114 Sections 7.2.3-7.2.7) before the decoder
    /// parses (and would otherwise accept or mismatch) them.
    pub fn peek_frame_type(&self) -> (ty: Option<u64>)
        requires
            self.wf(),
        ensures
            ty == match varint::varint_at(self@, 0) {
                Ok(Some((ty, _))) => Some(ty),
                _ => None,
            },
    {
        match self.parse_varint_at(0) {
            Ok(Some((ty, _))) => Some(ty),
            _ => None,
        }
    }

    fn byte_at(&self, offset: usize) -> (b: u8)
        requires
            offset < self@.len(),
        ensures
            b == self@[offset as int],
    {
        let mut remaining: usize = offset;
        let mut i: usize = 0;
        assert(self.bufs@.subrange(0, self.bufs@.len() as int) =~= self.bufs@);
        loop
            invariant
                i <= self.bufs@.len(),
                offset < self@.len(),
                remaining < joined(self.bufs@.subrange(i as int, self.bufs@.len() as int)).len(),
                joined(self.bufs@.subrange(i as int, self.bufs@.len() as int))[remaining as int]
                    == self@[offset as int],
            decreases self.bufs@.len() - i,
        {
            let ghost rest = self.bufs@.subrange(i as int, self.bufs@.len() as int);
            assert(i < self.bufs.len());
            assert(rest.subrange(1, rest.len() as int) =~= self.bufs@.subrange(
                i + 1,
                self.bufs@.len() as int,
            ));
            let n: usize = self.bufs[i].len();
            if remaining < n {
                return bytes_slice(&self.bufs[i])[remaining];
            }
            remaining = remaining - n;
            i = i + 1;
        }
    }

    fn parse_varint_at(&self, offset: usize) -> (result: Result<Option<(u64, usize)>, FrameError>)
        requires
            self.wf(),
        ensures
            varint::varint_result(result) == varint::varint_at(self@, offset as nat),
    {
        if offset >= self.len {
            return Ok(None);
        }
        let first: u8 = self.byte_at(offset);
        let len: usize = prefix_len(first);
        let ghost s = self@.subrange(offset as int, self@.len() as int);
        if self.len - offset < len {
            return Ok(None);
        }
        let ghost masked = s.subrange(0, len as int).update(0, (first % 64) as u8);
        let mut value: u64 = (first % 64) as u64;
        let mut i: usize = 1;
        proof {
            octets::be_value_unfold(masked.subrange(0, 1));
        }
        while i < len
            invariant
                1 <= i <= len <= 8,
                self.wf(),
                offset + len <= self.len,
                s == self@.subrange(offset as int, self@.len() as int),
                masked == s.subrange(0, len as int).update(0, (s[0] % 64) as u8),
                value == octets::be_value(masked.subrange(0, i as int)),
                i < 8 ==> value < 0x100_0000_0000_0000,
                i < 7 ==> value < 0x1_0000_0000_0000,
                i < 6 ==> value < 0x100_0000_0000,
                i < 5 ==> value < 0x1_0000_0000,
                i < 4 ==> value < 0x100_0000,
                i < 3 ==> value < 0x1_0000,
                i < 2 ==> value < 0x100,
            decreases len - i,
        {
            proof {
                assert(masked.subrange(0, i + 1).drop_last() =~= masked.subrange(0, i as int));
            }
            value = value * 256 + self.byte_at(offset + i) as u64;
            i = i + 1;
        }
        assert(masked.subrange(0, len as int) =~= masked);
        if varint_size(value) != len {
            return Err(FrameError::Frame);
        }
        Ok(Some((value, len)))
    }

    fn advance(&mut self, n: usize)
        requires
            old(self).wf(),
            n <= old(self)@.len(),
        ensures
            final(self).wf(),
            final(self)@ == old(self)@.subrange(n as int, old(self)@.len() as int),
    {
        let ghost all = self@;
        let mut remaining: usize = n;
        assert(all =~= all.subrange(0, all.len() as int));
        while remaining > 0
            invariant
                n <= all.len(),
                remaining <= n,
                self.len == all.len(),
                joined(self.bufs@) == all.subrange(n - remaining, all.len() as int),
            decreases remaining, self.bufs@.len(),
        {
            proof {
                joined_pop(self.bufs@);
            }
            let front = match self.bufs.pop_front() {
                Some(front) => front,
                None => Bytes::new(),
            };
            let front_len: usize = front.len();
            if front_len <= remaining {
                remaining = remaining - front_len;
                assert(joined(self.bufs@) =~= all.subrange(n - remaining, all.len() as int));
            } else {
                let rest = bytes_range(&front, remaining, front_len);
                proof {
                    joined_front(rest, self.bufs@);
                }
                self.bufs.push_front(rest);
                remaining = 0;
                assert(joined(self.bufs@) =~= all.subrange(n as int, all.len() as int));
            }
        }
        self.len = self.len - n;
    }

    fn take_bytes(&mut self, n: usize) -> (bytes: Bytes)
        requires
            old(self).wf(),
            n <= old(self)@.len(),
            n <= isize::MAX,
        ensures
            final(self).wf(),
            bytes@ == old(self)@.subrange(0, n as int),
            final(self)@ == old(self)@.subrange(n as int, old(self)@.len() as int),
    {
        let ghost all = self@;
        if n == 0 {
            assert(all =~= all.subrange(0, all.len() as int));
            let empty = Bytes::new();
            assert(empty@ =~= all.subrange(0, 0));
            return empty;
        }
        proof {
            joined_pop(self.bufs@);
        }
        let front_len: usize = self.bufs[0].len();
        if front_len >= n {
            // The payload lies in the first chunk: share it.
            let mut front = match self.bufs.pop_front() {
                Some(front) => front,
                None => Bytes::new(),
            };
            self.len = self.len - n;
            if front_len == n {
                return front;
            }
            let payload = front.split_to(n);
            proof {
                joined_front(front, self.bufs@);
                assert(payload@ =~= all.subrange(0, n as int));
                assert(front@ + joined(self.bufs@) =~= all.subrange(n as int, all.len() as int));
            }
            self.bufs.push_front(front);
            return payload;
        }
        // Fragmented across multiple chunks: coalesce.
        let mut out = BytesMut::new();
        let mut remaining: usize = n;
        assert(all =~= all.subrange(0, all.len() as int));
        while remaining > 0
            invariant
                n <= all.len(),
                n <= isize::MAX,
                remaining <= n,
                self.len == all.len(),
                out@ == all.subrange(0, n - remaining),
                joined(self.bufs@) == all.subrange(n - remaining, all.len() as int),
            decreases remaining, self.bufs@.len(),
        {
            proof {
                joined_pop(self.bufs@);
            }
            let mut front = match self.bufs.pop_front() {
                Some(front) => front,
                None => Bytes::new(),
            };
            if front.len() <= remaining {
                out.extend_from_slice(bytes_slice(&front));
                remaining = remaining - front.len();
                assert(out@ =~= all.subrange(0, n - remaining));
                assert(joined(self.bufs@) =~= all.subrange(n - remaining, all.len() as int));
            } else {
                let part = front.split_to(remaining);
                out.extend_from_slice(bytes_slice(&part));
                proof {
                    joined_front(front, self.bufs@);
                }
                self.bufs.push_front(front);
                remaining = 0;
                assert(out@ =~= all.subrange(0, n as int));
                assert(joined(self.bufs@) =~= all.subrange(n as int, all.len() as int));
            }
        }
        self.len = self.len - n;
        out.freeze()
    }
}

impl Default for FrameDecoder {
    fn default() -> (decoder: Self)
        ensures
            decoder.wf(),
            decoder@ == Seq::<u8>::empty(),
    {
        FrameDecoder::new()
    }
}

fn is_known_frame_type(ty: u64) -> (known: bool)
    ensures
        known == model::known_type(ty),
{
    ty == FRAME_DATA || ty == FRAME_HEADERS || ty == FRAME_CANCEL_PUSH || ty == FRAME_SETTINGS || ty
        == FRAME_PUSH_PROMISE || ty == FRAME_GOAWAY || ty == FRAME_MAX_PUSH_ID
}

/// Parses the payload of a frame of a known type.
fn parse_payload(ty: u64, payload: Bytes) -> (result: Result<Frame, FrameError>)
    requires
        model::known_type(ty),
    ensures
        match result {
            Ok(frame) => model::frame_of(ty, payload@) == Ok::<_, FrameError>(frame@)
                && model::settings_wf(frame),
            Err(error) => model::frame_of(ty, payload@) == Err::<model::FrameView, _>(error),
        },
{
    if ty == FRAME_DATA {
        Ok(Frame::Data(payload))
    } else if ty == FRAME_HEADERS {
        Ok(Frame::Headers(payload))
    } else if ty == FRAME_CANCEL_PUSH {
        Ok(Frame::CancelPush(take_varint(bytes_slice(&payload))?))
    } else if ty == FRAME_SETTINGS {
        Ok(Frame::Settings(parse_settings(bytes_slice(&payload))?))
    } else if ty == FRAME_PUSH_PROMISE {
        proof {
            varint::varint_is_canonical(payload@);
        }
        let (push_id, id_len) = match parse_varint(bytes_slice(&payload))? {
            Some(parsed) => parsed,
            None => return Err(FrameError::Frame),
        };
        Ok(
            Frame::PushPromise {
                push_id,
                field_section: bytes_range(&payload, id_len, payload.len()),
            },
        )
    } else if ty == FRAME_GOAWAY {
        Ok(Frame::Goaway(take_varint(bytes_slice(&payload))?))
    } else {
        Ok(Frame::MaxPushId(take_varint(bytes_slice(&payload))?))
    }
}

/// Parses the single variable-length integer that must fill `buf` exactly (used
/// for CANCEL_PUSH, GOAWAY and MAX_PUSH_ID). A truncated or non-minimal
/// integer, or trailing bytes, is `H3_FRAME_ERROR` (RFC 9114 Sections 7.1 and
/// 10.8).
fn take_varint(buf: &[u8]) -> (result: Result<u64, FrameError>)
    ensures
        result == model::whole_varint(buf@),
{
    let (value, n) = match parse_varint(buf)? {
        Some(parsed) => parsed,
        None => return Err(FrameError::Frame),
    };
    if n != buf.len() {
        return Err(FrameError::Frame);
    }
    Ok(value)
}

} // verus!
