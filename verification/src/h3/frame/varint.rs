//! QUIC variable-length integers (RFC 9000 Section 16).

use bytes::BytesMut;
use vstd::prelude::*;

use super::{FrameError, MAX_VARINT};
use crate::octets::{self, put_u16, put_u32, put_u64, put_u8, OctetView};

verus! {

/// The number of octets that an encoding starting with `first` has: its two
/// high bits tell 1, 2, 4 or 8.
pub open spec fn encoding_len(first: u8) -> nat {
    if first < 0x40 {
        1
    } else if first < 0x80 {
        2
    } else if first < 0xc0 {
        4
    } else {
        8
    }
}

/// The shortest encoding length that a value fits in.
pub open spec fn varint_len(value: u64) -> nat {
    if value < 0x40 {
        1
    } else if value < 0x4000 {
        2
    } else if value < 0x4000_0000 {
        4
    } else {
        8
    }
}

/// The encoding of a value: its big-endian octets, with the length in the two
/// high bits.
pub open spec fn varint_octets(value: u64) -> Seq<u8> {
    if value < 0x40 {
        seq![value as u8]
    } else if value < 0x4000 {
        octets::be_octets((0x4000 + value) as nat, 2)
    } else if value < 0x4000_0000 {
        octets::be_octets((0x8000_0000 + value) as nat, 4)
    } else {
        octets::be_octets((0xc000_0000_0000_0000 + value) as nat, 8)
    }
}

/// The value of an encoding, or of whatever starts like one: the number in its
/// octets without the two high bits.
pub open spec fn encoded_value(s: Seq<u8>) -> nat {
    let n = encoding_len(s[0]) as int;
    octets::be_value(s.subrange(0, n).update(0, (s[0] % 64) as u8))
}

/// The variable-length integer that `s` starts with, and its length: `None`
/// where `s` is cut short, an error where a shorter encoding would do.
pub open spec fn varint_at_start(s: Seq<u8>) -> Result<Option<(u64, nat)>, FrameError> {
    if s.len() == 0 || s.len() < encoding_len(s[0]) {
        Ok(None)
    } else if varint_len(encoded_value(s) as u64) != encoding_len(s[0]) {
        Err(FrameError::Frame)
    } else {
        Ok(Some((encoded_value(s) as u64, encoding_len(s[0]))))
    }
}

/// The variable-length integer that `s` holds from `at` on.
pub open spec fn varint_at(s: Seq<u8>, at: nat) -> Result<Option<(u64, nat)>, FrameError> {
    if at >= s.len() {
        Ok(None)
    } else {
        varint_at_start(s.subrange(at as int, s.len() as int))
    }
}

/// What a parse came to, with the length as a number.
pub open spec fn varint_result(r: Result<Option<(u64, usize)>, FrameError>) -> Result<
    Option<(u64, nat)>,
    FrameError,
> {
    match r {
        Ok(Some((value, n))) => Ok(Some((value, n as nat))),
        Ok(None) => Ok(None),
        Err(error) => Err(error),
    }
}

/// An encoded value is below a quarter of what its octets could hold.
pub proof fn encoded_value_bound(s: Seq<u8>)
    requires
        s.len() > 0,
        s.len() >= encoding_len(s[0]),
    ensures
        encoding_len(s[0]) == 1 ==> encoded_value(s) == s[0] % 64,
        encoding_len(s[0]) == 2 ==> encoded_value(s) == octets::be_value(s.subrange(0, 2)) - 0x4000,
        encoding_len(s[0]) == 4 ==> encoded_value(s) == octets::be_value(s.subrange(0, 4))
            - 0x8000_0000,
        encoding_len(s[0]) == 8 ==> encoded_value(s) == octets::be_value(s.subrange(0, 8))
            - 0xc000_0000_0000_0000,
        encoded_value(s) <= MAX_VARINT,
        encoding_len(s[0]) == 1 ==> encoded_value(s) < 0x40,
        encoding_len(s[0]) == 2 ==> encoded_value(s) < 0x4000,
        encoding_len(s[0]) == 4 ==> encoded_value(s) < 0x4000_0000,
{
    let n = encoding_len(s[0]) as int;
    octets::be_value_unfold(s.subrange(0, n));
    octets::be_value_unfold(s.subrange(0, n).update(0, (s[0] % 64) as u8));
}

/// The encoding length of a first octet.
pub(super) fn prefix_len(first: u8) -> (n: usize)
    ensures
        n == encoding_len(first),
{
    if first < 0x40 {
        1
    } else if first < 0x80 {
        2
    } else if first < 0xc0 {
        4
    } else {
        8
    }
}

/// Parses a QUIC variable-length integer (RFC 9000 Section 16) from the front
/// of `buf`.
///
/// Returns `Ok(None)` when `buf` is shorter than the encoding; `Err` when the
/// encoding is non-minimal (a protocol violation, per RFC 9000 Section 16,
/// surfaced as `H3_FRAME_ERROR`).
///
/// The control plane uses this to read uni stream type varints before a stream
/// is assigned its role.
pub fn parse_varint(buf: &[u8]) -> (result: Result<Option<(u64, usize)>, FrameError>)
    ensures
        varint_result(result) == varint_at_start(buf@),
{
    if buf.len() == 0 {
        return Ok(None);
    }
    let first: u8 = buf[0];
    let len: usize = prefix_len(first);
    if buf.len() < len {
        return Ok(None);
    }
    let ghost masked = buf@.subrange(0, len as int).update(0, (first % 64) as u8);
    let mut value: u64 = (first % 64) as u64;
    let mut i: usize = 1;
    proof {
        octets::be_value_unfold(masked.subrange(0, 1));
        encoded_value_bound(buf@);
    }
    while i < len
        invariant
            1 <= i <= len <= 8,
            len <= buf@.len(),
            len == encoding_len(buf@[0]),
            masked == buf@.subrange(0, len as int).update(0, (buf@[0] % 64) as u8),
            value == octets::be_value(masked.subrange(0, i as int)),
            i < 8 ==> value < 0x100_0000_0000_0000,
            i < 7 ==> value < 0x1_0000_0000_0000,
            i < 6 ==> value < 0x100_0000_0000,
            i < 5 ==> value < 0x1_0000_0000,
            i < 4 ==> value < 0x100_0000,
            i < 3 ==> value < 0x1_0000,
            i < 2 ==> value < 0x100,
        decreases len - i,
    {
        proof {
            assert(masked.subrange(0, i + 1).drop_last() =~= masked.subrange(0, i as int));
        }
        value = value * 256 + buf[i] as u64;
        i = i + 1;
    }
    assert(masked.subrange(0, len as int) =~= masked);
    if varint_size(value) != len {
        return Err(FrameError::Frame);
    }
    Ok(Some((value, len)))
}

/// The encoded length of `value` as a QUIC variable-length integer.
pub fn varint_size(value: u64) -> (n: usize)
    ensures
        n == varint_len(value),
{
    if value < 0x40 {
        1
    } else if value < 0x4000 {
        2
    } else if value < 0x4000_0000 {
        4
    } else {
        8
    }
}

/// Encodes `value` as a QUIC variable-length integer (RFC 9000 Section 16).
pub fn write_varint(value: u64, dst: &mut BytesMut)
    requires
        value <= MAX_VARINT,
        old(dst)@.len() + 8 <= isize::MAX,
    ensures
        final(dst)@ == old(dst)@ + varint_octets(value),
        final(dst)@.len() == old(dst)@.len() + varint_len(value),
{
    proof {
        octets::be_round_trip((0x4000 + value) as nat, 2);
        octets::be_round_trip((0x8000_0000 + value) as nat, 4);
        octets::be_round_trip((0xc000_0000_0000_0000 + value) as nat, 8);
    }
    if value < 0x40 {
        put_u8(dst, value as u8);
        assert(dst@ =~= old(dst)@ + varint_octets(value));
    } else if value < 0x4000 {
        put_u16(dst, 0x4000 + value as u16);
    } else if value < 0x4000_0000 {
        put_u32(dst, 0x8000_0000 + value as u32);
    } else {
        put_u64(dst, 0xc000_0000_0000_0000 + value);
    }
}

/// Every value that fits is read back from its encoding, whatever follows.
pub proof fn varint_round_trip(value: u64, rest: Seq<u8>)
    requires
        value <= MAX_VARINT,
    ensures
        varint_octets(value).len() == varint_len(value),
        varint_at_start(varint_octets(value) + rest) == Ok::<_, FrameError>(
            Some((value, varint_len(value))),
        ),
{
    let w = varint_octets(value);
    let s = w + rest;
    reveal_with_fuel(octets::be_limit, 9);
    if value < 0x40 {
        assert(s.subrange(0, 1).update(0, (s[0] % 64) as u8) =~= seq![value as u8]);
        octets::be_value_unfold(seq![value as u8]);
    } else {
        let n = varint_len(value);
        let coded = if n == 2 {
            (0x4000 + value) as nat
        } else if n == 4 {
            (0x8000_0000 + value) as nat
        } else {
            (0xc000_0000_0000_0000 + value) as nat
        };
        octets::be_round_trip(coded, n);
        octets::be_value_unfold(w);
        assert(s.subrange(0, n as int) =~= w);
        encoded_value_bound(s);
    }
}

/// A value has one encoding: what parses to it starts with that encoding.
pub proof fn varint_is_canonical(s: Seq<u8>)
    ensures
        varint_at_start(s) matches Ok(Some((value, n))) ==> {
            &&& value <= MAX_VARINT
            &&& n == varint_len(value)
            &&& n <= s.len()
            &&& s.subrange(0, n as int) == varint_octets(value)
        },
{
    if let Ok(Some((value, n))) = varint_at_start(s) {
        encoded_value_bound(s);
        octets::be_unique(s.subrange(0, n as int));
        octets::be_value_unfold(s.subrange(0, n as int));
        if n == 1 {
            assert(s.subrange(0, 1) =~= seq![value as u8]);
        }
    }
}

/// A parse that did not ask for more octets stays what it is when more arrive.
pub proof fn varint_is_prefix_stable(s: Seq<u8>, more: Seq<u8>)
    ensures
        varint_at_start(s) != Ok::<Option<(u64, nat)>, FrameError>(None) ==> varint_at_start(
            s + more,
        ) == varint_at_start(s),
{
    if s.len() > 0 && s.len() >= encoding_len(s[0]) {
        let n = encoding_len(s[0]) as int;
        assert((s + more).subrange(0, n) =~= s.subrange(0, n));
    }
}

} // verus!
