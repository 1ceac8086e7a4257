//! Octet strings: the shared buffers of the `bytes` crate and fixed-width
//! big-endian integers, which both frame layers are made of.

use bytes::{BufMut, Bytes, BytesMut};
use vstd::prelude::*;

verus! {

/// The `bytes` crate's immutable shared buffer.
#[verifier::external_type_specification]
#[verifier::external_body]
pub struct ExBytes(bytes::Bytes);

/// The `bytes` crate's growable buffer.
#[verifier::external_type_specification]
#[verifier::external_body]
pub struct ExBytesMut(bytes::BytesMut);

/// The octets that a `Bytes` holds, in order.
pub uninterp spec fn octets_of(b: Bytes) -> Seq<u8>;

/// The octets that a `BytesMut` holds, in order.
pub uninterp spec fn octets_of_mut(b: BytesMut) -> Seq<u8>;

/// Lets contracts write `b@` for the octets that a buffer holds.
pub trait OctetView {
    spec fn view(&self) -> Seq<u8>;
}

impl OctetView for Bytes {
    open spec fn view(&self) -> Seq<u8> {
        octets_of(*self)
    }
}

impl OctetView for BytesMut {
    open spec fn view(&self) -> Seq<u8> {
        octets_of_mut(*self)
    }
}

/// `Bytes::len`: the number of octets.
pub assume_specification[ bytes::Bytes::len ](b: &Bytes) -> (n: usize)
    ensures
        n == octets_of(*b).len(),
;

/// `Bytes::split_to`: hands out the first `at` octets and keeps the rest. It
/// panics where `at` is beyond the end.
pub assume_specification[ bytes::Bytes::split_to ](b: &mut Bytes, at: usize) -> (front: Bytes)
    requires
        at <= octets_of(*old(b)).len(),
    ensures
        octets_of(front) == octets_of(*old(b)).subrange(0, at as int),
        octets_of(*final(b)) == octets_of(*old(b)).subrange(
            at as int,
            octets_of(*old(b)).len() as int,
        ),
;

/// `Bytes::clone`: another handle on the same octets.
pub assume_specification[ <bytes::Bytes as Clone>::clone ](b: &Bytes) -> (r: Bytes)
    ensures
        octets_of(r) == octets_of(*b),
;

/// `Bytes::new`: an empty buffer.
pub assume_specification[ bytes::Bytes::new ]() -> (b: Bytes)
    ensures
        octets_of(b) == Seq::<u8>::empty(),
;

/// `Bytes::copy_from_slice`: a buffer with the octets of the slice.
pub assume_specification[ bytes::Bytes::copy_from_slice ](data: &[u8]) -> (r: Bytes)
    ensures
        octets_of(r) == data@,
;

/// `<Bytes as Deref>::deref`: the octets as a slice.
#[verifier::external_body]
pub(crate) fn bytes_slice(b: &Bytes) -> (s: &[u8])
    ensures
        s@ == b@,
{
    b
}

/// `Bytes::slice` over `start..end`: a handle on that range. It panics where
/// the range is reversed or reaches beyond the end.
#[verifier::external_body]
pub(crate) fn bytes_range(b: &Bytes, start: usize, end: usize) -> (r: Bytes)
    requires
        start <= end <= b@.len(),
    ensures
        r@ == b@.subrange(start as int, end as int),
{
    b.slice(start..end)
}

/// `BytesMut::new`: an empty buffer.
pub assume_specification[ bytes::BytesMut::new ]() -> (b: BytesMut)
    ensures
        octets_of_mut(b) == Seq::<u8>::empty(),
;

/// `BytesMut::len`: the number of octets.
pub assume_specification[ bytes::BytesMut::len ](b: &BytesMut) -> (n: usize)
    ensures
        n == octets_of_mut(*b).len(),
;

/// `BytesMut::split_to`: hands out the first `at` octets and keeps the rest.
/// It panics where `at` is beyond the end.
pub assume_specification[ bytes::BytesMut::split_to ](b: &mut BytesMut, at: usize) -> (front:
    BytesMut)
    requires
        at <= octets_of_mut(*old(b)).len(),
    ensures
        octets_of_mut(front) == octets_of_mut(*old(b)).subrange(0, at as int),
        octets_of_mut(*final(b)) == octets_of_mut(*old(b)).subrange(
            at as int,
            octets_of_mut(*old(b)).len() as int,
        ),
;

/// `BytesMut::freeze`: the same octets as an immutable buffer.
pub assume_specification[ bytes::BytesMut::freeze ](b: BytesMut) -> (r: Bytes)
    ensures
        octets_of(r) == octets_of_mut(b),
;

/// `BytesMut::extend_from_slice`: appends the slice. Growth past the largest
/// allocation panics.
pub assume_specification[ bytes::BytesMut::extend_from_slice ](b: &mut BytesMut, extend: &[u8])
    requires
        octets_of_mut(*old(b)).len() + extend@.len() <= isize::MAX,
    ensures
        octets_of_mut(*final(b)) == octets_of_mut(*old(b)) + extend@,
;

/// `<BytesMut as Deref>::deref`: the octets as a slice.
#[verifier::external_body]
pub(crate) fn bytes_mut_slice(b: &BytesMut) -> (s: &[u8])
    ensures
        s@ == b@,
{
    b
}

/// `BufMut::put_u8` on a `BytesMut`: appends one octet. Growth past the
/// largest allocation panics.
#[verifier::external_body]
pub(crate) fn put_u8(b: &mut BytesMut, v: u8)
    requires
        old(b)@.len() + 1 <= isize::MAX,
    ensures
        final(b)@ == old(b)@.push(v),
{
    b.put_u8(v);
}

/// `BufMut::put_u16` on a `BytesMut`: appends two octets, big-endian. Growth
/// past the largest allocation panics.
#[verifier::external_body]
pub(crate) fn put_u16(b: &mut BytesMut, v: u16)
    requires
        old(b)@.len() + 2 <= isize::MAX,
    ensures
        final(b)@ == old(b)@ + be_octets(v as nat, 2),
{
    b.put_u16(v);
}

/// `BufMut::put_u32` on a `BytesMut`: appends four octets, big-endian. Growth
/// past the largest allocation panics.
#[verifier::external_body]
pub(crate) fn put_u32(b: &mut BytesMut, v: u32)
    requires
        old(b)@.len() + 4 <= isize::MAX,
    ensures
        final(b)@ == old(b)@ + be_octets(v as nat, 4),
{
    b.put_u32(v);
}

/// `BufMut::put_u64` on a `BytesMut`: appends eight octets, big-endian. Growth
/// past the largest allocation panics.
#[verifier::external_body]
pub(crate) fn put_u64(b: &mut BytesMut, v: u64)
    requires
        old(b)@.len() + 8 <= isize::MAX,
    ensures
        final(b)@ == old(b)@ + be_octets(v as nat, 8),
{
    b.put_u64(v);
}

/// The number that an octet string is the big-endian representation of.
pub open spec fn be_value(s: Seq<u8>) -> nat
    decreases s.len(),
{
    if s.len() == 0 {
        0
    } else {
        be_value(s.drop_last()) * 256 + s.last() as nat
    }
}

/// The last `width` octets of the big-endian representation of `value`.
pub open spec fn be_octets(value: nat, width: nat) -> Seq<u8>
    decreases width,
{
    if width == 0 {
        Seq::empty()
    } else {
        be_octets(value / 256, (width - 1) as nat).push((value % 256) as u8)
    }
}

/// `256` to the power `width`.
pub open spec fn be_limit(width: nat) -> nat
    decreases width,
{
    if width == 0 {
        1
    } else {
        256 * be_limit((width - 1) as nat)
    }
}

/// A number that fits in `width` octets is read back from its representation,
/// which has exactly that many octets.
pub proof fn be_round_trip(value: nat, width: nat)
    ensures
        be_octets(value, width).len() == width,
        value < be_limit(width) ==> be_value(be_octets(value, width)) == value,
    decreases width,
{
    if width > 0 {
        be_round_trip(value / 256, (width - 1) as nat);
        assert(be_octets(value, width).drop_last() =~= be_octets(
            value / 256,
            (width - 1) as nat,
        ));
    }
}

/// Every octet string is the representation of its value: two strings of one
/// length with one value are the same.
pub proof fn be_unique(s: Seq<u8>)
    ensures
        be_octets(be_value(s), s.len()) == s,
        be_value(s) < be_limit(s.len()),
    decreases s.len(),
{
    if s.len() > 0 {
        be_unique(s.drop_last());
        assert(be_value(s) / 256 == be_value(s.drop_last()));
        assert(be_value(s) % 256 == s.last());
        assert(s.drop_last().push(s.last()) =~= s);
    }
}

/// `be_value` of up to four octets, and of eight, without recursion.
pub proof fn be_value_unfold(s: Seq<u8>)
    ensures
        s.len() == 1 ==> be_value(s) == s[0],
        s.len() == 2 ==> be_value(s) == s[0] * 0x100 + s[1],
        s.len() == 3 ==> be_value(s) == s[0] * 0x1_0000 + s[1] * 0x100 + s[2],
        s.len() == 4 ==> be_value(s) == s[0] * 0x100_0000 + s[1] * 0x1_0000 + s[2] * 0x100 + s[3],
        s.len() == 8 ==> be_value(s) == s[0] * 0x100_0000_0000_0000 + s[1] * 0x1_0000_0000_0000
            + s[2] * 0x100_0000_0000 + s[3] * 0x1_0000_0000 + s[4] * 0x100_0000 + s[5] * 0x1_0000
            + s[6] * 0x100 + s[7],
{
    reveal_with_fuel(be_value, 9);
}

/// `be_octets` of two, three, four and eight octets without recursion.
pub proof fn be_octets_unfold(value: nat)
    ensures
        be_octets(value, 1) == seq![(value % 256) as u8],
        be_octets(value, 2) == seq![(value / 0x100 % 256) as u8, (value % 256) as u8],
        be_octets(value, 3) == seq![
            (value / 0x1_0000 % 256) as u8,
            (value / 0x100 % 256) as u8,
            (value % 256) as u8,
        ],
        be_octets(value, 4) == seq![
            (value / 0x100_0000 % 256) as u8,
            (value / 0x1_0000 % 256) as u8,
            (value / 0x100 % 256) as u8,
            (value % 256) as u8,
        ],
        be_octets(value, 8) == seq![
            (value / 0x100_0000_0000_0000 % 256) as u8,
            (value / 0x1_0000_0000_0000 % 256) as u8,
            (value / 0x100_0000_0000 % 256) as u8,
            (value / 0x1_0000_0000 % 256) as u8,
            (value / 0x100_0000 % 256) as u8,
            (value / 0x1_0000 % 256) as u8,
            (value / 0x100 % 256) as u8,
            (value % 256) as u8,
        ],
{
    reveal_with_fuel(be_octets, 9);
    assert(value / 256 / 256 == value / 0x1_0000);
    assert(value / 0x1_0000 / 256 == value / 0x100_0000);
    assert(value / 0x100_0000 / 256 == value / 0x1_0000_0000);
    assert(value / 0x1_0000_0000 / 256 == value / 0x100_0000_0000);
    assert(value / 0x100_0000_0000 / 256 == value / 0x1_0000_0000_0000);
    assert(value / 0x1_0000_0000_0000 / 256 == value / 0x100_0000_0000_0000);
    assert(be_octets(value, 1) =~= seq![(value % 256) as u8]);
    assert(be_octets(value, 2) =~= seq![(value / 0x100 % 256) as u8, (value % 256) as u8]);
    assert(be_octets(value, 3) =~= seq![
        (value / 0x1_0000 % 256) as u8,
        (value / 0x100 % 256) as u8,
        (value % 256) as u8,
    ]);
    assert(be_octets(value, 4) =~= seq![
        (value / 0x100_0000 % 256) as u8,
        (value / 0x1_0000 % 256) as u8,
        (value / 0x100 % 256) as u8,
        (value % 256) as u8,
    ]);
    assert(be_octets(value, 8) =~= seq![
        (value / 0x100_0000_0000_0000 % 256) as u8,
        (value / 0x1_0000_0000_0000 % 256) as u8,
        (value / 0x100_0000_0000 % 256) as u8,
        (value / 0x1_0000_0000 % 256) as u8,
        (value / 0x100_0000 % 256) as u8,
        (value / 0x1_0000 % 256) as u8,
        (value / 0x100 % 256) as u8,
        (value % 256) as u8,
    ]);
}

/// Three octets hold a number modulo 2^24.
pub proof fn be24_wraps(v: nat)
    ensures
        be_octets(v, 3) == be_octets(v % 0x100_0000, 3),
{
    let q = v / 0x100_0000;
    let c = v % 0x100_0000;
    assert(v == 0x100_0000 * q + c);
    assert(v / 256 == 0x1_0000 * q + c / 256);
    assert(v / 256 / 256 == 0x100 * q + c / 256 / 256);
    reveal_with_fuel(be_octets, 4);
    assert(be_octets(v, 3) =~= be_octets(c, 3));
}

/// Reads two octets at `at` as a big-endian number.
pub(crate) fn read_be16(s: &[u8], at: usize) -> (v: u16)
    requires
        at + 2 <= s@.len(),
    ensures
        v == be_value(s@.subrange(at as int, at + 2)),
{
    proof {
        be_value_unfold(s@.subrange(at as int, at + 2));
    }
    s[at] as u16 * 0x100 + s[at + 1] as u16
}

/// Reads three octets at `at` as a big-endian number.
pub(crate) fn read_be24(s: &[u8], at: usize) -> (v: u32)
    requires
        at + 3 <= s@.len(),
    ensures
        v == be_value(s@.subrange(at as int, at + 3)),
        v < 0x100_0000,
{
    proof {
        be_value_unfold(s@.subrange(at as int, at + 3));
    }
    s[at] as u32 * 0x1_0000 + s[at + 1] as u32 * 0x100 + s[at + 2] as u32
}

/// Reads four octets at `at` as a big-endian number.
pub(crate) fn read_be32(s: &[u8], at: usize) -> (v: u32)
    requires
        at + 4 <= s@.len(),
    ensures
        v == be_value(s@.subrange(at as int, at + 4)),
{
    proof {
        be_value_unfold(s@.subrange(at as int, at + 4));
    }
    s[at] as u32 * 0x100_0000 + s[at + 1] as u32 * 0x1_0000 + s[at + 2] as u32 * 0x100 + s[at
        + 3] as u32
}

/// Appends the two octets of `v`.
pub(crate) fn push_be16(out: &mut Vec<u8>, v: u16)
    ensures
        final(out)@ == old(out)@ + be_octets(v as nat, 2),
{
    proof {
        be_octets_unfold(v as nat);
    }
    out.push((v / 0x100) as u8);
    out.push((v % 0x100) as u8);
}

/// Appends the last three octets of `v`.
pub(crate) fn push_be24(out: &mut Vec<u8>, v: usize)
    ensures
        final(out)@ == old(out)@ + be_octets(v as nat, 3),
{
    proof {
        be_octets_unfold(v as nat);
    }
    out.push((v / 0x1_0000 % 0x100) as u8);
    out.push((v / 0x100 % 0x100) as u8);
    out.push((v % 0x100) as u8);
}

/// Appends the four octets of `v`.
pub(crate) fn push_be32(out: &mut Vec<u8>, v: u32)
    ensures
        final(out)@ == old(out)@ + be_octets(v as nat, 4),
{
    proof {
        be_octets_unfold(v as nat);
    }
    out.push((v / 0x100_0000) as u8);
    out.push((v / 0x1_0000 % 0x100) as u8);
    out.push((v / 0x100 % 0x100) as u8);
    out.push((v % 0x100) as u8);
}

/// The low 31 bits of a number.
pub(crate) fn low31(v: u32) -> (r: u32)
    ensures
        r == v % 0x8000_0000,
{
    assert(v & 0x7fff_ffff == v % 0x8000_0000) by (bit_vector);
    v & 0x7fff_ffff
}

} // verus!
