//! Chunk sizes of the chunked transfer coding (RFC 9112 Section 7.1).

use vstd::prelude::*;

verus! {

/// A hexadecimal digit, in upper case.
pub open spec fn hex_digit(d: nat) -> u8 {
    if d < 10 {
        (0x30 + d) as u8
    } else {
        (0x41 + d - 10) as u8
    }
}

/// A number in hexadecimal, without leading zeros.
pub open spec fn hex_octets(n: nat) -> Seq<u8>
    decreases n,
{
    if n < 16 {
        seq![hex_digit(n)]
    } else {
        hex_octets(n / 16).push(hex_digit(n % 16))
    }
}

/// The line that announces a chunk of `n` octets.
pub open spec fn chunk_size_line(n: nat) -> Seq<u8> {
    hex_octets(n) + seq![0x0d, 0x0a]
}

/// `16` to the power `k`.
spec fn sixteen_to(k: nat) -> nat
    decreases k,
{
    if k == 0 {
        1
    } else {
        16 * sixteen_to((k - 1) as nat)
    }
}

fn digit(d: usize) -> (b: u8)
    requires
        d < 16,
    ensures
        b == hex_digit(d as nat),
{
    if d < 10 {
        0x30 + d as u8
    } else {
        0x41 + (d as u8 - 10)
    }
}

/// Writes the chunk size to the given buffer in hexadecimal format, followed by
/// `\r\n`. Returns the part of the buffer that it takes.
pub fn write_chunk_size(dst: &mut [u8; 18], len: usize) -> (line: &[u8])
    ensures
        line@ == chunk_size_line(len as nat),
        line@.len() <= 18,
        final(dst)@ == old(dst)@.subrange(0, 18 - line@.len()) + line@,
{
    let start: usize = fill_chunk_size(dst, len);
    assert(dst@ =~= dst@.subrange(0, start as int) + dst@.subrange(start as int, 18));
    vstd::slice::slice_subrange(dst.as_slice(), start, 18)
}

/// Writes the chunk size to the end of the given buffer. Returns where it
/// starts.
fn fill_chunk_size(dst: &mut [u8; 18], len: usize) -> (start: usize)
    ensures
        start < 18,
        final(dst)@.subrange(0, start as int) == old(dst)@.subrange(0, start as int),
        final(dst)@.subrange(start as int, 18) == chunk_size_line(len as nat),
{
    let mut n: usize = len;
    let mut pos: usize = 16;
    proof {
        reveal_with_fuel(sixteen_to, 17);
    }
    dst[16] = 0x0d;
    dst[17] = 0x0a;
    assert(hex_octets(len as nat) + Seq::<u8>::empty() =~= hex_octets(len as nat));
    assert(dst@.subrange(16, 18) =~= seq![0x0du8, 0x0au8]);
    loop
        invariant
            0 < pos <= 16,
            dst@.len() == 18,
            dst@.subrange(0, pos as int) == old(dst)@.subrange(0, pos as int),
            n < sixteen_to(pos as nat),
            hex_octets(n as nat) + dst@.subrange(pos as int, 18) == chunk_size_line(len as nat),
        decreases n, pos,
    {
        let ghost tail = dst@.subrange(pos as int, 18);
        let ghost whole = n as nat;
        let ghost front = dst@.subrange(0, pos as int);
        pos = pos - 1;
        dst[pos] = digit(n % 16);
        assert(dst@.subrange(0, pos as int) =~= front.subrange(0, pos as int));
        assert(old(dst)@.subrange(0, pos as int) =~= front.subrange(0, pos as int));
        n = n / 16;
        assert(dst@.subrange(pos as int, 18) =~= seq![hex_digit(whole % 16)] + tail);
        if n == 0 {
            assert(hex_octets(whole) =~= seq![hex_digit(whole % 16)]);
            return pos;
        }
        assert(hex_octets(n as nat) + (seq![hex_digit(whole % 16)] + tail) =~= hex_octets(whole)
            + tail);
        assert(pos > 0) by {
            if pos == 0 {
                reveal_with_fuel(sixteen_to, 2);
            }
        }
    }
}

/// The number that a hexadecimal digit stands for.
pub open spec fn hex_digit_value(b: u8) -> nat {
    if 0x30 <= b <= 0x39 {
        (b - 0x30) as nat
    } else {
        (b - 0x41 + 10) as nat
    }
}

/// The number that hexadecimal digits stand for.
pub open spec fn hex_value(s: Seq<u8>) -> nat
    decreases s.len(),
{
    if s.len() == 0 {
        0
    } else {
        hex_value(s.drop_last()) * 16 + hex_digit_value(s.last())
    }
}

/// A chunk size is read back from its digits, which have no leading zero.
pub proof fn chunk_size_is_read_back(n: nat)
    ensures
        hex_value(hex_octets(n)) == n,
        hex_octets(n).len() > 0,
        n > 0 ==> hex_octets(n)[0] != 0x30,
    decreases n,
{
    if n < 16 {
        let digits = hex_octets(n);
        assert(digits.drop_last() =~= Seq::<u8>::empty());
        reveal_with_fuel(hex_value, 2);
    } else {
        chunk_size_is_read_back(n / 16);
        let head = hex_octets(n / 16);
        assert(hex_octets(n).drop_last() =~= head);
        assert(hex_octets(n)[0] == head[0]);
    }
}

} // verus!
