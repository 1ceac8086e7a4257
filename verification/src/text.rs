//! Numbers as text, and the octets of text.

use vstd::prelude::*;
use vstd::string::StringExecFns;

use crate::numbers;

verus! {

/// A hexadecimal digit as text.
pub open spec fn digit_text(d: nat) -> Seq<char> {
    if d == 0 {
        "0"@
    } else if d == 1 {
        "1"@
    } else if d == 2 {
        "2"@
    } else if d == 3 {
        "3"@
    } else if d == 4 {
        "4"@
    } else if d == 5 {
        "5"@
    } else if d == 6 {
        "6"@
    } else if d == 7 {
        "7"@
    } else if d == 8 {
        "8"@
    } else if d == 9 {
        "9"@
    } else if d == 10 {
        "a"@
    } else if d == 11 {
        "b"@
    } else if d == 12 {
        "c"@
    } else if d == 13 {
        "d"@
    } else if d == 14 {
        "e"@
    } else {
        "f"@
    }
}

/// A number in the given base, without leading zeros.
pub open spec fn number_text(n: nat, base: nat) -> Seq<char>
    recommends
        2 <= base <= 16,
    decreases n,
{
    if n < base || base < 2 {
        digit_text(n)
    } else {
        proof {
            assert(n / base < n) by (nonlinear_arith)
                requires
                    n >= base,
                    base >= 2,
            ;
        }
        number_text(n / base, base) + digit_text(n % base)
    }
}

/// A number in decimal.
pub open spec fn decimal_text(n: nat) -> Seq<char> {
    number_text(n, 10)
}

/// A number in hexadecimal, with the prefix `0x`.
pub open spec fn hex_text(n: nat) -> Seq<char> {
    "0x"@ + number_text(n, 16)
}

fn digit(d: u64) -> (text: &'static str)
    requires
        d < 16,
    ensures
        text@ == digit_text(d as nat),
{
    if d == 0 {
        "0"
    } else if d == 1 {
        "1"
    } else if d == 2 {
        "2"
    } else if d == 3 {
        "3"
    } else if d == 4 {
        "4"
    } else if d == 5 {
        "5"
    } else if d == 6 {
        "6"
    } else if d == 7 {
        "7"
    } else if d == 8 {
        "8"
    } else if d == 9 {
        "9"
    } else if d == 10 {
        "a"
    } else if d == 11 {
        "b"
    } else if d == 12 {
        "c"
    } else if d == 13 {
        "d"
    } else if d == 14 {
        "e"
    } else {
        "f"
    }
}

fn push_number(text: &mut String, n: u64, base: u64)
    requires
        2 <= base <= 16,
    ensures
        final(text)@ == old(text)@ + number_text(n as nat, base as nat),
    decreases n,
{
    if n < base {
        text.append(digit(n));
    } else {
        assert(n / base < n) by (nonlinear_arith)
            requires
                n >= base,
                base >= 2,
        ;
        push_number(text, n / base, base);
        text.append(digit(n % base));
        assert(text@ =~= old(text)@ + number_text(n as nat, base as nat));
    }
}

/// Appends a number in decimal.
pub fn push_decimal(text: &mut String, n: u64)
    ensures
        final(text)@ == old(text)@ + decimal_text(n as nat),
{
    push_number(text, n, 10);
}

/// Appends a number in hexadecimal, with the prefix `0x`.
pub fn push_hex(text: &mut String, n: u64)
    ensures
        final(text)@ == old(text)@ + hex_text(n as nat),
{
    text.append("0x");
    push_number(text, n, 16);
    assert(text@ =~= old(text)@ + hex_text(n as nat));
}

/// The number that decimal digits, read as text, stand for; 10 for anything
/// that is not a digit.
pub open spec fn digit_value(c: char) -> nat {
    if '0' <= c && c <= '9' {
        (c as nat - '0' as nat) as nat
    } else {
        10
    }
}

/// The number that decimal text stands for.
pub open spec fn text_value(s: Seq<char>) -> nat
    decreases s.len(),
{
    if s.len() == 0 {
        0
    } else {
        text_value(s.drop_last()) * 10 + digit_value(s.last())
    }
}

/// A number is read back from its decimal text.
pub proof fn decimal_text_is_read_back(n: nat)
    ensures
        text_value(decimal_text(n)) == n,
        decimal_text(n).len() > 0,
    decreases n,
{
    reveal_strlit("0");
    reveal_strlit("1");
    reveal_strlit("2");
    reveal_strlit("3");
    reveal_strlit("4");
    reveal_strlit("5");
    reveal_strlit("6");
    reveal_strlit("7");
    reveal_strlit("8");
    reveal_strlit("9");
    if n < 10 {
        assert(digit_text(n).len() == 1);
        assert(digit_text(n).drop_last() =~= Seq::<char>::empty());
        reveal_with_fuel(text_value, 2);
    } else {
        decimal_text_is_read_back(n / 10);
        let head = number_text(n / 10, 10);
        let last = digit_text(n % 10);
        assert(last.len() == 1);
        assert((head + last).drop_last() =~= head);
        assert((head + last).last() == last[0]);
    }
}

/// The octets of a number's decimal text are digits that are read as the number.
pub proof fn decimal_octets_are_read_back(n: nat)
    ensures
        ({
            let octets = vstd::utf8::encode_utf8(decimal_text(n));
            &&& octets.len() > 0
            &&& numbers::all_digits(octets)
            &&& numbers::decimal_value(octets) == n
        }),
{
    decimal_digits(n);
    let text = decimal_text(n);
    ascii_octets(text);
    let octets = vstd::utf8::encode_utf8(text);
    assert(octets =~= text.map_values(|c: char| c as u8));
    decimal_text_is_read_back(n);
    octets_value(text);
}

/// A number's decimal text is made of digits.
proof fn decimal_digits(n: nat)
    ensures
        vstd::utf8::is_ascii_chars(decimal_text(n)),
        decimal_text(n).len() > 0,
        forall|i: int|
            0 <= i < decimal_text(n).len() ==> '0' <= #[trigger] decimal_text(n)[i]
                && decimal_text(n)[i] <= '9',
    decreases n,
{
    reveal_strlit("0");
    reveal_strlit("1");
    reveal_strlit("2");
    reveal_strlit("3");
    reveal_strlit("4");
    reveal_strlit("5");
    reveal_strlit("6");
    reveal_strlit("7");
    reveal_strlit("8");
    reveal_strlit("9");
    if n >= 10 {
        decimal_digits(n / 10);
    }
}

/// Digits stand for the same number as text and as octets.
proof fn octets_value(text: Seq<char>)
    requires
        forall|i: int| 0 <= i < text.len() ==> '0' <= #[trigger] text[i] && text[i] <= '9',
    ensures
        numbers::decimal_value(text.map_values(|c: char| c as u8)) == text_value(text),
    decreases text.len(),
{
    if text.len() > 0 {
        let octets = text.map_values(|c: char| c as u8);
        octets_value(text.drop_last());
        assert(octets.drop_last() =~= text.drop_last().map_values(|c: char| c as u8));
        assert('0' <= text[text.len() - 1] && text[text.len() - 1] <= '9');
    }
}

/// The octets of an ASCII text are its characters.
pub proof fn ascii_octets(text: Seq<char>)
    requires
        vstd::utf8::is_ascii_chars(text),
    ensures
        vstd::utf8::encode_utf8(text).len() == text.len(),
        forall|i: int|
            0 <= i < text.len() ==> #[trigger] vstd::utf8::encode_utf8(text)[i] == text[i] as u8,
{
    vstd::utf8::is_ascii_chars_encode_utf8(text);
}

} // verus!
