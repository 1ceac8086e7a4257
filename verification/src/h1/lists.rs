//! Comma-separated header values.

use vstd::prelude::*;

use crate::headers::{self, same_ignoring_case};
use crate::numbers::{self, parse_decimal};

verus! {

/// A space or a tab.
pub open spec fn blank(b: u8) -> bool {
    b == 0x20 || b == 0x09
}

/// An octet string without the blanks at its beginning.
pub open spec fn trimmed_front(s: Seq<u8>) -> Seq<u8>
    decreases s.len(),
{
    if s.len() > 0 && blank(s[0]) {
        trimmed_front(s.subrange(1, s.len() as int))
    } else {
        s
    }
}

/// An octet string without the blanks at its end.
pub open spec fn trimmed_back(s: Seq<u8>) -> Seq<u8>
    decreases s.len(),
{
    if s.len() > 0 && blank(s.last()) {
        trimmed_back(s.drop_last())
    } else {
        s
    }
}

/// An octet string without the blanks around it.
pub open spec fn trimmed(s: Seq<u8>) -> Seq<u8> {
    trimmed_back(trimmed_front(s))
}

/// The octets from `a` to `b` are one member of a comma-separated list.
pub open spec fn member(s: Seq<u8>, a: int, b: int) -> bool {
    &&& 0 <= a <= b <= s.len()
    &&& a == 0 || s[a - 1] == 0x2c
    &&& b == s.len() || s[b] == 0x2c
    &&& forall|i: int| a <= i < b ==> (#[trigger] s[i]) != 0x2c
}

/// Some member of a comma-separated list is the given word, in any case.
pub open spec fn listed(s: Seq<u8>, word: Seq<u8>) -> bool {
    exists|a: int, b: int|
        #![trigger member(s, a, b)]
        member(s, a, b) && headers::equal_ignoring_case(trimmed(s.subrange(a, b)), word)
}

/// Only visible ASCII characters, spaces and tabs.
pub open spec fn visible(s: Seq<u8>) -> bool {
    forall|i: int| 0 <= i < s.len() ==> 0x20 <= #[trigger] s[i] < 0x7f || s[i] == 0x09
}

/// The number that a text is read as: one or more digits, after an optional
/// plus sign.
pub open spec fn unsigned(s: Seq<u8>) -> Option<u64> {
    let digits = if s.len() > 0 && s[0] == 0x2b {
        s.subrange(1, s.len() as int)
    } else {
        s
    };
    if digits.len() > 0 {
        numbers::decimal_number(digits)
    } else {
        None
    }
}

/// Where the octets without the blanks around them begin and end.
fn trim(s: &[u8], a: usize, b: usize) -> (range: (usize, usize))
    requires
        a <= b <= s@.len(),
    ensures
        a <= range.0 <= range.1 <= b,
        s@.subrange(range.0 as int, range.1 as int) == trimmed(s@.subrange(a as int, b as int)),
{
    let mut from: usize = a;
    while from < b && (s[from] == 0x20 || s[from] == 0x09)
        invariant
            a <= from <= b <= s@.len(),
            trimmed_front(s@.subrange(a as int, b as int)) == trimmed_front(
                s@.subrange(from as int, b as int),
            ),
        decreases b - from,
    {
        proof {
            let rest = s@.subrange(from as int, b as int);
            assert(rest.subrange(1, rest.len() as int) =~= s@.subrange(from + 1, b as int));
        }
        from = from + 1;
    }
    let ghost front = s@.subrange(from as int, b as int);
    assert(trimmed_front(front) == front);
    let mut to: usize = b;
    while to > from && (s[to - 1] == 0x20 || s[to - 1] == 0x09)
        invariant
            from <= to <= b <= s@.len(),
            trimmed_back(front) == trimmed_back(s@.subrange(from as int, to as int)),
        decreases to,
    {
        assert(s@.subrange(from as int, to as int).drop_last() =~= s@.subrange(
            from as int,
            to - 1,
        ));
        to = to - 1;
    }
    assert(trimmed_back(s@.subrange(from as int, to as int)) == s@.subrange(
        from as int,
        to as int,
    ));
    (from, to)
}

/// Whether some member of a comma-separated list is the given word, in any
/// case.
pub fn lists(s: &[u8], word: &[u8]) -> (yes: bool)
    ensures
        yes == listed(s@, word@),
{
    let n: usize = s.len();
    let mut a: usize = 0;
    let mut b: usize = 0;
    loop
        invariant
            n == s@.len(),
            a <= b <= n,
            a == 0 || s@[a - 1] == 0x2c,
            forall|i: int| a <= i < b ==> (#[trigger] s@[i]) != 0x2c,
            forall|c: int, d: int|
                #![trigger member(s@, c, d)]
                c < a && member(s@, c, d) ==> !headers::equal_ignoring_case(
                    trimmed(s@.subrange(c, d)),
                    word@,
                ),
        decreases n - b, n - a,
    {
        if b < n && s[b] != 0x2c {
            b = b + 1;
            continue;
        }
        assert(member(s@, a as int, b as int));
        let (from, to) = trim(s, a, b);
        if same_ignoring_case(vstd::slice::slice_subrange(s, from, to), word) {
            return true;
        }
        proof {
            assert forall|c: int, d: int| #[trigger]
                member(s@, c, d) && c <= b implies !headers::equal_ignoring_case(
                trimmed(s@.subrange(c, d)),
                word@,
            ) by {
                if c == a {
                    if d < b {
                        assert(s@[d] == 0x2c);
                    }
                    if b < d {
                        assert(s@[b as int] == 0x2c);
                    }
                } else if c > a {
                    assert(s@[c - 1] == 0x2c);
                }
            }
        }
        if b == n {
            return false;
        }
        b = b + 1;
        a = b;
    }
}

/// Whether an octet string holds only visible ASCII characters, spaces and tabs.
pub fn is_visible(s: &[u8]) -> (yes: bool)
    ensures
        yes == visible(s@),
{
    let mut i: usize = 0;
    while i < s.len()
        invariant
            i <= s@.len(),
            visible(s@.subrange(0, i as int)),
        decreases s@.len() - i,
    {
        if !(0x20 <= s[i] && s[i] < 0x7f || s[i] == 0x09) {
            return false;
        }
        assert forall|j: int| 0 <= j < i + 1 implies 0x20 <= #[trigger] s@.subrange(0, i + 1)[j]
            < 0x7f || s@.subrange(0, i + 1)[j] == 0x09 by {
            if j < i {
                assert(s@.subrange(0, i as int)[j] == s@[j]);
            }
        }
        i = i + 1;
    }
    assert(s@.subrange(0, i as int) =~= s@);
    true
}

/// The number that a text is read as: one or more digits, after an optional
/// plus sign.
pub fn parse_unsigned(s: &[u8]) -> (number: Option<u64>)
    ensures
        number == unsigned(s@),
{
    let digits: &[u8] = if s.len() > 0 && s[0] == 0x2b {
        vstd::slice::slice_subrange(s, 1, s.len())
    } else {
        s
    };
    if digits.len() == 0 {
        return None;
    }
    parse_decimal(digits)
}

} // verus!
