//! Reading a request head off the transport.

use bytes::{Bytes, BytesMut};
use vstd::prelude::*;

use crate::octets::{bytes_mut_slice, OctetView};

verus! {

/// `memchr::memchr3_iter`: all positions in the haystack at which one of the
/// three needles stands, in increasing order.
#[verifier::external_body]
fn memchr3_positions(needle1: u8, needle2: u8, needle3: u8, haystack: &[u8]) -> (positions: Vec<
    usize,
>)
    ensures
        forall|i: int, j: int|
            0 <= i < j < positions@.len() ==> positions@[i] < positions@[j],
        forall|i: int|
            0 <= i < positions@.len() ==> (#[trigger] positions@[i]) < haystack@.len() && {
                let b = haystack@[positions@[i] as int];
                b == needle1 || b == needle2 || b == needle3
            },
        forall|k: int|
            0 <= k < haystack@.len() && (haystack@[k] == needle1 || haystack@[k] == needle2
                || haystack@[k] == needle3) ==> exists|i: int|
                0 <= i < positions@.len() && positions@[i] == k,
{
    memchr::memchr3_iter(needle1, needle2, needle3, haystack).collect()
}

/// The length of the blank line that begins at `i`, if one does: `\r\n\r\n` or
/// `\n\n`.
pub open spec fn separator_at(s: Seq<u8>, i: int) -> Option<nat> {
    if i + 3 < s.len() && s[i] == 0x0d && s[i + 1] == 0x0a && s[i + 2] == 0x0d && s[i + 3]
        == 0x0a {
        Some(4)
    } else if i + 1 < s.len() && s[i] == 0x0a && s[i + 1] == 0x0a {
        Some(2)
    } else {
        None
    }
}

/// The first blank line from `from` on: where it begins and how long it is.
pub open spec fn separator_from(s: Seq<u8>, from: nat) -> Option<(nat, nat)>
    decreases s.len() - from,
{
    if from >= s.len() {
        None
    } else {
        match separator_at(s, from as int) {
            Some(len) => Some((from, len)),
            None => separator_from(s, from + 1),
        }
    }
}

/// The first blank line.
pub open spec fn separator(s: Seq<u8>) -> Option<(nat, nat)> {
    separator_from(s, 0)
}

/// Where nothing begins before `from`, the search may start there.
proof fn separator_skip(s: Seq<u8>, start: nat, from: nat)
    requires
        start <= from <= s.len(),
        forall|i: int| start <= i < from ==> (#[trigger] separator_at(s, i)) is None,
    ensures
        separator_from(s, start) == separator_from(s, from),
    decreases from - start,
{
    if start < from {
        assert(separator_at(s, start as int) is None);
        separator_skip(s, start + 1, from);
    }
}

/// Where no blank line is found, none begins anywhere.
proof fn separator_none(s: Seq<u8>, from: nat)
    requires
        separator_from(s, from) is None,
    ensures
        forall|i: int| from <= i < s.len() ==> (#[trigger] separator_at(s, i)) is None,
    decreases s.len() - from,
{
    if from < s.len() {
        separator_none(s, from + 1);
    }
}

/// What is found is a blank line, and no other begins before it.
pub proof fn separator_is_first(s: Seq<u8>, from: nat)
    ensures
        separator_from(s, from) matches Some((i, len)) ==> {
            &&& from <= i
            &&& i + len <= s.len()
            &&& separator_at(s, i as int) == Some(len)
            &&& forall|j: int| from <= j < i ==> (#[trigger] separator_at(s, j)) is None
        },
    decreases s.len() - from,
{
    if from < s.len() && separator_at(s, from as int) is None {
        separator_is_first(s, from + 1);
    }
}

/// Searching a tail is searching from where it begins.
proof fn separator_shift(s: Seq<u8>, base: nat, from: nat)
    requires
        base <= s.len(),
    ensures
        separator_from(s, base + from) == match separator_from(
            s.subrange(base as int, s.len() as int),
            from,
        ) {
            Some((i, len)) => Some((base + i, len)),
            None => None,
        },
    decreases s.len() - base - from,
{
    let tail = s.subrange(base as int, s.len() as int);
    if from < tail.len() {
        assert(separator_at(tail, from as int) == separator_at(s, (base + from) as int));
        if separator_at(tail, from as int) is None {
            separator_shift(s, base, from + 1);
        }
    }
}

/// Searches for the header/body separator in a given slice. Returns the index
/// of the separator and the length of the separator.
pub fn search_header_body_separator(slice: &[u8]) -> (found: Option<(usize, usize)>)
    ensures
        match found {
            Some((i, len)) => separator(slice@) == Some((i as nat, len as nat)) && i + len
                <= slice@.len(),
            None => separator(slice@) is None,
        },
{
    let n: usize = slice.len();
    let mut i: usize = 0;
    while i < n
        invariant
            i <= n == slice@.len(),
            separator(slice@) == separator_from(slice@, i as nat),
        decreases n - i,
    {
        if slice[i] == 0x0d {
            if n - i > 3 && slice[i + 1] == 0x0a && slice[i + 2] == 0x0d && slice[i + 3] == 0x0a {
                return Some((i, 4));
            }
        } else if slice[i] == 0x0a && n - i > 1 && slice[i + 1] == 0x0a {
            return Some((i, 2));
        }
        i = i + 1;
    }
    None
}

/// What the beginning of a request tells of its first line.
#[derive(Debug, Clone, Copy, PartialEq, Eq, Structural)]
pub enum FirstLine {
    /// It has exactly two spaces and ends.
    Valid,
    /// It has more or fewer spaces.
    Bad,
    /// It has not ended.
    Incomplete,
}

/// What the octets from `at` on tell of the first line, after so many spaces.
pub open spec fn first_line_from(s: Seq<u8>, at: nat, spaces: nat) -> FirstLine
    decreases s.len() - at,
{
    if at >= s.len() {
        FirstLine::Incomplete
    } else if s[at as int] == 0x20 {
        if spaces >= 2 {
            FirstLine::Bad
        } else {
            first_line_from(s, at + 1, spaces + 1)
        }
    } else if s[at as int] == 0x0d || s[at as int] == 0x0a {
        if spaces == 2 {
            FirstLine::Valid
        } else {
            FirstLine::Bad
        }
    } else {
        first_line_from(s, at + 1, spaces)
    }
}

/// What the beginning of a request tells of its first line.
pub open spec fn first_line(s: Seq<u8>) -> FirstLine {
    first_line_from(s, 0, 0)
}

/// A separator of the parts of a request line.
pub open spec fn line_separator(b: u8) -> bool {
    b == 0x20 || b == 0x0d || b == 0x0a
}

proof fn first_line_skip(s: Seq<u8>, at: nat, to: nat, spaces: nat)
    requires
        at <= to <= s.len(),
        forall|i: int| at <= i < to ==> !line_separator(#[trigger] s[i]),
    ensures
        first_line_from(s, at, spaces) == first_line_from(s, to, spaces),
    decreases to - at,
{
    if at < to {
        assert(!line_separator(s[at as int]));
        first_line_skip(s, at + 1, to, spaces);
    }
}

/// A first line that is known to be valid or bad stays so; one that has not
/// ended holds no end of a line.
proof fn first_line_extended(s: Seq<u8>, more: Seq<u8>, at: nat, spaces: nat)
    ensures
        first_line_from(s, at, spaces) != FirstLine::Incomplete ==> first_line_from(
            s + more,
            at,
            spaces,
        ) == first_line_from(s, at, spaces),
        first_line_from(s, at, spaces) == FirstLine::Incomplete ==> forall|i: int|
            at <= i < s.len() ==> #[trigger] s[i] != 0x0d && s[i] != 0x0a,
    decreases s.len() - at,
{
    if at < s.len() {
        first_line_extended(s, more, at + 1, spaces);
        first_line_extended(s, more, at + 1, spaces + 1);
    }
}

/// Validates the first line (request line) before looking for the end of the
/// head.
fn check_first_line(line: &[u8]) -> (result: FirstLine)
    ensures
        result == first_line(line@),
{
    let positions = memchr3_positions(0x20, 0x0d, 0x0a, line);
    let mut spaces: usize = 0;
    let mut k: usize = 0;
    let ghost mut at: nat = 0;
    while k < positions.len()
        invariant
            k <= positions@.len(),
            spaces <= 2,
            at <= line@.len(),
            k > 0 ==> at == positions@[k - 1] + 1,
            k == 0 ==> at == 0,
            first_line(line@) == first_line_from(line@, at, spaces as nat),
            forall|i: int, j: int|
                0 <= i < j < positions@.len() ==> positions@[i] < positions@[j],
            forall|i: int|
                0 <= i < positions@.len() ==> (#[trigger] positions@[i]) < line@.len() && {
                    let b = line@[positions@[i] as int];
                    b == 0x20u8 || b == 0x0du8 || b == 0x0au8
                },
            forall|m: int|
                0 <= m < line@.len() && (line@[m] == 0x20u8 || line@[m] == 0x0du8 || line@[m]
                    == 0x0au8) ==> exists|i: int| 0 <= i < positions@.len() && positions@[i] == m,
        decreases positions@.len() - k,
    {
        let p: usize = positions[k];
        proof {
            assert forall|m: int| at <= m < p implies !line_separator(#[trigger] line@[m]) by {
                if line_separator(line@[m]) {
                    let i = choose|i: int| 0 <= i < positions@.len() && positions@[i] == m;
                    if i < k {
                        if i < k - 1 {
                            assert(positions@[i] < positions@[k - 1]);
                        }
                    } else if i > k {
                        assert(positions@[k as int] < positions@[i]);
                    }
                }
            }
            first_line_skip(line@, at, p as nat, spaces as nat);
        }
        if line[p] == 0x20 {
            if spaces >= 2 {
                return FirstLine::Bad;
            }
            spaces = spaces + 1;
        } else if spaces == 2 {
            return FirstLine::Valid;
        } else {
            return FirstLine::Bad;
        }
        proof {
            at = (p + 1) as nat;
        }
        k = k + 1;
    }
    proof {
        assert forall|m: int| at <= m < line@.len() implies !line_separator(
            #[trigger] line@[m],
        ) by {
            if line_separator(line@[m]) {
                let i = choose|i: int| 0 <= i < positions@.len() && positions@[i] == m;
                if i < k - 1 {
                    assert(positions@[i] < positions@[k - 1]);
                }
            }
        }
        first_line_skip(line@, at, line@.len(), spaces as nat);
    }
    FirstLine::Incomplete
}

/// ASCII white space.
pub open spec fn white(b: u8) -> bool {
    b == 0x20 || b == 0x09 || b == 0x0a || b == 0x0c || b == 0x0d
}

/// Only white space.
pub open spec fn all_white(s: Seq<u8>) -> bool {
    forall|i: int| 0 <= i < s.len() ==> white(#[trigger] s[i])
}

/// The index of the first octet, from `from` on, that is not white space.
pub open spec fn first_solid(s: Seq<u8>, from: nat) -> Option<nat>
    decreases s.len() - from,
{
    if from >= s.len() {
        None
    } else if white(s[from as int]) {
        first_solid(s, from + 1)
    } else {
        Some(from)
    }
}

pub(crate) proof fn first_solid_facts(s: Seq<u8>, from: nat)
    requires
        forall|i: int| 0 <= i < from && i < s.len() ==> white(#[trigger] s[i]),
    ensures
        match first_solid(s, from) {
            Some(i) => from <= i < s.len() && !white(s[i as int]) && all_white(
                s.subrange(0, i as int),
            ),
            None => all_white(s),
        },
    decreases s.len() - from,
{
    if from < s.len() {
        if white(s[from as int]) {
            first_solid_facts(s, from + 1);
        } else {
            assert forall|i: int| 0 <= i < from implies white(
                #[trigger] s.subrange(0, from as int)[i],
            ) by {
                assert(white(s[i]));
            }
        }
    }
}

/// Where the first octets hold nothing but white space, the search may start
/// after them.
proof fn first_solid_skip(s: Seq<u8>, start: nat, from: nat)
    requires
        start <= from <= s.len(),
        forall|i: int| start <= i < from ==> white(#[trigger] s[i]),
    ensures
        first_solid(s, start) == first_solid(s, from),
    decreases from - start,
{
    if start < from {
        assert(white(s[start as int]));
        first_solid_skip(s, start + 1, from);
    }
}

/// The first octet that is not white space stays the first when more octets
/// come.
proof fn first_solid_extended(s: Seq<u8>, more: Seq<u8>, from: nat)
    ensures
        first_solid(s, from) is Some ==> first_solid(s + more, from) == first_solid(s, from),
    decreases s.len() - from,
{
    if from < s.len() {
        assert((s + more)[from as int] == s[from as int]);
        first_solid_extended(s, more, from + 1);
    }
}

/// Finds the first octet, from `from` on, that is not white space.
fn find_solid(s: &[u8], from: usize) -> (found: Option<usize>)
    requires
        from <= s@.len(),
    ensures
        match found {
            Some(i) => first_solid(s@, from as nat) == Some(i as nat) && i < s@.len(),
            None => first_solid(s@, from as nat) is None,
        },
{
    let mut i: usize = from;
    while i < s.len()
        invariant
            i <= s@.len(),
            first_solid(s@, from as nat) == first_solid(s@, i as nat),
        decreases s@.len() - i,
    {
        let b: u8 = s[i];
        if !(b == 0x20 || b == 0x09 || b == 0x0a || b == 0x0c || b == 0x0d) {
            return Some(i);
        }
        i = i + 1;
    }
    None
}

/// Why a request head could not be read.
#[derive(Debug, Clone, Copy, PartialEq, Eq, Structural)]
pub enum HeadError {
    /// The transport ended inside the head.
    UnexpectedEof,
    /// The request line does not have exactly two spaces.
    BadFirstLine,
    /// The head is longer than the limit.
    TooLarge,
}

/// What reading a head came to.
#[derive(Debug)]
pub enum HeadStep {
    /// Read from the transport and hand what was read to
    /// [`HeadReader::feed`].
    Read,
    /// The head is not complete yet: go on with [`HeadReader::advance`].
    More,
    /// The transport ended before a request.
    Closed,
    /// The request head, with its blank line.
    Head(Bytes),
    Failed(HeadError),
}

/// What a [`HeadStep`] says.
#[verifier::ext_equal]
pub enum HeadStepView {
    Read,
    More,
    Closed,
    Head(Seq<u8>),
    Failed(HeadError),
}

impl View for HeadStep {
    type V = HeadStepView;

    open spec fn view(&self) -> HeadStepView {
        match *self {
            HeadStep::Read => HeadStepView::Read,
            HeadStep::More => HeadStepView::More,
            HeadStep::Closed => HeadStepView::Closed,
            HeadStep::Head(head) => HeadStepView::Head(head@),
            HeadStep::Failed(error) => HeadStepView::Failed(error),
        }
    }
}

/// Reads request heads off the transport, with what is left over from one
/// request going to the next.
#[derive(Debug)]
pub struct HeadReader {
    read_buf: BytesMut,
    max_header_size: usize,
    request_line_read: bool,
    bytes_read: usize,
    whitespace_trimmed: Option<usize>,
    just_started: bool,
    idle: bool,
}

/// What a [`HeadReader`] holds.
#[verifier::ext_equal]
pub struct HeadView {
    /// The octets that were read and not yet used.
    pub buf: Seq<u8>,
    /// The longest head.
    pub limit: usize,
    /// How many octets of the buffer have been looked at.
    pub seen: nat,
    /// Where the request begins, once that is known.
    pub start: Option<nat>,
    /// Nothing has been looked at for this request.
    pub just_started: bool,
    /// A response has been sent and nothing has been read since.
    pub idle: bool,
}

impl HeadView {
    /// The octets of the request that have been looked at.
    pub open spec fn request(self) -> Seq<u8> {
        self.buf.subrange(self.start->0 as int, self.seen as int)
    }

    /// What holds between steps: the request begins with the first octet that is
    /// not white space, and nothing has come of what was looked at.
    pub open spec fn inv(self) -> bool {
        &&& self.seen <= self.buf.len()
        &&& self.seen <= self.limit
        &&& self.start == first_solid(self.buf.subrange(0, self.seen as int), 0)
        &&& read_outcome(self.buf.subrange(0, self.seen as int)) is More
        &&& self.just_started ==> self.seen == 0
    }

    /// Where in the request the search for its blank line starts: three octets
    /// before the new ones, since a blank line that was not there before ends in
    /// the new octets.
    pub open spec fn search_from(self, start: nat) -> nat {
        if self.seen >= 3 && self.seen - 3 > start {
            (self.seen - 3 - start) as nat
        } else {
            0
        }
    }

    /// The reader after looking at `n` more octets of the buffer, up to the
    /// limit. The request begins with the first octet that is not white space;
    /// empty lines before it are ignored (RFC 9112 Section 2.2), also where they
    /// came on their own, as behind the body of the request before.
    pub open spec fn looked(self, n: nat) -> HeadView {
        let upto = if self.seen + n < self.limit {
            self.seen + n
        } else {
            self.limit as nat
        };
        HeadView {
            seen: upto,
            start: match self.start {
                Some(start) => Some(start),
                None => first_solid(self.buf.subrange(0, upto as int), self.seen),
            },
            just_started: false,
            ..self
        }
    }

    /// Looking at `n` more octets of the buffer, up to the limit: the reader
    /// afterwards and the outcome. The head of a request ends with a blank line
    /// after a valid first line.
    pub open spec fn scanned(self, n: nat) -> (HeadView, HeadStepView) {
        let looked = self.looked(n);
        match looked.start {
            None => (looked, HeadStepView::More),
            Some(start) => match first_line(looked.request()) {
                FirstLine::Bad => (looked, HeadStepView::Failed(HeadError::BadFirstLine)),
                FirstLine::Incomplete => (looked, HeadStepView::More),
                FirstLine::Valid => match separator_from(
                    looked.request(),
                    self.search_from(start),
                ) {
                    None => (looked, HeadStepView::More),
                    Some((i, len)) => {
                        let end = start + i + len;
                        (
                            HeadView {
                                buf: self.buf.subrange(end as int, self.buf.len() as int),
                                ..looked
                            },
                            HeadStepView::Head(self.buf.subrange(start as int, end as int)),
                        )
                    },
                },
            },
        }
    }

    /// The next step: too much has been looked at, more has to be read, or what
    /// is left over from the request before is looked at first.
    pub open spec fn advanced(self) -> (HeadView, HeadStepView) {
        if self.seen >= self.limit {
            (self, HeadStepView::Failed(HeadError::TooLarge))
        } else if !self.just_started || self.buf.len() == 0 {
            (HeadView { just_started: false, ..self }, HeadStepView::Read)
        } else {
            self.scanned(self.buf.len())
        }
    }

    /// What the transport gave is looked at; nothing means that it has ended.
    pub open spec fn fed(self, data: Seq<u8>) -> (HeadView, HeadStepView) {
        if data.len() == 0 {
            (
                self,
                if self.start is None {
                    HeadStepView::Closed
                } else {
                    HeadStepView::Failed(HeadError::UnexpectedEof)
                },
            )
        } else {
            (HeadView { buf: self.buf + data, idle: false, ..self }).scanned(data.len())
        }
    }

    /// A new request begins with what is left in the buffer.
    pub open spec fn begun(self) -> HeadView {
        HeadView { seen: 0, start: None, just_started: true, ..self }
    }
}

/// The outcome that the octets of a request call for.
pub open spec fn head_outcome(request: Seq<u8>) -> HeadStepView {
    match (first_line(request), separator(request)) {
        (FirstLine::Bad, _) => HeadStepView::Failed(HeadError::BadFirstLine),
        (FirstLine::Valid, Some((i, len))) => HeadStepView::Head(
            request.subrange(0, (i + len) as int),
        ),
        _ => HeadStepView::More,
    }
}

/// The outcome that octets call for: white space comes before the request.
pub open spec fn read_outcome(octets: Seq<u8>) -> HeadStepView {
    match first_solid(octets, 0) {
        None => HeadStepView::More,
        Some(start) => head_outcome(octets.subrange(start as int, octets.len() as int)),
    }
}

/// A valid first line stays valid when more octets are looked at.
proof fn first_line_stays(before: HeadView, after: HeadView)
    requires
        before.start is Some ==> after.start == before.start && before.start->0 <= before.seen,
        after.buf == before.buf,
        before.seen <= after.seen <= after.buf.len(),
    ensures
        before.start is Some && first_line(before.request()) == FirstLine::Valid ==> first_line(
            after.request(),
        ) == FirstLine::Valid,
{
    if before.start is Some {
        let fresh = before.buf.subrange(before.seen as int, after.seen as int);
        assert(after.request() =~= before.request() + fresh);
        first_line_extended(before.request(), fresh, 0, 0);
    }
}

impl View for HeadReader {
    type V = HeadView;

    closed spec fn view(&self) -> HeadView {
        HeadView {
            buf: self.read_buf@,
            limit: self.max_header_size,
            seen: self.bytes_read as nat,
            start: match self.whitespace_trimmed {
                Some(start) => Some(start as nat),
                None => None,
            },
            just_started: self.just_started,
            idle: self.idle,
        }
    }
}

impl HeadReader {
    /// The flag that the first line has been read agrees with what was read, and
    /// the invariant holds.
    pub closed spec fn wf(self) -> bool {
        &&& self@.inv()
        &&& self.request_line_read == (self@.start is Some && first_line(self@.request())
            == FirstLine::Valid)
    }

    /// A well-formed reader holds what holds between steps.
    pub proof fn wf_holds(self)
        requires
            self.wf(),
        ensures
            self@.inv(),
    {
    }

    /// A reader of heads of up to `max_header_size` octets.
    pub fn new(max_header_size: usize) -> (reader: HeadReader)
        ensures
            reader.wf(),
            reader@ == (HeadView {
                buf: Seq::empty(),
                limit: max_header_size,
                seen: 0,
                start: None,
                just_started: true,
                idle: false,
            }),
    {
        HeadReader {
            read_buf: BytesMut::new(),
            max_header_size,
            request_line_read: false,
            bytes_read: 0,
            whitespace_trimmed: None,
            just_started: true,
            idle: false,
        }
    }

    /// Begins with a new request.
    pub fn begin(&mut self)
        ensures
            final(self).wf(),
            final(self)@ == old(self)@.begun(),
    {
        self.request_line_read = false;
        self.bytes_read = 0;
        self.whitespace_trimmed = None;
        self.just_started = true;
    }

    /// Looks at `n` more octets of the buffer: where the request begins, if that
    /// is known.
    fn look(&mut self, n: usize) -> (start: Option<usize>)
        requires
            old(self).wf(),
            old(self)@.seen + n <= old(self)@.buf.len(),
            old(self)@.buf.len() <= isize::MAX,
        ensures
            final(self)@ == old(self)@.looked(n as nat),
            final(self).request_line_read == old(self).request_line_read,
            final(self)@.seen <= final(self)@.buf.len(),
            final(self)@.seen >= old(self)@.seen,
            match start {
                Some(start) => final(self)@.start == Some(start as nat) && start
                    <= final(self)@.seen,
                None => final(self)@.start is None,
            },
    {
        let old_bytes_read: usize = self.bytes_read;
        let upto: usize = if old_bytes_read + n < self.max_header_size {
            old_bytes_read + n
        } else {
            self.max_header_size
        };
        self.bytes_read = upto;
        self.just_started = false;
        proof {
            first_solid_facts(self@.buf.subrange(0, old_bytes_read as int), 0);
        }
        if self.whitespace_trimmed.is_none() {
            let looked = vstd::slice::slice_subrange(bytes_mut_slice(&self.read_buf), 0, upto);
            self.whitespace_trimmed = find_solid(looked, old_bytes_read);
        }
        self.whitespace_trimmed
    }

    /// Judges the first line of the request that begins at `start`.
    fn judge_first_line(&mut self, start: usize) -> (line: FirstLine)
        requires
            old(self)@.start == Some(start as nat),
            start <= old(self)@.seen <= old(self)@.buf.len(),
            old(self).request_line_read ==> first_line(old(self)@.request()) == FirstLine::Valid,
        ensures
            line == first_line(old(self)@.request()),
            final(self)@ == old(self)@,
            final(self).request_line_read == (line == FirstLine::Valid),
    {
        if self.request_line_read {
            return FirstLine::Valid;
        }
        let line = check_first_line(
            vstd::slice::slice_subrange(bytes_mut_slice(&self.read_buf), start, self.bytes_read),
        );
        self.request_line_read = line == FirstLine::Valid;
        line
    }

    /// Cuts the head of the request that begins at `start` out of the buffer, if
    /// a blank line is found from `from` on.
    fn cut_head(&mut self, start: usize, from: usize) -> (head: Option<Bytes>)
        requires
            old(self)@.start == Some(start as nat),
            start <= from <= old(self)@.seen <= old(self)@.buf.len(),
        ensures
            match separator_from(old(self)@.request(), (from - start) as nat) {
                None => head is None && *final(self) == *old(self),
                Some((i, len)) => {
                    let end = start + i + len;
                    &&& head matches Some(head) && head@ == old(self)@.buf.subrange(
                        start as int,
                        end,
                    )
                    &&& final(self)@ == (HeadView {
                        buf: old(self)@.buf.subrange(end, old(self)@.buf.len() as int),
                        ..old(self)@
                    })
                },
            },
    {
        let ghost buf = self@.buf;
        let tail = vstd::slice::slice_subrange(
            bytes_mut_slice(&self.read_buf),
            from,
            self.bytes_read,
        );
        proof {
            let request = self@.request();
            assert(tail@ =~= request.subrange(from - start, request.len() as int));
            separator_shift(request, (from - start) as nat, 0);
        }
        match search_header_body_separator(tail) {
            Some((index, len)) => {
                let end: usize = from + index + len;
                let _leading = self.read_buf.split_to(start);
                let head = self.read_buf.split_to(end - start).freeze();
                assert(head@ =~= buf.subrange(start as int, end as int));
                assert(self.read_buf@ =~= buf.subrange(end as int, buf.len() as int));
                Some(head)
            },
            None => None,
        }
    }

    /// Looks at `n` more octets of the buffer.
    fn scan(&mut self, n: usize) -> (step: HeadStep)
        requires
            old(self).wf(),
            old(self)@.seen + n <= old(self)@.buf.len(),
            old(self)@.buf.len() <= isize::MAX,
        ensures
            (final(self)@, step@) == old(self)@.scanned(n as nat),
            step@ is More ==> final(self).wf(),
    {
        let ghost before = self@;
        proof {
            scan_is_outcome(before, n as nat);
        }
        let old_bytes_read: usize = self.bytes_read;
        let start: usize = match self.look(n) {
            Some(start) => start,
            None => {
                return HeadStep::More;
            },
        };
        proof {
            first_solid_facts(before.buf.subrange(0, before.seen as int), 0);
            first_line_stays(before, self@);
        }
        match self.judge_first_line(start) {
            FirstLine::Bad => {
                return HeadStep::Failed(HeadError::BadFirstLine);
            },
            FirstLine::Incomplete => {
                return HeadStep::More;
            },
            FirstLine::Valid => {},
        }
        // A blank line that was not there before ends in the new octets.
        let begin_search: usize = if old_bytes_read >= 3 && old_bytes_read - 3 > start {
            old_bytes_read - 3
        } else {
            start
        };
        match self.cut_head(start, begin_search) {
            Some(head) => HeadStep::Head(head),
            None => HeadStep::More,
        }
    }

    /// The next step towards a request head.
    pub fn advance(&mut self) -> (step: HeadStep)
        requires
            old(self).wf(),
            old(self)@.buf.len() <= isize::MAX,
        ensures
            (final(self)@, step@) == old(self)@.advanced(),
            step@ is More || step@ is Read ==> final(self).wf(),
    {
        if self.bytes_read >= self.max_header_size {
            return HeadStep::Failed(HeadError::TooLarge);
        }
        let len: usize = self.read_buf.len();
        if !self.just_started || len == 0 {
            self.just_started = false;
            return HeadStep::Read;
        }
        self.scan(len)
    }

    /// Takes what was read off the transport, nothing at its end.
    pub fn feed(&mut self, data: &[u8]) -> (step: HeadStep)
        requires
            old(self).wf(),
            old(self)@.buf.len() + data@.len() <= isize::MAX,
        ensures
            (final(self)@, step@) == old(self)@.fed(data@),
            step@ is More ==> final(self).wf(),
    {
        if data.len() == 0 {
            if self.whitespace_trimmed.is_none() {
                return HeadStep::Closed;
            }
            return HeadStep::Failed(HeadError::UnexpectedEof);
        }
        let ghost before = self@;
        self.read_buf.extend_from_slice(data);
        self.idle = false;
        proof {
            let upto = before.seen as int;
            assert(self@.buf.subrange(0, upto) =~= before.buf.subrange(0, upto));
            first_solid_facts(before.buf.subrange(0, upto), 0);
            if before.start is Some {
                assert(self@.request() =~= before.request());
            }
        }
        self.scan(data.len())
    }

    /// Whether a response has been sent and nothing has been read since.
    pub fn is_idle(&self) -> (idle: bool)
        ensures
            idle == self@.idle,
    {
        self.idle
    }

    /// A response has been sent: the connection is idle until more is read.
    pub fn mark_idle(&mut self)
        requires
            old(self).wf(),
        ensures
            final(self).wf(),
            final(self)@ == (HeadView { idle: true, ..old(self)@ }),
    {
        self.idle = true;
    }

    /// Takes up to `max` octets that were read beyond the head: the beginning of
    /// the body. [`HeadReader::begin`] comes before the next head.
    pub fn take_buffered(&mut self, max: usize) -> (taken: Bytes)
        ensures
            ({
                let len = old(self)@.buf.len();
                let n = if max < len {
                    max as int
                } else {
                    len as int
                };
                &&& taken@ == old(self)@.buf.subrange(0, n)
                &&& final(self)@ == (HeadView {
                    buf: old(self)@.buf.subrange(n, len as int),
                    ..old(self)@
                })
            }),
    {
        let len: usize = self.read_buf.len();
        let n: usize = if max < len {
            max
        } else {
            len
        };
        self.read_buf.split_to(n).freeze()
    }

    /// What was read beyond the requests, for the protocol that takes over the
    /// connection.
    pub fn into_rest(self) -> (rest: Option<Bytes>)
        ensures
            match rest {
                Some(rest) => rest@ == self@.buf && rest@.len() > 0,
                None => self@.buf.len() == 0,
            },
    {
        let rest = self.read_buf.freeze();
        if rest.len() == 0 {
            None
        } else {
            Some(rest)
        }
    }
}

/// A first line that is still incomplete holds no line end.
proof fn first_line_incomplete(s: Seq<u8>, at: nat, spaces: nat)
    requires
        first_line_from(s, at, spaces) == FirstLine::Incomplete,
    ensures
        forall|i: int| at <= i < s.len() ==> s[i] != 0x0d && s[i] != 0x0a,
    decreases s.len() - at,
{
    if at < s.len() {
        let more: nat = if s[at as int] == 0x20 {
            1
        } else {
            0
        };
        first_line_incomplete(s, at + 1, spaces + more);
    }
}

/// A longer request in which nothing was found before has its first blank line
/// where the search from the last three octets finds it.
proof fn search_resumes(s: Seq<u8>, more: Seq<u8>, from: nat)
    requires
        separator(s) is None,
        from + 3 <= s.len() || from == 0,
    ensures
        separator(s + more) == separator_from(s + more, from),
{
    let t = s + more;
    separator_none(s, 0);
    if from > 0 {
        assert forall|i: int| 0 <= i < from implies (#[trigger] separator_at(t, i)) is None by {
            assert(separator_at(s, i) is None);
            assert(t[i] == s[i] && t[i + 1] == s[i + 1] && t[i + 2] == s[i + 2]);
            assert(i + 3 < s.len());
            assert(t[i + 3] == s[i + 3]);
        }
        separator_skip(t, 0, from);
    }
}

/// Looking at more octets comes to what all octets looked at call for, and while
/// nothing has come of them the invariant holds.
proof fn scan_is_outcome(reader: HeadView, n: nat)
    requires
        reader.inv(),
        reader.seen + n <= reader.buf.len(),
    ensures
        ({
            let looked = reader.looked(n);
            let octets = reader.buf.subrange(0, looked.seen as int);
            &&& looked.start == first_solid(octets, 0)
            &&& reader.scanned(n).1 == read_outcome(octets)
            &&& reader.scanned(n).1 is More ==> reader.scanned(n).0 == looked && looked.inv()
        }),
{
    let looked = reader.looked(n);
    let earlier = reader.buf.subrange(0, reader.seen as int);
    let octets = reader.buf.subrange(0, looked.seen as int);
    let new = reader.buf.subrange(reader.seen as int, looked.seen as int);
    assert(octets =~= earlier + new);
    first_solid_facts(earlier, 0);
    first_solid_extended(earlier, new, 0);
    if reader.start is None {
        assert forall|i: int| 0 <= i < reader.seen implies white(#[trigger] octets[i]) by {
            assert(white(earlier[i]));
        }
        first_solid_skip(octets, 0, reader.seen);
    }
    first_solid_facts(octets, 0);
    if let Some(start) = looked.start {
        let request = looked.request();
        assert(request =~= octets.subrange(start as int, octets.len() as int));
        if reader.start is Some {
            let before = reader.request();
            assert(before =~= earlier.subrange(start as int, earlier.len() as int));
            assert(request =~= before + new);
            if first_line(before) == FirstLine::Incomplete {
                no_separator(before);
            }
            search_resumes(before, new, reader.search_from(start));
        }
        separator_is_first(request, 0);
        if let Some((i, len)) = separator(request) {
            assert(request.subrange(0, (i + len) as int) =~= reader.buf.subrange(
                start as int,
                (start + i + len) as int,
            ));
        }
        if first_line(request) == FirstLine::Incomplete {
            no_separator(request);
        }
    }
}

/// Where the first line has not ended, there is no blank line.
proof fn no_separator(request: Seq<u8>)
    requires
        first_line(request) == FirstLine::Incomplete,
    ensures
        separator(request) is None,
{
    first_line_incomplete(request, 0, 0);
    separator_is_first(request, 0);
}

/// The first blank line stays the first when more octets come.
proof fn separator_stays(s: Seq<u8>, more: Seq<u8>)
    requires
        separator(s) is Some,
    ensures
        separator(s + more) == separator(s),
{
    let t = s + more;
    let (i, len) = separator(s)->0;
    separator_is_first(s, 0);
    assert forall|j: int| 0 <= j < i implies (#[trigger] separator_at(t, j)) is None by {
        assert(separator_at(s, j) is None);
        assert(t[j] == s[j] && t[j + 1] == s[j + 1]);
        if separator_at(t, j) is Some {
            if j + 2 < s.len() {
                assert(t[j + 2] == s[j + 2]);
            }
            if j + 3 < s.len() {
                assert(t[j + 3] == s[j + 3]);
            }
        }
    }
    separator_skip(t, 0, i);
    let at = i as int;
    assert(t[at] == s[at] && t[at + 1] == s[at + 1]);
    if len == 4 {
        assert(t[at + 2] == s[at + 2] && t[at + 3] == s[at + 3]);
    }
    assert(separator_at(t, at) == Some(len));
}

/// What octets have come to, more octets do not change: a request that was
/// refused stays refused, and a head that was complete is the same.
pub proof fn outcome_is_final(octets: Seq<u8>, more: Seq<u8>)
    requires
        !(read_outcome(octets) is More),
    ensures
        read_outcome(octets + more) == read_outcome(octets),
{
    let all = octets + more;
    let start = first_solid(octets, 0)->0;
    first_solid_facts(octets, 0);
    first_solid_extended(octets, more, 0);
    let request = octets.subrange(start as int, octets.len() as int);
    assert(all.subrange(start as int, all.len() as int) =~= request + more);
    first_line_extended(request, more, 0, 0);
    if separator(request) is Some {
        separator_stays(request, more);
        separator_is_first(request, 0);
        let (i, len) = separator(request)->0;
        assert((request + more).subrange(0, (i + len) as int) =~= request.subrange(
            0,
            (i + len) as int,
        ));
    }
}

/// What a reader comes to when it is fed the chunks in turn, until something
/// comes of them.
pub open spec fn fed_in_chunks(reader: HeadView, chunks: Seq<Seq<u8>>) -> HeadStepView
    decreases chunks.len(),
{
    if chunks.len() == 0 {
        HeadStepView::More
    } else {
        let (after, step) = reader.fed(chunks[0]);
        if step is More {
            fed_in_chunks(after, chunks.drop_first())
        } else {
            step
        }
    }
}

/// The octets that are looked at: no more than the limit.
pub open spec fn up_to(octets: Seq<u8>, limit: usize) -> Seq<u8> {
    if octets.len() <= limit {
        octets
    } else {
        octets.subrange(0, limit as int)
    }
}

/// However the octets of a request come, the outcome is that of all of them: a
/// bad first line is refused, and the head ends with the first blank line. The
/// reader has looked at what it holds, as it has whenever it asks for more.
pub proof fn outcome_ignores_chunking(reader: HeadView, chunks: Seq<Seq<u8>>)
    requires
        reader.inv(),
        reader.seen == up_to(reader.buf, reader.limit).len(),
        forall|i: int| 0 <= i < chunks.len() ==> (#[trigger] chunks[i]).len() > 0,
    ensures
        fed_in_chunks(reader, chunks) == read_outcome(
            up_to(reader.buf + chunks.flatten(), reader.limit),
        ),
    decreases chunks.len(),
{
    let all = reader.buf + chunks.flatten();
    if chunks.len() == 0 {
        assert(all =~= reader.buf);
        assert(reader.buf.subrange(0, reader.seen as int) =~= up_to(reader.buf, reader.limit));
    } else {
        let data = chunks[0];
        let rest = chunks.drop_first();
        let fed = HeadView { buf: reader.buf + data, idle: false, ..reader };
        let seen = reader.seen as int;
        assert(fed.buf.subrange(0, seen) =~= reader.buf.subrange(0, seen));
        assert(fed.inv());
        scan_is_outcome(fed, data.len());
        let looked = up_to(fed.buf, reader.limit);
        assert(fed.buf.subrange(0, fed.looked(data.len()).seen as int) =~= looked);
        let (after, step) = reader.fed(data);
        assert(all =~= fed.buf + rest.flatten());
        if step is More {
            assert forall|i: int| 0 <= i < rest.len() implies (#[trigger] rest[i]).len() > 0 by {
                assert(rest[i] == chunks[i + 1]);
            }
            outcome_ignores_chunking(after, rest);
        } else {
            let whole = up_to(all, reader.limit);
            let more = whole.subrange(looked.len() as int, whole.len() as int);
            assert(whole =~= looked + more);
            outcome_is_final(looked, more);
        }
    }
}

/// No octet is lost: white space, the head and what is left make up the buffer.
/// The head is not longer than the limit and ends with a blank line.
pub proof fn head_is_cut_out(reader: HeadView, n: nat)
    requires
        reader.inv(),
        reader.seen + n <= reader.buf.len(),
        reader.scanned(n).1 is Head,
    ensures
        ({
            let head = reader.scanned(n).1->Head_0;
            let start = reader.looked(n).start->0 as int;
            &&& all_white(reader.buf.subrange(0, start))
            &&& reader.buf == reader.buf.subrange(0, start) + head + reader.scanned(n).0.buf
            &&& head.len() <= reader.limit
            &&& separator_at(head, head.len() - 2) == Some(2nat) || separator_at(
                head,
                head.len() - 4,
            ) == Some(4nat)
        }),
{
    let looked = reader.looked(n);
    let start = looked.start->0;
    let request = looked.request();
    let octets = reader.buf.subrange(0, looked.seen as int);
    scan_is_outcome(reader, n);
    first_solid_facts(octets, 0);
    separator_is_first(request, reader.search_from(start));
    let (i, len) = separator_from(request, reader.search_from(start))->0;
    let head = reader.scanned(n).1->Head_0;
    assert(head =~= request.subrange(0, (i + len) as int));
    assert(separator_at(head, i as int) == separator_at(request, i as int));
    assert(reader.buf =~= reader.buf.subrange(0, start as int) + head + reader.scanned(n).0.buf);
    assert(octets.subrange(0, start as int) =~= reader.buf.subrange(0, start as int));
}

/// A request head with its blank line, no longer than the limit.
pub open spec fn whole_head(head: Seq<u8>, limit: usize) -> bool {
    &&& 0 < head.len() <= limit
    &&& !white(head[0])
    &&& first_line(head) == FirstLine::Valid
    &&& separator(head) matches Some((i, len)) && i + len == head.len()
}

/// A head that is in the buffer is read without reading from the transport, and
/// what comes behind it stays.
pub proof fn buffered_head_is_read(reader: HeadView, head: Seq<u8>, rest: Seq<u8>)
    requires
        whole_head(head, reader.limit),
        reader.buf == head + rest,
    ensures
        reader.begun().advanced().1 == HeadStepView::Head(head),
        reader.begun().advanced().0.buf == rest,
        reader.begun().advanced().0.limit == reader.limit,
{
    let begun = reader.begun();
    let n = reader.buf.len();
    let nothing = Seq::<u8>::empty();
    assert(begun.buf.subrange(0, 0) =~= nothing);
    assert(begun.inv());
    scan_is_outcome(begun, n);
    let octets = begun.buf.subrange(0, begun.looked(n).seen as int);
    let more = octets.subrange(head.len() as int, octets.len() as int);
    assert(octets =~= head + more);
    assert(head.subrange(0, head.len() as int) =~= head);
    outcome_is_final(head, more);
    first_solid_extended(head, more, 0);
    head_is_cut_out(begun, n);
    let after = begun.advanced().0;
    assert(begun.buf.subrange(0, 0) + head + after.buf =~= head + after.buf);
    assert(after.buf =~= (head + after.buf).subrange(
        head.len() as int,
        (head + after.buf).len() as int,
    ));
    assert(rest =~= reader.buf.subrange(head.len() as int, n as int));
}

/// Heads that come in one read are read one after the other, without reading
/// from the transport again.
pub proof fn buffered_heads_are_read_in_turn(
    reader: HeadView,
    first: Seq<u8>,
    second: Seq<u8>,
    rest: Seq<u8>,
)
    requires
        whole_head(first, reader.limit),
        whole_head(second, reader.limit),
        reader.buf == first + second + rest,
    ensures
        ({
            let (after, step) = reader.begun().advanced();
            let (last, next) = after.begun().advanced();
            &&& step == HeadStepView::Head(first)
            &&& next == HeadStepView::Head(second)
            &&& last.buf == rest
        }),
{
    assert(reader.buf =~= first + (second + rest));
    buffered_head_is_read(reader, first, second + rest);
    buffered_head_is_read(reader.begun().advanced().0, second, rest);
}

} // verus!
