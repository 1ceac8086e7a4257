//! What holds of an HTTP/1.x connection as a whole: how requests are framed, and
//! what follows from requests and responses.

use vstd::prelude::*;
use vstd::string::StringSliceAdditionalSpecFns;

use super::chunk;
use super::exchange::{self, Fault, ReadOutcome, ReadVerdict, Version};
use super::head::{self, FirstLine, HeadError, HeadStepView, HeadView};
use super::lists;
use super::session::{self, Served, SessionAction, SessionEvent, SessionState};
use crate::headers;
use crate::numbers;
use crate::text;

verus! {

/// The fields of a message by name.
pub type Fields = Map<Seq<u8>, Seq<Seq<u8>>>;

/// Digits are visible, and their first octet is no sign.
proof fn digits_are_visible(value: Seq<u8>)
    requires
        numbers::all_digits(value),
    ensures
        lists::visible(value),
        value.len() > 0 ==> value[0] != 0x2b,
{
    assert forall|i: int| 0 <= i < value.len() implies 0x20 <= #[trigger] value[i] < 0x7f by {
        assert(numbers::is_digit(value[i]));
    }
    if value.len() > 0 {
        assert(numbers::is_digit(value[0]));
    }
}

/// The body of a request is as long as its first `content-length` says, whatever
/// other fields there are; a plus sign before the digits says nothing.
pub proof fn declared_length_is_read(fields: Fields, version: Version, digits: Seq<u8>)
    requires
        digits.len() > 0,
        numbers::all_digits(digits),
        numbers::decimal_value(digits) <= u64::MAX,
        fields.contains_key("content-length".spec_bytes()),
        fields["content-length".spec_bytes()][0] == digits
            || fields["content-length".spec_bytes()][0] == seq![0x2bu8] + digits,
    ensures
        exchange::facts_of(fields, version).content_length == numbers::decimal_value(digits),
{
    let value = fields["content-length".spec_bytes()][0];
    digits_are_visible(digits);
    if value != digits {
        assert(value.subrange(1, value.len() as int) =~= digits);
        assert(value[0] == 0x2b);
        assert forall|i: int| 0 <= i < value.len() implies 0x20 <= #[trigger] value[i]
            < 0x7f by {
            if i > 0 {
                assert(numbers::is_digit(digits[i - 1]));
                assert(value[i] == digits[i - 1]);
            }
        }
    }
}

/// The same of a number as it is written in decimal.
pub proof fn decimal_length_is_read(fields: Fields, version: Version, n: u64)
    requires
        fields.contains_key("content-length".spec_bytes()),
        fields["content-length".spec_bytes()][0] == vstd::utf8::encode_utf8(
            text::decimal_text(n as nat),
        ),
    ensures
        exchange::facts_of(fields, version).content_length == n,
{
    text::decimal_octets_are_read_back(n as nat);
    declared_length_is_read(fields, version, fields["content-length".spec_bytes()][0]);
}

/// A length that is read was declared: without a `content-length`, or with one
/// that is no number below 2^64, the body is empty.
pub proof fn read_length_was_declared(fields: Fields, version: Version)
    ensures
        ({
            let length = exchange::facts_of(fields, version).content_length;
            let value = fields["content-length".spec_bytes()][0];
            length > 0 ==> {
                &&& fields.contains_key("content-length".spec_bytes())
                &&& exists|from: int|
                    #![trigger value.subrange(from, value.len() as int)]
                    0 <= from <= 1 && from < value.len() && numbers::all_digits(
                        value.subrange(from, value.len() as int),
                    ) && numbers::decimal_value(value.subrange(from, value.len() as int)) == length
            }
        }),
{
    let value = fields["content-length".spec_bytes()][0];
    assert(value.subrange(0, value.len() as int) =~= value);
}

/// An octet that may stand around a member of a list.
pub open spec fn around(b: u8) -> bool {
    b == 0x20 || b == 0x09 || b == 0x2c
}

/// Only blanks and tabs.
pub open spec fn all_blank(s: Seq<u8>) -> bool {
    forall|i: int| 0 <= i < s.len() ==> #[trigger] s[i] == 0x20 || s[i] == 0x09
}

/// A word that can be a member of a list: no comma in it, and no blank at its
/// ends.
pub open spec fn plain_word(word: Seq<u8>) -> bool {
    &&& word.len() > 0
    &&& !around(word[0])
    &&& !around(word.last())
    &&& forall|i: int| 0 <= i < word.len() ==> #[trigger] word[i] != 0x2c
}

proof fn trim_front(blanks: Seq<u8>, rest: Seq<u8>)
    requires
        all_blank(blanks),
        rest.len() > 0,
        rest[0] != 0x20,
        rest[0] != 0x09,
    ensures
        lists::trimmed_front(blanks + rest) == rest,
    decreases blanks.len(),
{
    let s = blanks + rest;
    if blanks.len() > 0 {
        assert(s[0] == blanks[0]);
        assert(s.subrange(1, s.len() as int) =~= blanks.drop_first() + rest);
        trim_front(blanks.drop_first(), rest);
    } else {
        assert(s =~= rest);
    }
}

proof fn trim_back(rest: Seq<u8>, blanks: Seq<u8>)
    requires
        all_blank(blanks),
        rest.len() > 0,
        rest.last() != 0x20,
        rest.last() != 0x09,
    ensures
        lists::trimmed_back(rest + blanks) == rest,
    decreases blanks.len(),
{
    let s = rest + blanks;
    if blanks.len() > 0 {
        assert(s.last() == blanks.last());
        assert(s.drop_last() =~= rest + blanks.drop_last());
        trim_back(rest, blanks.drop_last());
    } else {
        assert(s =~= rest);
    }
}

/// A word among the members of a list is found, in whatever case it is written,
/// whatever blanks are around it and whatever members come before and after it.
pub proof fn member_is_found(
    before: Seq<u8>,
    front: Seq<u8>,
    written: Seq<u8>,
    back: Seq<u8>,
    after: Seq<u8>,
    word: Seq<u8>,
)
    requires
        before.len() == 0 || before.last() == 0x2c,
        after.len() == 0 || after[0] == 0x2c,
        all_blank(front),
        all_blank(back),
        plain_word(written),
        headers::equal_ignoring_case(written, word),
    ensures
        lists::listed(before + front + written + back + after, word),
{
    let s = before + front + written + back + after;
    let a = before.len() as int;
    let b = (before.len() + front.len() + written.len() + back.len()) as int;
    let core = front + written + back;
    assert(s.subrange(a, b) =~= core);
    assert forall|i: int| a <= i < b implies (#[trigger] s[i]) != 0x2c by {
        assert(s[i] == core[i - a]);
        if i - a < front.len() {
            assert(core[i - a] == front[i - a]);
        } else if i - a < front.len() + written.len() {
            assert(core[i - a] == written[i - a - front.len()]);
        } else {
            assert(core[i - a] == back[i - a - front.len() - written.len()]);
        }
    }
    if before.len() > 0 {
        assert(s[a - 1] == before.last());
    }
    if after.len() > 0 {
        assert(s[b] == after[0]);
    }
    assert(lists::member(s, a, b));
    assert(front + (written + back) =~= core);
    assert((written + back)[0] == written[0]);
    trim_front(front, written + back);
    trim_back(written, back);
}

/// What is left of a range after trimming is a range of it with blanks around
/// it.
proof fn trimmed_range(s: Seq<u8>) -> (range: (int, int))
    ensures
        0 <= range.0 <= range.1 <= s.len(),
        lists::trimmed(s) == s.subrange(range.0, range.1),
        all_blank(s.subrange(0, range.0)),
        all_blank(s.subrange(range.1, s.len() as int)),
{
    let from = front_range(s);
    let rest = s.subrange(from, s.len() as int);
    let to = back_range(rest);
    assert(rest.subrange(0, to) =~= s.subrange(from, from + to));
    assert(rest.subrange(to, rest.len() as int) =~= s.subrange(from + to, s.len() as int));
    (from, from + to)
}

proof fn front_range(s: Seq<u8>) -> (from: int)
    ensures
        0 <= from <= s.len(),
        lists::trimmed_front(s) == s.subrange(from, s.len() as int),
        all_blank(s.subrange(0, from)),
    decreases s.len(),
{
    if s.len() > 0 && lists::blank(s[0]) {
        let rest = s.subrange(1, s.len() as int);
        let n = front_range(rest);
        assert(rest.subrange(n, rest.len() as int) =~= s.subrange(n + 1, s.len() as int));
        assert forall|i: int| 0 <= i < n + 1 implies #[trigger] s.subrange(0, n + 1)[i] == 0x20
            || s.subrange(0, n + 1)[i] == 0x09 by {
            if i > 0 {
                assert(rest.subrange(0, n)[i - 1] == s[i]);
            }
        }
        n + 1
    } else {
        assert(s.subrange(0, s.len() as int) =~= s);
        0
    }
}

proof fn back_range(s: Seq<u8>) -> (to: int)
    ensures
        0 <= to <= s.len(),
        lists::trimmed_back(s) == s.subrange(0, to),
        all_blank(s.subrange(to, s.len() as int)),
    decreases s.len(),
{
    if s.len() > 0 && lists::blank(s.last()) {
        let init = s.drop_last();
        let n = back_range(init);
        assert(init.subrange(0, n) =~= s.subrange(0, n));
        assert forall|i: int| 0 <= i < s.len() - n implies #[trigger] s.subrange(
            n,
            s.len() as int,
        )[i] == 0x20 || s.subrange(n, s.len() as int)[i] == 0x09 by {
            if i < init.len() - n {
                assert(init.subrange(n, init.len() as int)[i] == s[n + i]);
            }
        }
        n
    } else {
        assert(s.subrange(0, s.len() as int) =~= s);
        s.len() as int
    }
}

/// A word that is found in a list is there, in some case, as a whole: what stands
/// next to it is a blank or a comma.
pub proof fn found_member_is_there(s: Seq<u8>, word: Seq<u8>)
    requires
        lists::listed(s, word),
    ensures
        exists|i: int|
            #![trigger s.subrange(i, i + word.len())]
            {
                &&& 0 <= i && i + word.len() <= s.len()
                &&& headers::equal_ignoring_case(s.subrange(i, i + word.len()), word)
                &&& i == 0 || around(s[i - 1])
                &&& i + word.len() == s.len() || around(s[i + word.len()])
            },
{
    let (a, b) = choose|a: int, b: int|
        #![trigger lists::member(s, a, b)]
        lists::member(s, a, b) && headers::equal_ignoring_case(
            lists::trimmed(s.subrange(a, b)),
            word,
        );
    let part = s.subrange(a, b);
    let (from, to) = trimmed_range(part);
    let i = a + from;
    assert(part.subrange(from, to) =~= s.subrange(i, i + word.len()));
    if from > 0 {
        assert(part.subrange(0, from)[from - 1] == s[i - 1]);
    }
    if to < part.len() {
        assert(part.subrange(to, part.len() as int)[0] == s[i + word.len()]);
    }
}

/// A request's body comes in chunks exactly where its first `transfer-encoding`
/// is text that lists `chunked`; trailers go out to a client whose first `te`
/// lists `trailers`. No other field has a say in either.
pub proof fn codings_are_read(fields: Fields, other: Fields, version: Version, later: Version)
    requires
        fields.contains_key("transfer-encoding".spec_bytes()) == other.contains_key(
            "transfer-encoding".spec_bytes(),
        ),
        fields["transfer-encoding".spec_bytes()] == other["transfer-encoding".spec_bytes()],
        fields.contains_key("te".spec_bytes()) == other.contains_key("te".spec_bytes()),
        fields["te".spec_bytes()] == other["te".spec_bytes()],
    ensures
        ({
            let facts = exchange::facts_of(fields, version);
            let coding = fields["transfer-encoding".spec_bytes()][0];
            let te = fields["te".spec_bytes()][0];
            &&& facts.chunked == (fields.contains_key("transfer-encoding".spec_bytes())
                && lists::visible(coding) && lists::listed(coding, "chunked".spec_bytes()))
            &&& facts.write_trailers == (fields.contains_key("te".spec_bytes()) && lists::visible(
                te,
            ) && lists::listed(te, "trailers".spec_bytes()))
            &&& exchange::facts_of(other, later).chunked == facts.chunked
            &&& exchange::facts_of(other, later).write_trailers == facts.write_trailers
        }),
{
}

/// Trailers of a request are announced by a `trailer` field that says something.
pub proof fn trailers_are_announced(fields: Fields, version: Version)
    ensures
        ({
            let announced = exchange::facts_of(fields, version).has_trailers;
            let value = fields["trailer".spec_bytes()][0];
            announced == (fields.contains_key("trailer".spec_bytes()) && value.len() > 0 && forall|
                i: int,
            |
                0 <= i < value.len() ==> (0x20 <= #[trigger] value[i] && value[i] < 0x7f)
                    || value[i] == 0x09)
        }),
{
}

/// A request whose `connection` field says neither `close` nor `keep-alive`
/// leaves the connection open exactly where it is of version 1.1.
pub proof fn version_decides(fields: Fields, version: Version)
    requires
        !exchange::value_lists(fields, "connection".spec_bytes(), "close".spec_bytes()),
        !exchange::value_lists(fields, "connection".spec_bytes(), "keep-alive".spec_bytes()),
    ensures
        exchange::facts_of(fields, version).keep_alive == (version == Version::Http11),
{
}

/// A request that says `keep-alive` and not `close` leaves the connection open,
/// of whatever version it is.
pub proof fn keep_alive_is_heard(fields: Fields, version: Version)
    requires
        exchange::value_lists(fields, "connection".spec_bytes(), "keep-alive".spec_bytes()),
        !exchange::value_lists(fields, "connection".spec_bytes(), "close".spec_bytes()),
    ensures
        exchange::facts_of(fields, version).keep_alive,
{
}

/// What a response says of the connection stands in its `connection` field alone:
/// every other field stays as it was.
pub proof fn marking_touches_one_field(
    fields: Fields,
    version: Version,
    keep_alive: bool,
    upgraded: bool,
    name: Seq<u8>,
)
    requires
        name != "connection".spec_bytes(),
    ensures
        ({
            let marked = exchange::connection_marked(fields, version, keep_alive, upgraded);
            &&& marked.contains_key(name) == fields.contains_key(name)
            &&& marked[name] == fields[name]
        }),
{
}

/// A response that is sent as an upgrade says `upgrade` and nothing else of the
/// connection; no other response is changed to say so.
pub proof fn upgrade_is_said(fields: Fields, version: Version, keep_alive: bool)
    ensures
        ({
            let name = "connection".spec_bytes();
            let upgrade = exchange::connection_marked(fields, version, keep_alive, true);
            let other = exchange::connection_marked(fields, version, keep_alive, false);
            let word = seq!["upgrade".spec_bytes()];
            &&& upgrade.contains_key(name)
            &&& upgrade[name].len() == 1
            &&& headers::equal_ignoring_case(upgrade[name][0], "upgrade".spec_bytes())
            &&& other.contains_key(name) && other[name] == word ==> fields.contains_key(name)
                && fields[name] == word
        }),
{
    reveal_strlit("upgrade");
    reveal_strlit("keep-alive");
    reveal_strlit("close");
    text::ascii_octets("upgrade"@);
    text::ascii_octets("keep-alive"@);
    text::ascii_octets("close"@);
    let word = seq!["upgrade".spec_bytes()];
    assert(seq!["keep-alive".spec_bytes()][0].len() == 10);
    assert(seq!["close".spec_bytes()][0].len() == 5);
    assert(word[0].len() == 7);
}

/// A request that came is served. What did not come is answered exactly where
/// the client may wait for an answer: not where the transport ended or the server
/// shuts down, and not on an idle connection that breaks or times out. The answer
/// to a late request is told from that to a bad one.
pub proof fn refusals_are_for_waiting_clients(outcome: ReadOutcome, idle: bool)
    ensures
        ({
            let verdict = exchange::verdict_on(outcome, idle);
            let broken = outcome matches ReadOutcome::Failed(fault) && fault != Fault::Other;
            &&& verdict is Serve <==> outcome is Request
            &&& verdict is Refuse <==> (outcome is Failed || outcome is TimedOut) && !(idle && (
            broken || outcome is TimedOut))
            &&& verdict matches ReadVerdict::Refuse { is_timeout } ==> is_timeout
                == outcome is TimedOut
        }),
{
}

/// A whole exchange: a request is served, `100 Continue` goes out before its
/// response exactly where the client waits for it and the response is no error,
/// the response is sent with the request's keep-alive flag and the handler's
/// upgrade flag, and what follows is what the response said: the hand-over after
/// an upgrade, the next request where the connection stays open and the server
/// goes on, and the end otherwise.
pub proof fn exchange_keeps_its_word(
    served: Served,
    status: u16,
    continue_sent: bool,
    upgraded: bool,
    first: bool,
    cancelled: bool,
)
    ensures
        ({
            let (serving, serve) = session::session_step(
                SessionState::Reading,
                SessionEvent::Request(served),
            );
            let (waiting, answer) = session::session_step(
                serving,
                SessionEvent::Response { status, continue_sent, upgraded },
            );
            let invited = served.expects_continue && !continue_sent && (status < 400 || status
                >= 600);
            let (responding, response) = if invited {
                session::session_step(waiting, SessionEvent::Sent { cancelled: first })
            } else {
                (waiting, answer)
            };
            let (end, last) = session::session_step(responding, SessionEvent::Sent { cancelled });
            &&& serve == SessionAction::Serve
            &&& invited <==> answer == SessionAction::SendContinue
            &&& response == (SessionAction::SendResponse {
                keep_alive: served.facts.keep_alive,
                upgraded,
            })
            &&& upgraded <==> last == SessionAction::HandOver
            &&& last == SessionAction::ReadRequest <==> !upgraded && served.facts.keep_alive
                && !cancelled
            &&& last == SessionAction::ReadRequest <==> end == SessionState::Reading
            &&& last == SessionAction::Finish || last == SessionAction::HandOver
                || end == SessionState::Reading
            &&& last == SessionAction::Finish || last == SessionAction::HandOver <==> end
                == SessionState::Ended
        }),
{
}

/// What the last of the events calls for.
pub open spec fn last_action(state: SessionState, events: Seq<SessionEvent>) -> SessionAction {
    session::session_step(session::session_after(state, events.drop_last()), events.last()).1
}

/// What the last response was sent as, if one was: its keep-alive flag and
/// whether it was an upgrade.
pub open spec fn last_response(state: SessionState, events: Seq<SessionEvent>) -> Option<
    (bool, bool),
>
    decreases events.len(),
{
    if events.len() == 0 {
        None
    } else {
        match last_action(state, events) {
            SessionAction::SendResponse { keep_alive, upgraded } => Some((keep_alive, upgraded)),
            _ => last_response(state, events.drop_last()),
        }
    }
}

/// The last request that was served, if one was.
pub open spec fn last_served(state: SessionState, events: Seq<SessionEvent>) -> Option<Served>
    decreases events.len(),
{
    if events.len() == 0 {
        None
    } else {
        match (last_action(state, events), events.last()) {
            (SessionAction::Serve, SessionEvent::Request(served)) => Some(served),
            _ => last_served(state, events.drop_last()),
        }
    }
}

/// What the handler's last answer asked for, if it gave one.
pub open spec fn last_answer(state: SessionState, events: Seq<SessionEvent>) -> Option<bool>
    decreases events.len(),
{
    if events.len() == 0 {
        None
    } else {
        match (session::session_after(state, events.drop_last()), events.last()) {
            (
                SessionState::Serving(_),
                SessionEvent::Response { upgraded, .. },
            ) => Some(upgraded),
            _ => last_answer(state, events.drop_last()),
        }
    }
}

/// Over any course of events the transport is handed over only after a response
/// that was sent as an upgrade, a request is read only after one that was not and
/// that said the connection stays open, and a response carries the flag of the
/// request that it answers and what the handler asked for.
pub proof fn sessions_keep_their_word(events: Seq<SessionEvent>)
    requires
        events.len() > 0,
    ensures
        ({
            let action = last_action(SessionState::Reading, events);
            let before = events.drop_last();
            &&& action is HandOver ==> {
                match last_response(SessionState::Reading, before) {
                    Some((_, upgraded)) => upgraded,
                    None => false,
                }
            }
            &&& action is ReadRequest ==> last_response(SessionState::Reading, before) == Some(
                (true, false),
            )
            &&& action matches SessionAction::SendResponse { keep_alive, upgraded } ==> {
                &&& last_served(SessionState::Reading, before) matches Some(served)
                    && served.facts.keep_alive == keep_alive
                &&& last_answer(SessionState::Reading, events) == Some(upgraded)
            }
        }),
{
    sessions_remember(events.drop_last());
}

/// What a session holds is what was said last.
proof fn sessions_remember(events: Seq<SessionEvent>)
    ensures
        match session::session_after(SessionState::Reading, events) {
            SessionState::Serving(served) => last_served(SessionState::Reading, events) == Some(
                served,
            ),
            SessionState::Continuing { served, upgraded } => {
                &&& last_served(SessionState::Reading, events) == Some(served)
                &&& last_answer(SessionState::Reading, events) == Some(upgraded)
            },
            SessionState::Responding { served, upgraded } => last_response(
                SessionState::Reading,
                events,
            ) == Some((served.facts.keep_alive, upgraded)),
            _ => true,
        },
    decreases events.len(),
{
    if events.len() > 0 {
        sessions_remember(events.drop_last());
    }
}

/// What goes wrong while a request is served or answered ends the connection with
/// the error, and so does the answer to a request that could not be read, however
/// sending it went.
pub proof fn failures_end_the_session(state: SessionState, cancelled: bool)
    ensures
        ({
            let failed = (SessionState::Ended, SessionAction::Fail);
            &&& state is Serving ==> session::session_step(state, SessionEvent::Failed) == failed
            &&& state is Continuing || state is Responding || state is Refusing
                ==> session::session_step(state, SessionEvent::SendFailed) == failed
            &&& state is Refusing ==> session::session_step(
                state,
                SessionEvent::Sent { cancelled },
            ) == failed
        }),
{
}

/// A session answers what could not be read as it is judged, and ends without an
/// error where it is not answered.
pub proof fn unread_requests_are_judged(outcome: ReadOutcome, idle: bool)
    requires
        !(outcome is Request),
    ensures
        ({
            let (state, action) = session::session_step(
                SessionState::Reading,
                SessionEvent::NoRequest { outcome, idle },
            );
            match exchange::verdict_on(outcome, idle) {
                ReadVerdict::Refuse { is_timeout } => state is Refusing && action
                    == SessionAction::Refuse { is_timeout },
                _ => state is Ended && action is Finish,
            }
        }),
{
}

/// The line that announces a chunk is its size in hexadecimal digits and the end
/// of the line, and nothing else.
pub proof fn chunk_line_is_read_back(n: nat)
    ensures
        ({
            let line = chunk::chunk_size_line(n);
            let digits = line.subrange(0, line.len() - 2);
            &&& line.len() > 2
            &&& line[line.len() - 2] == 0x0d
            &&& line[line.len() - 1] == 0x0a
            &&& chunk::hex_value(digits) == n
            &&& forall|i: int|
                0 <= i < digits.len() ==> 0x30 <= #[trigger] digits[i] <= 0x39 || 0x41 <= digits[i]
                    <= 0x46
        }),
{
    chunk::chunk_size_is_read_back(n);
    hex_digits(n);
    let line = chunk::chunk_size_line(n);
    assert(line.subrange(0, line.len() - 2) =~= chunk::hex_octets(n));
}

proof fn hex_digits(n: nat)
    ensures
        forall|i: int|
            0 <= i < chunk::hex_octets(n).len() ==> 0x30 <= #[trigger] chunk::hex_octets(n)[i]
                <= 0x39 || 0x41 <= chunk::hex_octets(n)[i] <= 0x46,
    decreases n,
{
    if n >= 16 {
        hex_digits(n / 16);
        let head = chunk::hex_octets(n / 16);
        let all = chunk::hex_octets(n);
        assert forall|i: int| 0 <= i < all.len() implies 0x30 <= #[trigger] all[i] <= 0x39 || 0x41
            <= all[i] <= 0x46 by {
            if i < head.len() {
                assert(all[i] == head[i]);
            }
        }
    }
}

/// How many spaces there are.
pub open spec fn spaces(s: Seq<u8>) -> nat
    decreases s.len(),
{
    if s.len() == 0 {
        0
    } else {
        spaces(s.drop_first()) + if s[0] == 0x20 {
            1nat
        } else {
            0
        }
    }
}

/// A first line is valid exactly where it has two spaces before its end, whatever
/// comes behind it; one with more is refused before it ends.
pub proof fn first_lines_have_two_spaces(line: Seq<u8>, end: u8, rest: Seq<u8>)
    requires
        forall|i: int| 0 <= i < line.len() ==> #[trigger] line[i] != 0x0d && line[i] != 0x0a,
        end == 0x0d || end == 0x0a,
    ensures
        head::first_line(line + seq![end] + rest) == if spaces(line) == 2 {
            FirstLine::Valid
        } else {
            FirstLine::Bad
        },
        head::first_line(line) == if spaces(line) <= 2 {
            FirstLine::Incomplete
        } else {
            FirstLine::Bad
        },
{
    let s = line + seq![end] + rest;
    spaces_are_counted(line, end, rest, 0, 0);
    assert(line.subrange(0, line.len() as int) =~= line);
    assert(s.subrange(0, s.len() as int) =~= s);
}

proof fn spaces_are_counted(line: Seq<u8>, end: u8, rest: Seq<u8>, at: nat, before: nat)
    requires
        forall|i: int| 0 <= i < line.len() ==> #[trigger] line[i] != 0x0d && line[i] != 0x0a,
        end == 0x0d || end == 0x0a,
        at <= line.len(),
        before <= 2,
    ensures
        ({
            let all = before + spaces(line.subrange(at as int, line.len() as int));
            &&& head::first_line_from(line + seq![end] + rest, at, before) == if all == 2 {
                FirstLine::Valid
            } else {
                FirstLine::Bad
            }
            &&& head::first_line_from(line, at, before) == if all <= 2 {
                FirstLine::Incomplete
            } else {
                FirstLine::Bad
            }
        }),
    decreases line.len() - at,
{
    let s = line + seq![end] + rest;
    let tail = line.subrange(at as int, line.len() as int);
    if at < line.len() {
        assert(s[at as int] == line[at as int]);
        assert(tail[0] == line[at as int]);
        assert(tail.drop_first() =~= line.subrange(at as int + 1, line.len() as int));
        if line[at as int] == 0x20 {
            if before < 2 {
                spaces_are_counted(line, end, rest, at + 1, before + 1);
            }
        } else {
            spaces_are_counted(line, end, rest, at + 1, before);
        }
    } else {
        assert(s[at as int] == end);
        assert(tail =~= Seq::<u8>::empty());
    }
}

/// A connection on which a response was sent is idle until octets come: beginning
/// with the next request and waiting for it leave it so, and any octet ends it.
pub proof fn idle_until_octets_come(reader: HeadView, data: Seq<u8>)
    ensures
        reader.begun().idle == reader.idle,
        reader.begun().buf == reader.buf,
        reader.begun().limit == reader.limit,
        reader.advanced().0.idle == reader.idle,
        data.len() == 0 ==> reader.fed(data).0 == reader,
        data.len() > 0 ==> !reader.fed(data).0.idle,
{
}

/// Where the transport ends, the connection is closed if nothing but white space
/// came, and the request was cut off otherwise.
pub proof fn ends_are_told_apart(reader: HeadView)
    requires
        reader.inv(),
    ensures
        ({
            let step = reader.fed(Seq::empty()).1;
            let seen = reader.buf.subrange(0, reader.seen as int);
            &&& head::all_white(seen) <==> step == HeadStepView::Closed
            &&& !head::all_white(seen) <==> step == HeadStepView::Failed(HeadError::UnexpectedEof)
        }),
{
    let seen = reader.buf.subrange(0, reader.seen as int);
    head::first_solid_facts(seen, 0);
    if let Some(i) = head::first_solid(seen, 0) {
        assert(!head::white(seen[i as int]));
    }
}

/// A request whose head is not complete within the limit is refused, and before
/// that nothing is refused for its length.
pub proof fn long_heads_are_refused(reader: HeadView)
    requires
        reader.inv(),
    ensures
        reader.seen == reader.limit <==> reader.advanced() == (
            reader,
            HeadStepView::Failed(HeadError::TooLarge),
        ),
        reader.seen < reader.limit && !reader.just_started ==> reader.advanced() == (
            reader,
            HeadStepView::Read,
        ),
{
    if reader.seen < reader.limit {
        assert(!(reader.advanced().1 == HeadStepView::Failed(HeadError::TooLarge)));
    }
}

} // verus!
