//! One request and its response: what the headers say of the connection and the
//! body, and what follows from each outcome.

use bytes::Bytes;
use http::HeaderMap;
use vstd::prelude::*;
use vstd::string::StringSliceAdditionalSpecFns;

use super::lists::{self, is_visible, parse_unsigned};
use crate::headers::{self, headers_contain, headers_get, headers_insert, HeaderView};
use crate::octets::{bytes_slice, OctetView};
use crate::text;

verus! {

/// The version of a request.
#[derive(Debug, Clone, Copy, PartialEq, Eq, Structural)]
pub enum Version {
    Http10,
    Http11,
}

/// What the headers of a request say.
#[derive(Debug, Clone, Copy, PartialEq, Eq, Structural)]
pub struct RequestFacts {
    /// The connection stays open after the response.
    pub keep_alive: bool,
    /// The length of a body that is not chunked.
    pub content_length: u64,
    /// The body comes in chunks.
    pub chunked: bool,
    /// Trailers follow a chunked body.
    pub has_trailers: bool,
    /// The client takes trailers of the response.
    pub write_trailers: bool,
}

/// The first value under a name, if it is text.
pub open spec fn text_value(
    fields: Map<Seq<u8>, Seq<Seq<u8>>>,
    name: Seq<u8>,
) -> Option<Seq<u8>> {
    if fields.contains_key(name) && lists::visible(fields[name][0]) {
        Some(fields[name][0])
    } else {
        None
    }
}

/// The first value under a name lists the given word.
pub open spec fn value_lists(
    fields: Map<Seq<u8>, Seq<Seq<u8>>>,
    name: Seq<u8>,
    word: Seq<u8>,
) -> bool {
    text_value(fields, name) matches Some(value) && lists::listed(value, word)
}

/// Whether a message leaves the connection open: unless it says `close`, it does
/// where it says `keep-alive` or is of version 1.1.
pub open spec fn kept_alive(fields: Map<Seq<u8>, Seq<Seq<u8>>>, version: Version) -> bool {
    let name = "connection".spec_bytes();
    !value_lists(fields, name, "close".spec_bytes()) && (value_lists(
        fields,
        name,
        "keep-alive".spec_bytes(),
    ) || version == Version::Http11)
}

/// What the headers of a request say.
pub open spec fn facts_of(fields: Map<Seq<u8>, Seq<Seq<u8>>>, version: Version) -> RequestFacts {
    RequestFacts {
        keep_alive: kept_alive(fields, version),
        content_length: match text_value(fields, "content-length".spec_bytes()) {
            Some(value) => match lists::unsigned(value) {
                Some(length) => length,
                None => 0,
            },
            None => 0,
        },
        chunked: value_lists(fields, "transfer-encoding".spec_bytes(), "chunked".spec_bytes()),
        has_trailers: text_value(fields, "trailer".spec_bytes()) matches Some(value) && value.len()
            > 0,
        write_trailers: value_lists(fields, "te".spec_bytes(), "trailers".spec_bytes()),
    }
}

/// Reading the next request came to this.
#[derive(Debug, Clone, Copy, PartialEq, Eq, Structural)]
pub enum ReadOutcome {
    /// A request was read.
    Request,
    /// The transport ended before a request.
    Closed,
    /// The transport broke or ended inside a request, or the request is bad.
    Failed(Fault),
    /// The server shuts down.
    Cancelled,
    /// The request did not come in time.
    TimedOut,
}

/// What kind of error reading a request gave.
#[derive(Debug, Clone, Copy, PartialEq, Eq, Structural)]
pub enum Fault {
    BrokenPipe,
    ConnectionReset,
    ConnectionAborted,
    UnexpectedEof,
    Other,
}

/// What to do about a [`ReadOutcome`].
#[derive(Debug, Clone, Copy, PartialEq, Eq, Structural)]
pub enum ReadVerdict {
    /// Serve the request.
    Serve,
    /// End the connection without an error.
    Finish,
    /// Answer with an error response, then end the connection with an error.
    Refuse { is_timeout: bool },
}

/// What to do about the outcome of reading: a connection that breaks or times
/// out while it is idle ends without an error.
pub open spec fn verdict_on(outcome: ReadOutcome, idle: bool) -> ReadVerdict {
    match outcome {
        ReadOutcome::Request => ReadVerdict::Serve,
        ReadOutcome::Closed | ReadOutcome::Cancelled => ReadVerdict::Finish,
        ReadOutcome::Failed(fault) => if idle && fault != Fault::Other {
            ReadVerdict::Finish
        } else {
            ReadVerdict::Refuse { is_timeout: false }
        },
        ReadOutcome::TimedOut => if idle {
            ReadVerdict::Finish
        } else {
            ReadVerdict::Refuse { is_timeout: true }
        },
    }
}

/// What to do about the outcome of reading the next request.
pub fn read_verdict(outcome: ReadOutcome, idle: bool) -> (verdict: ReadVerdict)
    ensures
        verdict == verdict_on(outcome, idle),
{
    match outcome {
        ReadOutcome::Request => ReadVerdict::Serve,
        ReadOutcome::Closed => ReadVerdict::Finish,
        ReadOutcome::Cancelled => ReadVerdict::Finish,
        ReadOutcome::Failed(fault) => {
            let disconnected = match fault {
                Fault::Other => false,
                _ => true,
            };
            if idle && disconnected {
                ReadVerdict::Finish
            } else {
                ReadVerdict::Refuse { is_timeout: false }
            }
        },
        ReadOutcome::TimedOut => {
            if idle {
                ReadVerdict::Finish
            } else {
                ReadVerdict::Refuse { is_timeout: true }
            }
        },
    }
}

/// The status of an error response that nobody else makes up.
pub fn error_status(is_timeout: bool) -> (status: u16)
    ensures
        is_timeout ==> status == 408,
        !is_timeout ==> status == 400,
{
    if is_timeout {
        408
    } else {
        400
    }
}

/// The first value under a name, if it is text.
fn text_header(map: &HeaderMap, name: &str) -> (value: Option<Bytes>)
    requires
        !headers::has_upper_case(name.spec_bytes()),
    ensures
        match value {
            Some(v) => text_value(map@, name.spec_bytes()) == Some(v@),
            None => text_value(map@, name.spec_bytes()) is None,
        },
{
    match headers_get(map, name) {
        Some(value) => {
            if is_visible(bytes_slice(&value)) {
                Some(value)
            } else {
                None
            }
        },
        None => None,
    }
}

/// Whether the first value under a name lists the given word.
fn header_lists(map: &HeaderMap, name: &str, word: &str) -> (yes: bool)
    requires
        !headers::has_upper_case(name.spec_bytes()),
    ensures
        yes == value_lists(map@, name.spec_bytes(), word.spec_bytes()),
{
    match text_header(map, name) {
        Some(value) => lists::lists(bytes_slice(&value), word.as_bytes()),
        None => false,
    }
}

/// What the headers of a request say of the connection and the body.
pub fn request_facts(map: &HeaderMap, version: Version) -> (facts: RequestFacts)
    ensures
        facts == facts_of(map@, version),
{
    proof {
        names_are_lower_case();
    }
    let close = header_lists(map, "connection", "close");
    let keep_alive = header_lists(map, "connection", "keep-alive");
    let content_length: u64 = match text_header(map, "content-length") {
        Some(value) => match parse_unsigned(bytes_slice(&value)) {
            Some(length) => length,
            None => 0,
        },
        None => 0,
    };
    let has_trailers = match text_header(map, "trailer") {
        Some(value) => value.len() > 0,
        None => false,
    };
    RequestFacts {
        keep_alive: !close && (keep_alive || version == Version::Http11),
        content_length,
        chunked: header_lists(map, "transfer-encoding", "chunked"),
        has_trailers,
        write_trailers: header_lists(map, "te", "trailers"),
    }
}

/// Whether `100 Continue` goes out just before the response: the client waits
/// for it, it has not been sent, and the response is no error.
pub fn continue_before_response(continue_sent: bool, expects_continue: bool, status: u16) -> (send:
    bool)
    ensures
        send == (!continue_sent && expects_continue && !(400 <= status < 600)),
{
    !continue_sent && expects_continue && !(400 <= status && status < 600)
}

/// The headers of a response with what they say of the connection. A response
/// says `upgrade` where another protocol takes over; otherwise it says whether
/// the connection stays open, where its version or its headers would not.
pub open spec fn connection_marked(
    fields: Map<Seq<u8>, Seq<Seq<u8>>>,
    version: Version,
    keep_alive: bool,
    upgraded: bool,
) -> Map<Seq<u8>, Seq<Seq<u8>>> {
    let name = "connection".spec_bytes();
    if upgraded {
        fields.insert(name, seq!["upgrade".spec_bytes()])
    } else if keep_alive && (version == Version::Http10 || fields.contains_key(name)) {
        fields.insert(name, seq!["keep-alive".spec_bytes()])
    } else if !keep_alive && (version == Version::Http11 || fields.contains_key(name)) {
        fields.insert(name, seq!["close".spec_bytes()])
    } else {
        fields
    }
}

/// A response says something of the connection.
pub open spec fn needs_mark(
    fields: Map<Seq<u8>, Seq<Seq<u8>>>,
    version: Version,
    keep_alive: bool,
    upgraded: bool,
) -> bool {
    ||| upgraded
    ||| fields.contains_key("connection".spec_bytes())
    ||| keep_alive == (version == Version::Http10)
}

/// Whether a header map has room for what a response says of the connection.
pub fn has_room_for_mark(map: &HeaderMap, version: Version, keep_alive: bool, upgraded: bool) -> (yes:
    bool)
    ensures
        yes == (map@.len() < headers::MAX_HEADER_NAMES || !needs_mark(
            map@,
            version,
            keep_alive,
            upgraded,
        )),
{
    proof {
        names_are_lower_case();
    }
    headers::header_names(map) < headers::MAX_HEADER_NAMES || !(upgraded || headers_contain(
        map,
        "connection",
    ) || keep_alive == (version == Version::Http10))
}

/// Marks the headers of a response with what becomes of the connection.
pub fn mark_connection(map: &mut HeaderMap, version: Version, keep_alive: bool, upgraded: bool)
    requires
        old(map)@.len() < headers::MAX_HEADER_NAMES || !needs_mark(
            old(map)@,
            version,
            keep_alive,
            upgraded,
        ),
    ensures
        final(map)@ == connection_marked(old(map)@, version, keep_alive, upgraded),
{
    proof {
        names_are_lower_case();
        words_are_values();
    }
    if upgraded {
        headers_insert(map, "connection", "upgrade".as_bytes());
    } else if keep_alive {
        if version == Version::Http10 || headers_contain(map, "connection") {
            headers_insert(map, "connection", "keep-alive".as_bytes());
        }
    } else if version == Version::Http11 || headers_contain(map, "connection") {
        headers_insert(map, "connection", "close".as_bytes());
    }
}

/// Marks the headers of an error response: the connection is closed after it.
pub fn mark_error_response(map: &mut HeaderMap)
    requires
        old(map)@.len() < headers::MAX_HEADER_NAMES,
    ensures
        final(map)@ == old(map)@.insert("connection".spec_bytes(), seq!["close".spec_bytes()]),
{
    proof {
        names_are_lower_case();
        words_are_values();
    }
    headers_insert(map, "connection", "close".as_bytes());
}

/// What follows a response.
#[derive(Debug, Clone, Copy, PartialEq, Eq, Structural)]
pub enum AfterResponse {
    /// Hand the transport over to the other protocol.
    Upgrade,
    /// End the connection without an error.
    Stop,
    /// The connection is idle: read the next request.
    Next,
}

/// What follows a response. A server that shuts down serves no further request.
pub fn after_response(upgraded: bool, cancelled: bool, keep_alive: bool) -> (after: AfterResponse)
    ensures
        upgraded <==> after == AfterResponse::Upgrade,
        !upgraded && !cancelled && keep_alive <==> after == AfterResponse::Next,
{
    if upgraded {
        AfterResponse::Upgrade
    } else if cancelled || !keep_alive {
        AfterResponse::Stop
    } else {
        AfterResponse::Next
    }
}

/// The names that are looked up are in lower case.
proof fn names_are_lower_case()
    ensures
        !headers::has_upper_case("connection".spec_bytes()),
        !headers::has_upper_case("content-length".spec_bytes()),
        !headers::has_upper_case("transfer-encoding".spec_bytes()),
        !headers::has_upper_case("trailer".spec_bytes()),
        !headers::has_upper_case("te".spec_bytes()),
        headers::header_name_valid("connection".spec_bytes()),
{
    reveal_strlit("connection");
    reveal_strlit("content-length");
    reveal_strlit("transfer-encoding");
    reveal_strlit("trailer");
    reveal_strlit("te");
    text::ascii_octets("connection"@);
    text::ascii_octets("content-length"@);
    text::ascii_octets("transfer-encoding"@);
    text::ascii_octets("trailer"@);
    text::ascii_octets("te"@);
}

/// The words that a response's `connection` header is set to are single words.
proof fn words_are_values()
    ensures
        headers::header_value_valid("upgrade".spec_bytes()),
        headers::header_value_valid("keep-alive".spec_bytes()),
        headers::header_value_valid("close".spec_bytes()),
        single_word("keep-alive".spec_bytes()),
        single_word("close".spec_bytes()),
        "keep-alive".spec_bytes().len() != "close".spec_bytes().len(),
{
    reveal_strlit("upgrade");
    reveal_strlit("keep-alive");
    reveal_strlit("close");
    text::ascii_octets("upgrade"@);
    text::ascii_octets("keep-alive"@);
    text::ascii_octets("close"@);
}

/// Visible characters without a blank or a comma.
spec fn single_word(s: Seq<u8>) -> bool {
    forall|i: int| 0 <= i < s.len() ==> 0x20 < #[trigger] s[i] < 0x7f && s[i] != 0x2c
}

/// A single word lists itself and nothing else.
proof fn single_word_lists_itself(s: Seq<u8>, word: Seq<u8>)
    requires
        single_word(s),
    ensures
        lists::visible(s),
        lists::listed(s, word) <==> headers::equal_ignoring_case(s, word),
{
    assert(lists::member(s, 0, s.len() as int));
    assert(s.subrange(0, s.len() as int) =~= s);
    assert(lists::trimmed(s) == s);
    assert forall|a: int, b: int| #[trigger] lists::member(s, a, b) implies a == 0 && b
        == s.len() by {
        if a > 0 {
            assert(s[a - 1] == 0x2c);
        }
        if b < s.len() {
            assert(s[b] == 0x2c);
        }
    }
}

/// A response that is no upgrade tells the client exactly whether the connection
/// stays open.
pub proof fn response_tells_the_connection(
    fields: Map<Seq<u8>, Seq<Seq<u8>>>,
    version: Version,
    keep_alive: bool,
)
    ensures
        kept_alive(connection_marked(fields, version, keep_alive, false), version) == keep_alive,
{
    let marked = connection_marked(fields, version, keep_alive, false);
    let keep = "keep-alive".spec_bytes();
    let close = "close".spec_bytes();
    words_are_values();
    single_word_lists_itself(keep, keep);
    single_word_lists_itself(keep, close);
    single_word_lists_itself(close, close);
    single_word_lists_itself(close, keep);
    if marked.contains_key("connection".spec_bytes()) {
        assert(marked["connection".spec_bytes()] == if keep_alive {
            seq![keep]
        } else {
            seq![close]
        });
    }
}

/// A message that says `close` closes the connection, whatever else it says.
pub proof fn close_wins(fields: Map<Seq<u8>, Seq<Seq<u8>>>, version: Version)
    requires
        value_lists(fields, "connection".spec_bytes(), "close".spec_bytes()),
    ensures
        !facts_of(fields, version).keep_alive,
{
}

/// The answer to a request that could not be read tells the client that the
/// connection is closed.
pub proof fn error_response_closes(fields: Map<Seq<u8>, Seq<Seq<u8>>>, version: Version)
    ensures
        !kept_alive(
            fields.insert("connection".spec_bytes(), seq!["close".spec_bytes()]),
            version,
        ),
{
    let close = "close".spec_bytes();
    words_are_values();
    single_word_lists_itself(close, close);
}

} // verus!
