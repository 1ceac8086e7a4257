//! Serving one request: what goes out when.

use bytes::Bytes;
use http::HeaderMap;
use vstd::prelude::*;
use vstd::string::{StringExecFns, StringSliceAdditionalSpecFns};

use crate::headers::{
    self, headers_contain, headers_get, headers_insert, headers_remove, same_ignoring_case,
    same_octets, HeaderView, MAX_HEADER_NAMES,
};
use crate::octets::{bytes_slice, OctetView};
use crate::text::{self, push_decimal};

verus! {

/// The values of header fields by name.
pub type Fields = Map<Seq<u8>, Seq<Seq<u8>>>;

/// The names that the rules speak of are names as a header map holds them.
pub(crate) proof fn names_are_lower_case()
    ensures
        !headers::has_upper_case("connection".spec_bytes()),
        !headers::has_upper_case("keep-alive".spec_bytes()),
        !headers::has_upper_case("proxy-connection".spec_bytes()),
        !headers::has_upper_case("transfer-encoding".spec_bytes()),
        !headers::has_upper_case("upgrade".spec_bytes()),
        !headers::has_upper_case("te".spec_bytes()),
        !headers::has_upper_case("expect".spec_bytes()),
        !headers::has_upper_case("date".spec_bytes()),
        !headers::has_upper_case("content-length".spec_bytes()),
        headers::header_name_valid("connection".spec_bytes()),
        headers::header_name_valid("date".spec_bytes()),
        headers::header_name_valid("content-length".spec_bytes()),
{
    reveal_strlit("connection");
    reveal_strlit("keep-alive");
    reveal_strlit("proxy-connection");
    reveal_strlit("transfer-encoding");
    reveal_strlit("upgrade");
    reveal_strlit("te");
    reveal_strlit("expect");
    reveal_strlit("date");
    reveal_strlit("content-length");
    text::ascii_octets("connection"@);
    text::ascii_octets("keep-alive"@);
    text::ascii_octets("proxy-connection"@);
    text::ascii_octets("transfer-encoding"@);
    text::ascii_octets("upgrade"@);
    text::ascii_octets("te"@);
    text::ascii_octets("expect"@);
    text::ascii_octets("date"@);
    text::ascii_octets("content-length"@);
}

/// The fields without those that are specific to an HTTP/1 connection: an
/// HTTP/3 message must not carry them (RFC 9114 Section 4.2), nor a TE other
/// than "trailers".
pub open spec fn http3_fields(fields: Fields) -> Fields {
    let kept = fields.remove("keep-alive".spec_bytes()).remove(
        "proxy-connection".spec_bytes(),
    ).remove("connection".spec_bytes()).remove("transfer-encoding".spec_bytes()).remove(
        "upgrade".spec_bytes(),
    );
    if kept.contains_key("te".spec_bytes()) && kept["te".spec_bytes()][0]
        != "trailers".spec_bytes() {
        kept.remove("te".spec_bytes())
    } else {
        kept
    }
}

/// Takes out the fields that an HTTP/3 message must not carry.
pub fn remove_invalid_http3_headers(headers: &mut HeaderMap)
    ensures
        final(headers)@ == http3_fields(old(headers)@),
        final(headers)@.len() <= old(headers)@.len(),
{
    proof {
        names_are_lower_case();
    }
    headers_remove(headers, "keep-alive");
    headers_remove(headers, "proxy-connection");
    headers_remove(headers, "connection");
    headers_remove(headers, "transfer-encoding");
    headers_remove(headers, "upgrade");
    if let Some(te) = headers_get(headers, "te") {
        if !same_octets(bytes_slice(&te), "trailers".as_bytes()) {
            headers_remove(headers, "te");
        }
    }
}

/// The request's first `expect` value is `100-continue`.
pub open spec fn expects_continue(fields: Fields) -> bool {
    fields.contains_key("expect".spec_bytes()) && headers::equal_ignoring_case(
        fields["expect".spec_bytes()][0],
        "100-continue".spec_bytes(),
    )
}

/// Whether the request asks for `100 Continue` and the server sends it.
pub fn is_100_continue(send_continue_response: bool, headers: &HeaderMap) -> (yes: bool)
    ensures
        yes == (send_continue_response && expects_continue(headers@)),
{
    proof {
        names_are_lower_case();
    }
    send_continue_response && match headers_get(headers, "expect") {
        Some(value) => same_ignoring_case(bytes_slice(&value), "100-continue".as_bytes()),
        None => false,
    }
}

/// Waiting for a handler's response, with interim responses in between.
#[derive(Debug, Clone, Copy, PartialEq, Eq, Structural)]
pub struct ResponseWait {
    /// The request asks for `100 Continue` and the server sends it.
    pub is_100_continue: bool,
    /// The handler may still send early hints.
    pub early_hints_open: bool,
    /// `100 Continue` was sent.
    pub continue_sent: bool,
}

/// What is ready when the wait is polled. A response comes before early hints.
#[derive(Debug, Clone, Copy, PartialEq, Eq, Structural)]
pub enum WaitEvent {
    /// The handler's response.
    Response,
    /// Early hints.
    EarlyHints,
    /// No more early hints will come.
    EarlyHintsClosed,
    /// Nothing; the flag tells whether the handler waits for the request body.
    Nothing { body_wanted: bool },
}

/// What the wait does.
#[derive(Debug, Clone, Copy, PartialEq, Eq, Structural)]
pub enum WaitAction {
    /// Go on with the response.
    Respond,
    /// Send a `103 Early Hints` response.
    SendEarlyHints,
    /// Send a `100 Continue` response.
    SendContinue,
    /// Wait on.
    Wait,
}

impl ResponseWait {
    pub fn new(is_100_continue: bool) -> (wait: ResponseWait)
        ensures
            wait == (ResponseWait {
                is_100_continue,
                early_hints_open: true,
                continue_sent: false,
            }),
    {
        ResponseWait { is_100_continue, early_hints_open: true, continue_sent: false }
    }

    /// `100 Continue` is due when the handler waits for the body.
    pub open spec fn continue_due(self, event: WaitEvent) -> bool {
        &&& event matches WaitEvent::Nothing { body_wanted } && body_wanted
        &&& self.is_100_continue
        &&& !self.continue_sent
        &&& self.early_hints_open
    }

    /// The wait after an event.
    pub open spec fn after(self, event: WaitEvent) -> ResponseWait {
        if event is EarlyHintsClosed {
            ResponseWait { early_hints_open: false, ..self }
        } else if self.continue_due(event) {
            ResponseWait { continue_sent: true, ..self }
        } else {
            self
        }
    }

    /// Takes what is ready. Once no more early hints will come, only the
    /// response is waited for.
    pub fn advance(&mut self, event: WaitEvent) -> (action: WaitAction)
        ensures
            *final(self) == old(self).after(event),
            action == (match event {
                WaitEvent::Response => WaitAction::Respond,
                WaitEvent::EarlyHints => WaitAction::SendEarlyHints,
                WaitEvent::EarlyHintsClosed => WaitAction::Wait,
                WaitEvent::Nothing { .. } => if old(self).continue_due(event) {
                    WaitAction::SendContinue
                } else {
                    WaitAction::Wait
                },
            }),
    {
        match event {
            WaitEvent::Response => WaitAction::Respond,
            WaitEvent::EarlyHints => WaitAction::SendEarlyHints,
            WaitEvent::EarlyHintsClosed => {
                self.early_hints_open = false;
                WaitAction::Wait
            },
            WaitEvent::Nothing { body_wanted } => {
                if body_wanted && self.is_100_continue && !self.continue_sent
                    && self.early_hints_open {
                    self.continue_sent = true;
                    WaitAction::SendContinue
                } else {
                    WaitAction::Wait
                }
            },
        }
    }

    /// `100 Continue` goes out before a response with the given status: it was
    /// asked for, not sent yet, and the response is no error.
    pub open spec fn owes_continue(self, status: u16) -> bool {
        self.is_100_continue && !self.continue_sent && !(400 <= status < 600)
    }

    /// Whether `100 Continue` goes out before a response with the given status.
    pub fn continue_before_response(&self, status: u16) -> (yes: bool)
        ensures
            yes == self.owes_continue(status),
    {
        self.is_100_continue && !self.continue_sent && !(400 <= status && status < 600)
    }
}

/// Events, one after the other.
pub open spec fn waited(wait: ResponseWait, events: Seq<WaitEvent>) -> ResponseWait
    decreases events.len(),
{
    if events.len() == 0 {
        wait
    } else {
        waited(wait, events.drop_last()).after(events.last())
    }
}

/// `100 Continue` is sent at most once: after it, no event makes it due, and it
/// does not go out before the response.
pub proof fn continue_is_sent_once(wait: ResponseWait, events: Seq<WaitEvent>, event: WaitEvent)
    requires
        wait.continue_sent,
    ensures
        waited(wait, events).continue_sent,
        !waited(wait, events).continue_due(event),
        forall|status: u16| !#[trigger] waited(wait, events).owes_continue(status),
    decreases events.len(),
{
    if events.len() > 0 {
        continue_is_sent_once(wait, events.drop_last(), event);
    }
}

/// A number in decimal, as a header value.
pub open spec fn length_value(n: u64) -> Seq<u8> {
    vstd::utf8::encode_utf8(text::decimal_text(n as nat))
}

/// Decimal text is made of digits.
proof fn decimal_text_digits(n: nat)
    ensures
        vstd::utf8::is_ascii_chars(text::number_text(n, 10)),
        forall|i: int|
            0 <= i < text::number_text(n, 10).len() ==> '0' <= #[trigger] text::number_text(
                n,
                10,
            )[i] && text::number_text(n, 10)[i] <= '9',
    decreases n,
{
    reveal_strlit("0");
    reveal_strlit("1");
    reveal_strlit("2");
    reveal_strlit("3");
    reveal_strlit("4");
    reveal_strlit("5");
    reveal_strlit("6");
    reveal_strlit("7");
    reveal_strlit("8");
    reveal_strlit("9");
    if n >= 10 {
        decimal_text_digits(n / 10);
    }
}

/// The header fields of a response with a `date`, where one is given and it has
/// none.
pub open spec fn response_dated(fields: Fields, date: Option<Seq<u8>>) -> Fields {
    if date is Some && !fields.contains_key("date".spec_bytes()) {
        fields.insert("date".spec_bytes(), seq![date->0])
    } else {
        fields
    }
}

/// The header fields of a response: a `date` where it has none, none that
/// HTTP/3 forbids, and a `content-length` where the length is known and it has
/// none.
pub open spec fn response_fields_of(
    fields: Fields,
    date: Option<Seq<u8>>,
    length: Option<u64>,
) -> Fields {
    let kept = http3_fields(response_dated(fields, date));
    if length is Some && !kept.contains_key("content-length".spec_bytes()) {
        kept.insert("content-length".spec_bytes(), seq![length_value(length->0)])
    } else {
        kept
    }
}

/// A header map has room for the fields that are added to a response.
pub open spec fn response_fits(
    fields: Fields,
    date: Option<Seq<u8>>,
    length: Option<u64>,
) -> bool {
    let dated = response_dated(fields, date);
    let kept = http3_fields(dated);
    ||| fields.len() + 2 <= MAX_HEADER_NAMES
    ||| {
        &&& dated != fields ==> fields.len() < MAX_HEADER_NAMES
        &&& length is Some && !kept.contains_key("content-length".spec_bytes()) ==> kept.len()
            < MAX_HEADER_NAMES
    }
}

/// Prepares the header fields of a response: the date, if one is to be sent, and
/// the length of a body whose length is known.
pub fn prepare_response(headers: &mut HeaderMap, date: Option<Bytes>, length: Option<u64>)
    requires
        response_fits(
            old(headers)@,
            match date {
                Some(d) => Some(d@),
                None => None,
            },
            length,
        ),
        date matches Some(d) ==> headers::header_value_valid(d@),
    ensures
        final(headers)@ == response_fields_of(
            old(headers)@,
            match date {
                Some(d) => Some(d@),
                None => None,
            },
            length,
        ),
{
    proof {
        names_are_lower_case();
    }
    if let Some(date) = date {
        if !headers_contain(headers, "date") {
            headers_insert(headers, "date", bytes_slice(&date));
        }
    }
    remove_invalid_http3_headers(headers);
    if let Some(length) = length {
        if !headers_contain(headers, "content-length") {
            let mut digits = String::new();
            push_decimal(&mut digits, length);
            proof {
                decimal_text_digits(length as nat);
                text::ascii_octets(text::decimal_text(length as nat));
                assert(digits@ =~= text::decimal_text(length as nat));
            }
            headers_insert(headers, "content-length", digits.as_str().as_bytes());
        }
    }
}

/// A frame of a response body.
#[derive(Debug)]
pub enum BodyPart {
    Data(Bytes),
    Trailers(HeaderMap),
    /// Neither.
    Other,
}

/// What is done with a frame of a response body.
#[derive(Debug)]
pub enum BodyAction {
    /// Take the next frame.
    Skip,
    /// Send a DATA frame, then take the next frame.
    SendData(Bytes),
    /// Send the trailers; they end the body.
    SendTrailers(HeaderMap),
}

/// What is done with a frame of a response body: no bandwidth is wasted on empty
/// frames, and trailers lose the fields that HTTP/3 forbids.
pub fn body_action(part: BodyPart) -> (action: BodyAction)
    ensures
        match part {
            BodyPart::Data(data) => if data@.len() == 0 {
                action is Skip
            } else {
                action matches BodyAction::SendData(sent) && sent@ == data@
            },
            BodyPart::Trailers(trailers) => action matches BodyAction::SendTrailers(sent) && sent@
                == http3_fields(trailers@),
            BodyPart::Other => action is Skip,
        },
{
    match part {
        BodyPart::Data(data) => {
            if data.len() == 0 {
                BodyAction::Skip
            } else {
                BodyAction::SendData(data)
            }
        },
        BodyPart::Trailers(trailers) => {
            let mut kept = trailers;
            remove_invalid_http3_headers(&mut kept);
            BodyAction::SendTrailers(kept)
        },
        BodyPart::Other => BodyAction::Skip,
    }
}

/// Taking out forbidden fields twice is taking them out once, and fields of
/// other names stay.
pub proof fn sanitizing_is_idempotent(fields: Fields, name: Seq<u8>)
    requires
        name != "keep-alive".spec_bytes(),
        name != "proxy-connection".spec_bytes(),
        name != "connection".spec_bytes(),
        name != "transfer-encoding".spec_bytes(),
        name != "upgrade".spec_bytes(),
        name != "te".spec_bytes(),
    ensures
        http3_fields(http3_fields(fields)) == http3_fields(fields),
        http3_fields(fields).contains_key(name) == fields.contains_key(name),
        http3_fields(fields)[name] == fields[name],
{
    assert(http3_fields(http3_fields(fields)) =~= http3_fields(fields));
}

/// A TE field that says "trailers" is kept as it is; no other is.
pub proof fn te_trailers_is_kept(fields: Fields)
    ensures
        ({
            let te = "te".spec_bytes();
            let kept = http3_fields(fields);
            &&& kept.contains_key(te) <==> fields.contains_key(te) && fields[te][0]
                == "trailers".spec_bytes()
            &&& kept.contains_key(te) ==> kept[te] == fields[te]
        }),
{
    reveal_strlit("te");
    reveal_strlit("keep-alive");
    reveal_strlit("proxy-connection");
    reveal_strlit("connection");
    reveal_strlit("transfer-encoding");
    reveal_strlit("upgrade");
    text::ascii_octets("te"@);
    text::ascii_octets("keep-alive"@);
    text::ascii_octets("proxy-connection"@);
    text::ascii_octets("connection"@);
    text::ascii_octets("transfer-encoding"@);
    text::ascii_octets("upgrade"@);
}

} // verus!
