//! Request and trailer field blocks (RFC 9113 Section 8.1.2).

use bytes::Bytes;
use http::{HeaderMap, Method, Uri};
use vstd::prelude::*;
use vstd::string::StringSliceAdditionalSpecFns;

use crate::headers::{
    self, contains_upper_case, header_name_ok, header_names, header_value_ok, headers_append,
    headers_get, headers_new, method_from_bytes, same_ignoring_case, same_octets, text_from_utf8,
    uri_from_octets, uri_from_parts, HeaderView, MAX_HEADER_NAMES,
};
use crate::numbers;
use crate::octets::{bytes_slice, OctetView};
use crate::text;

verus! {

/// A header field as the field block codec hands it out.
#[derive(Debug, Clone, PartialEq, Eq)]
pub struct Header {
    pub name: Bytes,
    pub value: Bytes,
}

/// A field's name and value.
pub type Field = (Seq<u8>, Seq<u8>);

impl View for Header {
    type V = Field;

    open spec fn view(&self) -> Field {
        (self.name@, self.value@)
    }
}

impl Header {
    pub fn new(name: Bytes, value: Bytes) -> (header: Header)
        ensures
            header@ == (name@, value@),
    {
        Header { name, value }
    }
}

/// What a list of header fields says.
pub open spec fn fields_of(headers: Seq<Header>) -> Seq<Field> {
    headers.map_values(|header: Header| header@)
}

/// The HEADERS block was rejected as malformed (RFC 9113 Section 8.1.2.6): the
/// connection answers with a stream error PROTOCOL_ERROR.
#[derive(Debug, Clone, Copy, PartialEq, Eq, Structural)]
pub struct MalformedRequest;

/// Header names a request must not carry (RFC 9113 Section 8.1.2.2).
pub open spec fn connection_specific(name: Seq<u8>) -> bool {
    ||| name == "connection".spec_bytes()
    ||| name == "keep-alive".spec_bytes()
    ||| name == "proxy-connection".spec_bytes()
    ||| name == "transfer-encoding".spec_bytes()
    ||| name == "upgrade".spec_bytes()
}

/// Whether a request must not carry the header.
pub fn is_connection_specific(name: &[u8]) -> (yes: bool)
    ensures
        yes == connection_specific(name@),
{
    same_octets(name, "connection".as_bytes()) || same_octets(name, "keep-alive".as_bytes())
        || same_octets(name, "proxy-connection".as_bytes()) || same_octets(
        name,
        "transfer-encoding".as_bytes(),
    ) || same_octets(name, "upgrade".as_bytes())
}

/// The characters with the Unicode property `White_Space`.
pub open spec fn white_space(c: char) -> bool {
    ||| '\u{0009}' <= c <= '\u{000d}'
    ||| c == '\u{0020}'
    ||| c == '\u{0085}'
    ||| c == '\u{00a0}'
    ||| c == '\u{1680}'
    ||| '\u{2000}' <= c <= '\u{200a}'
    ||| c == '\u{2028}'
    ||| c == '\u{2029}'
    ||| c == '\u{202f}'
    ||| c == '\u{205f}'
    ||| c == '\u{3000}'
}

/// `char::is_whitespace`: whether a character has the Unicode property
/// `White_Space`.
#[verifier::external_body]
fn is_white_space(c: char) -> (yes: bool)
    ensures
        yes == white_space(c),
{
    c.is_whitespace()
}

/// A text without the white space at its ends.
pub open spec fn trimmed(s: Seq<char>) -> Seq<char>
    decreases s.len(),
{
    if s.len() == 0 {
        s
    } else if white_space(s[0]) {
        trimmed(s.subrange(1, s.len() as int))
    } else if white_space(s.last()) {
        trimmed(s.drop_last())
    } else {
        s
    }
}

/// Every comma-separated part of the text, from `start` on, is "trailers" but
/// for white space around it. The part that begins at `start` has been read up
/// to `at`.
pub open spec fn parts_are_trailers(s: Seq<char>, start: int, at: int) -> bool
    decreases s.len() - at,
{
    if at >= s.len() {
        trimmed(s.subrange(start, s.len() as int)) == "trailers"@
    } else if s[at] == ',' {
        trimmed(s.subrange(start, at)) == "trailers"@ && parts_are_trailers(s, at + 1, at + 1)
    } else {
        parts_are_trailers(s, start, at + 1)
    }
}

/// A TE field with the single value "trailers", however often.
pub open spec fn te_trailers(value: Seq<u8>) -> bool {
    vstd::utf8::valid_utf8(value) && parts_are_trailers(vstd::utf8::decode_utf8(value), 0, 0)
}

/// Whether the characters from `start` to `end` are the text but for white
/// space around it.
fn trims_to(chars: &Vec<char>, start: usize, end: usize, text: &Vec<char>) -> (yes: bool)
    requires
        start <= end <= chars@.len(),
    ensures
        yes == (trimmed(chars@.subrange(start as int, end as int)) == text@),
{
    let ghost part = chars@.subrange(start as int, end as int);
    let mut i: usize = start;
    let mut j: usize = end;
    while i < j && is_white_space(chars[i])
        invariant
            start <= i <= j == end <= chars@.len(),
            trimmed(chars@.subrange(i as int, j as int)) == trimmed(part),
        ensures
            start <= i <= j == end <= chars@.len(),
            trimmed(chars@.subrange(i as int, j as int)) == trimmed(part),
            i < j ==> !white_space(chars@[i as int]),
        decreases j - i,
    {
        assert(chars@.subrange(i as int, j as int).subrange(1, (j - i) as int) =~= chars@.subrange(
            i + 1,
            j as int,
        ));
        i = i + 1;
    }
    while i < j && is_white_space(chars[j - 1])
        invariant
            start <= i <= j <= end <= chars@.len(),
            trimmed(chars@.subrange(i as int, j as int)) == trimmed(part),
            i < j ==> !white_space(chars@[i as int]),
        ensures
            start <= i <= j <= end <= chars@.len(),
            trimmed(chars@.subrange(i as int, j as int)) == trimmed(part),
            i < j ==> !white_space(chars@[i as int]) && !white_space(chars@[j - 1]),
        decreases j - i,
    {
        assert(chars@.subrange(i as int, j as int).drop_last() =~= chars@.subrange(
            i as int,
            j - 1,
        ));
        j = j - 1;
    }
    let ghost core = chars@.subrange(i as int, j as int);
    assert(trimmed(core) == core);
    if text.len() != j - i {
        return false;
    }
    let mut k: usize = 0;
    while k < text.len()
        invariant
            k <= text@.len(),
            text@.len() == core.len(),
            core == chars@.subrange(i as int, j as int),
            i + text@.len() == j <= chars@.len(),
            forall|m: int| 0 <= m < k ==> text@[m] == core[m],
            trimmed(part) == core,
            part == chars@.subrange(start as int, end as int),
        decreases text@.len() - k,
    {
        if chars[i + k] != text[k] {
            assert(core[k as int] != text@[k as int]);
            return false;
        }
        k = k + 1;
    }
    assert(text@ =~= core);
    true
}

/// The characters of a text.
fn chars_of(text: &str) -> (chars: Vec<char>)
    ensures
        chars@ == text@,
{
    let mut chars: Vec<char> = Vec::new();
    for c in it: text.chars()
        invariant
            chars@ == it.seq().subrange(0, it.index() as int),
            it.seq() == text@,
    {
        chars.push(c);
        assert(chars@ =~= it.seq().subrange(0, it.index() as int + 1));
    }
    assert(text@.subrange(0, text@.len() as int) =~= text@);
    chars
}

/// The TE field is only legal with the single value "trailers" (RFC 9113
/// Section 8.1.2.2).
pub fn te_is_trailers(value: &[u8]) -> (yes: bool)
    ensures
        yes == te_trailers(value@),
{
    let text = match text_from_utf8(value) {
        Some(text) => text,
        None => return false,
    };
    let chars = chars_of(text);
    let wanted = chars_of("trailers");
    let mut start: usize = 0;
    let mut at: usize = 0;
    while at < chars.len()
        invariant
            start <= at <= chars@.len(),
            wanted@ == "trailers"@,
            vstd::utf8::valid_utf8(value@),
            chars@ == vstd::utf8::decode_utf8(value@),
            parts_are_trailers(chars@, start as int, at as int) == parts_are_trailers(chars@, 0, 0),
        decreases chars@.len() - at,
    {
        if chars[at] == ',' {
            if !trims_to(&chars, start, at, &wanted) {
                return false;
            }
            start = at + 1;
        }
        at = at + 1;
    }
    trims_to(&chars, start, at, &wanted)
}

/// A text without a comma has one part.
proof fn one_part(s: Seq<char>, at: int)
    requires
        0 <= at <= s.len(),
        forall|i: int| at <= i < s.len() ==> #[trigger] s[i] != ',',
    ensures
        parts_are_trailers(s, 0, at) == (trimmed(s) == "trailers"@),
    decreases s.len() - at,
{
    if at < s.len() {
        assert(s[at] != ',');
        one_part(s, at + 1);
    } else {
        assert(s.subrange(0, s.len() as int) =~= s);
    }
}

/// White space around a text that has none at its ends is taken off.
proof fn trimmed_core(before: Seq<char>, core: Seq<char>, after: Seq<char>)
    requires
        core.len() > 0,
        !white_space(core[0]),
        !white_space(core.last()),
        forall|i: int| 0 <= i < before.len() ==> white_space(#[trigger] before[i]),
        forall|i: int| 0 <= i < after.len() ==> white_space(#[trigger] after[i]),
    ensures
        trimmed(before + core + after) == core,
    decreases before.len() + after.len(),
{
    let s = before + core + after;
    if before.len() > 0 {
        assert(white_space(before[0]) && s[0] == before[0]);
        let rest = before.drop_first();
        assert forall|i: int| 0 <= i < rest.len() implies white_space(#[trigger] rest[i]) by {
            assert(rest[i] == before[i + 1]);
        }
        trimmed_core(rest, core, after);
        assert(s.subrange(1, s.len() as int) =~= rest + core + after);
    } else {
        assert(s[0] == core[0]);
        if after.len() > 0 {
            assert(white_space(after[after.len() - 1]) && s.last() == after[after.len() - 1]);
            let rest = after.drop_last();
            assert forall|i: int| 0 <= i < rest.len() implies white_space(#[trigger] rest[i]) by {
                assert(rest[i] == after[i]);
            }
            trimmed_core(before, core, rest);
            assert(s.drop_last() =~= before + core + rest);
        } else {
            assert(s =~= core);
        }
    }
}

/// The value "trailers" is legal, with any white space around it.
pub proof fn trailers_is_legal(before: Seq<char>, after: Seq<char>)
    requires
        forall|i: int| 0 <= i < before.len() ==> white_space(#[trigger] before[i]),
        forall|i: int| 0 <= i < after.len() ==> white_space(#[trigger] after[i]),
    ensures
        te_trailers(vstd::utf8::encode_utf8(before + "trailers"@ + after)),
{
    reveal_strlit("trailers");
    let s = before + "trailers"@ + after;
    vstd::utf8::encode_utf8_valid_utf8(s);
    vstd::utf8::encode_utf8_decode_utf8(s);
    trimmed_core(before, "trailers"@, after);
    one_part(s, 0);
}

/// A blank or a tab.
pub open spec fn is_blank(b: u8) -> bool {
    b == 0x20 || b == 0x09
}

/// A content-length: bare digits, optionally framed by blanks, of a number that
/// fits.
pub open spec fn content_length_of(value: Seq<u8>) -> Option<u64>
    decreases value.len(),
{
    if value.len() == 0 {
        None
    } else if is_blank(value[0]) {
        content_length_of(value.subrange(1, value.len() as int))
    } else if is_blank(value.last()) {
        content_length_of(value.drop_last())
    } else {
        numbers::decimal_number(value)
    }
}

/// Parses a content-length header value into a `u64`; anything but bare digits
/// (optionally framed by OWS) is malformed.
pub fn parse_content_length(value: &[u8]) -> (result: Result<u64, MalformedRequest>)
    ensures
        match result {
            Ok(n) => content_length_of(value@) == Some(n),
            Err(_) => content_length_of(value@) is None,
        },
{
    let mut start: usize = 0;
    let mut end: usize = value.len();
    assert(value@.subrange(0, value@.len() as int) =~= value@);
    while start < end && (value[start] == 0x20 || value[start] == 0x09)
        invariant
            start <= end == value@.len(),
            content_length_of(value@.subrange(start as int, end as int)) == content_length_of(
                value@,
            ),
        ensures
            start <= end == value@.len(),
            content_length_of(value@.subrange(start as int, end as int)) == content_length_of(
                value@,
            ),
            start < end ==> !is_blank(value@[start as int]),
        decreases end - start,
    {
        let ghost left = value@.subrange(start as int, end as int);
        assert(left.subrange(1, left.len() as int) =~= value@.subrange(start + 1, end as int));
        start = start + 1;
    }
    if start == end {
        // Empty or all-whitespace.
        return Err(MalformedRequest);
    }
    while value[end - 1] == 0x20 || value[end - 1] == 0x09
        invariant
            start < end <= value@.len(),
            content_length_of(value@.subrange(start as int, end as int)) == content_length_of(
                value@,
            ),
            !is_blank(value@[start as int]),
        ensures
            start < end <= value@.len(),
            content_length_of(value@.subrange(start as int, end as int)) == content_length_of(
                value@,
            ),
            !is_blank(value@[start as int]),
            !is_blank(value@[end - 1]),
        decreases end - start,
    {
        let ghost left = value@.subrange(start as int, end as int);
        assert(left.drop_last() =~= value@.subrange(start as int, end - 1));
        end = end - 1;
    }
    match numbers::parse_decimal(vstd::slice::slice_subrange(value, start, end)) {
        Some(n) => Ok(n),
        None => Err(MalformedRequest),
    }
}

/// A pseudo-header field's name starts with a colon.
pub open spec fn is_pseudo(name: Seq<u8>) -> bool {
    name.len() > 0 && name[0] == 0x3a
}

/// The pseudo-header fields of requests (RFC 9113 Section 8.3.1, RFC 8441
/// Section 4).
pub open spec fn known_pseudo(name: Seq<u8>) -> bool {
    ||| name == ":method".spec_bytes()
    ||| name == ":scheme".spec_bytes()
    ||| name == ":authority".spec_bytes()
    ||| name == ":path".spec_bytes()
    ||| name == ":protocol".spec_bytes()
}

/// A name and a value that a header map takes as they are: field names must be
/// lowercase (RFC 9113 Section 8.1.2.1).
pub open spec fn storable(field: Field) -> bool {
    &&& !headers::has_upper_case(field.0)
    &&& headers::header_name_valid(field.0)
    &&& headers::header_value_valid(field.1)
}

/// A regular field that a request may carry.
pub open spec fn regular_ok(field: Field) -> bool {
    &&& !connection_specific(field.0)
    &&& field.0 == "te".spec_bytes() ==> te_trailers(field.1)
    &&& field.0 == "content-length".spec_bytes() ==> content_length_of(field.1) is Some
    &&& storable(field)
}

/// The rules for the fields of a request (RFC 9113 Section 8.1.2): pseudo-header
/// fields come first, are known ones, and each at most once; the others are
/// fields that a request may carry.
pub open spec fn fields_ok(fields: Seq<Field>) -> bool {
    &&& forall|i: int|
        0 <= i < fields.len() ==> if is_pseudo((#[trigger] fields[i]).0) {
            known_pseudo(fields[i].0)
        } else {
            regular_ok(fields[i])
        }
    &&& forall|i: int, j: int|
        0 <= i < j < fields.len() && is_pseudo((#[trigger] fields[j]).0) ==> is_pseudo(
            (#[trigger] fields[i]).0,
        ) && fields[i].0 != fields[j].0
}

/// The value of the first field with the given name.
pub open spec fn value_of(fields: Seq<Field>, name: Seq<u8>) -> Option<Seq<u8>>
    decreases fields.len(),
{
    if fields.len() == 0 {
        None
    } else {
        match value_of(fields.drop_last(), name) {
            Some(value) => Some(value),
            None => if fields.last().0 == name {
                Some(fields.last().1)
            } else {
                None
            },
        }
    }
}

/// The regular fields, in order.
pub open spec fn regular_fields(fields: Seq<Field>) -> Seq<Field>
    decreases fields.len(),
{
    if fields.len() == 0 {
        Seq::empty()
    } else {
        let init = regular_fields(fields.drop_last());
        if is_pseudo(fields.last().0) {
            init
        } else {
            init.push(fields.last())
        }
    }
}

/// All content-length fields give one number.
pub open spec fn lengths_agree(fields: Seq<Field>) -> bool {
    forall|i: int, j: int|
        0 <= i < j < fields.len() && (#[trigger] fields[i]).0 == "content-length".spec_bytes() && (
        #[trigger] fields[j]).0 == "content-length".spec_bytes() ==> content_length_of(fields[i].1)
            == content_length_of(fields[j].1)
}

/// A header map has room for the regular fields as they come, up to the first
/// field that is against the rules: it holds fewer than [`MAX_HEADER_NAMES`]
/// names whenever one goes in.
pub open spec fn room_for_request(fields: Seq<Field>) -> bool {
    forall|n: int|
        0 <= n < fields.len() && !is_pseudo(fields[n].0) && fields_ok(fields.subrange(0, n + 1))
            ==> headers::grouped(regular_fields(#[trigger] fields.subrange(0, n))).len()
            < MAX_HEADER_NAMES
}

/// The fields of a request that a header map has room for: few of them, or few
/// names among the regular ones, or none too many up to the first that is
/// against the rules.
pub open spec fn request_fits(fields: Seq<Field>) -> bool {
    ||| fields.len() <= MAX_HEADER_NAMES
    ||| headers::grouped(regular_fields(fields)).len() < MAX_HEADER_NAMES
    ||| room_for_request(fields)
}

/// What the content-length fields give.
pub open spec fn declared_length(fields: Seq<Field>) -> Option<u64> {
    match value_of(fields, "content-length".spec_bytes()) {
        Some(value) => content_length_of(value),
        None => None,
    }
}

/// A decoded and validated request, ready for the stream task.
#[derive(Debug)]
pub struct ParsedRequest {
    pub method: Method,
    pub uri: Uri,
    pub headers: HeaderMap,
    /// Parsed `content-length`, or `None` when absent.
    pub content_length: Option<u64>,
    /// The request carries `expect: 100-continue`.
    pub expect_continue: bool,
    pub is_connect: bool,
}

/// What a [`ParsedRequest`] says.
pub struct RequestView {
    pub method: Method,
    pub uri: Uri,
    pub headers: Map<Seq<u8>, Seq<Seq<u8>>>,
    pub content_length: Option<u64>,
    pub expect_continue: bool,
    pub is_connect: bool,
}

impl View for ParsedRequest {
    type V = RequestView;

    open spec fn view(&self) -> RequestView {
        RequestView {
            method: self.method,
            uri: self.uri,
            headers: self.headers@,
            content_length: self.content_length,
            expect_continue: self.expect_continue,
            is_connect: self.is_connect,
        }
    }
}

/// The text that octets encode, if they are UTF-8.
pub open spec fn text_of(octets: Seq<u8>) -> Option<Seq<char>> {
    if vstd::utf8::valid_utf8(octets) {
        Some(vstd::utf8::decode_utf8(octets))
    } else {
        None
    }
}

/// The target of a request other than CONNECT: the absolute form where scheme,
/// authority and path make one, or else the origin form.
pub open spec fn target_of(
    scheme: Seq<u8>,
    authority: Option<Seq<u8>>,
    path: Seq<u8>,
) -> Option<Uri> {
    if text_of(scheme) is None || text_of(path) is None || (authority matches Some(a) && text_of(
        a,
    ) is None) {
        None
    } else {
        match headers::uri_of_parts(
            text_of(scheme)->0,
            match authority {
                Some(a) => text_of(a),
                None => None,
            },
            text_of(path)->0,
        ) {
            Some(uri) => Some(uri),
            None => headers::uri_of(path),
        }
    }
}

/// The first `expect` value is `100-continue`.
pub open spec fn expects_continue(fields: Seq<Field>) -> bool {
    value_of(fields, "expect".spec_bytes()) matches Some(value) && headers::equal_ignoring_case(
        value,
        "100-continue".spec_bytes(),
    )
}

/// The request that a field block makes (RFC 9113 Sections 8.1.2 and 8.3), if
/// it makes one.
pub open spec fn request_of(fields: Seq<Field>) -> Option<RequestView> {
    let method = value_of(fields, ":method".spec_bytes());
    let scheme = value_of(fields, ":scheme".spec_bytes());
    let authority = value_of(fields, ":authority".spec_bytes());
    let path = value_of(fields, ":path".spec_bytes());
    let protocol = value_of(fields, ":protocol".spec_bytes());
    let is_connect = method == Some("CONNECT".spec_bytes());
    let uri = if is_connect {
        // Only :authority, and optionally :protocol (RFC 8441).
        if authority is Some && scheme is None && path is None {
            headers::uri_of(authority->0)
        } else {
            None
        }
    } else if protocol is None && scheme is Some && path is Some && path->0.len() > 0 {
        target_of(scheme->0, authority, path->0)
    } else {
        None
    };
    if fields_ok(fields) && lengths_agree(fields) && method is Some && headers::is_token(method->0)
        && uri is Some {
        Some(
            RequestView {
                method: headers::method_of(method->0),
                uri: uri->0,
                headers: headers::grouped(regular_fields(fields)),
                content_length: declared_length(fields),
                expect_continue: !is_connect && expects_continue(fields),
                is_connect,
            },
        )
    } else {
        None
    }
}

/// The names that the rules speak of are different, and the pseudo-header names
/// are those that look like it.
pub(crate) proof fn names_differ()
    ensures
        ":method".spec_bytes().len() == 7,
        ":scheme".spec_bytes().len() == 7,
        ":authority".spec_bytes().len() == 10,
        ":path".spec_bytes().len() == 5,
        ":protocol".spec_bytes().len() == 9,
        ":method".spec_bytes()[1] != ":scheme".spec_bytes()[1],
        is_pseudo(":method".spec_bytes()),
        is_pseudo(":scheme".spec_bytes()),
        is_pseudo(":authority".spec_bytes()),
        is_pseudo(":path".spec_bytes()),
        is_pseudo(":protocol".spec_bytes()),
        !is_pseudo("content-length".spec_bytes()),
        !is_pseudo("expect".spec_bytes()),
        !is_pseudo("te".spec_bytes()),
        !headers::has_upper_case("expect".spec_bytes()),
{
    reveal_strlit(":method");
    reveal_strlit(":scheme");
    reveal_strlit(":authority");
    reveal_strlit(":path");
    reveal_strlit(":protocol");
    reveal_strlit("content-length");
    reveal_strlit("expect");
    reveal_strlit("te");
    text::ascii_octets(":method"@);
    text::ascii_octets(":scheme"@);
    text::ascii_octets(":authority"@);
    text::ascii_octets(":path"@);
    text::ascii_octets(":protocol"@);
    text::ascii_octets("content-length"@);
    text::ascii_octets("expect"@);
    text::ascii_octets("te"@);
}

/// What one more field does to the value of a name.
proof fn value_of_push(fields: Seq<Field>, field: Field, name: Seq<u8>)
    ensures
        value_of(fields.push(field), name) == match value_of(fields, name) {
            Some(value) => Some(value),
            None => if field.0 == name {
                Some(field.1)
            } else {
                None
            },
        },
{
    assert(fields.push(field).drop_last() =~= fields);
}

/// A name has a value where some field has the name.
pub(crate) proof fn value_of_found(fields: Seq<Field>, name: Seq<u8>)
    ensures
        value_of(fields, name) is Some <==> exists|i: int|
            0 <= i < fields.len() && (#[trigger] fields[i]).0 == name,
    decreases fields.len(),
{
    if fields.len() > 0 {
        let init = fields.drop_last();
        value_of_found(init, name);
        if value_of(init, name) is Some {
            let i = choose|i: int| 0 <= i < init.len() && (#[trigger] init[i]).0 == name;
            assert(fields[i].0 == name);
        }
        if fields.last().0 == name {
            assert(fields[fields.len() - 1].0 == name);
        }
        if exists|i: int| 0 <= i < fields.len() && (#[trigger] fields[i]).0 == name {
            let i = choose|i: int| 0 <= i < fields.len() && (#[trigger] fields[i]).0 == name;
            if i < init.len() {
                assert(init[i].0 == name);
            }
        }
    }
}

/// All fields are pseudo-header fields.
pub open spec fn only_pseudo(fields: Seq<Field>) -> bool {
    forall|i: int| 0 <= i < fields.len() ==> is_pseudo((#[trigger] fields[i]).0)
}

/// When one more field is all right after fields that are.
proof fn fields_ok_push(fields: Seq<Field>, field: Field)
    requires
        fields_ok(fields),
    ensures
        fields_ok(fields.push(field)) == if is_pseudo(field.0) {
            known_pseudo(field.0) && only_pseudo(fields) && value_of(fields, field.0) is None
        } else {
            regular_ok(field)
        },
        only_pseudo(fields.push(field)) == (only_pseudo(fields) && is_pseudo(field.0)),
{
    let all = fields.push(field);
    let n = fields.len() as int;
    value_of_found(fields, field.0);
    assert(all[n] == field);
    assert forall|i: int| 0 <= i < n implies #[trigger] all[i] == fields[i] by {}
    if only_pseudo(all) {
        assert forall|i: int| 0 <= i < n implies is_pseudo((#[trigger] fields[i]).0) by {
            assert(all[i] == fields[i]);
        }
    }
    if is_pseudo(field.0) {
        if fields_ok(all) {
            assert(known_pseudo(all[n].0));
            assert forall|i: int| 0 <= i < n implies is_pseudo((#[trigger] fields[i]).0)
                && fields[i].0 != field.0 by {
                assert(is_pseudo(all[n].0));
                assert(all[i] == fields[i]);
            }
        }
        if known_pseudo(field.0) && only_pseudo(fields) && value_of(fields, field.0) is None {
            assert forall|i: int, j: int|
                0 <= i < j < all.len() && is_pseudo((#[trigger] all[j]).0) implies is_pseudo(
                (#[trigger] all[i]).0,
            ) && all[i].0 != all[j].0 by {
                assert(all[i] == fields[i]);
                if j < n {
                    assert(all[j] == fields[j]);
                }
            }
            assert(fields_ok(all));
        }
    } else {
        if fields_ok(all) {
            assert(regular_ok(all[n]));
        }
        if regular_ok(field) {
            assert forall|i: int, j: int|
                0 <= i < j < all.len() && is_pseudo((#[trigger] all[j]).0) implies is_pseudo(
                (#[trigger] all[i]).0,
            ) && all[i].0 != all[j].0 by {
                assert(all[i] == fields[i]);
                assert(all[j] == fields[j]);
            }
            assert(fields_ok(all));
        }
    }
}

/// Where the first fields are not all right, neither are all.
proof fn fields_ok_prefix(fields: Seq<Field>, n: int)
    requires
        0 <= n <= fields.len(),
        fields_ok(fields),
    ensures
        fields_ok(fields.subrange(0, n)),
{
    let prefix = fields.subrange(0, n);
    assert forall|i: int| 0 <= i < prefix.len() implies if is_pseudo((#[trigger] prefix[i]).0) {
        known_pseudo(prefix[i].0)
    } else {
        regular_ok(prefix[i])
    } by {
        assert(prefix[i] == fields[i]);
    }
    assert forall|i: int, j: int|
        0 <= i < j < prefix.len() && is_pseudo((#[trigger] prefix[j]).0) implies is_pseudo(
        (#[trigger] prefix[i]).0,
    ) && prefix[i].0 != prefix[j].0 by {
        assert(prefix[i] == fields[i]);
        assert(prefix[j] == fields[j]);
    }
}

/// When one more field leaves the content-lengths in agreement.
proof fn lengths_agree_push(fields: Seq<Field>, field: Field)
    ensures
        lengths_agree(fields.push(field)) == (lengths_agree(fields) && (field.0
            == "content-length".spec_bytes() && value_of(fields, "content-length".spec_bytes())
            is Some ==> content_length_of(field.1) == declared_length(fields))),
{
    let name = "content-length".spec_bytes();
    let all = fields.push(field);
    let n = fields.len() as int;
    first_value(fields, name);
    assert(all[n] == field);
    assert forall|i: int| 0 <= i < n implies #[trigger] all[i] == fields[i] by {}
    if lengths_agree(all) {
        assert forall|i: int, j: int|
            0 <= i < j < n && (#[trigger] fields[i]).0 == name && (#[trigger] fields[j]).0
                == name implies content_length_of(fields[i].1) == content_length_of(
            fields[j].1,
        ) by {
            assert(all[i] == fields[i] && all[j] == fields[j]);
        }
        if field.0 == name && value_of(fields, name) is Some {
            let i = choose|i: int|
                0 <= i < n && (#[trigger] fields[i]).0 == name && Some(fields[i].1) == value_of(
                    fields,
                    name,
                );
            assert(all[i] == fields[i]);
        }
    }
    if lengths_agree(fields) && (field.0 == name && value_of(fields, name) is Some
        ==> content_length_of(field.1) == declared_length(fields)) {
        assert forall|i: int, j: int|
            0 <= i < j < all.len() && (#[trigger] all[i]).0 == name && (#[trigger] all[j]).0
                == name implies content_length_of(all[i].1) == content_length_of(all[j].1) by {
            assert(all[i] == fields[i]);
            if j < n {
                assert(all[j] == fields[j]);
            } else {
                value_of_found(fields, name);
                let k = choose|k: int|
                    0 <= k < n && (#[trigger] fields[k]).0 == name && Some(fields[k].1) == value_of(
                        fields,
                        name,
                    );
                if k < i {
                    assert(content_length_of(fields[k].1) == content_length_of(fields[i].1));
                } else if i < k {
                    assert(content_length_of(fields[i].1) == content_length_of(fields[k].1));
                }
            }
        }
    }
}

/// The value of a name stands in a field with that name.
pub(crate) proof fn first_value(fields: Seq<Field>, name: Seq<u8>)
    ensures
        value_of(fields, name) is Some ==> exists|i: int|
            0 <= i < fields.len() && (#[trigger] fields[i]).0 == name && Some(fields[i].1)
                == value_of(fields, name),
    decreases fields.len(),
{
    if fields.len() > 0 {
        let init = fields.drop_last();
        first_value(init, name);
        if value_of(init, name) is Some {
            let i = choose|i: int|
                0 <= i < init.len() && (#[trigger] init[i]).0 == name && Some(init[i].1) == value_of(
                    init,
                    name,
                );
            assert(fields[i] == init[i]);
        } else if fields.last().0 == name {
            assert(fields[fields.len() - 1] == fields.last());
        }
    }
}

/// The first value under a name in the grouped fields is the value of the name.
proof fn grouped_first(fields: Seq<Field>, name: Seq<u8>)
    ensures
        match value_of(fields, name) {
            Some(value) => headers::grouped(fields).contains_key(name) && headers::grouped(
                fields,
            )[name].len() > 0 && headers::grouped(fields)[name][0] == value,
            None => !headers::grouped(fields).contains_key(name),
        },
    decreases fields.len(),
{
    if fields.len() > 0 {
        grouped_first(fields.drop_last(), name);
    }
}

/// Taking out pseudo-header fields does not change the values of other names.
pub(crate) proof fn regular_value(fields: Seq<Field>, name: Seq<u8>)
    requires
        !is_pseudo(name),
    ensures
        value_of(regular_fields(fields), name) == value_of(fields, name),
    decreases fields.len(),
{
    if fields.len() > 0 {
        regular_value(fields.drop_last(), name);
        if !is_pseudo(fields.last().0) {
            value_of_push(regular_fields(fields.drop_last()), fields.last(), name);
        }
    }
}

/// The pseudo-header fields that a field block has given so far.
struct PseudoFields {
    method: Option<Bytes>,
    scheme: Option<Bytes>,
    authority: Option<Bytes>,
    path: Option<Bytes>,
    protocol: Option<Bytes>,
}

/// What an optional buffer holds.
spec fn held(value: Option<Bytes>) -> Option<Seq<u8>> {
    match value {
        Some(v) => Some(v@),
        None => None,
    }
}

impl PseudoFields {
    spec fn reads(self, fields: Seq<Field>) -> bool {
        &&& held(self.method) == value_of(fields, ":method".spec_bytes())
        &&& held(self.scheme) == value_of(fields, ":scheme".spec_bytes())
        &&& held(self.authority) == value_of(fields, ":authority".spec_bytes())
        &&& held(self.path) == value_of(fields, ":path".spec_bytes())
        &&& held(self.protocol) == value_of(fields, ":protocol".spec_bytes())
    }

    /// Takes one more pseudo-header field, unless it is unknown or there is one
    /// of its name.
    fn add(&mut self, name: &[u8], value: &Bytes, Ghost(fields): Ghost<Seq<Field>>) -> (taken: bool)
        requires
            old(self).reads(fields),
        ensures
            taken == (known_pseudo(name@) && value_of(fields, name@) is None),
            taken ==> final(self).reads(fields.push((name@, value@))),
    {
        proof {
            names_differ();
            let field = (name@, value@);
            value_of_push(fields, field, ":method".spec_bytes());
            value_of_push(fields, field, ":scheme".spec_bytes());
            value_of_push(fields, field, ":authority".spec_bytes());
            value_of_push(fields, field, ":path".spec_bytes());
            value_of_push(fields, field, ":protocol".spec_bytes());
        }
        if same_octets(name, ":method".as_bytes()) {
            if self.method.is_some() {
                return false;
            }
            self.method = Some(value.clone());
        } else if same_octets(name, ":scheme".as_bytes()) {
            if self.scheme.is_some() {
                return false;
            }
            self.scheme = Some(value.clone());
        } else if same_octets(name, ":authority".as_bytes()) {
            if self.authority.is_some() {
                return false;
            }
            self.authority = Some(value.clone());
        } else if same_octets(name, ":path".as_bytes()) {
            if self.path.is_some() {
                return false;
            }
            self.path = Some(value.clone());
        } else if same_octets(name, ":protocol".as_bytes()) {
            if self.protocol.is_some() {
                return false;
            }
            self.protocol = Some(value.clone());
        } else {
            // Unknown or response-defined pseudo-header (Section 8.1.2.1).
            return false;
        }
        true
    }
}

/// Whether a field's name and value go into a header map as they are.
fn is_storable(name: &[u8], value: &Bytes) -> (yes: bool)
    ensures
        yes == storable((name@, value@)),
{
    // `HeaderName::from_bytes` would quietly normalize upper case.
    !contains_upper_case(name) && header_name_ok(name) && header_value_ok(value)
}

/// There are no more names than fields, and the first fields have no more names
/// than all of them.
proof fn grouped_names(fields: Seq<Field>, n: int)
    requires
        0 <= n <= fields.len(),
    ensures
        headers::grouped(fields).dom().finite(),
        headers::grouped(fields).len() <= fields.len(),
        headers::grouped(fields.subrange(0, n)).dom().subset_of(headers::grouped(fields).dom()),
        headers::grouped(fields.subrange(0, n)).len() <= headers::grouped(fields).len(),
    decreases fields.len(),
{
    let all = headers::grouped(fields).dom();
    if fields.len() > 0 {
        let init = fields.drop_last();
        grouped_names(init, if n < fields.len() {
            n
        } else {
            0
        });
        assert(all =~= headers::grouped(init).dom().insert(fields.last().0));
        if n < fields.len() {
            assert(init.subrange(0, n) =~= fields.subrange(0, n));
        }
    }
    if n == fields.len() {
        assert(fields.subrange(0, n) =~= fields);
    }
    vstd::set_lib::lemma_len_subset(headers::grouped(fields.subrange(0, n)).dom(), all);
}

/// The regular ones of the first fields are the first of the regular fields.
proof fn regular_prefix(fields: Seq<Field>, n: int)
    requires
        0 <= n <= fields.len(),
    ensures
        regular_fields(fields).len() <= fields.len(),
        regular_fields(fields.subrange(0, n)).len() <= regular_fields(fields).len(),
        regular_fields(fields.subrange(0, n)) == regular_fields(fields).subrange(
            0,
            regular_fields(fields.subrange(0, n)).len() as int,
        ),
    decreases fields.len(),
{
    if n == fields.len() {
        assert(fields.subrange(0, n) =~= fields);
        if n > 0 {
            regular_prefix(fields.drop_last(), 0);
        }
    } else {
        let init = fields.drop_last();
        regular_prefix(init, n);
        assert(init.subrange(0, n) =~= fields.subrange(0, n));
    }
    let kept = regular_fields(fields.subrange(0, n));
    assert(kept =~= regular_fields(fields).subrange(0, kept.len() as int));
}

/// A header map has room for the fields that fit.
proof fn room_where_request_fits(fields: Seq<Field>)
    ensures
        request_fits(fields) == room_for_request(fields),
{
    if request_fits(fields) {
        assert forall|n: int|
            0 <= n < fields.len() && !is_pseudo(fields[n].0) && fields_ok(
                fields.subrange(0, n + 1),
            ) implies headers::grouped(regular_fields(#[trigger] fields.subrange(0, n))).len()
            < MAX_HEADER_NAMES by {
            let first = fields.subrange(0, n);
            let kept = regular_fields(first);
            regular_prefix(first, n);
            grouped_names(kept, 0);
            regular_prefix(fields, n);
            grouped_names(regular_fields(fields), kept.len() as int);
        }
    }
}

/// What became of one more field.
enum Added {
    Taken,
    /// It is against the rules.
    Refused,
    /// The header map has no room for it.
    Crowded,
}

/// What the fields of a request add up to.
struct RequestFields {
    pseudo: PseudoFields,
    regular: HeaderMap,
    content_length: Option<u64>,
    content_length_conflict: bool,
    pseudo_phase: bool,
}

impl RequestFields {
    spec fn reads(self, fields: Seq<Field>) -> bool {
        &&& fields_ok(fields)
        &&& self.pseudo.reads(fields)
        &&& self.regular@ == headers::grouped(regular_fields(fields))
        &&& self.content_length == declared_length(fields)
        &&& self.content_length_conflict == !lengths_agree(fields)
        &&& self.pseudo_phase == only_pseudo(fields)
    }

    /// Takes one more field, unless it is against the rules after those before
    /// it or there is no room for it.
    fn add(&mut self, header: &Header, Ghost(fields): Ghost<Seq<Field>>) -> (added: Added)
        requires
            old(self).reads(fields),
        ensures
            match added {
                Added::Taken => {
                    &&& fields_ok(fields.push(header@))
                    &&& final(self).reads(fields.push(header@))
                    &&& !is_pseudo(header@.0) ==> headers::grouped(regular_fields(fields)).len()
                        < MAX_HEADER_NAMES
                },
                Added::Refused => !fields_ok(fields.push(header@)),
                Added::Crowded => {
                    &&& fields_ok(fields.push(header@))
                    &&& !is_pseudo(header@.0)
                    &&& headers::grouped(regular_fields(fields)).len() >= MAX_HEADER_NAMES
                },
            },
    {
        let name = bytes_slice(&header.name);
        let ghost field = header@;
        let ghost all = fields.push(field);
        proof {
            fields_ok_push(fields, field);
            lengths_agree_push(fields, field);
            names_differ();
            value_of_push(fields, field, "content-length".spec_bytes());
            first_value(fields, "content-length".spec_bytes());
            assert(all.drop_last() =~= fields);
        }
        if name.len() > 0 && name[0] == 0x3a {
            if !self.pseudo_phase {
                // A pseudo-header after a regular header (Section 8.1.2.1).
                return Added::Refused;
            }
            return if self.pseudo.add(name, &header.value, Ghost(fields)) {
                Added::Taken
            } else {
                Added::Refused
            };
        }
        self.pseudo_phase = false;
        if is_connection_specific(name) {
            return Added::Refused;
        }
        if same_octets(name, "te".as_bytes()) && !te_is_trailers(bytes_slice(&header.value)) {
            return Added::Refused;
        }
        if same_octets(name, "content-length".as_bytes()) {
            let value: u64 = match parse_content_length(bytes_slice(&header.value)) {
                Ok(value) => value,
                Err(_) => {
                    return Added::Refused;
                },
            };
            if let Some(previous) = self.content_length {
                if previous != value {
                    self.content_length_conflict = true;
                }
            } else {
                self.content_length = Some(value);
            }
        }
        if !is_storable(name, &header.value) {
            return Added::Refused;
        }
        if header_names(&self.regular) >= MAX_HEADER_NAMES {
            return Added::Crowded;
        }
        proof {
            let kept = regular_fields(fields);
            assert(kept.push(field).drop_last() =~= kept);
            value_of_push(fields, field, ":method".spec_bytes());
            value_of_push(fields, field, ":scheme".spec_bytes());
            value_of_push(fields, field, ":authority".spec_bytes());
            value_of_push(fields, field, ":path".spec_bytes());
            value_of_push(fields, field, ":protocol".spec_bytes());
        }
        headers_append(&mut self.regular, name, &header.value);
        Added::Taken
    }
}

/// What became of the fields of a request.
enum Collected {
    Fields(RequestFields),
    /// They are against the rules.
    Malformed,
    /// The header map has no room for them.
    Crowded,
}

/// Adds up the fields of a request.
fn collect_fields(headers: &[Header]) -> (collected: Collected)
    ensures
        match collected {
            Collected::Fields(c) => c.reads(fields_of(headers@)) && room_for_request(
                fields_of(headers@),
            ),
            Collected::Malformed => !fields_ok(fields_of(headers@)) && room_for_request(
                fields_of(headers@),
            ),
            Collected::Crowded => !room_for_request(fields_of(headers@)),
        },
{
    let ghost fields = fields_of(headers@);
    let mut collected = RequestFields {
        pseudo: PseudoFields {
            method: None,
            scheme: None,
            authority: None,
            path: None,
            protocol: None,
        },
        regular: headers_new(),
        content_length: None,
        content_length_conflict: false,
        pseudo_phase: true,
    };
    let mut i: usize = 0;
    assert(fields.subrange(0, 0) =~= Seq::<Field>::empty());
    while i < headers.len()
        invariant
            i <= headers@.len(),
            fields == fields_of(headers@),
            collected.reads(fields.subrange(0, i as int)),
            forall|n: int|
                0 <= n < i && !is_pseudo(fields[n].0) && fields_ok(fields.subrange(0, n + 1))
                    ==> headers::grouped(regular_fields(#[trigger] fields.subrange(0, n))).len()
                    < MAX_HEADER_NAMES,
        decreases headers@.len() - i,
    {
        let ghost prefix = fields.subrange(0, i as int);
        assert(prefix.push(headers@[i as int]@) =~= fields.subrange(0, i + 1));
        match collected.add(&headers[i], Ghost(prefix)) {
            Added::Taken => {},
            Added::Refused => {
                proof {
                    assert forall|n: int|
                        0 <= n < fields.len() && !is_pseudo(fields[n].0) && fields_ok(
                            fields.subrange(0, n + 1),
                        ) implies headers::grouped(
                        regular_fields(#[trigger] fields.subrange(0, n)),
                    ).len() < MAX_HEADER_NAMES by {
                        if n >= i {
                            let longer = fields.subrange(0, n + 1);
                            fields_ok_prefix(longer, i + 1);
                            assert(longer.subrange(0, i + 1) =~= fields.subrange(0, i + 1));
                        }
                    }
                    if fields_ok(fields) {
                        fields_ok_prefix(fields, i + 1);
                    }
                }
                return Collected::Malformed;
            },
            Added::Crowded => {
                assert(!is_pseudo(fields[i as int].0));
                return Collected::Crowded;
            },
        }
        i = i + 1;
    }
    assert(fields.subrange(0, i as int) =~= fields);
    Collected::Fields(collected)
}

/// The target of a request other than CONNECT.
fn request_target(scheme: &Bytes, authority: &Option<Bytes>, path: &Bytes) -> (uri: Option<Uri>)
    ensures
        uri == target_of(scheme@, held(*authority), path@),
{
    let scheme_text = match text_from_utf8(bytes_slice(scheme)) {
        Some(text) => text,
        None => return None,
    };
    let authority_text = match authority {
        Some(authority) => match text_from_utf8(bytes_slice(authority)) {
            Some(text) => Some(text),
            None => return None,
        },
        None => None,
    };
    let path_text = match text_from_utf8(bytes_slice(path)) {
        Some(text) => text,
        None => return None,
    };
    match uri_from_parts(scheme_text, authority_text, path_text) {
        Some(uri) => Some(uri),
        // :authority was omitted: fall back to the origin form so the target
        // URI still round-trips.
        None => uri_from_octets(bytes_slice(path)),
    }
}

/// Whether a header map has room for the fields of a request.
pub fn request_has_room(headers: &[Header]) -> (yes: bool)
    ensures
        yes == request_fits(fields_of(headers@)),
{
    proof {
        room_where_request_fits(fields_of(headers@));
    }
    if headers.len() <= MAX_HEADER_NAMES {
        return true;
    }
    match collect_fields(headers) {
        Collected::Crowded => false,
        _ => true,
    }
}

/// Validates a decoded request field block and builds an `http::Request`-ready
/// representation.
///
/// Every violation is a *stream* error (malformed request, RFC 9113 Section
/// 8.1.2.6): pseudo-header rules (Section 8.1.2.1), required and unique request
/// pseudo-headers (Section 8.1.2.3), connection-specific header fields (Section
/// 8.1.2.2) and `content-length` syntax (Section 8.1.2.6).
pub fn parse_request(headers: &[Header]) -> (result: Result<ParsedRequest, MalformedRequest>)
    requires
        request_fits(fields_of(headers@)),
    ensures
        match result {
            Ok(request) => request_of(fields_of(headers@)) == Some(request@),
            Err(_) => request_of(fields_of(headers@)) is None,
        },
{
    let ghost fields = fields_of(headers@);
    proof {
        room_where_request_fits(fields);
    }
    let collected = match collect_fields(headers) {
        Collected::Fields(collected) => collected,
        // There is room for them, so they are against the rules.
        _ => {
            return Err(MalformedRequest);
        },
    };
    let method_octets = match &collected.pseudo.method {
        Some(method) => method,
        None => {
            return Err(MalformedRequest);
        },
    };
    let is_connect = same_octets(bytes_slice(method_octets), "CONNECT".as_bytes());
    let uri = if is_connect {
        // CONNECT (Sections 8.3, 8.5): only :authority (and optionally
        // :protocol, RFC 8441).
        let authority = match &collected.pseudo.authority {
            Some(authority) => authority,
            None => {
                return Err(MalformedRequest);
            },
        };
        if collected.pseudo.scheme.is_some() || collected.pseudo.path.is_some() {
            return Err(MalformedRequest);
        }
        uri_from_octets(bytes_slice(authority))
    } else {
        if collected.pseudo.protocol.is_some() {
            // :protocol is only valid aboard CONNECT (RFC 8441).
            return Err(MalformedRequest);
        }
        let scheme = match &collected.pseudo.scheme {
            Some(scheme) => scheme,
            None => {
                return Err(MalformedRequest);
            },
        };
        let path = match &collected.pseudo.path {
            Some(path) => path,
            None => {
                return Err(MalformedRequest);
            },
        };
        if path.len() == 0 {
            return Err(MalformedRequest);
        }
        request_target(scheme, &collected.pseudo.authority, path)
    };
    let uri = match uri {
        Some(uri) => uri,
        None => {
            return Err(MalformedRequest);
        },
    };
    if collected.content_length_conflict {
        return Err(MalformedRequest);
    }
    let method = match method_from_bytes(bytes_slice(method_octets)) {
        Some(method) => method,
        None => {
            return Err(MalformedRequest);
        },
    };
    proof {
        names_differ();
        regular_value(fields, "expect".spec_bytes());
        grouped_first(regular_fields(fields), "expect".spec_bytes());
    }
    let expect_continue = !is_connect && match headers_get(&collected.regular, "expect") {
        Some(value) => same_ignoring_case(bytes_slice(&value), "100-continue".as_bytes()),
        None => false,
    };
    Ok(
        ParsedRequest {
            method,
            uri,
            headers: collected.regular,
            content_length: collected.content_length,
            expect_continue,
            is_connect,
        },
    )
}

/// The fields that a trailer section may carry: no pseudo-header fields (RFC
/// 9113 Section 8.1.2.1).
pub open spec fn trailers_ok(fields: Seq<Field>) -> bool {
    forall|i: int|
        0 <= i < fields.len() ==> !is_pseudo((#[trigger] fields[i]).0) && storable(fields[i])
}

/// A header map has room for the fields of a trailer section as they come, up to
/// the first that is against the rules.
pub open spec fn room_for_trailers(fields: Seq<Field>) -> bool {
    forall|n: int|
        0 <= n < fields.len() && trailers_ok(fields.subrange(0, n + 1)) ==> headers::grouped(
            #[trigger] fields.subrange(0, n),
        ).len() < MAX_HEADER_NAMES
}

/// The fields of a trailer section that a header map has room for: few of them,
/// or few names among them, or none too many up to the first that is against the
/// rules.
pub open spec fn trailers_fit(fields: Seq<Field>) -> bool {
    ||| fields.len() <= MAX_HEADER_NAMES
    ||| headers::grouped(fields).len() < MAX_HEADER_NAMES
    ||| room_for_trailers(fields)
}

/// A header map has room for the trailers that fit.
proof fn room_where_trailers_fit(fields: Seq<Field>)
    ensures
        trailers_fit(fields) == room_for_trailers(fields),
{
    if trailers_fit(fields) {
        assert forall|n: int|
            0 <= n < fields.len() && trailers_ok(
                fields.subrange(0, n + 1),
            ) implies headers::grouped(#[trigger] fields.subrange(0, n)).len()
            < MAX_HEADER_NAMES by {
            grouped_names(fields, n);
            grouped_names(fields.subrange(0, n), 0);
        }
    }
}

/// What became of the fields of a trailer section.
enum CollectedTrailers {
    Fields(HeaderMap),
    /// They are against the rules.
    Malformed,
    /// The header map has no room for them.
    Crowded,
}

/// Adds up the fields of a trailer section.
fn collect_trailers(headers: &[Header]) -> (collected: CollectedTrailers)
    ensures
        match collected {
            CollectedTrailers::Fields(trailers) => {
                &&& trailers_ok(fields_of(headers@))
                &&& trailers@ == headers::grouped(fields_of(headers@))
                &&& room_for_trailers(fields_of(headers@))
            },
            CollectedTrailers::Malformed => !trailers_ok(fields_of(headers@)) && room_for_trailers(
                fields_of(headers@),
            ),
            CollectedTrailers::Crowded => !room_for_trailers(fields_of(headers@)),
        },
{
    let ghost fields = fields_of(headers@);
    let mut trailers = headers_new();
    let mut i: usize = 0;
    assert(fields.subrange(0, 0) =~= Seq::<Field>::empty());
    while i < headers.len()
        invariant
            i <= headers@.len(),
            fields == fields_of(headers@),
            trailers@ == headers::grouped(fields.subrange(0, i as int)),
            forall|j: int|
                0 <= j < i ==> !is_pseudo((#[trigger] fields[j]).0) && storable(fields[j]),
            forall|n: int|
                0 <= n < i ==> headers::grouped(#[trigger] fields.subrange(0, n)).len()
                    < MAX_HEADER_NAMES,
        decreases headers@.len() - i,
    {
        let header = &headers[i];
        let name = bytes_slice(&header.name);
        assert(fields[i as int] == (name@, header.value@));
        if (name.len() > 0 && name[0] == 0x3a) || !is_storable(name, &header.value) {
            assert forall|n: int|
                0 <= n < fields.len() && trailers_ok(
                    fields.subrange(0, n + 1),
                ) implies headers::grouped(#[trigger] fields.subrange(0, n)).len()
                < MAX_HEADER_NAMES by {
                if n >= i {
                    assert(fields.subrange(0, n + 1)[i as int] == fields[i as int]);
                }
            }
            return CollectedTrailers::Malformed;
        }
        if header_names(&trailers) >= MAX_HEADER_NAMES {
            proof {
                let first = fields.subrange(0, i + 1);
                assert forall|j: int| 0 <= j < first.len() implies !is_pseudo(
                    (#[trigger] first[j]).0,
                ) && storable(first[j]) by {
                    assert(first[j] == fields[j]);
                }
            }
            return CollectedTrailers::Crowded;
        }
        proof {
            assert(fields.subrange(0, i + 1).drop_last() =~= fields.subrange(0, i as int));
        }
        headers_append(&mut trailers, name, &header.value);
        i = i + 1;
    }
    assert(fields.subrange(0, i as int) =~= fields);
    CollectedTrailers::Fields(trailers)
}

/// Whether a header map has room for the fields of a trailer section.
pub fn trailers_have_room(headers: &[Header]) -> (yes: bool)
    ensures
        yes == trailers_fit(fields_of(headers@)),
{
    proof {
        room_where_trailers_fit(fields_of(headers@));
    }
    if headers.len() <= MAX_HEADER_NAMES {
        return true;
    }
    match collect_trailers(headers) {
        CollectedTrailers::Crowded => false,
        _ => true,
    }
}

/// Validates a trailer field block (RFC 9113 Section 8.1.2.1): pseudo-header
/// fields are not allowed in trailers.
pub fn parse_trailers(headers: &[Header]) -> (result: Result<HeaderMap, MalformedRequest>)
    requires
        trailers_fit(fields_of(headers@)),
    ensures
        match result {
            Ok(trailers) => trailers_ok(fields_of(headers@)) && trailers@ == headers::grouped(
                fields_of(headers@),
            ),
            Err(_) => !trailers_ok(fields_of(headers@)),
        },
{
    proof {
        room_where_trailers_fit(fields_of(headers@));
    }
    match collect_trailers(headers) {
        CollectedTrailers::Fields(trailers) => Ok(trailers),
        _ => Err(MalformedRequest),
    }
}

} // verus!
