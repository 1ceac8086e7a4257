//! Header fields, methods and URIs: what the `http` crate decides of them.

use bytes::Bytes;
use http::header::{HeaderName, HeaderValue};
use http::{HeaderMap, Method, Uri};
use vstd::prelude::*;
use vstd::string::StringSliceAdditionalSpecFns;

use crate::octets::OctetView;

verus! {

/// The `http` crate's header map.
#[verifier::external_type_specification]
#[verifier::external_body]
#[verifier::reject_recursive_types(T)]
pub struct ExHeaderMap<T>(http::HeaderMap<T>);

/// The `http` crate's header value.
#[verifier::external_type_specification]
#[verifier::external_body]
pub struct ExHeaderValue(http::HeaderValue);

/// The `http` crate's request method.
#[verifier::external_type_specification]
#[verifier::external_body]
pub struct ExMethod(http::Method);

/// The `http` crate's URI.
#[verifier::external_type_specification]
#[verifier::external_body]
pub struct ExUri(http::Uri);

/// What a header map holds: for every name, in lower case, its values in the
/// order in which they were added. No name is without a value.
pub uninterp spec fn header_contents(map: HeaderMap) -> Map<Seq<u8>, Seq<Seq<u8>>>;

/// Lets contracts write `map@` for what a header map holds.
pub trait HeaderView {
    spec fn view(&self) -> Map<Seq<u8>, Seq<Seq<u8>>>;
}

impl HeaderView for HeaderMap {
    open spec fn view(&self) -> Map<Seq<u8>, Seq<Seq<u8>>> {
        header_contents(*self)
    }
}

/// The number of names that a header map always has room for.
pub const MAX_HEADER_NAMES: usize = 6554;

/// The length of the longest header name.
pub const MAX_HEADER_NAME_LEN: usize = 65_535;

/// A token character (RFC 9110 Section 5.6.2).
pub open spec fn token_char(b: u8) -> bool {
    ||| 0x30 <= b <= 0x39  // digits
    ||| 0x41 <= b <= 0x5a  // upper case
    ||| 0x61 <= b <= 0x7a  // lower case
    ||| b == 0x21 || b == 0x23 || b == 0x24 || b == 0x25 || b == 0x26 || b == 0x27  // ! # $ % & '
    ||| b == 0x2a || b == 0x2b || b == 0x2d || b == 0x2e  // * + - .
    ||| b == 0x5e || b == 0x5f || b == 0x60 || b == 0x7c || b == 0x7e  // ^ _ ` | ~
}

/// One or more token characters.
pub open spec fn is_token(s: Seq<u8>) -> bool {
    s.len() > 0 && forall|i: int| 0 <= i < s.len() ==> token_char(#[trigger] s[i])
}

/// A header name: a token that is not too long.
pub open spec fn header_name_valid(name: Seq<u8>) -> bool {
    is_token(name) && name.len() <= MAX_HEADER_NAME_LEN
}

/// A header value: no control character but a tab.
pub open spec fn header_value_valid(value: Seq<u8>) -> bool {
    forall|i: int|
        0 <= i < value.len() ==> (#[trigger] value[i] >= 0x20 && value[i] != 0x7f) || value[i]
            == 0x09
}

/// An upper-case letter.
pub open spec fn upper_case(b: u8) -> bool {
    0x41 <= b <= 0x5a
}

/// A letter in lower case; any other octet as it is.
pub open spec fn lower(b: u8) -> u8 {
    if upper_case(b) {
        (b + 0x20) as u8
    } else {
        b
    }
}

/// Some octet is an upper-case letter.
pub open spec fn has_upper_case(s: Seq<u8>) -> bool {
    exists|i: int| 0 <= i < s.len() && upper_case(#[trigger] s[i])
}

/// One more value under a name.
pub open spec fn appended(
    map: Map<Seq<u8>, Seq<Seq<u8>>>,
    name: Seq<u8>,
    value: Seq<u8>,
) -> Map<Seq<u8>, Seq<Seq<u8>>> {
    map.insert(
        name,
        if map.contains_key(name) {
            map[name].push(value)
        } else {
            seq![value]
        },
    )
}

/// The fields of a list by name, each name's values in order.
pub open spec fn grouped(fields: Seq<(Seq<u8>, Seq<u8>)>) -> Map<Seq<u8>, Seq<Seq<u8>>>
    decreases fields.len(),
{
    if fields.len() == 0 {
        Map::empty()
    } else {
        appended(grouped(fields.drop_last()), fields.last().0, fields.last().1)
    }
}

/// `HeaderMap::new`: an empty map.
#[verifier::external_body]
pub(crate) fn headers_new() -> (map: HeaderMap)
    ensures
        (header_contents(map) == Map::<Seq<u8>, Seq<Seq<u8>>>::empty()),
{
    HeaderMap::new()
}

/// `HeaderName::from_bytes` accepts exactly the tokens of up to 65535 octets.
#[verifier::external_body]
pub(crate) fn header_name_ok(name: &[u8]) -> (ok: bool)
    ensures
        ok == header_name_valid(name@),
{
    HeaderName::from_bytes(name).is_ok()
}

/// `HeaderValue::from_maybe_shared` accepts exactly the octet strings without
/// control characters other than the tab.
#[verifier::external_body]
pub(crate) fn header_value_ok(value: &Bytes) -> (ok: bool)
    ensures
        ok == header_value_valid(value@),
{
    HeaderValue::from_maybe_shared(value.clone()).is_ok()
}

/// `HeaderMap::append`: the value comes after those that the name has. A map
/// that would have to grow past its largest size panics; it never has to while
/// it holds fewer than [`MAX_HEADER_NAMES`] names.
#[verifier::external_body]
pub(crate) fn headers_append(map: &mut HeaderMap, name: &[u8], value: &Bytes)
    requires
        header_name_valid(name@),
        !has_upper_case(name@),
        header_value_valid(value@),
        old(map)@.len() < MAX_HEADER_NAMES,
    ensures
        final(map)@ == appended(old(map)@, name@, value@),
{
    let name = HeaderName::from_bytes(name).unwrap();
    map.append(name, HeaderValue::from_maybe_shared(value.clone()).unwrap());
}

/// `HeaderMap::get`: the first value under a name given in lower case.
#[verifier::external_body]
pub(crate) fn headers_get(map: &HeaderMap, name: &str) -> (value: Option<Bytes>)
    requires
        !has_upper_case(name.spec_bytes()),
    ensures
        match value {
            Some(v) => map@.contains_key(name.spec_bytes()) && map@[name.spec_bytes()].len() > 0
                && v@ == map@[name.spec_bytes()][0],
            None => !map@.contains_key(name.spec_bytes()),
        },
{
    map.get(name).map(|value| Bytes::copy_from_slice(value.as_bytes()))
}

/// `HeaderMap::contains_key` for a name given in lower case.
#[verifier::external_body]
pub(crate) fn headers_contain(map: &HeaderMap, name: &str) -> (found: bool)
    requires
        !has_upper_case(name.spec_bytes()),
    ensures
        found == map@.contains_key(name.spec_bytes()),
{
    map.contains_key(name)
}

/// `HeaderMap::keys_len`: the number of names.
#[verifier::external_body]
fn headers_len(map: &HeaderMap) -> (n: usize)
    ensures
        n == map@.len(),
{
    map.keys_len()
}

/// `HeaderMap::insert`: the value takes the place of those that the name has.
/// A map that would have to grow past its largest size panics; it never has to
/// while it holds fewer than [`MAX_HEADER_NAMES`] names.
#[verifier::external_body]
pub(crate) fn headers_insert(map: &mut HeaderMap, name: &'static str, value: &[u8])
    requires
        header_name_valid(name.spec_bytes()),
        !has_upper_case(name.spec_bytes()),
        header_value_valid(value@),
        old(map)@.len() < MAX_HEADER_NAMES,
    ensures
        final(map)@ == old(map)@.insert(name.spec_bytes(), seq![value@]),
        final(map)@.len() <= old(map)@.len() + 1,
{
    map.insert(name, HeaderValue::from_bytes(value).unwrap());
}

/// `HeaderMap::remove` for a name given in lower case: all its values are gone.
#[verifier::external_body]
pub(crate) fn headers_remove(map: &mut HeaderMap, name: &str)
    requires
        !has_upper_case(name.spec_bytes()),
    ensures
        final(map)@ == old(map)@.remove(name.spec_bytes()),
        final(map)@.len() <= old(map)@.len(),
{
    map.remove(name);
}

/// `HeaderMap::iter`: every name, in lower case, with every one of its values
/// in order. The order of the names is not specified.
#[verifier::external_body]
pub(crate) fn headers_iter(map: &HeaderMap) -> (fields: Vec<(Bytes, Bytes)>)
    ensures
        grouped(fields_view(fields@)) == map@,
{
    map.iter()
        .map(|(name, value)| {
            (
                Bytes::copy_from_slice(name.as_str().as_bytes()),
                Bytes::copy_from_slice(value.as_bytes()),
            )
        })
        .collect()
}

/// What a list of names and values holds.
pub open spec fn fields_view(fields: Seq<(Bytes, Bytes)>) -> Seq<(Seq<u8>, Seq<u8>)> {
    fields.map_values(|field: (Bytes, Bytes)| (field.0@, field.1@))
}

/// The method that a token names.
pub uninterp spec fn method_of(token: Seq<u8>) -> Method;

/// `Method::from_bytes` accepts exactly the tokens.
#[verifier::external_body]
pub(crate) fn method_from_bytes(token: &[u8]) -> (method: Option<Method>)
    ensures
        match method {
            Some(m) => is_token(token@) && m == method_of(token@),
            None => !is_token(token@),
        },
{
    Method::from_bytes(token).ok()
}

/// The URI that an octet string is, if it is one.
pub uninterp spec fn uri_of(text: Seq<u8>) -> Option<Uri>;

/// `<Uri as TryFrom<&[u8]>>::try_from`: the URI that the octets are, if they
/// are one. What URIs there are is left to the `http` crate.
#[verifier::external_body]
pub(crate) fn uri_from_octets(text: &[u8]) -> (uri: Option<Uri>)
    ensures
        uri == uri_of(text@),
{
    Uri::try_from(text).ok()
}

/// The URI with the given scheme, authority and path, if there is one.
pub uninterp spec fn uri_of_parts(
    scheme: Seq<char>,
    authority: Option<Seq<char>>,
    path_and_query: Seq<char>,
) -> Option<Uri>;

/// What an optional text says.
pub open spec fn text_view(text: Option<&str>) -> Option<Seq<char>> {
    match text {
        Some(t) => Some(t@),
        None => None,
    }
}

/// `Uri::builder` with scheme, authority (if any) and path, then `build`: the
/// URI made of these parts, if they make one. Without an authority they never
/// do. What else is accepted is left to the `http` crate.
#[verifier::external_body]
pub(crate) fn uri_from_parts(scheme: &str, authority: Option<&str>, path_and_query: &str) -> (uri:
    Option<Uri>)
    ensures
        uri == uri_of_parts(scheme@, text_view(authority), path_and_query@),
        authority is None ==> uri is None,
{
    let builder = Uri::builder().scheme(scheme);
    let builder = match authority {
        Some(authority) => builder.authority(authority),
        None => builder,
    };
    builder.path_and_query(path_and_query).build().ok()
}

/// `std::str::from_utf8`: the text that the octets encode, if they are UTF-8.
#[verifier::external_body]
pub(crate) fn text_from_utf8(octets: &[u8]) -> (text: Option<&str>)
    ensures
        match text {
            Some(t) => vstd::utf8::valid_utf8(octets@) && t@ == vstd::utf8::decode_utf8(octets@),
            None => !vstd::utf8::valid_utf8(octets@),
        },
{
    std::str::from_utf8(octets).ok()
}

/// The number of names in a header map.
pub fn header_names(map: &HeaderMap) -> (n: usize)
    ensures
        n == map@.len(),
{
    headers_len(map)
}

/// Whether two octet strings are the same.
pub fn same_octets(a: &[u8], b: &[u8]) -> (same: bool)
    ensures
        same == (a@ == b@),
{
    if a.len() != b.len() {
        return false;
    }
    let mut i: usize = 0;
    while i < a.len()
        invariant
            i <= a@.len(),
            a@.len() == b@.len(),
            forall|j: int| 0 <= j < i ==> a@[j] == b@[j],
        decreases a@.len() - i,
    {
        if a[i] != b[i] {
            return false;
        }
        i = i + 1;
    }
    assert(a@ =~= b@);
    true
}

/// Equal but for the case of letters.
pub open spec fn equal_ignoring_case(a: Seq<u8>, b: Seq<u8>) -> bool {
    a.len() == b.len() && forall|i: int|
        0 <= i < a.len() ==> lower(#[trigger] a[i]) == lower(b[i])
}

/// A letter in lower case; any other octet as it is.
pub fn to_lower(b: u8) -> (l: u8)
    ensures
        l == lower(b),
{
    if 0x41 <= b && b <= 0x5a {
        b + 0x20
    } else {
        b
    }
}

/// Whether two octet strings are the same but for the case of letters.
pub fn same_ignoring_case(a: &[u8], b: &[u8]) -> (same: bool)
    ensures
        same == equal_ignoring_case(a@, b@),
{
    if a.len() != b.len() {
        return false;
    }
    let mut i: usize = 0;
    while i < a.len()
        invariant
            i <= a@.len(),
            a@.len() == b@.len(),
            forall|j: int| 0 <= j < i ==> lower(#[trigger] a@[j]) == lower(b@[j]),
        decreases a@.len() - i,
    {
        if to_lower(a[i]) != to_lower(b[i]) {
            return false;
        }
        i = i + 1;
    }
    true
}

/// Whether some octet is an upper-case letter.
pub fn contains_upper_case(s: &[u8]) -> (yes: bool)
    ensures
        yes == has_upper_case(s@),
{
    let mut i: usize = 0;
    while i < s.len()
        invariant
            i <= s@.len(),
            forall|j: int| 0 <= j < i ==> !upper_case(#[trigger] s@[j]),
        decreases s@.len() - i,
    {
        if 0x41 <= s[i] && s[i] <= 0x5a {
            assert(upper_case(s@[i as int]));
            return true;
        }
        i = i + 1;
    }
    false
}

} // verus!
