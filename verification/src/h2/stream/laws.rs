//! What holds of requests and their field blocks.

use vstd::prelude::*;
use vstd::string::StringSliceAdditionalSpecFns;

use super::fields;
use super::request::{self, Field};
use crate::headers;
use crate::numbers;
use crate::text;

verus! {

/// The values of the fields with the given name, in order.
pub open spec fn values_under(fields: Seq<Field>, name: Seq<u8>) -> Seq<Seq<u8>>
    decreases fields.len(),
{
    if fields.len() == 0 {
        Seq::empty()
    } else {
        let before = values_under(fields.drop_last(), name);
        if fields.last().0 == name {
            before.push(fields.last().1)
        } else {
            before
        }
    }
}

/// Exactly one field has the given name.
pub open spec fn once(fields: Seq<Field>, name: Seq<u8>) -> bool {
    values_under(fields, name).len() == 1
}

/// No field has the given name.
pub open spec fn absent(fields: Seq<Field>, name: Seq<u8>) -> bool {
    values_under(fields, name).len() == 0
}

/// The value of a name is the first of its values.
proof fn value_is_first(fields: Seq<Field>, name: Seq<u8>)
    ensures
        match request::value_of(fields, name) {
            Some(value) => values_under(fields, name).len() > 0 && values_under(fields, name)[0]
                == value,
            None => absent(fields, name),
        },
    decreases fields.len(),
{
    if fields.len() > 0 {
        value_is_first(fields.drop_last(), name);
    }
}

/// A name that no two fields share has at most one value.
proof fn unshared_is_once(fields: Seq<Field>, name: Seq<u8>)
    requires
        forall|i: int, j: int|
            0 <= i < j < fields.len() && (#[trigger] fields[i]).0 == name ==> (
            #[trigger] fields[j]).0 != name,
    ensures
        values_under(fields, name).len() <= 1,
    decreases fields.len(),
{
    if fields.len() > 0 {
        let init = fields.drop_last();
        assert forall|i: int, j: int|
            0 <= i < j < init.len() && (#[trigger] init[i]).0 == name implies (
        #[trigger] init[j]).0 != name by {
            assert(init[i] == fields[i] && init[j] == fields[j]);
        }
        unshared_is_once(init, name);
        if fields.last().0 == name && values_under(init, name).len() > 0 {
            value_is_first(init, name);
            request::value_of_found(init, name);
            let i = choose|i: int| 0 <= i < init.len() && (#[trigger] init[i]).0 == name;
            assert(fields[i] == init[i]);
            assert(fields[fields.len() - 1].0 == name);
        }
    }
}

proof fn grouped_values(fields: Seq<Field>, name: Seq<u8>)
    ensures
        headers::grouped(fields).contains_key(name) <==> !absent(fields, name),
        !absent(fields, name) ==> headers::grouped(fields)[name] == values_under(fields, name),
    decreases fields.len(),
{
    if fields.len() > 0 {
        grouped_values(fields.drop_last(), name);
        if fields.last().0 == name {
            assert(Seq::<Seq<u8>>::empty().push(fields.last().1) =~= seq![fields.last().1]);
            if absent(fields.drop_last(), name) {
                assert(values_under(fields.drop_last(), name) =~= Seq::<Seq<u8>>::empty());
            }
        }
    }
}

proof fn regular_values(fields: Seq<Field>, name: Seq<u8>)
    ensures
        values_under(request::regular_fields(fields), name) == if request::is_pseudo(name) {
            Seq::<Seq<u8>>::empty()
        } else {
            values_under(fields, name)
        },
    decreases fields.len(),
{
    if fields.len() > 0 {
        let init = fields.drop_last();
        regular_values(init, name);
        let kept = request::regular_fields(init);
        if !request::is_pseudo(fields.last().0) {
            assert(kept.push(fields.last()).drop_last() =~= kept);
        }
    }
}

/// A request that is accepted obeys the rules (RFC 9113 Sections 8.1.2 and 8.3):
/// pseudo-header fields come first, are known, and none comes twice; there is a
/// method; a CONNECT has an authority, and neither scheme nor path, and any other
/// request has a scheme and a path that is not empty, and no protocol; the other
/// fields have names in lower case, none of them specific to an HTTP/1
/// connection, and a TE is "trailers".
pub proof fn accepted_requests_obey_the_rules(fields: Seq<Field>, i: int, j: int)
    requires
        request::request_of(fields) is Some,
        0 <= i < j < fields.len(),
    ensures
        ({
            let r = request::request_of(fields)->0;
            let (a, b) = (fields[i].0, fields[j].0);
            let colon = 0x3au8;
            &&& b.len() > 0 && b[0] == colon ==> a.len() > 0 && a[0] == colon && a != b
            &&& once(fields, ":method".spec_bytes())
            &&& values_under(fields, ":authority".spec_bytes()).len() <= 1
            &&& r.is_connect == (values_under(fields, ":method".spec_bytes())[0]
                == "CONNECT".spec_bytes())
            &&& r.is_connect ==> once(fields, ":authority".spec_bytes()) && absent(
                fields,
                ":scheme".spec_bytes(),
            ) && absent(fields, ":path".spec_bytes())
            &&& !r.is_connect ==> once(fields, ":scheme".spec_bytes()) && once(
                fields,
                ":path".spec_bytes(),
            ) && values_under(fields, ":path".spec_bytes())[0].len() > 0 && absent(
                fields,
                ":protocol".spec_bytes(),
            )
            &&& b.len() == 0 || b[0] != colon ==> {
                &&& headers::is_token(b)
                &&& !headers::has_upper_case(b)
                &&& b != "connection".spec_bytes() && b != "keep-alive".spec_bytes() && b
                    != "proxy-connection".spec_bytes() && b != "transfer-encoding".spec_bytes() && b
                    != "upgrade".spec_bytes()
                &&& b == "te".spec_bytes() ==> request::te_trailers(fields[j].1)
                &&& headers::header_value_valid(fields[j].1)
            }
            &&& b.len() > 0 && b[0] == colon ==> b == ":method".spec_bytes() || b
                == ":scheme".spec_bytes() || b == ":authority".spec_bytes() || b
                == ":path".spec_bytes() || b == ":protocol".spec_bytes()
        }),
{
    request::names_differ();
    pseudo_names_come_once(fields, ":method".spec_bytes());
    pseudo_names_come_once(fields, ":scheme".spec_bytes());
    pseudo_names_come_once(fields, ":authority".spec_bytes());
    pseudo_names_come_once(fields, ":path".spec_bytes());
    pseudo_names_come_once(fields, ":protocol".spec_bytes());
    assert(request::is_pseudo(fields[j].0) ==> request::is_pseudo(fields[i].0));
}

proof fn pseudo_names_come_once(fields: Seq<Field>, name: Seq<u8>)
    requires
        request::fields_ok(fields),
        request::is_pseudo(name),
    ensures
        values_under(fields, name).len() <= 1,
        match request::value_of(fields, name) {
            Some(value) => once(fields, name) && values_under(fields, name)[0] == value,
            None => absent(fields, name),
        },
{
    unshared_is_once(fields, name);
    value_is_first(fields, name);
}

/// What an accepted request hands to its handler: the method that the field
/// block names, all fields but the pseudo-header ones, each name with its values
/// in order, the length that every `content-length` gives, and whether the client
/// waits for `100 Continue`, which a CONNECT does not.
pub proof fn accepted_requests_are_handed_on_whole(fields: Seq<Field>, name: Seq<u8>)
    requires
        request::request_of(fields) is Some,
    ensures
        ({
            let r = request::request_of(fields)->0;
            let pseudo = name.len() > 0 && name[0] == 0x3a;
            let expect = values_under(fields, "expect".spec_bytes());
            &&& r.method == headers::method_of(values_under(fields, ":method".spec_bytes())[0])
            &&& r.headers.contains_key(name) <==> !pseudo && !absent(fields, name)
            &&& r.headers.contains_key(name) ==> r.headers[name] == values_under(fields, name)
            &&& r.expect_continue <==> !r.is_connect && expect.len() > 0
                && headers::equal_ignoring_case(expect[0], "100-continue".spec_bytes())
        }),
{
    request::names_differ();
    pseudo_names_come_once(fields, ":method".spec_bytes());
    value_is_first(fields, "expect".spec_bytes());
    regular_values(fields, name);
    grouped_values(request::regular_fields(fields), name);
}

/// The declared length of an accepted request is what each of its
/// `content-length` fields gives; without one there is none.
pub proof fn declared_lengths_agree(fields: Seq<Field>, i: int)
    requires
        request::request_of(fields) is Some,
        0 <= i < fields.len(),
    ensures
        ({
            let length = request::request_of(fields)->0.content_length;
            &&& fields[i].0 == "content-length".spec_bytes() ==> length is Some
                && request::content_length_of(fields[i].1) == length
            &&& absent(fields, "content-length".spec_bytes()) <==> length is None
        }),
{
    let name = "content-length".spec_bytes();
    request::names_differ();
    value_is_first(fields, name);
    request::first_value(fields, name);
    request::value_of_found(fields, name);
    if request::value_of(fields, name) is Some {
        let k = choose|k: int|
            0 <= k < fields.len() && (#[trigger] fields[k]).0 == name && Some(fields[k].1)
                == request::value_of(fields, name);
        assert(request::regular_ok(fields[k]));
        if fields[i].0 == name {
            if k < i {
                assert(request::content_length_of(fields[k].1) == request::content_length_of(
                    fields[i].1,
                ));
            } else if i < k {
                assert(request::content_length_of(fields[i].1) == request::content_length_of(
                    fields[k].1,
                ));
            }
        }
    }
}

/// The target of an accepted request: the authority of a CONNECT; of any other
/// request the URI that scheme, authority and path make, or else the one that the
/// path alone makes.
pub proof fn targets_are_put_together(fields: Seq<Field>)
    requires
        request::request_of(fields) is Some,
    ensures
        ({
            let r = request::request_of(fields)->0;
            let scheme = values_under(fields, ":scheme".spec_bytes())[0];
            let path = values_under(fields, ":path".spec_bytes())[0];
            let authority = values_under(fields, ":authority".spec_bytes());
            let whole = headers::uri_of_parts(
                vstd::utf8::decode_utf8(scheme),
                if authority.len() > 0 {
                    Some(vstd::utf8::decode_utf8(authority[0]))
                } else {
                    None
                },
                vstd::utf8::decode_utf8(path),
            );
            &&& r.is_connect ==> headers::uri_of(authority[0]) == Some(r.uri)
            &&& !r.is_connect ==> {
                &&& vstd::utf8::valid_utf8(scheme) && vstd::utf8::valid_utf8(path)
                &&& authority.len() > 0 ==> vstd::utf8::valid_utf8(authority[0])
                &&& whole is Some ==> whole == Some(r.uri)
                &&& whole is None ==> headers::uri_of(path) == Some(r.uri)
            }
        }),
{
    request::names_differ();
    pseudo_names_come_once(fields, ":scheme".spec_bytes());
    pseudo_names_come_once(fields, ":path".spec_bytes());
    pseudo_names_come_once(fields, ":authority".spec_bytes());
}

/// A field that any request may carry: a name in lower case that no rule speaks
/// of, and a value without control characters.
pub open spec fn plain_field(field: Field) -> bool {
    &&& headers::header_name_valid(field.0)
    &&& !headers::has_upper_case(field.0)
    &&& headers::header_value_valid(field.1)
    &&& field.0 != "connection".spec_bytes()
    &&& field.0 != "keep-alive".spec_bytes()
    &&& field.0 != "proxy-connection".spec_bytes()
    &&& field.0 != "transfer-encoding".spec_bytes()
    &&& field.0 != "upgrade".spec_bytes()
    &&& field.0 != "te".spec_bytes()
    &&& field.0 != "content-length".spec_bytes()
}

/// A field that a request with the given length may carry: a plain one, a TE that
/// is "trailers", or that length.
pub open spec fn legal_field(field: Field, length: u64) -> bool {
    ||| plain_field(field)
    ||| field.0 == "te".spec_bytes() && request::te_trailers(field.1)
        && headers::header_value_valid(field.1)
    ||| field.0 == "content-length".spec_bytes() && request::content_length_of(field.1) == Some(
        length,
    ) && headers::header_value_valid(field.1)
}

proof fn legal_fields_are_regular(field: Field, length: u64)
    requires
        legal_field(field, length),
    ensures
        !request::is_pseudo(field.0),
        request::regular_ok(field),
{
    reveal_strlit("te");
    reveal_strlit("content-length");
    reveal_strlit("connection");
    reveal_strlit("keep-alive");
    reveal_strlit("proxy-connection");
    reveal_strlit("transfer-encoding");
    reveal_strlit("upgrade");
    text::ascii_octets("te"@);
    text::ascii_octets("content-length"@);
    text::ascii_octets("connection"@);
    text::ascii_octets("keep-alive"@);
    text::ascii_octets("proxy-connection"@);
    text::ascii_octets("transfer-encoding"@);
    text::ascii_octets("upgrade"@);
    if field.0.len() > 0 {
        assert(headers::is_token(field.0) ==> headers::token_char(field.0[0]));
    }
    assert("content-length".spec_bytes()[0] == 0x63);
    assert("content-length".spec_bytes()[3] == 0x74);
}

/// A block of known pseudo-header fields, none twice, and legal fields behind them
/// is all right, and the fields behind add nothing to the pseudo-header ones.
proof fn blocks_are_all_right(front: Seq<Field>, regular: Seq<Field>, length: u64)
    requires
        forall|i: int|
            0 <= i < front.len() ==> request::is_pseudo((#[trigger] front[i]).0)
                && request::known_pseudo(front[i].0),
        forall|i: int, j: int|
            0 <= i < j < front.len() ==> (#[trigger] front[i]).0 != (#[trigger] front[j]).0,
        forall|i: int| 0 <= i < regular.len() ==> legal_field(#[trigger] regular[i], length),
    ensures
        request::fields_ok(front + regular),
        request::lengths_agree(front + regular),
        forall|name: Seq<u8>| #[trigger]
            request::is_pseudo(name) ==> request::value_of(front + regular, name)
                == request::value_of(front, name),
{
    let fields = front + regular;
    let n = front.len() as int;
    assert forall|i: int| 0 <= i < fields.len() implies if request::is_pseudo(
        (#[trigger] fields[i]).0,
    ) {
        request::known_pseudo(fields[i].0)
    } else {
        request::regular_ok(fields[i])
    } by {
        if i < n {
            assert(fields[i] == front[i]);
        } else {
            assert(fields[i] == regular[i - n]);
            legal_fields_are_regular(regular[i - n], length);
        }
    }
    assert forall|i: int, j: int|
        0 <= i < j < fields.len() && request::is_pseudo(
            (#[trigger] fields[j]).0,
        ) implies request::is_pseudo((#[trigger] fields[i]).0) && fields[i].0 != fields[j].0 by {
        if j >= n {
            assert(fields[j] == regular[j - n]);
            legal_fields_are_regular(regular[j - n], length);
        } else {
            assert(fields[i] == front[i] && fields[j] == front[j]);
        }
    }
    request::names_differ();
    let name = "content-length".spec_bytes();
    assert forall|i: int, j: int|
        0 <= i < j < fields.len() && (#[trigger] fields[i]).0 == name && (
        #[trigger] fields[j]).0 == name implies request::content_length_of(fields[i].1)
        == request::content_length_of(fields[j].1) by {
        if i < n {
            assert(fields[i] == front[i]);
        } else {
            assert(fields[i] == regular[i - n] && fields[j] == regular[j - n]);
            assert(legal_field(regular[i - n], length) && legal_field(regular[j - n], length));
            reveal_strlit("te");
            reveal_strlit("content-length");
            text::ascii_octets("te"@);
            text::ascii_octets("content-length"@);
        }
    }
    assert forall|name: Seq<u8>| #[trigger] request::is_pseudo(name) implies request::value_of(
        front + regular,
        name,
    ) == request::value_of(front, name) by {
        regular_adds_nothing(front, regular, length, name);
    }
}

proof fn regular_adds_nothing(front: Seq<Field>, regular: Seq<Field>, length: u64, name: Seq<u8>)
    requires
        forall|i: int| 0 <= i < regular.len() ==> legal_field(#[trigger] regular[i], length),
        request::is_pseudo(name),
    ensures
        request::value_of(front + regular, name) == request::value_of(front, name),
    decreases regular.len(),
{
    if regular.len() == 0 {
        assert(front + regular =~= front);
    } else {
        let init = regular.drop_last();
        assert forall|i: int| 0 <= i < init.len() implies legal_field(
            #[trigger] init[i],
            length,
        ) by {
            assert(init[i] == regular[i]);
        }
        regular_adds_nothing(front, init, length, name);
        assert(legal_field(regular[regular.len() - 1], length));
        legal_fields_are_regular(regular.last(), length);
        assert((front + regular).drop_last() =~= front + init);
        assert((front + regular).last() == regular.last());
    }
}

/// Known pseudo-header fields, in whatever order, none twice.
pub open spec fn pseudo_block(front: Seq<Field>) -> bool {
    &&& forall|i: int|
        0 <= i < front.len() ==> {
            let name = (#[trigger] front[i]).0;
            name == ":method".spec_bytes() || name == ":scheme".spec_bytes() || name
                == ":authority".spec_bytes() || name == ":path".spec_bytes() || name
                == ":protocol".spec_bytes()
        }
    &&& forall|i: int, j: int|
        0 <= i < j < front.len() ==> (#[trigger] front[i]).0 != (#[trigger] front[j]).0
}

/// A field of a block in which no name comes twice is the value of its name.
proof fn contained_value(front: Seq<Field>, name: Seq<u8>, value: Seq<u8>)
    requires
        pseudo_block(front),
        front.contains((name, value)),
    ensures
        request::value_of(front, name) == Some(value),
{
    let i = choose|i: int| 0 <= i < front.len() && front[i] == (name, value);
    assert(front[i].0 == name);
    request::value_of_found(front, name);
    request::first_value(front, name);
    let k = choose|k: int|
        0 <= k < front.len() && (#[trigger] front[k]).0 == name && Some(front[k].1)
            == request::value_of(front, name);
    if k < i {
        assert(front[k].0 != front[i].0);
    } else if i < k {
        assert(front[i].0 != front[k].0);
    }
}

/// A name that no field has is without a value.
proof fn absent_value(front: Seq<Field>, name: Seq<u8>)
    requires
        forall|i: int| 0 <= i < front.len() ==> (#[trigger] front[i]).0 != name,
    ensures
        request::value_of(front, name) is None,
{
    request::value_of_found(front, name);
}

proof fn pseudo_blocks_are_known(front: Seq<Field>)
    requires
        pseudo_block(front),
    ensures
        forall|i: int|
            0 <= i < front.len() ==> request::is_pseudo((#[trigger] front[i]).0)
                && request::known_pseudo(front[i].0),
        request::is_pseudo(":method".spec_bytes()),
        request::is_pseudo(":scheme".spec_bytes()),
        request::is_pseudo(":authority".spec_bytes()),
        request::is_pseudo(":path".spec_bytes()),
        request::is_pseudo(":protocol".spec_bytes()),
{
    request::names_differ();
}

/// The URI that scheme, authority and path make, or else the one that the path
/// alone makes, if either is one.
pub open spec fn whole_or_origin(
    scheme: Seq<u8>,
    authority: Option<Seq<u8>>,
    path: Seq<u8>,
) -> Option<http::Uri> {
    let whole = headers::uri_of_parts(
        vstd::utf8::decode_utf8(scheme),
        match authority {
            Some(a) => Some(vstd::utf8::decode_utf8(a)),
            None => None,
        },
        vstd::utf8::decode_utf8(path),
    );
    if whole is Some {
        whole
    } else {
        headers::uri_of(path)
    }
}

/// A request with a method, a scheme, a path that is not empty, perhaps an
/// authority, in whatever order, and any legal fields behind them is accepted, if
/// its parts make a URI or its path alone does, and that is its target.
pub proof fn well_formed_requests_are_accepted(
    front: Seq<Field>,
    method: Seq<u8>,
    scheme: Seq<u8>,
    authority: Option<Seq<u8>>,
    path: Seq<u8>,
    regular: Seq<Field>,
    length: u64,
)
    requires
        pseudo_block(front),
        front.contains((":method".spec_bytes(), method)),
        front.contains((":scheme".spec_bytes(), scheme)),
        front.contains((":path".spec_bytes(), path)),
        match authority {
            Some(a) => front.contains((":authority".spec_bytes(), a)),
            None => forall|i: int|
                0 <= i < front.len() ==> (#[trigger] front[i]).0 != ":authority".spec_bytes(),
        },
        forall|i: int|
            0 <= i < front.len() ==> (#[trigger] front[i]).0 != ":protocol".spec_bytes(),
        headers::is_token(method),
        method != "CONNECT".spec_bytes(),
        path.len() > 0,
        vstd::utf8::valid_utf8(scheme),
        vstd::utf8::valid_utf8(path),
        authority matches Some(a) ==> vstd::utf8::valid_utf8(a),
        whole_or_origin(scheme, authority, path) is Some,
        forall|i: int| 0 <= i < regular.len() ==> legal_field(#[trigger] regular[i], length),
    ensures
        ({
            let r = request::request_of(front + regular);
            &&& r is Some
            &&& !r->0.is_connect
            &&& r->0.method == headers::method_of(method)
            &&& Some(r->0.uri) == whole_or_origin(scheme, authority, path)
        }),
{
    pseudo_blocks_are_known(front);
    blocks_are_all_right(front, regular, length);
    contained_value(front, ":method".spec_bytes(), method);
    contained_value(front, ":scheme".spec_bytes(), scheme);
    contained_value(front, ":path".spec_bytes(), path);
    match authority {
        Some(a) => {
            contained_value(front, ":authority".spec_bytes(), a);
        },
        None => {
            absent_value(front, ":authority".spec_bytes());
        },
    }
    absent_value(front, ":protocol".spec_bytes());
    target_is_whole_or_origin(scheme, authority, path);
}

proof fn target_is_whole_or_origin(scheme: Seq<u8>, authority: Option<Seq<u8>>, path: Seq<u8>)
    requires
        vstd::utf8::valid_utf8(scheme),
        vstd::utf8::valid_utf8(path),
        authority matches Some(a) ==> vstd::utf8::valid_utf8(a),
    ensures
        request::target_of(scheme, authority, path) == whole_or_origin(scheme, authority, path),
{
}

/// A CONNECT with an authority that is a URI, perhaps a protocol (RFC 8441), and
/// any legal fields is accepted, and its target is that authority; it does not
/// wait for `100 Continue`.
pub proof fn connects_are_accepted(
    front: Seq<Field>,
    authority: Seq<u8>,
    regular: Seq<Field>,
    length: u64,
)
    requires
        pseudo_block(front),
        front.contains((":method".spec_bytes(), "CONNECT".spec_bytes())),
        front.contains((":authority".spec_bytes(), authority)),
        forall|i: int|
            0 <= i < front.len() ==> (#[trigger] front[i]).0 != ":scheme".spec_bytes()
                && front[i].0 != ":path".spec_bytes(),
        headers::uri_of(authority) is Some,
        forall|i: int| 0 <= i < regular.len() ==> legal_field(#[trigger] regular[i], length),
    ensures
        ({
            let r = request::request_of(front + regular);
            &&& r is Some
            &&& r->0.is_connect
            &&& r->0.method == headers::method_of("CONNECT".spec_bytes())
            &&& Some(r->0.uri) == headers::uri_of(authority)
            &&& !r->0.expect_continue
        }),
{
    pseudo_blocks_are_known(front);
    blocks_are_all_right(front, regular, length);
    contained_value(front, ":method".spec_bytes(), "CONNECT".spec_bytes());
    contained_value(front, ":authority".spec_bytes(), authority);
    absent_value(front, ":scheme".spec_bytes());
    absent_value(front, ":path".spec_bytes());
    reveal_strlit("CONNECT");
    text::ascii_octets("CONNECT"@);
    assert(headers::is_token("CONNECT".spec_bytes()));
}

/// Only blanks and tabs.
pub open spec fn all_blank(s: Seq<u8>) -> bool {
    forall|i: int| 0 <= i < s.len() ==> #[trigger] s[i] == 0x20 || s[i] == 0x09
}

/// A `content-length` of digits, with any blanks around them, is the number that
/// they are, if it is below 2^64.
pub proof fn lengths_are_read(front: Seq<u8>, digits: Seq<u8>, back: Seq<u8>)
    requires
        all_blank(front),
        all_blank(back),
        digits.len() > 0,
        numbers::all_digits(digits),
    ensures
        request::content_length_of(front + digits + back) == if numbers::decimal_value(digits)
            <= u64::MAX {
            Some(numbers::decimal_value(digits) as u64)
        } else {
            None
        },
    decreases front.len() + back.len(),
{
    let s = front + digits + back;
    assert(numbers::is_digit(digits[0]));
    assert(numbers::is_digit(digits[digits.len() - 1]));
    if front.len() > 0 {
        assert(s[0] == front[0]);
        assert(s.subrange(1, s.len() as int) =~= front.drop_first() + digits + back);
        lengths_are_read(front.drop_first(), digits, back);
    } else if back.len() > 0 {
        assert(s[0] == digits[0]);
        assert(s.last() == back.last());
        assert(s.drop_last() =~= front + digits + back.drop_last());
        lengths_are_read(front, digits, back.drop_last());
    } else {
        assert(s =~= digits);
    }
}

/// What is read as a `content-length` is digits with blanks around them.
pub proof fn read_lengths_are_digits(value: Seq<u8>) -> (range: (int, int))
    requires
        request::content_length_of(value) is Some,
    ensures
        0 <= range.0 < range.1 <= value.len(),
        numbers::all_digits(value.subrange(range.0, range.1)),
        numbers::decimal_value(value.subrange(range.0, range.1))
            == request::content_length_of(value)->0,
        all_blank(value.subrange(0, range.0)),
        all_blank(value.subrange(range.1, value.len() as int)),
    decreases value.len(),
{
    if request::is_blank(value[0]) {
        let rest = value.subrange(1, value.len() as int);
        let (a, b) = read_lengths_are_digits(rest);
        assert(rest.subrange(a, b) =~= value.subrange(a + 1, b + 1));
        assert forall|i: int| 0 <= i < a + 1 implies #[trigger] value.subrange(0, a + 1)[i] == 0x20
            || value.subrange(0, a + 1)[i] == 0x09 by {
            if i > 0 {
                assert(rest.subrange(0, a)[i - 1] == value[i]);
            }
        }
        assert(rest.subrange(b, rest.len() as int) =~= value.subrange(b + 1, value.len() as int));
        (a + 1, b + 1)
    } else if request::is_blank(value.last()) {
        let init = value.drop_last();
        let (a, b) = read_lengths_are_digits(init);
        assert(init.subrange(a, b) =~= value.subrange(a, b));
        assert(init.subrange(0, a) =~= value.subrange(0, a));
        let tail = value.subrange(b, value.len() as int);
        assert forall|i: int| 0 <= i < tail.len() implies #[trigger] tail[i] == 0x20 || tail[i]
            == 0x09 by {
            if i < init.len() - b {
                assert(init.subrange(b, init.len() as int)[i] == tail[i]);
            }
        }
        (a, b)
    } else {
        assert(value.subrange(0, value.len() as int) =~= value);
        (0, value.len() as int)
    }
}

/// Trailers are all right exactly where every name is a lower-case token, so that
/// no pseudo-header field is among them, and every value is one.
pub proof fn trailers_are_judged(fields: Seq<Field>)
    ensures
        request::trailers_ok(fields) <==> forall|i: int|
            0 <= i < fields.len() ==> {
                &&& headers::is_token((#[trigger] fields[i]).0)
                &&& fields[i].0.len() <= 65_535
                &&& !headers::has_upper_case(fields[i].0)
                &&& headers::header_value_valid(fields[i].1)
            },
{
    assert forall|i: int|
        0 <= i < fields.len() && headers::is_token(
            (#[trigger] fields[i]).0,
        ) implies !request::is_pseudo(fields[i].0) by {
        assert(headers::token_char(fields[i].0[0]));
    }
}

/// The fields of a response go out in order, none twice and none added: what
/// follows the status is the response's fields without those that do not go on
/// the wire.
pub proof fn response_fields_keep_their_order(status: u16, list: Seq<Field>)
    ensures
        ({
            let out = fields::response_fields_of(status, list);
            out.subrange(1, out.len() as int) == list.filter(|f: Field| fields::response_field(f))
        }),
    decreases list.len(),
{
    let wanted = |f: Field| fields::response_field(f);
    let out = fields::response_fields_of(status, list);
    fields::response_fields_are_clean(status, list);
    reveal(Seq::filter);
    if list.len() == 0 {
        assert(out.subrange(1, out.len() as int) =~= list.filter(wanted));
    } else {
        let init = list.drop_last();
        let before = fields::response_fields_of(status, init);
        response_fields_keep_their_order(status, init);
        fields::response_fields_are_clean(status, init);
        if fields::response_field(list.last()) {
            assert(out.subrange(1, out.len() as int) =~= before.subrange(
                1,
                before.len() as int,
            ).push(list.last()));
        }
    }
}

/// Any field that the rules do not speak of goes on the wire, and so does a TE
/// that is "trailers"; a field that is specific to an HTTP/1 connection does not.
pub proof fn plain_response_fields_go_out(field: Field)
    ensures
        plain_field(field) ==> fields::response_field(field),
        field.0 == "te".spec_bytes() ==> (fields::response_field(field) <==> request::te_trailers(
            field.1,
        )),
        field.0 == "connection".spec_bytes() || field.0 == "keep-alive".spec_bytes() || field.0
            == "proxy-connection".spec_bytes() || field.0 == "transfer-encoding".spec_bytes()
            || field.0 == "upgrade".spec_bytes() ==> !fields::response_field(field),
{
    reveal_strlit("te");
    reveal_strlit("connection");
    reveal_strlit("keep-alive");
    reveal_strlit("proxy-connection");
    reveal_strlit("transfer-encoding");
    reveal_strlit("upgrade");
    text::ascii_octets("te"@);
    text::ascii_octets("connection"@);
    text::ascii_octets("keep-alive"@);
    text::ascii_octets("proxy-connection"@);
    text::ascii_octets("transfer-encoding"@);
    text::ascii_octets("upgrade"@);
}

} // verus!
