//! Field lists on their way to the field block encoder.

use bytes::Bytes;
use smallvec::SmallVec;
use vstd::prelude::*;
use vstd::string::StringSliceAdditionalSpecFns;

use super::request::{self, is_connection_specific, te_is_trailers, Field, Header};
use crate::headers::{self, same_octets};
use crate::octets::{bytes_slice, OctetView};

verus! {

/// A list of header fields. Up to eight stay off the heap.
#[verifier::external_body]
#[derive(Debug)]
pub struct FieldList {
    fields: SmallVec<[Header; 8]>,
}

/// The fields of a list, in order.
pub uninterp spec fn listed_fields(list: FieldList) -> Seq<Field>;

impl View for FieldList {
    type V = Seq<Field>;

    open spec fn view(&self) -> Seq<Field> {
        listed_fields(*self)
    }
}

/// `SmallVec::new`: an empty list.
#[verifier::external_body]
fn list_new() -> (list: FieldList)
    ensures
        listed_fields(list) == Seq::<Field>::empty(),
{
    FieldList { fields: SmallVec::new() }
}

/// `SmallVec::push`: the field comes last.
#[verifier::external_body]
fn list_push(list: &mut FieldList, header: Header)
    ensures
        final(list)@ == old(list)@.push(header@),
{
    list.fields.push(header);
}

/// `SmallVec::as_slice`: the fields in order.
#[verifier::external_body]
fn list_slice(list: &FieldList) -> (fields: &[Header])
    ensures
        request::fields_of(fields@) == list@,
{
    list.fields.as_slice()
}

impl FieldList {
    /// The fields in order.
    pub fn as_slice(&self) -> (fields: &[Header])
        ensures
            request::fields_of(fields@) == self@,
    {
        list_slice(self)
    }
}

/// The three digits of a status code.
pub open spec fn status_octets(status: u16) -> Seq<u8> {
    seq![
        (0x30 + status / 100) as u8,
        (0x30 + status / 10 % 10) as u8,
        (0x30 + status % 10) as u8,
    ]
}

/// A response field that goes on the wire: not one that is specific to an
/// HTTP/1 connection (RFC 9113 Section 8.2.2).
pub open spec fn response_field(field: Field) -> bool {
    !request::connection_specific(field.0) && (field.0 == "te".spec_bytes()
        ==> request::te_trailers(field.1))
}

/// The fields of a response field block: the `:status` pseudo-header field and
/// the response's fields but for those that do not go on the wire.
pub open spec fn response_fields_of(status: u16, fields: Seq<Field>) -> Seq<Field>
    decreases fields.len(),
{
    if fields.len() == 0 {
        seq![(":status".spec_bytes(), status_octets(status))]
    } else {
        let init = response_fields_of(status, fields.drop_last());
        if response_field(fields.last()) {
            init.push(fields.last())
        } else {
            init
        }
    }
}

/// Builds the fields of a response (or interim) field block: a `:status`
/// pseudo-header followed by the response headers, skipping the
/// connection-specific fields the codec would reject anyway.
pub fn response_fields(status: u16, fields: &Vec<(Bytes, Bytes)>) -> (list: FieldList)
    requires
        100 <= status <= 999,
    ensures
        list@ == response_fields_of(status, headers::fields_view(fields@)),
{
    let mut digits: Vec<u8> = Vec::new();
    digits.push(0x30 + (status / 100) as u8);
    digits.push(0x30 + (status / 10 % 10) as u8);
    digits.push(0x30 + (status % 10) as u8);
    assert(digits@ =~= status_octets(status));
    let mut list = list_new();
    list_push(
        &mut list,
        Header::new(
            Bytes::copy_from_slice(":status".as_bytes()),
            Bytes::copy_from_slice(digits.as_slice()),
        ),
    );
    let ghost all = headers::fields_view(fields@);
    assert(list@ =~= response_fields_of(status, all.subrange(0, 0)));
    let mut i: usize = 0;
    while i < fields.len()
        invariant
            i <= fields@.len(),
            all == headers::fields_view(fields@),
            list@ == response_fields_of(status, all.subrange(0, i as int)),
        decreases fields@.len() - i,
    {
        let (name, value) = &fields[i];
        assert(all[i as int] == (name@, value@));
        assert(all.subrange(0, i + 1).drop_last() =~= all.subrange(0, i as int));
        if !is_connection_specific(bytes_slice(name)) && (!same_octets(
            bytes_slice(name),
            "te".as_bytes(),
        ) || te_is_trailers(bytes_slice(value))) {
            list_push(&mut list, Header::new(name.clone(), value.clone()));
        }
        i = i + 1;
    }
    assert(all.subrange(0, i as int) =~= all);
    list
}

/// Builds the fields of a trailer field block.
pub fn trailer_fields(fields: &Vec<(Bytes, Bytes)>) -> (list: FieldList)
    ensures
        list@ == headers::fields_view(fields@),
{
    let mut list = list_new();
    let ghost all = headers::fields_view(fields@);
    assert(list@ =~= all.subrange(0, 0));
    let mut i: usize = 0;
    while i < fields.len()
        invariant
            i <= fields@.len(),
            all == headers::fields_view(fields@),
            list@ == all.subrange(0, i as int),
        decreases fields@.len() - i,
    {
        let (name, value) = &fields[i];
        list_push(&mut list, Header::new(name.clone(), value.clone()));
        assert(all.subrange(0, i + 1) =~= all.subrange(0, i as int).push((name@, value@)));
        i = i + 1;
    }
    assert(all.subrange(0, i as int) =~= all);
    list
}

/// A response's field list begins with the status and holds no field that is
/// specific to an HTTP/1 connection; every other field of the response is there.
pub proof fn response_fields_are_clean(status: u16, fields: Seq<Field>)
    ensures
        ({
            let list = response_fields_of(status, fields);
            &&& list.len() > 0
            &&& list[0] == (":status".spec_bytes(), status_octets(status))
            &&& forall|i: int| 0 < i < list.len() ==> response_field(#[trigger] list[i])
            &&& forall|i: int|
                0 <= i < fields.len() && response_field(#[trigger] fields[i]) ==> list.contains(
                    fields[i],
                )
        }),
    decreases fields.len(),
{
    if fields.len() > 0 {
        let init = fields.drop_last();
        let before = response_fields_of(status, init);
        let list = response_fields_of(status, fields);
        response_fields_are_clean(status, init);
        assert forall|i: int|
            0 <= i < fields.len() && response_field(#[trigger] fields[i]) implies list.contains(
            fields[i],
        ) by {
            if i < init.len() {
                assert(init[i] == fields[i]);
                let j = choose|j: int| 0 <= j < before.len() && before[j] == fields[i];
                assert(list[j] == fields[i]);
            } else {
                assert(list[list.len() - 1] == fields[i]);
            }
        }
    }
}

} // verus!
