//! HTTP/2 stream layer (RFC 9113 Sections 5 and 8): the state that the
//! connection keeps per stream and the rules for request field blocks.

pub mod body;
pub mod entry;
pub mod fields;
pub mod laws;
pub mod request;

pub use entry::{StreamEntry, StreamView};
pub use fields::{response_fields, trailer_fields, FieldList};
pub use request::{
    is_connection_specific, parse_content_length, parse_request, parse_trailers, request_has_room,
    te_is_trailers, trailers_have_room, Header, MalformedRequest, ParsedRequest,
};
