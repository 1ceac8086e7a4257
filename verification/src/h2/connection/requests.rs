//! Complete field blocks: requests and their trailers.

use http::HeaderMap;
use vstd::prelude::*;

use super::handlers::entry_edited;
use super::model::ConnectionView;
use super::Connection;
use crate::fx::{map_get, map_get_mut};
use crate::h2::error::Reason;
use crate::h2::stream::request;
use crate::h2::stream::{parse_request, parse_trailers, Header, ParsedRequest, StreamView};
use crate::headers::{self, HeaderView};

verus! {

broadcast use vstd::std_specs::hash::group_hash_axioms;

/// Why a field block could not be decoded.
#[derive(Debug, Clone, Copy, PartialEq, Eq, Structural)]
pub enum FieldBlockError {
    /// The header list exceeds SETTINGS_MAX_HEADER_LIST_SIZE.
    HeaderListTooLarge,
    /// Any other compression error.
    Compression,
}

/// What a decoded field block asks for.
#[derive(Debug)]
pub enum FieldBlockOutcome {
    /// Nothing.
    Done,
    /// Deliver the trailers to the stream's body reader and report to
    /// [`Connection::data_delivered`], with the stream ended.
    Trailers(HeaderMap),
    /// Signal the end of the body to the body reader where `signal_end` is set,
    /// reporting to [`Connection::body_end_delivered`]; then go on with
    /// [`Connection::spawn_request`].
    Request { request: ParsedRequest, end_stream: bool, signal_end: bool },
}

/// How a request is handed to its handler.
#[derive(Debug, Clone, Copy, PartialEq, Eq, Structural)]
pub struct Dispatch {
    /// The request has a body that its reader gets from the stream.
    pub with_body: bool,
    /// Answer with `100 Continue` when the handler asks for the body.
    pub send_continue: bool,
    /// The request is a CONNECT.
    pub is_connect: bool,
    /// Add a `Date` header to the response.
    pub send_date_header: bool,
}

/// What a decoded field block does to the connection and what it asks for.
pub open spec fn finalized(
    before: ConnectionView,
    id: u32,
    decoded: Result<Seq<request::Field>, FieldBlockError>,
    header_list_size: usize,
    after: ConnectionView,
    outcome: FieldBlockOutcome,
) -> bool {
    if !before.streams.contains_key(id) {
        after == before && outcome is Done
    } else {
        let noted = before.list_size_noted(id, header_list_size);
        match decoded {
            Err(error) => {
                &&& after == noted.block_undecodable(
                    id,
                    error == FieldBlockError::HeaderListTooLarge,
                )
                &&& outcome is Done
            },
            Ok(fields) => if before.streams[id].request_started {
                &&& after == noted.trailers_arrived(id, request::trailers_ok(fields))
                &&& match outcome {
                    FieldBlockOutcome::Trailers(trailers) => noted.delivers_trailers(
                        id,
                        request::trailers_ok(fields),
                    ) && trailers@ == headers::grouped(fields),
                    FieldBlockOutcome::Done => !noted.delivers_trailers(
                        id,
                        request::trailers_ok(fields),
                    ),
                    _ => false,
                }
            } else {
                &&& after == noted.request_arrived(id, request::request_of(fields) is Some)
                &&& match outcome {
                    FieldBlockOutcome::Request { request, end_stream, signal_end } => {
                        &&& request::request_of(fields) == Some(request@)
                        &&& end_stream == before.streams[id].pending_end_stream
                        &&& signal_end == (end_stream && noted.signals_body_end(id))
                    },
                    FieldBlockOutcome::Done => request::request_of(fields) is None,
                    _ => false,
                }
            },
        }
    }
}

/// A header map has room for the fields that the stream awaits: those of its
/// request, or those of its trailers once the request has started.
pub open spec fn block_fits(c: ConnectionView, id: u32, fields: Seq<request::Field>) -> bool {
    c.streams.contains_key(id) ==> if c.streams[id].request_started {
        request::trailers_fit(fields)
    } else {
        request::request_fits(fields)
    }
}

/// How the stream's request is handed to its handler.
pub open spec fn dispatch_of(
    c: ConnectionView,
    id: u32,
    request: request::RequestView,
) -> Dispatch {
    Dispatch {
        with_body: !request.is_connect && c.streams[id].has_body,
        send_continue: c.opts.send_continue_response && request.expect_continue,
        is_connect: request.is_connect,
        send_date_header: c.opts.send_date_header,
    }
}

/// How the stream's request is handed to its handler, where it is: the stream is
/// there, and no body is missing.
pub open spec fn dispatched(
    c: ConnectionView,
    id: u32,
    end_stream: bool,
    request: request::RequestView,
) -> Option<Dispatch> {
    if c.streams.contains_key(id) && !ConnectionView::body_missing(
        end_stream,
        request.content_length,
    ) {
        Some(dispatch_of(c, id, request))
    } else {
        None
    }
}

/// What a decoded list of fields says.
pub open spec fn decoded_view(decoded: Result<Vec<Header>, FieldBlockError>) -> Result<
    Seq<request::Field>,
    FieldBlockError,
> {
    match decoded {
        Ok(headers) => Ok(request::fields_of(headers@)),
        Err(error) => Err(error),
    }
}

impl Connection {
    /// Takes the stream's complete field block to be decoded, with the
    /// decoder's count for the stream's header list so far. The decoded fields
    /// go to [`Connection::finalize_field_block`].
    pub fn take_field_block(&mut self, stream_id: u32) -> (block: Option<(Vec<u8>, usize)>)
        requires
            old(self).wf(),
        ensures
            final(self).wf(),
            final(self)@ == old(self)@.block_taken(stream_id),
            match block {
                Some((octets, header_list_size)) => old(self)@.field_block(stream_id) == Some(
                    (octets@, header_list_size),
                ),
                None => old(self)@.field_block(stream_id) is None,
            },
    {
        let ghost before = *self;
        let block = match map_get_mut(&mut self.streams, &stream_id) {
            Some(entry) => {
                let octets = entry.take_block();
                Some((octets, entry.header_list_size))
            },
            None => None,
        };
        proof {
            if block is Some {
                entry_edited(before@, before.streams@, stream_id, self.streams@[stream_id]);
            } else {
                assert(!before@.streams.contains_key(stream_id));
            }
        }
        block
    }

    /// Whether a header map has room for the decoded fields of the stream's
    /// field block, so that they can go to [`Connection::finalize_field_block`].
    pub fn field_block_fits(&self, stream_id: u32, headers: &[Header]) -> (yes: bool)
        requires
            self.wf(),
        ensures
            yes == block_fits(self@, stream_id, request::fields_of(headers@)),
    {
        match map_get(&self.streams, &stream_id) {
            Some(entry) => if entry.request_started {
                request::trailers_have_room(headers)
            } else {
                request::request_has_room(headers)
            },
            None => true,
        }
    }

    /// Notes the decoder's count and tells the stream's phase: whether its
    /// request has started, whether the block ends the stream, and whether
    /// trailers were seen.
    fn note_list_size(&mut self, stream_id: u32, header_list_size: usize) -> (phase: Option<
        (bool, bool, bool),
    >)
        requires
            old(self).wf(),
        ensures
            final(self).wf(),
            match phase {
                Some((started, end_stream, trailers_seen)) => {
                    &&& old(self)@.streams.contains_key(stream_id)
                    &&& final(self)@ == old(self)@.list_size_noted(stream_id, header_list_size)
                    &&& started == old(self)@.streams[stream_id].request_started
                    &&& end_stream == old(self)@.streams[stream_id].pending_end_stream
                    &&& trailers_seen == old(self)@.streams[stream_id].trailers_seen
                },
                None => !old(self)@.streams.contains_key(stream_id) && final(self)@ == old(self)@,
            },
    {
        let ghost before = *self;
        let phase = match map_get_mut(&mut self.streams, &stream_id) {
            Some(entry) => {
                entry.header_list_size = header_list_size;
                Some((entry.request_started, entry.pending_end_stream, entry.trailers_seen))
            },
            None => None,
        };
        proof {
            if phase is Some {
                entry_edited(before@, before.streams@, stream_id, self.streams@[stream_id]);
            } else {
                assert(!before@.streams.contains_key(stream_id));
            }
        }
        phase
    }

    /// Marks the stream's trailers as seen.
    fn mark_trailers_seen(&mut self, stream_id: u32)
        requires
            old(self).wf(),
            old(self)@.streams.contains_key(stream_id),
        ensures
            final(self).wf(),
            final(self)@ == old(self)@.with_stream(
                stream_id,
                StreamView { trailers_seen: true, ..old(self)@.streams[stream_id] },
            ),
    {
        let ghost before = *self;
        if let Some(entry) = map_get_mut(&mut self.streams, &stream_id) {
            entry.trailers_seen = true;
        }
        proof {
            entry_edited(before@, before.streams@, stream_id, self.streams@[stream_id]);
        }
    }

    /// The field block is decoded: depending on the stream's phase, build the
    /// request or the trailers.
    pub fn finalize_field_block(
        &mut self,
        stream_id: u32,
        decoded: Result<Vec<Header>, FieldBlockError>,
        header_list_size: usize,
    ) -> (outcome: FieldBlockOutcome)
        requires
            old(self).wf(),
            decoded matches Ok(headers) ==> block_fits(
                old(self)@,
                stream_id,
                request::fields_of(headers@),
            ),
        ensures
            final(self).wf(),
            finalized(
                old(self)@,
                stream_id,
                decoded_view(decoded),
                header_list_size,
                final(self)@,
                outcome,
            ),
    {
        let (started, end_stream, trailers_seen) = match self.note_list_size(
            stream_id,
            header_list_size,
        ) {
            Some(phase) => phase,
            None => {
                return FieldBlockOutcome::Done;
            },
        };
        let headers = match decoded {
            Ok(headers) => headers,
            Err(error) => {
                if error == FieldBlockError::HeaderListTooLarge {
                    // A header list exceeding SETTINGS_MAX_HEADER_LIST_SIZE is
                    // a stream error (RFC 9113 Section 10.5.1), not a
                    // connection-level compression error.
                    self.stream_error(stream_id, Reason::ProtocolError);
                } else {
                    // Other compression errors are connection errors (RFC 9113
                    // Section 4.3).
                    self.goaway(Reason::CompressionError, "hpack decode error");
                }
                return FieldBlockOutcome::Done;
            },
        };
        if started {
            // Trailer section (RFC 9113 Section 8.1).
            match parse_trailers(headers.as_slice()) {
                Ok(trailers) => {
                    if trailers_seen {
                        self.stream_error(stream_id, Reason::ProtocolError);
                        return FieldBlockOutcome::Done;
                    }
                    self.mark_trailers_seen(stream_id);
                    if !end_stream {
                        // Trailers must end the stream (RFC 9113 Section 8.1).
                        self.stream_error(stream_id, Reason::ProtocolError);
                        return FieldBlockOutcome::Done;
                    }
                    FieldBlockOutcome::Trailers(trailers)
                },
                Err(_) => {
                    self.stream_error(stream_id, Reason::ProtocolError);
                    FieldBlockOutcome::Done
                },
            }
        } else {
            match parse_request(headers.as_slice()) {
                Ok(request) => {
                    // No DATA frame will follow an ended stream: close the
                    // request body now so the handler's body reader sees
                    // end-of-stream (RFC 9113 Section 8.1).
                    let signal_end = if end_stream {
                        self.end_request_body(stream_id)
                    } else {
                        false
                    };
                    FieldBlockOutcome::Request { request, end_stream, signal_end }
                },
                Err(_) => {
                    self.stream_error(stream_id, Reason::ProtocolError);
                    FieldBlockOutcome::Done
                },
            }
        }
    }

    /// Starts the stream's request (RFC 9113 Section 8.1.1): returns how it is
    /// handed to its handler, or `None` where it is not.
    pub fn spawn_request(
        &mut self,
        stream_id: u32,
        end_stream: bool,
        request: &ParsedRequest,
    ) -> (dispatch: Option<Dispatch>)
        requires
            old(self).wf(),
        ensures
            final(self).wf(),
            final(self)@ == old(self)@.spawn_request(stream_id, end_stream, request.content_length),
            dispatch == dispatched(old(self)@, stream_id, end_stream, request@),
    {
        let body_missing = end_stream && match request.content_length {
            Some(declared) => declared != 0,
            None => false,
        };
        let ghost before = *self;
        let has_body = match map_get_mut(&mut self.streams, &stream_id) {
            Some(entry) => {
                entry.request_started = true;
                entry.content_length = request.content_length;
                if !body_missing {
                    entry.remote_ended = end_stream;
                }
                entry.has_body
            },
            None => {
                assert(!before@.streams.contains_key(stream_id));
                return None;
            },
        };
        proof {
            entry_edited(before@, before.streams@, stream_id, self.streams@[stream_id]);
        }
        if body_missing {
            // A request that ended without delivering its declared body: stream
            // error (RFC 9113 Section 8.1.2.6).
            self.stream_error(stream_id, Reason::ProtocolError);
            return None;
        }
        Some(
            Dispatch {
                with_body: !request.is_connect && has_body,
                send_continue: self.opts.send_continue_response && request.expect_continue,
                is_connect: request.is_connect,
                send_date_header: self.opts.send_date_header,
            },
        )
    }
}

} // verus!
