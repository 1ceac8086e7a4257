//! The connection's loop, one step at a time: the caller reads, writes and
//! waits, and the connection decides.

use bytes::Bytes;
use vstd::prelude::*;

use super::model::{self, ConnectionView};
use super::{Connection, ConnectionOptions};
use crate::fx::map_len;
use crate::h2::codec::model as wire;
use crate::h2::codec::model::{DecoderView, FrameView};
use crate::h2::codec::{Frame, Setting, CLIENT_PREFACE};
use crate::h2::error::Reason;
use crate::headers::same_octets;
use crate::octets::{bytes_slice, OctetView};

verus! {

broadcast use vstd::std_specs::hash::group_hash_axioms;

/// What the caller is to do about a frame.
#[derive(Debug)]
#[allow(inconsistent_fields)]
pub enum Effect {
    /// Nothing.
    Nothing,
    /// Have the field block encoder adopt these table sizes, in order.
    TableSizes(Vec<u32>),
    /// Deliver the data to the stream's body reader and report to
    /// [`Connection::data_delivered`].
    Deliver { stream_id: u32, end_stream: bool, data: Bytes },
    /// Tell the stream's task that the peer reset the stream.
    Notify { stream_id: u32, error_code: u32 },
}

/// What a step of the connection came to.
#[derive(Debug)]
pub enum Step {
    /// No complete frame is buffered: read more.
    Wait,
    /// A frame was handled: perform the effect, then go on with
    /// [`Connection::after_frame`].
    Frame(Effect),
    /// Write the output and end the connection.
    End,
}

/// What comes after a frame and its effect.
#[derive(Debug)]
pub enum Next {
    /// Take the next frame.
    Continue,
    /// Decode the field block and hand the fields to
    /// [`Connection::finalize_field_block`], then end the connection if it is
    /// closing.
    Decode { stream_id: u32, block: Vec<u8>, header_list_size: usize },
    /// Write the output and end the connection.
    End,
}

/// Why reading from the transport failed.
#[derive(Debug, Clone, Copy, PartialEq, Eq, Structural)]
pub enum ReadFailure {
    /// The transport was closed abruptly: a broken pipe, a reset or aborted
    /// connection, or an unexpected end.
    Disconnected,
    /// Anything else.
    Other,
}

/// Something that happens to a connection besides frames.
#[derive(Debug, Clone, Copy, PartialEq, Eq, Structural)]
pub enum Event {
    /// The peer closed its side.
    Closed,
    /// Reading from the transport failed.
    ReadFailed(ReadFailure),
    /// Graceful shutdown was asked for.
    Shutdown,
    /// The peer was silent for the idle timeout.
    Idle,
}

/// How the connection goes on after an event.
#[derive(Debug, Clone, Copy, PartialEq, Eq, Structural)]
pub enum Verdict {
    /// Write the output and go on.
    Continue,
    /// Leave the loop and finish with [`Connection::finish`].
    Leave,
    /// End the connection without writing anything.
    Return,
    /// Report the transport's error.
    Fail,
}

/// What a frame does to the connection and what is to be done about it.
pub open spec fn frame_handled(
    c: ConnectionView,
    frame: FrameView,
    after: ConnectionView,
    step: Step,
) -> bool {
    match frame {
        FrameView::Settings { ack, settings } => if ack {
            after == c && step == Step::Frame(Effect::Nothing)
        } else {
            let applied = c.apply_peer_settings(settings).write(
                FrameView::Settings { ack: true, settings: Seq::empty() },
            );
            &&& if applied.windows_opened(c) {
                exists|ids: Seq<u32>| #[trigger]
                    applied.lists_pending(ids) && after == applied.rounds(ids)
            } else {
                after == applied
            }
            &&& step matches Step::Frame(Effect::TableSizes(sizes)) && sizes@
                == ConnectionView::table_sizes(settings)
        },
        FrameView::Ping { ack, payload } => {
            &&& after == if ack {
                c
            } else {
                c.write(FrameView::Ping { ack: true, payload })
            }
            &&& step == Step::Frame(Effect::Nothing)
        },
        FrameView::GoAway { .. } => after == c && step == Step::End,
        FrameView::Headers { stream_id, end_stream, end_headers, block, .. } => {
            &&& after == c.handle_headers_frame(stream_id, end_stream, end_headers, block)
            &&& step == Step::Frame(Effect::Nothing)
        },
        FrameView::Continuation { stream_id, end_headers, block } => {
            &&& after == c.handle_continuation(stream_id, end_headers, block)
            &&& step == Step::Frame(Effect::Nothing)
        },
        FrameView::Data { stream_id, end_stream, data } => {
            &&& after == c.handle_data_frame(stream_id, end_stream, data.len())
            &&& if c.accepts_data(stream_id) && (data.len() > 0 || end_stream) {
                step matches Step::Frame(
                    Effect::Deliver { stream_id: s, end_stream: e, data: d },
                ) && s == stream_id && e == end_stream && d@ == data
            } else {
                step == Step::Frame(Effect::Nothing)
            }
        },
        FrameView::Reset { stream_id, error_code } => {
            &&& after == c.handle_reset_frame(stream_id)
            &&& step == Step::Frame(
                match c.reset_notice(stream_id, error_code) {
                    Some(code) => Effect::Notify { stream_id, error_code: code },
                    None => Effect::Nothing,
                },
            )
        },
        FrameView::WindowUpdate { stream_id, increment } => {
            &&& if stream_id == 0 {
                exists|ids: Seq<u32>| #[trigger]
                    c.lists_pending(ids) && after == c.connection_window_update(increment, ids)
            } else {
                after == c.stream_window_update(stream_id, increment)
            }
            &&& step == Step::Frame(Effect::Nothing)
        },
        FrameView::PushPromise { .. } => {
            &&& after == c.goaway(Reason::ProtocolError, "push promise to server")
            &&& step == Step::Frame(Effect::Nothing)
        },
        FrameView::Priority { .. } => after == c && step == Step::Frame(Effect::Nothing),
        FrameView::Unknown { .. } => after == c && step == Step::Frame(Effect::Nothing),
    }
}

/// What taking a step does to the connection and what it comes to.
pub open spec fn stepped(before: ConnectionView, after: ConnectionView, step: Step) -> bool {
    let (decoder, outcome) = wire::next_step(before.decoder);
    let c = ConnectionView { decoder, ..before };
    match outcome {
        Ok(Some(frame)) => frame_handled(c, frame, after, step),
        Ok(None) => after == c && step == Step::Wait,
        Err(error) => after == c.goaway(error.reason, "frame error") && step == Step::End,
    }
}

/// What follows a frame and its effect.
pub open spec fn followed(before: ConnectionView, after: ConnectionView, next: Next) -> bool {
    let taken = before.take_complete_block();
    match before.next_complete_block() {
        Some(id) => {
            &&& after == taken.block_taken(id)
            &&& next matches Next::Decode { stream_id, block, header_list_size } && stream_id == id
                && taken.field_block(id) == Some((block@, header_list_size))
        },
        None => {
            &&& after == taken
            &&& next == if before.closing {
                Next::End
            } else {
                Next::Continue
            }
        },
    }
}

/// What an event does to the connection and how it goes on.
pub open spec fn event_handled(c: ConnectionView, event: Event) -> (ConnectionView, Verdict) {
    match event {
        Event::Closed => (c, Verdict::Leave),
        Event::ReadFailed(failure) => (
            c,
            if failure == ReadFailure::Disconnected && c.streams.len() == 0 {
                Verdict::Return
            } else {
                Verdict::Fail
            },
        ),
        Event::Shutdown => (c.begin_graceful_shutdown(), Verdict::Continue),
        Event::Idle => (c.begin_graceful_shutdown(), Verdict::Leave),
    }
}

/// The loop goes on: the peer has not said GOAWAY, and a graceful shutdown still
/// has streams to drain.
pub open spec fn loop_goes_on(c: ConnectionView, peer_goaway: bool) -> bool {
    !peer_goaway && !(c.graceful && c.streams.len() == 0)
}

impl Connection {
    /// Applies the options before the handshake.
    pub fn configure(&mut self, options: ConnectionOptions)
        requires
            old(self).wf(),
            model::within(
                old(self)@.local_error_resets,
                options.max_local_error_reset_streams,
            ),
            model::within(
                old(self)@.pending_accept_resets,
                options.max_pending_accept_reset_streams,
            ),
        ensures
            final(self).wf(),
            final(self)@ == old(self)@.configured(options),
    {
        self.opts = options;
        self.decoder.set_max_frame_size(options.max_frame_size as usize);
        self.conn_window = options.initial_connection_window_size as i64;
    }

    /// Takes the client's 24-octet preface. Where it matches, the connection's
    /// own preface is queued: SETTINGS announcing our flow-control windows,
    /// frame limits and concurrency (RFC 9113 Sections 3.5 and 6.5.2). Where it
    /// does not, a GOAWAY is queued and the connection is to end.
    pub fn accept_preface(&mut self, magic: &[u8]) -> (valid: bool)
        requires
            old(self).wf(),
        ensures
            final(self).wf(),
            valid == (magic@ == CLIENT_PREFACE@),
            final(self)@ == (if valid {
                old(self)@.announce()
            } else {
                old(self)@.goaway(Reason::ProtocolError, "invalid connection preface")
            }),
    {
        let expected = CLIENT_PREFACE;
        if !same_octets(magic, expected.as_slice()) {
            self.goaway(Reason::ProtocolError, "invalid connection preface");
            return false;
        }
        let mut settings: Vec<Setting> = Vec::new();
        settings.push(Setting { id: 0x03, value: self.opts.max_concurrent_streams });
        settings.push(Setting { id: 0x04, value: self.opts.initial_stream_window_size });
        settings.push(Setting { id: 0x05, value: self.opts.max_frame_size });
        settings.push(
            Setting {
                id: 0x08,
                value: if self.opts.enable_connect_protocol {
                    1
                } else {
                    0
                },
            },
        );
        self.writer.write_settings(&mut self.out, settings.as_slice());
        assert(settings@ =~= seq![
            Setting { id: 0x03, value: self.opts.max_concurrent_streams },
            Setting { id: 0x04, value: self.opts.initial_stream_window_size },
            Setting { id: 0x05, value: self.opts.max_frame_size },
            Setting {
                id: 0x08,
                value: if self.opts.enable_connect_protocol {
                    1
                } else {
                    0
                },
            },
        ]);
        true
    }

    /// Takes octets that were read from the transport.
    pub fn receive(&mut self, bytes: &[u8])
        requires
            old(self).wf(),
            old(self)@.decoder.buf.len() + bytes@.len() <= isize::MAX,
        ensures
            final(self).wf(),
            final(self)@ == (ConnectionView {
                decoder: DecoderView {
                    buf: old(self)@.decoder.buf + bytes@,
                    ..old(self)@.decoder
                },
                ..old(self)@
            }),
    {
        self.decoder.extend(bytes);
    }

    /// Takes the octets that wait to be written.
    pub fn take_output(&mut self) -> (out: Vec<u8>)
        requires
            old(self).wf(),
        ensures
            final(self).wf(),
            out@ == old(self)@.out,
            final(self)@ == (ConnectionView { out: Seq::empty(), ..old(self)@ }),
    {
        let mut out: Vec<u8> = Vec::new();
        std::mem::swap(&mut out, &mut self.out);
        out
    }

    /// Decodes and handles the next frame that is buffered.
    pub fn process_frame(&mut self) -> (step: Step)
        requires
            old(self).wf(),
        ensures
            final(self).wf(),
            stepped(old(self)@, final(self)@, step),
    {
        match self.decoder.next_frame() {
            Ok(Some(frame)) => self.handle_frame(frame),
            Ok(None) => Step::Wait,
            Err(error) => {
                // Frame-level violation: GOAWAY with the code the codec
                // determined (RFC 9113 Sections 6.10, 6.5.2), then close.
                self.goaway(error.reason, "frame error");
                Step::End
            },
        }
    }

    /// Handles a frame.
    fn handle_frame(&mut self, frame: Frame) -> (step: Step)
        requires
            old(self).wf(),
        ensures
            final(self).wf(),
            frame_handled(old(self)@, frame@, final(self)@, step),
    {
        match frame {
            Frame::Settings { ack, settings } => {
                if ack {
                    return Step::Frame(Effect::Nothing);
                }
                let initial: u32 = self.peer.initial_window_size;
                let sizes = self.apply_peer_settings(settings.as_slice());
                self.writer.write_settings_ack(&mut self.out);
                if !self.closing && self.peer.initial_window_size > initial {
                    // The streams' windows opened up: send what they let
                    // through.
                    self.drain_pending_data(None);
                }
                Step::Frame(Effect::TableSizes(sizes))
            },
            Frame::Ping { ack, payload } => {
                if !ack {
                    self.writer.write_ping_ack(&mut self.out, &payload);
                }
                Step::Frame(Effect::Nothing)
            },
            Frame::GoAway { .. } => Step::End,
            Frame::Headers { stream_id, end_stream, end_headers, block, .. } => {
                self.handle_headers_frame(stream_id, end_stream, end_headers, bytes_slice(&block));
                Step::Frame(Effect::Nothing)
            },
            Frame::Continuation { stream_id, end_headers, block } => {
                self.handle_continuation(stream_id, end_headers, bytes_slice(&block));
                Step::Frame(Effect::Nothing)
            },
            Frame::Data { stream_id, end_stream, data } => match self.handle_data_frame(
                stream_id,
                end_stream,
                data,
            ) {
                Some(data) => Step::Frame(Effect::Deliver { stream_id, end_stream, data }),
                None => Step::Frame(Effect::Nothing),
            },
            Frame::Reset { stream_id, error_code } => match self.handle_reset_frame(
                stream_id,
                error_code,
            ) {
                Some(error_code) => Step::Frame(Effect::Notify { stream_id, error_code }),
                None => Step::Frame(Effect::Nothing),
            },
            Frame::WindowUpdate { stream_id, increment } => {
                self.handle_window_update(stream_id, increment);
                Step::Frame(Effect::Nothing)
            },
            Frame::PushPromise { .. } => {
                self.goaway(Reason::ProtocolError, "push promise to server");
                Step::Frame(Effect::Nothing)
            },
            Frame::Priority { .. } => Step::Frame(Effect::Nothing),
            Frame::Unknown { .. } => Step::Frame(Effect::Nothing),
        }
    }

    /// What follows a frame and its effect: one HEADERS/CONTINUATION chain
    /// completes at most one field block per frame arrival, which is decoded
    /// first; then a connection that is closing ends.
    pub fn after_frame(&mut self) -> (next: Next)
        requires
            old(self).wf(),
        ensures
            final(self).wf(),
            followed(old(self)@, final(self)@, next),
    {
        proof {
            complete_block_facts(self@);
        }
        if let Some(stream_id) = self.take_complete_block() {
            if let Some((block, header_list_size)) = self.take_field_block(stream_id) {
                return Next::Decode { stream_id, block, header_list_size };
            }
        }
        if self.closing {
            Next::End
        } else {
            Next::Continue
        }
    }

    /// Whether a connection error is pending: the connection ends after its
    /// output is written.
    pub fn is_closing(&self) -> (closing: bool)
        ensures
            closing == self@.closing,
    {
        self.closing
    }

    /// Whether the loop goes on: the peer has not said GOAWAY, and a graceful
    /// shutdown still has streams to drain.
    pub fn goes_on(&self, peer_goaway: bool) -> (yes: bool)
        requires
            self.wf(),
        ensures
            yes == loop_goes_on(self@, peer_goaway),
    {
        assert(super::streams_view(self.streams@).dom() =~= self.streams@.dom());
        !peer_goaway && !(self.graceful && map_len(&self.streams) == 0)
    }

    /// Something other than a frame happened.
    pub fn handle_event(&mut self, event: Event) -> (verdict: Verdict)
        requires
            old(self).wf(),
        ensures
            final(self).wf(),
            (final(self)@, verdict) == event_handled(old(self)@, event),
    {
        match event {
            // Peer closed; nothing more to say.
            Event::Closed => Verdict::Leave,
            Event::ReadFailed(failure) => {
                assert(super::streams_view(self.streams@).dom() =~= self.streams@.dom());
                if failure == ReadFailure::Disconnected && map_len(&self.streams) == 0 {
                    // Connection abruptly closed while idle (no streams).
                    Verdict::Return
                } else {
                    Verdict::Fail
                }
            },
            Event::Shutdown => {
                self.begin_graceful_shutdown();
                Verdict::Continue
            },
            Event::Idle => {
                // The peer was silent; close the connection gracefully (GOAWAY)
                // and stop.
                self.begin_graceful_shutdown();
                Verdict::Leave
            },
        }
    }

    /// The loop was left: a graceful shutdown says its final GOAWAY.
    pub fn finish(&mut self)
        requires
            old(self).wf(),
        ensures
            final(self).wf(),
            final(self)@ == (if old(self)@.graceful {
                old(self)@.finish_graceful_shutdown()
            } else {
                old(self)@
            }),
    {
        if self.graceful {
            self.finish_graceful_shutdown();
        }
    }
}

/// The block that is taken belongs to a stream that is there, and taking it
/// changes nothing else.
pub(crate) proof fn complete_block_facts(c: ConnectionView)
    ensures
        c.next_complete_block() matches Some(id) ==> c.streams.contains_key(id),
        c.take_complete_block() == (ConnectionView {
            complete_blocks: c.take_complete_block().complete_blocks,
            ..c
        }),
    decreases c.complete_blocks.len(),
{
    if c.complete_blocks.len() > 0 && !c.streams.contains_key(c.complete_blocks[0]) {
        complete_block_facts(c.without_first_block());
    }
}

} // verus!
