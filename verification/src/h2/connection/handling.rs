//! What each frame, event and field block calls for.

use vstd::prelude::*;

use super::draining;
use super::drive::{self, Effect, Event, Next, ReadFailure, Step, Verdict};
use super::laws;
use super::model::ConnectionView;
use super::requests::{self, FieldBlockError, FieldBlockOutcome};
use super::responses::{self, FieldBlock, MsgView};
use super::serving;
use super::settings as peer_settings;
use super::ConnectionOptions;
use crate::h2::codec::model as wire;
use crate::h2::codec::model::{DecoderView, FrameView};
use crate::h2::codec::Setting;
use crate::h2::error::Reason;
use crate::h2::stream::fields;
use crate::h2::stream::request;
use crate::numbers;

verus! {

/// A PING is answered with a PING ACK of the same payload, and a PING ACK with
/// nothing; neither has any other effect.
pub proof fn pings_are_echoed(
    c: ConnectionView,
    payload: Seq<u8>,
    ack: bool,
    after: ConnectionView,
    step: Step,
)
    requires
        drive::frame_handled(c, FrameView::Ping { ack, payload }, after, step),
    ensures
        step == Step::Frame(Effect::Nothing),
        ack ==> after.out == c.out,
        !ack ==> after.out == c.out + wire::wire(FrameView::Ping { ack: true, payload }),
        after.streams == c.streams,
        after.closing == c.closing,
        after.conn_window == c.conn_window,
        after.peer == c.peer,
{
}

/// SETTINGS are applied and acknowledged once, the acknowledgement first of all
/// that they let through, and nothing that they let through is left unsent; an
/// acknowledgement of our own has no effect.
pub proof fn settings_are_acknowledged(
    c: ConnectionView,
    ack: bool,
    settings: Seq<Setting>,
    after: ConnectionView,
    step: Step,
    id: u32,
)
    requires
        c.inv(),
        !c.closing,
        peer_settings::sizes_legal(settings),
        drive::frame_handled(c, FrameView::Settings { ack, settings }, after, step),
        forall|x: u32| #[trigger] c.streams.contains_key(x) ==> draining::settled(c, x),
    ensures
        ack ==> after == c && step == Step::Frame(Effect::Nothing),
        !ack ==> {
            let applied = c.apply_peer_settings(settings);
            let answer = wire::wire(FrameView::Settings { ack: true, settings: Seq::empty() });
            &&& (applied.out + answer).is_prefix_of(after.out)
            &&& step is Frame
            &&& step->Frame_0 is TableSizes
            &&& step->Frame_0->TableSizes_0@ == ConnectionView::table_sizes(settings)
            &&& after.closing || after.conn_window <= 0 || draining::settled(after, id)
            &&& after.peer == applied.peer
        },
{
    if !ack {
        let answer = FrameView::Settings { ack: true, settings: Seq::empty() };
        let applied = c.apply_peer_settings(settings);
        let answered = applied.write(answer);
        assert(answered.out =~= answered.out.subrange(0, answered.out.len() as int));
        if c.streams.contains_key(id) {
            peer_settings::settings_keep_the_balance(c, settings, id);
            queues_kept(c, settings, id);
        } else {
            keeps_absent(c, settings, id);
        }
        inv_kept(c, settings);
        if answered.windows_opened(c) {
            let ids = choose|ids: Seq<u32>| #[trigger]
                answered.lists_pending(ids) && after == answered.rounds(ids);
            super::ordering::draining_writes_the_queues(answered, ids, id);
            draining::draining_is_exhaustive(answered, ids, id);
            rounds_keep_peer(answered, ids);
            assert(answered.out =~= after.out.subrange(0, answered.out.len() as int));
        }
    }
}

proof fn rounds_keep_peer(c: ConnectionView, ids: Seq<u32>)
    requires
        c.inv(),
    ensures
        c.rounds(ids).peer == c.peer,
    decreases c.conn_window,
{
    if c.conn_window > 0 && ids.len() > 0 {
        laws::round_is_fair(c, ids);
        let (after, more) = c.round(ids);
        if after.conn_window < c.conn_window {
            rounds_keep_peer(after, more);
        }
    }
}

proof fn inv_kept(c: ConnectionView, settings: Seq<Setting>)
    requires
        c.inv(),
    ensures
        c.apply_peer_settings(settings).inv(),
    decreases settings.len(),
{
    if settings.len() > 0 {
        peer_settings::setting_keeps_balance(c, settings[0]);
        if !ConnectionView::setting_stops(settings[0]) {
            inv_kept(c.apply_setting(settings[0]), settings.subrange(1, settings.len() as int));
        }
    }
}

proof fn keeps_absent(c: ConnectionView, settings: Seq<Setting>, id: u32)
    requires
        !c.streams.contains_key(id),
    ensures
        !c.apply_peer_settings(settings).streams.contains_key(id),
    decreases settings.len(),
{
    if settings.len() > 0 && !ConnectionView::setting_stops(settings[0]) {
        keeps_absent(c.apply_setting(settings[0]), settings.subrange(1, settings.len() as int), id);
    }
}

/// Settings leave what is queued alone.
proof fn queues_kept(c: ConnectionView, settings: Seq<Setting>, id: u32)
    requires
        c.streams.contains_key(id),
    ensures
        ({
            let after = c.apply_peer_settings(settings);
            &&& after.streams.contains_key(id)
            &&& after.streams[id].pending_data == c.streams[id].pending_data
            &&& after.streams[id].local_ended == c.streams[id].local_ended
            &&& after.streams[id].trailers == c.streams[id].trailers
        }),
    decreases settings.len(),
{
    if settings.len() > 0 && !ConnectionView::setting_stops(settings[0]) {
        let next = c.apply_setting(settings[0]);
        assert(next.streams.contains_key(id));
        queues_kept(next, settings.subrange(1, settings.len() as int), id);
    }
}

/// DATA that a stream takes is delivered as it came, once, with the flag that it
/// came with; other DATA and empty DATA that ends nothing is not delivered.
pub proof fn data_is_delivered_as_it_came(
    c: ConnectionView,
    id: u32,
    end_stream: bool,
    data: Seq<u8>,
    after: ConnectionView,
    step: Step,
)
    requires
        drive::frame_handled(
            c,
            FrameView::Data { stream_id: id, end_stream, data },
            after,
            step,
        ),
    ensures
        step is Frame,
        step->Frame_0 is Deliver <==> c.accepts_data(id) && !(data.len() == 0 && !end_stream),
        step->Frame_0 is Deliver ==> {
            &&& step->Frame_0->Deliver_stream_id == id
            &&& step->Frame_0->Deliver_end_stream == end_stream
            &&& crate::octets::octets_of(step->Frame_0->Deliver_data) == data
        },
        !(step->Frame_0 is Deliver) ==> step->Frame_0 is Nothing,
        c.accepts_data(id) ==> after.accepts_data(id),
        data.len() == 0 && !end_stream ==> after == c,
{
}

/// A reset is handed to the stream's task with its code.
pub proof fn resets_are_told(
    c: ConnectionView,
    id: u32,
    error_code: u32,
    after: ConnectionView,
    step: Step,
)
    requires
        drive::frame_handled(c, FrameView::Reset { stream_id: id, error_code }, after, step),
    ensures
        after == c.handle_reset_frame(id),
        c.streams.contains_key(id) && c.streams[id].request_started && !c.streams[id].remote_ended
            ==> step == Step::Frame(Effect::Notify { stream_id: id, error_code }),
        !c.streams.contains_key(id) ==> step == Step::Frame(Effect::Nothing),
{
}

/// A GOAWAY of the peer ends the connection without an error of ours, a
/// PUSH_PROMISE is an error, and PRIORITY and frames of unknown types have no
/// effect.
pub proof fn other_frames(c: ConnectionView, frame: FrameView, after: ConnectionView, step: Step)
    requires
        drive::frame_handled(c, frame, after, step),
    ensures
        frame is GoAway ==> after == c && step is End,
        frame is PushPromise ==> after.closing && after.streams == c.streams,
        frame is Priority || frame is Unknown ==> after == c && step == Step::Frame(
            Effect::Nothing,
        ),
        step is End ==> frame is GoAway,
        !(step is Wait),
{
}

/// What is not yet a whole frame is waited for; a frame that cannot be read ends
/// the connection with the reason that the decoder gives.
pub proof fn steps_follow_the_decoder(before: ConnectionView, after: ConnectionView, step: Step)
    requires
        drive::stepped(before, after, step),
    ensures
        ({
            let (decoder, outcome) = wire::next_step(before.decoder);
            match outcome {
                Ok(None) => step is Wait && after == (ConnectionView { decoder, ..before }),
                Err(error) => step is End && after.closing && exists|debug: Seq<u8>|
                    #![trigger wire::wire(
                        FrameView::GoAway {
                            last_stream_id: before.highest_stream_id,
                            error_code: error.reason.code(),
                            debug,
                        },
                    )]
                    after.out == before.out + wire::wire(
                        FrameView::GoAway {
                            last_stream_id: before.highest_stream_id,
                            error_code: error.reason.code(),
                            debug,
                        },
                    ),
                Ok(Some(_)) => !(step is Wait),
            }
        }),
{
}

/// What is announced to the peer is what is enforced: the concurrency limit, the
/// window of streams, the frame size and whether Extended CONNECT is on. Nothing
/// else is written.
pub proof fn settings_are_announced(c: ConnectionView)
    ensures
        exists|s: Seq<Setting>|
            #![trigger wire::wire(FrameView::Settings { ack: false, settings: s })]
            {
                &&& c.announce().out == c.out + wire::wire(
                    FrameView::Settings { ack: false, settings: s },
                )
                &&& peer_settings::last_value(s, 0x03, 0) == c.opts.max_concurrent_streams
                &&& peer_settings::last_value(s, 0x04, 0) == c.opts.initial_stream_window_size
                &&& peer_settings::last_value(s, 0x05, 0) == c.opts.max_frame_size
                &&& peer_settings::last_value(s, 0x08, 7) == if c.opts.enable_connect_protocol {
                    1u32
                } else {
                    0
                }
                &&& s.len() == 4
            },
{
    let s = seq![
        Setting { id: 0x03, value: c.opts.max_concurrent_streams },
        Setting { id: 0x04, value: c.opts.initial_stream_window_size },
        Setting { id: 0x05, value: c.opts.max_frame_size },
        Setting {
            id: 0x08,
            value: if c.opts.enable_connect_protocol {
                1
            } else {
                0
            },
        },
    ];
    reveal_with_fuel(peer_settings::last_value, 5);
    let three = s.drop_last();
    let two = three.drop_last();
    let one = two.drop_last();
    assert(three.last() == s[2]);
    assert(two.last() == s[1]);
    assert(one.last() == s[0]);
    assert(c.announce().out == c.out + wire::wire(FrameView::Settings { ack: false, settings: s }));
}

/// Options that are applied are in force: a frame of the configured size is not
/// refused for its size and a larger one is, and what may be sent at first on the
/// connection is the configured window. What was received and the peer's settings
/// stay.
pub proof fn options_are_in_force(
    c: ConnectionView,
    options: ConnectionOptions,
    buf: Seq<u8>,
    id: u32,
    data: Seq<u8>,
    end_stream: bool,
)
    requires
        buf.len() >= 9,
        c.streams.contains_key(id),
        c.streams[id].response_open(),
        c.streams[id].pending_data.len() == 0,
        0 < data.len() <= options.initial_connection_window_size,
        data.len() <= c.streams[id].send_window,
        data.len() <= c.peer.max_frame_size,
    ensures
        ({
            let after = c.configured(options);
            let d = DecoderView { buf, ..after.decoder };
            &&& after.opts == options
            &&& after.peer == c.peer
            &&& after.streams == c.streams
            &&& after.out == c.out
            &&& after.decoder.buf == c.decoder.buf
            &&& after.decoder.block_stream == c.decoder.block_stream
            &&& wire::header_len(buf) > options.max_frame_size ==> wire::next_step(d).1 is Err
            &&& wire::header_len(buf) <= options.max_frame_size && buf.len() < 9
                + wire::header_len(buf) ==> wire::next_step(d).1 == Ok::<
                Option<FrameView>,
                crate::h2::error::H2ErrorView,
            >(None)
            &&& after.response_data(id, data, end_stream).conn_window
                == options.initial_connection_window_size - data.len()
            &&& after.response_data(id, data, end_stream).out == c.out + wire::wire(
                FrameView::Data { stream_id: id, end_stream, data },
            )
        }),
{
    serving::chunk_goes_out_whole(c.configured(options), id, data, end_stream);
}

/// A connection that breaks while no stream is open ends quietly; any other
/// failure to read is reported. The end of the peer's side and silence leave the
/// loop, and only silence and being asked begin a graceful shutdown.
pub proof fn events_are_judged(c: ConnectionView, event: Event)
    ensures
        ({
            let (after, verdict) = drive::event_handled(c, event);
            &&& verdict is Return <==> event == Event::ReadFailed(ReadFailure::Disconnected)
                && c.streams.len() == 0
            &&& verdict is Fail <==> event is ReadFailed && !(verdict is Return)
            &&& verdict is Leave <==> event is Closed || event is Idle
            &&& !c.graceful && !c.closing ==> (after.graceful <==> event is Shutdown
                || event is Idle)
            &&& event is Closed || event is ReadFailed ==> after == c
            &&& after.streams == c.streams
        }),
{
}

/// A connection goes on until the peer says GOAWAY or a graceful shutdown has
/// drained its streams.
pub proof fn connections_go_on(c: ConnectionView, peer_goaway: bool)
    ensures
        !peer_goaway && !c.graceful ==> drive::loop_goes_on(c, peer_goaway),
        !peer_goaway && c.streams.len() > 0 ==> drive::loop_goes_on(c, peer_goaway),
        peer_goaway ==> !drive::loop_goes_on(c, peer_goaway),
        c.graceful && c.streams.len() == 0 ==> !drive::loop_goes_on(c, peer_goaway),
{
}

/// A field block that makes a request hands out that request, with the flag of
/// the frame that began the block; where it ends the stream, the end of the body
/// is signalled to a reader, if there is one. One that makes none costs its stream.
pub proof fn requests_are_handed_out(
    before: ConnectionView,
    id: u32,
    fields: Seq<request::Field>,
    header_list_size: usize,
    after: ConnectionView,
    outcome: FieldBlockOutcome,
)
    requires
        before.streams.contains_key(id),
        !before.streams[id].request_started,
        !before.streams[id].remote_ended,
        before.streams[id].content_length is None,
        !before.reset_budget_spent(),
        requests::finalized(before, id, Ok(fields), header_list_size, after, outcome),
    ensures
        request::request_of(fields) is Some ==> {
            &&& outcome is Request
            &&& request::request_of(fields) == Some(outcome->request@)
            &&& outcome->end_stream == before.streams[id].pending_end_stream
            &&& outcome->signal_end == (before.streams[id].pending_end_stream
                && before.streams[id].has_body)
            &&& after.out == before.out
            &&& after.streams.contains_key(id)
            &&& after.streams[id].header_list_size == header_list_size
            &&& after.streams[id].remote_ended == before.streams[id].pending_end_stream
        },
        request::request_of(fields) is None ==> {
            &&& outcome is Done
            &&& !after.streams.contains_key(id)
            &&& after.out == before.out + wire::wire(
                FrameView::Reset { stream_id: id, error_code: Reason::ProtocolError.code() },
            )
        },
        laws::other_streams_kept(before, after, id),
{
}

/// A field block behind the request is its trailers: those that may be delivered
/// are handed out as they are, and others cost the stream.
pub proof fn trailers_are_handed_out(
    before: ConnectionView,
    id: u32,
    fields: Seq<request::Field>,
    header_list_size: usize,
    after: ConnectionView,
    outcome: FieldBlockOutcome,
)
    requires
        before.streams.contains_key(id),
        before.streams[id].request_started,
        !before.reset_budget_spent(),
        requests::finalized(before, id, Ok(fields), header_list_size, after, outcome),
    ensures
        ({
            let right = request::trailers_ok(fields) && !before.streams[id].trailers_seen
                && before.streams[id].pending_end_stream;
            &&& right <==> outcome is Trailers
            &&& right ==> crate::headers::header_contents(outcome->Trailers_0)
                == crate::headers::grouped(fields)
            &&& right ==> after.streams.contains_key(id) && after.out == before.out
            &&& !right ==> outcome is Done && !after.streams.contains_key(id)
        }),
{
}

/// A field block whose stream is gone does nothing, decoded or not; neither does
/// an error make a request.
pub proof fn stale_blocks_do_nothing(
    before: ConnectionView,
    id: u32,
    decoded: Result<Seq<request::Field>, FieldBlockError>,
    header_list_size: usize,
    after: ConnectionView,
    outcome: FieldBlockOutcome,
)
    requires
        requests::finalized(before, id, decoded, header_list_size, after, outcome),
    ensures
        !before.streams.contains_key(id) ==> after == before && outcome is Done,
        decoded is Err ==> outcome is Done,
        decoded == Err::<Seq<request::Field>, FieldBlockError>(FieldBlockError::Compression)
            && before.streams.contains_key(id) ==> after.closing,
{
}

/// A handler gets a body exactly where the HEADERS frame did not end the stream
/// and the request is no CONNECT, `100 Continue` exactly where the request expects
/// it and the server sends it, and a date where the server sends one.
pub proof fn requests_are_dispatched(
    c: ConnectionView,
    id: u32,
    end_stream: bool,
    block: Seq<u8>,
    header_list_size: usize,
    parsed: request::RequestView,
)
    requires
        serving::opens(c, id),
    ensures
        ({
            let arrived = c.handle_headers_frame(id, end_stream, true, block).block_taken(
                id,
            ).list_size_noted(id, header_list_size).request_arrived(id, true);
            let dispatch = requests::dispatch_of(arrived, id, parsed);
            &&& dispatch.with_body <==> !end_stream && !parsed.is_connect
            &&& dispatch.send_continue <==> parsed.expect_continue && c.opts.send_continue_response
            &&& dispatch.is_connect == parsed.is_connect
            &&& dispatch.send_date_header == c.opts.send_date_header
        }),
{
}

/// A response's head goes out as a field block that begins with its status in
/// three digits, marked as the end exactly where the response has no body; an
/// interim response never ends the stream and leaves it as it is. Behind the end
/// of the response nothing goes out.
pub proof fn heads_become_field_blocks(
    c: ConnectionView,
    id: u32,
    status: u16,
    headers: Map<Seq<u8>, Seq<Seq<u8>>>,
    end_stream: bool,
    head: Option<FieldBlock>,
    interim: Option<FieldBlock>,
)
    requires
        100 <= status <= 999,
        responses::asks_for(c, id, MsgView::Headers { status, headers, end_stream }, head),
        responses::asks_for(c, id, MsgView::Informational { status, headers }, interim),
    ensures
        c.streams.contains_key(id) && !c.streams[id].response_open() ==> head is None,
        !c.streams.contains_key(id) || c.streams[id].response_open() ==> {
            &&& head is Some
            &&& head->0.end_stream == end_stream
            &&& head->0.fields@.len() > 0
            &&& numbers::decimal_value(head->0.fields@[0].1) == status
            &&& head->0.fields@[0].1.len() == 3
        },
        interim is Some,
        !interim->0.end_stream,
        numbers::decimal_value(interim->0.fields@[0].1) == status,
        responses::msg_handled(c, id, MsgView::Informational { status, headers }) == c,
{
    status_is_read_back(status);
    if let Some(block) = head {
        let order = choose|order: Seq<(Seq<u8>, Seq<u8>)>| #[trigger]
            crate::headers::grouped(order) == headers && block.fields@
                == fields::response_fields_of(status, order);
        fields::response_fields_are_clean(status, order);
    }
    if let Some(block) = interim {
        let order = choose|order: Seq<(Seq<u8>, Seq<u8>)>| #[trigger]
            crate::headers::grouped(order) == headers && block.fields@
                == fields::response_fields_of(status, order);
        fields::response_fields_are_clean(status, order);
    }
}

/// A status is read back from its three digits.
pub proof fn status_is_read_back(status: u16)
    requires
        100 <= status <= 999,
    ensures
        fields::status_octets(status).len() == 3,
        numbers::all_digits(fields::status_octets(status)),
        numbers::decimal_value(fields::status_octets(status)) == status,
{
    let s = fields::status_octets(status);
    reveal_with_fuel(numbers::decimal_value, 4);
    let two = s.drop_last();
    let one = two.drop_last();
    assert(one.drop_last() =~= Seq::<u8>::empty());
    assert(two.last() == s[1]);
    assert(one.last() == s[0]);
    assert(s.last() == s[2]);
}

/// Trailers go out as they are and end the stream, at once where nothing is
/// queued before them; a response that has ended has none.
pub proof fn trailers_become_field_blocks(
    c: ConnectionView,
    id: u32,
    trailers: Map<Seq<u8>, Seq<Seq<u8>>>,
    block: Option<FieldBlock>,
)
    requires
        responses::asks_for(c, id, MsgView::Trailers { trailers }, block),
    ensures
        block is Some <==> c.streams.contains_key(id) && c.streams[id].response_open()
            && c.streams[id].pending_data.len() == 0,
        block is Some ==> {
            &&& block->0.end_stream
            &&& crate::headers::grouped(block->0.fields@) == trailers
            &&& !responses::msg_handled(c, id, MsgView::Trailers { trailers }).takes_response(id)
        },
        c.streams.contains_key(id) && c.streams[id].response_open()
            && c.streams[id].pending_data.len() > 0 ==> responses::msg_handled(
            c,
            id,
            MsgView::Trailers { trailers },
        ).streams[id].trailers == Some(trailers),
{
}

/// HEADERS, CONTINUATION and WINDOW_UPDATE frames take effect with all that they
/// carry, and call for nothing to be done: a field block is not decoded before it
/// is complete, and grants are spent at once, on the stream that they are for or on
/// all streams that have something to send.
pub proof fn frames_take_effect(
    c: ConnectionView,
    frame: FrameView,
    after: ConnectionView,
    step: Step,
)
    requires
        drive::frame_handled(c, frame, after, step),
        frame is Headers || frame is Continuation || frame is WindowUpdate,
    ensures
        step == Step::Frame(Effect::Nothing),
        frame matches FrameView::Headers { stream_id, end_stream, end_headers, block, .. }
            ==> after == c.handle_headers_frame(stream_id, end_stream, end_headers, block),
        frame matches FrameView::Continuation { stream_id, end_headers, block } ==> after
            == c.handle_continuation(stream_id, end_headers, block),
        frame matches FrameView::WindowUpdate { stream_id, increment } ==> {
            &&& stream_id > 0 ==> after == c.stream_window_update(stream_id, increment)
            &&& stream_id == 0 && c.inv() && increment > 0 && c.conn_window + increment
                <= 0x7fff_ffff ==> forall|id: u32|
                #![trigger draining::settled(after, id)]
                after.conn_window <= 0 || draining::settled(after, id)
        },
{
    if let FrameView::WindowUpdate { stream_id, increment } = frame {
        if stream_id == 0 && c.inv() && increment > 0 && c.conn_window + increment <= 0x7fff_ffff {
            let ids = choose|ids: Seq<u32>| #[trigger]
                c.lists_pending(ids) && after == c.connection_window_update(increment, ids);
            assert forall|id: u32| #![trigger draining::settled(after, id)]
                after.conn_window <= 0 || draining::settled(after, id) by {
                super::windows::connection_grants_are_spent(c, increment, ids, id);
            }
        }
    }
}

/// Every request whose stream is there is dispatched, a CONNECT too, unless a body
/// that it declares is missing.
pub proof fn every_request_is_dispatched(
    c: ConnectionView,
    id: u32,
    end_stream: bool,
    parsed: request::RequestView,
)
    ensures
        requests::dispatched(c, id, end_stream, parsed) is None <==> !c.streams.contains_key(id)
            || (end_stream && parsed.content_length is Some && parsed.content_length->0 > 0),
        requests::dispatched(c, id, end_stream, parsed) matches Some(d) ==> d
            == requests::dispatch_of(c, id, parsed),
        requests::dispatched(c, id, end_stream, parsed) is Some ==> c.spawn_request(
            id,
            end_stream,
            parsed.content_length,
        ).streams[id].request_started,
{
}

/// After a frame a field block that is complete is handed to the decoder once,
/// whole, with what was counted of the stream's header lists before; where there
/// is none, a connection that is closing ends and any other goes on.
pub proof fn complete_blocks_are_handed_to_the_decoder(
    before: ConnectionView,
    after: ConnectionView,
    next: Next,
    id: u32,
    size: usize,
)
    requires
        drive::followed(before, after, next),
    ensures
        before.next_complete_block() is None ==> {
            &&& next is End <==> before.closing
            &&& next is Continue <==> !before.closing
            &&& after.streams == before.streams
            &&& after.out == before.out
        },
        before.next_complete_block() == Some(id) ==> {
            &&& next is Decode
            &&& next->stream_id == id
            &&& next->block@ == before.streams[id].field_block
            &&& next->header_list_size == before.streams[id].header_list_size
            &&& after.streams[id].field_block.len() == 0
            &&& after.out == before.out
            &&& after.list_size_noted(id, size).field_block(id) == Some((Seq::<u8>::empty(), size))
        },
{
    drive::complete_block_facts(before);
    if before.next_complete_block() == Some(id) {
        assert(after.list_size_noted(id, size).streams[id].field_block =~= Seq::<u8>::empty());
    }
}

} // verus!
