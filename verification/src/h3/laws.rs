//! What holds of serving HTTP/3 requests and of the connection as a whole.

use vstd::prelude::*;
use vstd::string::StringSliceAdditionalSpecFns;

use super::driver::{Cause, Closing, ConclusionView, DriverView};
use super::error::H3Error;
use super::request::{self, Fields, ResponseWait, WaitEvent};
use super::resets::{self, ConnResetState, RequestFailure};
use super::task::{self, ActionView, EventView, TaskState};
use crate::headers;
use crate::numbers;
use crate::text;

verus! {

/// An action that ends the work on a request.
pub open spec fn concludes(action: ActionView) -> bool {
    action is Finish || action is Report || action is HandOver
}

/// A task is done only for a reason: the stream was to be finished, a failure was
/// to be reported, another protocol was to take over, or there was no request.
pub proof fn done_has_a_reason(events: Seq<EventView>)
    requires
        task::task_after(TaskState::Reading, events) is Done,
    ensures
        exists|n: int|
            #![trigger events.subrange(0, n)]
            0 < n <= events.len() && (concludes(
                task::last_action(TaskState::Reading, events.subrange(0, n)),
            ) || (events[n - 1] is NoRequest && task::task_after(
                TaskState::Reading,
                events.subrange(0, n).drop_last(),
            ) is Reading)),
    decreases events.len(),
{
    let n = events.len() as int;
    let before = events.drop_last();
    let state = task::task_after(TaskState::Reading, before);
    assert(events.subrange(0, n) =~= events);
    if state is Done || state is Finishing {
        if state is Done {
            done_has_a_reason(before);
        } else {
            finishing_was_called_for(before);
        }
        let m = choose|m: int|
            #![trigger before.subrange(0, m)]
            0 < m <= before.len() && (concludes(
                task::last_action(TaskState::Reading, before.subrange(0, m)),
            ) || (before[m - 1] is NoRequest && task::task_after(
                TaskState::Reading,
                before.subrange(0, m).drop_last(),
            ) is Reading));
        assert(before.subrange(0, m) =~= events.subrange(0, m));
        assert(before[m - 1] == events[m - 1]);
    } else {
        assert(concludes(task::last_action(TaskState::Reading, events.subrange(0, n))) || (
        events[n - 1] is NoRequest && state is Reading));
    }
}

proof fn finishing_was_called_for(events: Seq<EventView>)
    requires
        task::task_after(TaskState::Reading, events) is Finishing,
    ensures
        exists|n: int|
            #![trigger events.subrange(0, n)]
            0 < n <= events.len() && (concludes(
                task::last_action(TaskState::Reading, events.subrange(0, n)),
            ) || (events[n - 1] is NoRequest && task::task_after(
                TaskState::Reading,
                events.subrange(0, n).drop_last(),
            ) is Reading)),
    decreases events.len(),
{
    let n = events.len() as int;
    let before = events.drop_last();
    assert(events.subrange(0, n) =~= events);
    if task::task_after(TaskState::Reading, before) is Finishing {
        finishing_was_called_for(before);
        let m = choose|m: int|
            #![trigger before.subrange(0, m)]
            0 < m <= before.len() && (concludes(
                task::last_action(TaskState::Reading, before.subrange(0, m)),
            ) || (before[m - 1] is NoRequest && task::task_after(
                TaskState::Reading,
                before.subrange(0, m).drop_last(),
            ) is Reading));
        assert(before.subrange(0, m) =~= events.subrange(0, m));
        assert(before[m - 1] == events[m - 1]);
    } else {
        assert(concludes(task::last_action(TaskState::Reading, events.subrange(0, n))));
    }
}

/// The head of a response: `100 Continue` goes out before it exactly where the
/// request waits for it and the response is no error. Once it is sent another
/// protocol takes over where that was asked for, and otherwise a response without
/// a body is finished and the body of any other is taken.
pub proof fn heads_are_sent(
    is_100_continue: bool,
    status: u16,
    end_stream: bool,
    first: bool,
    upgraded: bool,
)
    ensures
        ({
            let (waiting, call) = task::task_step(
                TaskState::Reading,
                EventView::Request { is_100_continue },
            );
            let (answered, answer) = task::task_step(
                waiting,
                EventView::Response { status, end_stream },
            );
            let invited = is_100_continue && (status < 400 || status >= 600);
            let (responding, response) = if invited {
                task::task_step(answered, EventView::Sent { upgraded: first })
            } else {
                (answered, answer)
            };
            let (after, next) = task::task_step(responding, EventView::Sent { upgraded });
            &&& call is CallHandler
            &&& invited <==> answer is SendContinue
            &&& response is SendResponse
            &&& next is HandOver <==> upgraded
            &&& next is Finish <==> !upgraded && end_stream
            &&& next is TakePart <==> !upgraded && !end_stream
            &&& next is HandOver ==> after is Done
            &&& next is TakePart ==> after is Streaming
            &&& next is Finish ==> task::task_step(after, EventView::Sent { upgraded: first }) == (
                TaskState::Done,
                ActionView::Nothing,
            )
        }),
{
}

/// Parts of a response body, each sent where there is something to send: the
/// state afterwards, and the data that was sent.
pub open spec fn parts_taken(state: TaskState, parts: Seq<Seq<u8>>) -> (TaskState, Seq<u8>)
    decreases parts.len(),
{
    if parts.len() == 0 {
        (state, Seq::empty())
    } else {
        let (before, sent) = parts_taken(state, parts.drop_last());
        let (after, action) = task::task_step(before, EventView::Data(parts.last()));
        match action {
            ActionView::SendData(data) => (
                task::task_step(after, EventView::Sent { upgraded: false }).0,
                sent + data,
            ),
            _ => (after, sent),
        }
    }
}

/// The body of a response goes out whole and in order, whatever parts it comes in,
/// and its end, with trailers or without, calls for the stream to be finished.
/// Trailers go out without the fields that HTTP/3 forbids.
pub proof fn bodies_are_sent_whole(parts: Seq<Seq<u8>>, trailers: Fields, upgraded: bool)
    ensures
        ({
            let (state, sent) = parts_taken(TaskState::Streaming, parts);
            let (finishing, end) = task::task_step(state, EventView::BodyEnd);
            let (trailing, last) = task::task_step(state, EventView::Trailers(trailers));
            &&& sent == parts.flatten()
            &&& end is Finish
            &&& last matches ActionView::SendTrailers(fields) && fields == request::http3_fields(
                trailers,
            )
            &&& task::task_step(trailing, EventView::Sent { upgraded }) == (finishing, end)
            &&& task::task_step(finishing, EventView::Sent { upgraded }) == (
                TaskState::Done,
                ActionView::Nothing,
            )
        }),
{
    parts_go_out(parts);
}

proof fn parts_go_out(parts: Seq<Seq<u8>>)
    ensures
        parts_taken(TaskState::Streaming, parts) == (TaskState::Streaming, parts.flatten()),
    decreases parts.len(),
{
    if parts.len() > 0 {
        let init = parts.drop_last();
        parts_go_out(init);
        parts.lemma_flatten_and_flatten_alt_are_equivalent();
        init.lemma_flatten_and_flatten_alt_are_equivalent();
        if parts.last().len() == 0 {
            assert(init.flatten() + parts.last() =~= init.flatten());
        }
    } else {
        assert(parts.flatten() =~= Seq::<u8>::empty());
    }
}

/// No part is sent without data in it, and what is neither data nor trailers is
/// passed over.
pub proof fn nothing_is_sent_for_nothing(data: Seq<u8>)
    ensures
        task::task_step(TaskState::Streaming, EventView::OtherPart) == (
            TaskState::Streaming,
            ActionView::TakePart,
        ),
        task::task_step(TaskState::Streaming, EventView::Data(data)).1 is TakePart <==> data.len()
            == 0,
{
}

/// What fails is reported, once, and ends the request, whatever was being done:
/// the handler, the response body, or sending anything but early hints, whose
/// failure is the handler's business.
pub proof fn failures_are_reported(state: TaskState)
    ensures
        ({
            let reported = (TaskState::Done, ActionView::Report);
            let failed = task::task_step(state, EventView::SendFailed);
            &&& state is Waiting ==> task::task_step(state, EventView::HandlerFailed) == reported
            &&& state is Streaming ==> task::task_step(state, EventView::BodyFailed) == reported
            &&& state is Inviting || state is Continuing || state is Responding || state is Sending
                || state is Trailing || state is Finishing ==> failed == reported
            &&& state matches TaskState::Hinting(wait) ==> failed == (
                TaskState::Waiting(wait),
                ActionView::AwaitHandler,
            )
        }),
{
}

/// Early hints are sent when they come, and then the handler goes on as before.
pub proof fn hints_are_sent(wait: ResponseWait, upgraded: bool)
    ensures
        ({
            let (hinting, action) = task::task_step(
                TaskState::Waiting(wait),
                EventView::Ready(WaitEvent::EarlyHints),
            );
            &&& action is SendEarlyHints
            &&& task::task_step(hinting, EventView::Sent { upgraded }) == (
                TaskState::Waiting(wait),
                ActionView::AwaitHandler,
            )
        }),
{
}

/// How many of the events called for `100 Continue`.
pub open spec fn continues_sent(events: Seq<EventView>) -> nat
    decreases events.len(),
{
    if events.len() == 0 {
        0
    } else {
        continues_sent(events.drop_last()) + if task::last_action(
            TaskState::Reading,
            events,
        ) is SendContinue {
            1nat
        } else {
            0
        }
    }
}

/// The request asks for `100 Continue`, as it was read.
pub open spec fn asked_for_continue(events: Seq<EventView>) -> bool
    decreases events.len(),
{
    if events.len() == 0 {
        false
    } else if task::last_action(TaskState::Reading, events) is CallHandler {
        events.last() == EventView::Request { is_100_continue: true }
    } else {
        asked_for_continue(events.drop_last())
    }
}

/// How often `100 Continue` was sent, by the state of the request.
spec fn continues_counted(events: Seq<EventView>) -> bool {
    let sent = continues_sent(events);
    let asked = asked_for_continue(events);
    match task::task_after(TaskState::Reading, events) {
        TaskState::Reading => sent == 0 && !asked,
        TaskState::Waiting(wait) | TaskState::Hinting(wait) | TaskState::Inviting(wait) => {
            &&& wait.is_100_continue == asked
            &&& sent == if wait.continue_sent {
                1nat
            } else {
                0
            }
            &&& wait.continue_sent ==> asked
        },
        TaskState::Continuing { .. } => asked && sent == 1,
        _ => sent <= 1 && (sent == 1 ==> asked),
    }
}

/// `100 Continue` is sent at most once for a request, and only where it was asked
/// for; and before a response that is no error it has been sent where it was.
pub proof fn continue_goes_out_once(events: Seq<EventView>)
    ensures
        continues_sent(events) <= 1,
        continues_sent(events) == 1 ==> asked_for_continue(events),
        events.len() > 0 && (task::last_action(TaskState::Reading, events) is SendResponse)
            && asked_for_continue(events) && !(events.last() matches EventView::Response {
            status,
            ..
        } && 400 <= status < 600) ==> continues_sent(events) == 1,
{
    continues_are_counted(events);
    if events.len() > 0 {
        continues_are_counted(events.drop_last());
    }
}

proof fn continues_are_counted(events: Seq<EventView>)
    ensures
        continues_counted(events),
    decreases events.len(),
{
    if events.len() > 0 {
        continues_are_counted(events.drop_last());
    }
}

/// A handler that waits for the body of a request that asked for it gets
/// `100 Continue` sent, while early hints may come.
pub proof fn waiting_for_the_body_invites_it(wait: ResponseWait, body_wanted: bool)
    requires
        wait.early_hints_open,
    ensures
        task::task_step(
            TaskState::Waiting(wait),
            EventView::Ready(WaitEvent::Nothing { body_wanted }),
        ).1 is SendContinue <==> body_wanted && wait.is_100_continue && !wait.continue_sent,
{
}

/// The fields that HTTP/3 forbids are gone.
pub proof fn forbidden_fields_are_gone(fields: Fields)
    ensures
        ({
            let kept = request::http3_fields(fields);
            &&& !kept.contains_key("connection".spec_bytes())
            &&& !kept.contains_key("keep-alive".spec_bytes())
            &&& !kept.contains_key("proxy-connection".spec_bytes())
            &&& !kept.contains_key("transfer-encoding".spec_bytes())
            &&& !kept.contains_key("upgrade".spec_bytes())
        }),
{
}

/// A field that HTTP/3 does not forbid.
pub open spec fn allowed(name: Seq<u8>) -> bool {
    &&& name != "connection".spec_bytes()
    &&& name != "keep-alive".spec_bytes()
    &&& name != "proxy-connection".spec_bytes()
    &&& name != "transfer-encoding".spec_bytes()
    &&& name != "upgrade".spec_bytes()
    &&& name != "te".spec_bytes()
}

proof fn names_differ()
    ensures
        allowed("date".spec_bytes()),
        allowed("content-length".spec_bytes()),
        "date".spec_bytes() != "content-length".spec_bytes(),
{
    reveal_strlit("connection");
    reveal_strlit("keep-alive");
    reveal_strlit("proxy-connection");
    reveal_strlit("transfer-encoding");
    reveal_strlit("upgrade");
    reveal_strlit("te");
    reveal_strlit("date");
    reveal_strlit("content-length");
    text::ascii_octets("connection"@);
    text::ascii_octets("keep-alive"@);
    text::ascii_octets("proxy-connection"@);
    text::ascii_octets("transfer-encoding"@);
    text::ascii_octets("upgrade"@);
    text::ascii_octets("te"@);
    text::ascii_octets("date"@);
    text::ascii_octets("content-length"@);
    assert("keep-alive".spec_bytes()[0] != "connection".spec_bytes()[0]);
}

/// A response goes out with a date, where there is one to send, and with the
/// length of its body, where that is known: those that the handler set, or else
/// the given ones, the length in digits that are read as it. No other field is
/// added, and none that is allowed is changed.
pub proof fn responses_are_completed(
    fields: Fields,
    date: Option<Seq<u8>>,
    length: Option<u64>,
    name: Seq<u8>,
)
    requires
        allowed(name),
    ensures
        ({
            let out = request::response_fields_of(fields, date, length);
            let dates = "date".spec_bytes();
            let lengths = "content-length".spec_bytes();
            &&& out.contains_key(name) == (fields.contains_key(name) || (name == dates
                && date is Some) || (name == lengths && length is Some))
            &&& fields.contains_key(name) ==> out[name] == fields[name]
            &&& !fields.contains_key(dates) && date is Some ==> out[dates] == seq![date->0]
            &&& !fields.contains_key(lengths) && length is Some ==> {
                &&& out[lengths].len() == 1
                &&& numbers::all_digits(out[lengths][0])
                &&& numbers::decimal_value(out[lengths][0]) == length->0
            }
        }),
{
    names_differ();
    if let Some(n) = length {
        text::decimal_octets_are_read_back(n as nat);
    }
}

/// A request expects `100 Continue` where its first `expect` says so, in whatever
/// case, and nowhere else.
pub proof fn expectation_is_read(fields: Fields, value: Seq<u8>)
    requires
        fields.contains_key("expect".spec_bytes()),
        fields["expect".spec_bytes()][0] == value,
    ensures
        request::expects_continue(fields) <==> value.len() == 12 && forall|i: int|
            0 <= i < 12 ==> headers::lower(#[trigger] value[i]) == "100-continue".spec_bytes()[i],
        !request::expects_continue(fields.remove("expect".spec_bytes())),
{
    reveal_strlit("100-continue");
    text::ascii_octets("100-continue"@);
    let word = "100-continue".spec_bytes();
    assert forall|i: int| 0 <= i < word.len() implies headers::lower(#[trigger] word[i])
        == word[i] by {}
}

/// The request streams that arrive, one after the other.
pub open spec fn arrivals(d: DriverView, ids: Seq<u64>) -> DriverView
    decreases ids.len(),
{
    if ids.len() == 0 {
        d
    } else {
        arrivals(d, ids.drop_last()).arrived(ids.last())
    }
}

/// Whatever order request streams arrive in, the GOAWAY of a graceful shutdown
/// names the highest of them, and all of them are still served.
pub proof fn goaway_names_the_highest_request(d: DriverView, ids: Seq<u64>, cause: Cause, i: int)
    requires
        !d.shutdown,
        d.closing_with is None,
        d.goaway_sent is None,
        d.last_request_id == 0,
        0 <= i < ids.len(),
    ensures
        ({
            let closing = arrivals(d, ids).shut_down(cause);
            let last = closing.goaway_due();
            &&& last is Some
            &&& ids[i] <= last->0
            &&& ids.contains(last->0) || last == Some(0u64)
            &&& closing.closing_step().serves(ids[i])
            &&& closing.closing_step().goaway_due() is None
        }),
{
    arrivals_are_bounded(d, ids);
    assert(ids.contains(ids[i]));
}

proof fn arrivals_are_bounded(d: DriverView, ids: Seq<u64>)
    ensures
        ({
            let after = arrivals(d, ids);
            &&& after == (DriverView { last_request_id: after.last_request_id, ..d })
            &&& after.last_request_id >= d.last_request_id
            &&& forall|id: u64| #[trigger] ids.contains(id) ==> id <= after.last_request_id
            &&& after.last_request_id == d.last_request_id || ids.contains(after.last_request_id)
        }),
    decreases ids.len(),
{
    if ids.len() > 0 {
        let init = ids.drop_last();
        arrivals_are_bounded(d, init);
        let after = arrivals(d, ids);
        assert forall|id: u64| #[trigger] ids.contains(id) implies id <= after.last_request_id by {
            let i = choose|i: int| 0 <= i < ids.len() && ids[i] == id;
            if i < init.len() {
                assert(init[i] == id);
                assert(init.contains(id));
            }
        }
        if init.contains(after.last_request_id) {
            let i = choose|i: int| 0 <= i < init.len() && init[i] == after.last_request_id;
            assert(ids[i] == after.last_request_id);
        }
        if after.last_request_id == ids.last() {
            assert(ids[ids.len() - 1] == after.last_request_id);
        }
    }
}

/// A connection that is open serves every request; one that shuts down serves
/// none before its GOAWAY says which.
pub proof fn open_connections_serve(d: DriverView, id: u64, cause: Cause)
    requires
        d.inv(),
        !d.shutdown,
    ensures
        d.serves(id),
        !d.shut_down(cause).serves(id),
        d.goaway_due() is None,
        d.closing(true) == Closing::Open,
        d.closing(false) == Closing::Open,
{
}

/// Why a connection first began to shut down decides how it ends: cleanly where
/// that was asked for, by the accept timeout, or by a protocol error. What comes
/// later does not change it.
pub proof fn first_cause_decides(d: DriverView, code: u64, later: Cause, detail: Seq<char>)
    requires
        d.inv(),
        !d.shutdown,
    ensures
        ({
            let asked = d.shut_down(Cause::Asked);
            let late = d.shut_down(Cause::AcceptTimeout);
            let broken = d.close_with(code);
            let failed = d.control_failed(code, detail);
            &&& d.conclusion() is Clean
            &&& asked.shut_down(later) == asked
            &&& late.shut_down(later) == late
            &&& broken.shut_down(later) == broken
            &&& failed.shut_down(later) == failed
            &&& asked.conclusion() is Clean
            &&& late.conclusion() is AcceptTimeout
            &&& asked.close_with(code).conclusion() is Clean
            &&& late.close_with(code).conclusion() is AcceptTimeout
            &&& broken.conclusion() is Protocol
            &&& failed.conclusion() is Protocol
        }),
{
}

/// A protocol error closes the connection at once with its code, whatever is in
/// flight and whatever went before, and no GOAWAY is sent for it.
pub proof fn protocol_errors_close_at_once(
    d: DriverView,
    code: u64,
    detail: Seq<char>,
    in_flight: bool,
)
    requires
        d.inv(),
        d.closing_with is None,
    ensures
        d.close_with(code).closing(in_flight) == Closing::CloseNow(code),
        d.close_with(code).goaway_due() is None,
        !d.shutdown ==> d.control_failed(code, detail).closing(in_flight) == Closing::CloseNow(
            code,
        ),
        !d.shutdown ==> d.control_failed(code, detail).goaway_due() is None,
{
}

/// The control plane may go away while the connection shuts down: the shutdown
/// goes on as before.
pub proof fn control_may_go_away(d: DriverView, code: u64, detail: Seq<char>, in_flight: bool)
    requires
        d.inv(),
        d.shutdown,
    ensures
        ({
            let after = d.control_failed(code, detail);
            &&& after.inv()
            &&& after.control_dead
            &&& after.closing(in_flight) == d.closing(in_flight)
            &&& after.goaway_due() == d.goaway_due()
            &&& after.conclusion() == d.conclusion()
        }),
{
}

/// A protocol error ends with a message that tells the code and the detail: it
/// has more in it than the detail, and ends with it.
pub proof fn protocol_errors_are_told(d: DriverView, code: u64, detail: Seq<char>)
    requires
        d.inv(),
        !d.shutdown,
    ensures
        d.control_failed(code, detail).conclusion() matches ConclusionView::Protocol(message)
            && message.len() > detail.len() && message.subrange(
            message.len() - detail.len(),
            message.len() as int,
        ) == detail,
{
    if let ConclusionView::Protocol(message) = d.control_failed(code, detail).conclusion() {
        reveal_strlit(": ");
        assert(message.subrange(message.len() - detail.len(), message.len() as int) =~= detail);
    }
}

/// Without a budget, requests that cannot be read never close the connection for
/// it, however many there are; and neither kind counts against the other's budget.
pub proof fn no_budget_never_closes(state: ConnResetState, codes: Seq<u64>)
    requires
        state.close_code is None,
    ensures
        ({
            let messages = resets::failures(state, RequestFailure::Message, codes);
            let streams = resets::failures(state, RequestFailure::StreamScoped, codes);
            &&& messages.limits == state.limits
            &&& streams.limits == state.limits
            &&& messages.pending_accept_resets == state.pending_accept_resets
            &&& streams.local_error_resets == state.local_error_resets
            &&& state.limits.max_local_error_resets is None ==> messages.close_code is None
            &&& state.limits.max_pending_accept_resets is None ==> streams.close_code is None
        }),
    decreases codes.len(),
{
    if codes.len() > 0 {
        no_budget_never_closes(state, codes.drop_last());
    }
}

/// A violation that concerns the connection closes it with its own code, whatever
/// the budgets are, and counts against none.
pub proof fn connection_violations_close(state: ConnResetState, code: u64)
    ensures
        ({
            let after = state.request_failed(RequestFailure::ConnectionScoped, code);
            &&& after.close_code == Some(code)
            &&& after.local_error_resets == state.local_error_resets
            &&& after.pending_accept_resets == state.pending_accept_resets
            &&& after.limits == state.limits
        }),
{
}

/// Too many resets are answered with `H3_EXCESSIVE_LOAD`, a rejected request with
/// `H3_REQUEST_REJECTED`, and a clean end with `H3_NO_ERROR`: the codes of RFC
/// 9114 Section 8.1 stand in a row, in the order in which the errors are listed.
pub proof fn codes_stand_in_a_row()
    ensures
        H3Error::NoError.code() == super::driver::H3_NO_ERROR,
        H3Error::RequestRejected.code() == super::driver::H3_REQUEST_REJECTED,
        H3Error::ExcessiveLoad.code() == H3Error::NoError.code() + 7,
        H3Error::VersionFallback.code() == H3Error::NoError.code() + 16,
{
}

/// Either trigger shuts an open connection down, and without one it goes on.
/// Being asked to is a clean end whatever else is due; the accept timeout is one
/// of its own only where it comes alone. A connection that shuts down already is
/// not changed by either.
pub proof fn triggers_shut_down(d: DriverView, cancel_fired: bool, timeout_fired: bool)
    requires
        d.inv(),
    ensures
        ({
            let after = d.triggered(cancel_fired, timeout_fired);
            &&& d.shutdown ==> after == d
            &&& !d.shutdown ==> {
                &&& after.shutdown <==> cancel_fired || timeout_fired
                &&& after.conclusion() is AcceptTimeout <==> timeout_fired && !cancel_fired
                &&& after.conclusion() is AcceptTimeout || after.conclusion() is Clean
                &&& after.goaway_due() is Some <==> after.shutdown
                &&& after.last_request_id == d.last_request_id
            }
        }),
{
}

} // verus!
