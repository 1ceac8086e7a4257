//! The course of one request, from its first frame to the end of its response.

use bytes::Bytes;
use http::HeaderMap;
use vstd::prelude::*;

use super::request::{
    self, body_action, BodyAction, BodyPart, ResponseWait, WaitAction, WaitEvent,
};
use crate::headers::HeaderView;
use crate::octets::OctetView;

verus! {

/// How far a request has come.
#[derive(Debug, Clone, Copy, PartialEq, Eq, Structural)]
pub enum TaskState {
    /// The request is being read.
    Reading,
    /// The handler works on its response.
    Waiting(ResponseWait),
    /// A `103 Early Hints` response is being sent.
    Hinting(ResponseWait),
    /// A `100 Continue` response is being sent, because the handler waits for
    /// the body.
    Inviting(ResponseWait),
    /// A `100 Continue` response is being sent, just before the response.
    Continuing { end_stream: bool },
    /// The head of the response is being sent.
    Responding { end_stream: bool },
    /// The next part of the response body is awaited.
    Streaming,
    /// A DATA frame is being sent.
    Sending,
    /// The trailers are being sent.
    Trailing,
    /// The stream is being finished.
    Finishing,
    /// There is nothing left to do.
    Done,
}

/// What happened.
#[derive(Debug)]
pub enum TaskEvent {
    /// The request was read; it may ask for `100 Continue`.
    Request { is_100_continue: bool },
    /// The stream ended without a request, or its request could not be read.
    NoRequest,
    /// Early hints are ready, or will not come any more, or nothing is ready.
    Ready(WaitEvent),
    /// The handler's response, which may have no body.
    Response { status: u16, end_stream: bool },
    /// The handler failed.
    HandlerFailed,
    /// What was to be sent was sent. Another protocol takes over the stream
    /// where `upgraded` is set.
    Sent { upgraded: bool },
    /// What was to be sent could not be sent.
    SendFailed,
    /// The next part of the response body.
    Part(BodyPart),
    /// The response body ended.
    BodyEnd,
    /// The response body failed.
    BodyFailed,
}

/// What to do.
#[derive(Debug)]
pub enum TaskAction {
    /// Call the handler.
    CallHandler,
    /// Wait for the handler.
    AwaitHandler,
    /// Send the `103 Early Hints` response.
    SendEarlyHints,
    /// Send a `100 Continue` response.
    SendContinue,
    /// Send the head of the response.
    SendResponse,
    /// Take the next part of the response body.
    TakePart,
    SendData(Bytes),
    SendTrailers(HeaderMap),
    /// Finish the stream.
    Finish,
    /// Hand the stream over to the other protocol.
    HandOver,
    /// Report the failure.
    Report,
    /// Nothing.
    Nothing,
}

/// What a [`TaskEvent`] says.
#[verifier::ext_equal]
pub enum EventView {
    Request { is_100_continue: bool },
    NoRequest,
    Ready(WaitEvent),
    Response { status: u16, end_stream: bool },
    HandlerFailed,
    Sent { upgraded: bool },
    SendFailed,
    /// A part of the body with these octets.
    Data(Seq<u8>),
    Trailers(request::Fields),
    OtherPart,
    BodyEnd,
    BodyFailed,
}

/// What a [`TaskAction`] says.
#[verifier::ext_equal]
pub enum ActionView {
    CallHandler,
    AwaitHandler,
    SendEarlyHints,
    SendContinue,
    SendResponse,
    TakePart,
    SendData(Seq<u8>),
    SendTrailers(request::Fields),
    Finish,
    HandOver,
    Report,
    Nothing,
}

impl View for TaskEvent {
    type V = EventView;

    open spec fn view(&self) -> EventView {
        match *self {
            TaskEvent::Request { is_100_continue } => EventView::Request { is_100_continue },
            TaskEvent::NoRequest => EventView::NoRequest,
            TaskEvent::Ready(event) => EventView::Ready(event),
            TaskEvent::Response { status, end_stream } => EventView::Response {
                status,
                end_stream,
            },
            TaskEvent::HandlerFailed => EventView::HandlerFailed,
            TaskEvent::Sent { upgraded } => EventView::Sent { upgraded },
            TaskEvent::SendFailed => EventView::SendFailed,
            TaskEvent::Part(BodyPart::Data(data)) => EventView::Data(data@),
            TaskEvent::Part(BodyPart::Trailers(trailers)) => EventView::Trailers(trailers@),
            TaskEvent::Part(BodyPart::Other) => EventView::OtherPart,
            TaskEvent::BodyEnd => EventView::BodyEnd,
            TaskEvent::BodyFailed => EventView::BodyFailed,
        }
    }
}

impl View for TaskAction {
    type V = ActionView;

    open spec fn view(&self) -> ActionView {
        match *self {
            TaskAction::CallHandler => ActionView::CallHandler,
            TaskAction::AwaitHandler => ActionView::AwaitHandler,
            TaskAction::SendEarlyHints => ActionView::SendEarlyHints,
            TaskAction::SendContinue => ActionView::SendContinue,
            TaskAction::SendResponse => ActionView::SendResponse,
            TaskAction::TakePart => ActionView::TakePart,
            TaskAction::SendData(data) => ActionView::SendData(data@),
            TaskAction::SendTrailers(trailers) => ActionView::SendTrailers(trailers@),
            TaskAction::Finish => ActionView::Finish,
            TaskAction::HandOver => ActionView::HandOver,
            TaskAction::Report => ActionView::Report,
            TaskAction::Nothing => ActionView::Nothing,
        }
    }
}

/// The state after an event, and what to do. An event that does not fit the
/// state changes nothing.
pub open spec fn task_step(state: TaskState, event: EventView) -> (TaskState, ActionView) {
    match (state, event) {
        (TaskState::Reading, EventView::Request { is_100_continue }) => (
            TaskState::Waiting(
                ResponseWait { is_100_continue, early_hints_open: true, continue_sent: false },
            ),
            ActionView::CallHandler,
        ),
        (TaskState::Reading, EventView::NoRequest) => (TaskState::Done, ActionView::Nothing),
        (TaskState::Waiting(wait), EventView::Ready(ready)) => if ready is EarlyHints {
            (TaskState::Hinting(wait), ActionView::SendEarlyHints)
        } else if wait.continue_due(ready) {
            (TaskState::Inviting(wait.after(ready)), ActionView::SendContinue)
        } else {
            (TaskState::Waiting(wait.after(ready)), ActionView::AwaitHandler)
        },
        (TaskState::Waiting(wait), EventView::Response { status, end_stream }) => if wait.owes_continue(
            status,
        ) {
            (TaskState::Continuing { end_stream }, ActionView::SendContinue)
        } else {
            (TaskState::Responding { end_stream }, ActionView::SendResponse)
        },
        (TaskState::Waiting(_), EventView::HandlerFailed) => (TaskState::Done, ActionView::Report),
        // Whether early hints could be sent is the handler's business.
        (TaskState::Hinting(wait), EventView::Sent { .. }) => (
            TaskState::Waiting(wait),
            ActionView::AwaitHandler,
        ),
        (TaskState::Hinting(wait), EventView::SendFailed) => (
            TaskState::Waiting(wait),
            ActionView::AwaitHandler,
        ),
        (TaskState::Inviting(wait), EventView::Sent { .. }) => (
            TaskState::Waiting(wait),
            ActionView::AwaitHandler,
        ),
        (TaskState::Continuing { end_stream }, EventView::Sent { .. }) => (
            TaskState::Responding { end_stream },
            ActionView::SendResponse,
        ),
        (TaskState::Responding { end_stream }, EventView::Sent { upgraded }) => if upgraded {
            (TaskState::Done, ActionView::HandOver)
        } else if end_stream {
            (TaskState::Finishing, ActionView::Finish)
        } else {
            (TaskState::Streaming, ActionView::TakePart)
        },
        // No bandwidth is wasted on empty frames.
        (TaskState::Streaming, EventView::Data(data)) => if data.len() == 0 {
            (TaskState::Streaming, ActionView::TakePart)
        } else {
            (TaskState::Sending, ActionView::SendData(data))
        },
        (TaskState::Streaming, EventView::OtherPart) => (
            TaskState::Streaming,
            ActionView::TakePart,
        ),
        (TaskState::Streaming, EventView::Trailers(trailers)) => (
            TaskState::Trailing,
            ActionView::SendTrailers(request::http3_fields(trailers)),
        ),
        (TaskState::Streaming, EventView::BodyEnd) => (TaskState::Finishing, ActionView::Finish),
        (TaskState::Streaming, EventView::BodyFailed) => (TaskState::Done, ActionView::Report),
        (TaskState::Sending, EventView::Sent { .. }) => (
            TaskState::Streaming,
            ActionView::TakePart,
        ),
        (TaskState::Trailing, EventView::Sent { .. }) => (
            TaskState::Finishing,
            ActionView::Finish,
        ),
        (TaskState::Finishing, EventView::Sent { .. }) => (TaskState::Done, ActionView::Nothing),
        (TaskState::Inviting(_), EventView::SendFailed) => (TaskState::Done, ActionView::Report),
        (TaskState::Continuing { .. }, EventView::SendFailed) => (
            TaskState::Done,
            ActionView::Report,
        ),
        (TaskState::Responding { .. }, EventView::SendFailed) => (
            TaskState::Done,
            ActionView::Report,
        ),
        (TaskState::Sending, EventView::SendFailed) => (TaskState::Done, ActionView::Report),
        (TaskState::Trailing, EventView::SendFailed) => (TaskState::Done, ActionView::Report),
        (TaskState::Finishing, EventView::SendFailed) => (TaskState::Done, ActionView::Report),
        _ => (state, ActionView::Nothing),
    }
}

/// One request on its way through the server.
#[derive(Debug)]
pub struct RequestTask {
    pub state: TaskState,
}

impl RequestTask {
    /// A request that is to be read.
    pub fn new() -> (task: RequestTask)
        ensures
            task.state == TaskState::Reading,
    {
        RequestTask { state: TaskState::Reading }
    }

    /// Takes what happened: what to do next.
    pub fn step(&mut self, event: TaskEvent) -> (action: TaskAction)
        ensures
            (final(self).state, action@) == task_step(old(self).state, event@),
    {
        match self.state {
            TaskState::Reading => match event {
                TaskEvent::Request { is_100_continue } => {
                    self.state = TaskState::Waiting(ResponseWait::new(is_100_continue));
                    TaskAction::CallHandler
                },
                TaskEvent::NoRequest => {
                    self.state = TaskState::Done;
                    TaskAction::Nothing
                },
                _ => TaskAction::Nothing,
            },
            TaskState::Waiting(wait) => self.waiting(wait, event),
            TaskState::Hinting(wait) => match event {
                TaskEvent::Sent { .. } => self.wait_on(wait),
                TaskEvent::SendFailed => self.wait_on(wait),
                _ => TaskAction::Nothing,
            },
            TaskState::Inviting(wait) => match event {
                TaskEvent::Sent { .. } => self.wait_on(wait),
                TaskEvent::SendFailed => self.fail(),
                _ => TaskAction::Nothing,
            },
            TaskState::Continuing { end_stream } => match event {
                TaskEvent::Sent { .. } => {
                    self.state = TaskState::Responding { end_stream };
                    TaskAction::SendResponse
                },
                TaskEvent::SendFailed => self.fail(),
                _ => TaskAction::Nothing,
            },
            TaskState::Responding { end_stream } => match event {
                TaskEvent::Sent { upgraded } => {
                    if upgraded {
                        self.state = TaskState::Done;
                        TaskAction::HandOver
                    } else if end_stream {
                        self.state = TaskState::Finishing;
                        TaskAction::Finish
                    } else {
                        self.state = TaskState::Streaming;
                        TaskAction::TakePart
                    }
                },
                TaskEvent::SendFailed => self.fail(),
                _ => TaskAction::Nothing,
            },
            TaskState::Streaming => self.streaming(event),
            TaskState::Sending => match event {
                TaskEvent::Sent { .. } => {
                    self.state = TaskState::Streaming;
                    TaskAction::TakePart
                },
                TaskEvent::SendFailed => self.fail(),
                _ => TaskAction::Nothing,
            },
            TaskState::Trailing => match event {
                TaskEvent::Sent { .. } => {
                    self.state = TaskState::Finishing;
                    TaskAction::Finish
                },
                TaskEvent::SendFailed => self.fail(),
                _ => TaskAction::Nothing,
            },
            TaskState::Finishing => match event {
                TaskEvent::Sent { .. } => {
                    self.state = TaskState::Done;
                    TaskAction::Nothing
                },
                TaskEvent::SendFailed => self.fail(),
                _ => TaskAction::Nothing,
            },
            TaskState::Done => TaskAction::Nothing,
        }
    }

    /// The handler goes on.
    fn wait_on(&mut self, wait: ResponseWait) -> (action: TaskAction)
        ensures
            final(self).state == TaskState::Waiting(wait),
            action@ == ActionView::AwaitHandler,
    {
        self.state = TaskState::Waiting(wait);
        TaskAction::AwaitHandler
    }

    /// The request has failed.
    fn fail(&mut self) -> (action: TaskAction)
        ensures
            final(self).state == TaskState::Done,
            action@ == ActionView::Report,
    {
        self.state = TaskState::Done;
        TaskAction::Report
    }

    /// The handler works on its response.
    fn waiting(&mut self, wait: ResponseWait, event: TaskEvent) -> (action: TaskAction)
        requires
            old(self).state == TaskState::Waiting(wait),
        ensures
            (final(self).state, action@) == task_step(old(self).state, event@),
    {
        let mut wait = wait;
        match event {
            TaskEvent::Ready(ready) => match wait.advance(ready) {
                WaitAction::SendEarlyHints => {
                    self.state = TaskState::Hinting(wait);
                    TaskAction::SendEarlyHints
                },
                WaitAction::SendContinue => {
                    self.state = TaskState::Inviting(wait);
                    TaskAction::SendContinue
                },
                _ => self.wait_on(wait),
            },
            TaskEvent::Response { status, end_stream } => {
                if wait.continue_before_response(status) {
                    self.state = TaskState::Continuing { end_stream };
                    TaskAction::SendContinue
                } else {
                    self.state = TaskState::Responding { end_stream };
                    TaskAction::SendResponse
                }
            },
            TaskEvent::HandlerFailed => self.fail(),
            _ => TaskAction::Nothing,
        }
    }

    /// The next part of the response body is awaited.
    fn streaming(&mut self, event: TaskEvent) -> (action: TaskAction)
        requires
            old(self).state == TaskState::Streaming,
        ensures
            (final(self).state, action@) == task_step(old(self).state, event@),
    {
        match event {
            TaskEvent::Part(part) => match body_action(part) {
                BodyAction::Skip => TaskAction::TakePart,
                BodyAction::SendData(data) => {
                    self.state = TaskState::Sending;
                    TaskAction::SendData(data)
                },
                BodyAction::SendTrailers(trailers) => {
                    self.state = TaskState::Trailing;
                    TaskAction::SendTrailers(trailers)
                },
            },
            TaskEvent::BodyEnd => {
                self.state = TaskState::Finishing;
                TaskAction::Finish
            },
            TaskEvent::BodyFailed => self.fail(),
            _ => TaskAction::Nothing,
        }
    }
}

/// The state after events, one after the other.
pub open spec fn task_after(state: TaskState, events: Seq<EventView>) -> TaskState
    decreases events.len(),
{
    if events.len() == 0 {
        state
    } else {
        task_step(task_after(state, events.drop_last()), events.last()).0
    }
}

/// What the last of the events calls for.
pub open spec fn last_action(state: TaskState, events: Seq<EventView>) -> ActionView {
    task_step(task_after(state, events.drop_last()), events.last()).1
}

/// How far a request has come, as a number.
pub open spec fn progress(state: TaskState) -> int {
    match state {
        TaskState::Reading => 0,
        TaskState::Waiting(_) | TaskState::Hinting(_) | TaskState::Inviting(_) => 1,
        TaskState::Continuing { .. } => 2,
        TaskState::Responding { .. } => 3,
        TaskState::Streaming | TaskState::Sending => 4,
        TaskState::Trailing => 5,
        TaskState::Finishing => 6,
        TaskState::Done => 7,
    }
}

/// An interim response.
pub open spec fn is_interim(action: ActionView) -> bool {
    action is SendEarlyHints || action is SendContinue
}

proof fn progress_is_made(state: TaskState, events: Seq<EventView>, n: int)
    requires
        0 <= n <= events.len(),
    ensures
        progress(task_after(state, events.subrange(0, n))) <= progress(task_after(state, events)),
    decreases events.len() - n,
{
    if n == events.len() {
        assert(events.subrange(0, n) =~= events);
    } else {
        let longer = events.subrange(0, n + 1);
        assert(longer.drop_last() =~= events.subrange(0, n));
        progress_is_made(state, events, n + 1);
    }
}

/// What is sent for a request comes in order: interim responses, then the
/// response, then data, then trailers, then the end of the stream. The response,
/// the trailers and the end are sent at most once. Here the events up to `n` and
/// all the events each end with something being sent.
pub proof fn messages_come_in_order(state: TaskState, events: Seq<EventView>, n: int)
    requires
        0 < n < events.len(),
    ensures
        ({
            let earlier = last_action(state, events.subrange(0, n));
            let later = last_action(state, events);
            &&& earlier is SendResponse ==> !is_interim(later) && !(later is SendResponse)
            &&& earlier is SendData ==> !is_interim(later) && !(later is SendResponse)
            &&& earlier is SendTrailers ==> !is_interim(later) && !(later is SendResponse) && !(
            later is SendData) && !(later is SendTrailers)
            &&& earlier is Finish ==> !is_interim(later) && !(later is SendResponse) && !(
            later is SendData) && !(later is SendTrailers) && !(later is Finish)
            &&& earlier is Report || earlier is HandOver ==> later is Nothing
        }),
{
    let before = events.drop_last();
    let first = events.subrange(0, n);
    assert(before.subrange(0, n) =~= first);
    progress_is_made(state, before, n);
}

/// Where data or trailers are sent, the response was sent before.
pub proof fn response_comes_first(events: Seq<EventView>)
    requires
        events.len() > 0,
        last_action(TaskState::Reading, events) is SendData || last_action(
            TaskState::Reading,
            events,
        ) is SendTrailers,
    ensures
        exists|n: int|
            0 < n < events.len() && last_action(
                TaskState::Reading,
                #[trigger] events.subrange(0, n),
            ) is SendResponse,
{
    response_was_sent(events.drop_last());
    let before = events.drop_last();
    let n = choose|n: int|
        0 < n <= before.len() && last_action(
            TaskState::Reading,
            #[trigger] before.subrange(0, n),
        ) is SendResponse;
    assert(before.subrange(0, n) =~= events.subrange(0, n));
}

proof fn response_was_sent(events: Seq<EventView>)
    requires
        3 <= progress(task_after(TaskState::Reading, events)) <= 5,
    ensures
        exists|n: int|
            0 < n <= events.len() && last_action(
                TaskState::Reading,
                #[trigger] events.subrange(0, n),
            ) is SendResponse,
    decreases events.len(),
{
    let before = events.drop_last();
    if progress(task_after(TaskState::Reading, before)) < 3 {
        let n = events.len() as int;
        assert(events.subrange(0, n) =~= events);
        assert(last_action(TaskState::Reading, events.subrange(0, n)) is SendResponse);
    } else {
        response_was_sent(before);
        let n = choose|n: int|
            0 < n <= before.len() && last_action(
                TaskState::Reading,
                #[trigger] before.subrange(0, n),
            ) is SendResponse;
        assert(before.subrange(0, n) =~= events.subrange(0, n));
    }
}

/// After a failure or a hand-over, and once the stream is finished, nothing more
/// is done.
pub proof fn done_stays_done(events: Seq<EventView>)
    ensures
        task_after(TaskState::Done, events) == TaskState::Done,
    decreases events.len(),
{
    if events.len() > 0 {
        done_stays_done(events.drop_last());
    }
}

} // verus!
