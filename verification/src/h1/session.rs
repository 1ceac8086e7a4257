//! The course of a connection: requests are read, served and answered one after
//! the other.

use vstd::prelude::*;

use super::exchange::{
    self, after_response, continue_before_response, read_verdict, AfterResponse, ReadOutcome,
    ReadVerdict, RequestFacts, Version,
};

verus! {

/// What is known of the request that is served.
#[derive(Debug, Clone, Copy, PartialEq, Eq, Structural)]
pub struct Served {
    pub version: Version,
    pub facts: RequestFacts,
    /// The client waits for `100 Continue` before it sends the body.
    pub expects_continue: bool,
}

/// How far a connection has come.
#[derive(Debug, Clone, Copy, PartialEq, Eq, Structural)]
pub enum SessionState {
    /// The next request is awaited.
    Reading,
    /// The handler works on its response, while the body is read.
    Serving(Served),
    /// A `100 Continue` response is being sent, just before the response.
    Continuing { served: Served, upgraded: bool },
    /// The response is being sent.
    Responding { served: Served, upgraded: bool },
    /// The answer to a request that could not be read is being sent.
    Refusing,
    /// The connection has ended.
    Ended,
}

/// What happened.
#[derive(Debug, Clone, Copy, PartialEq, Eq, Structural)]
pub enum SessionEvent {
    /// A request was read.
    Request(Served),
    /// No request was read; the connection may have been idle.
    NoRequest { outcome: ReadOutcome, idle: bool },
    /// The handler's response. `100 Continue` may have been sent while the body
    /// was read, and the handler may ask that another protocol take over.
    Response { status: u16, continue_sent: bool, upgraded: bool },
    /// The handler failed, or the body could not be read.
    Failed,
    /// What was to be sent was sent. The server may be shutting down.
    Sent { cancelled: bool },
    /// What was to be sent could not be sent.
    SendFailed,
}

/// What to do.
#[derive(Debug, Clone, Copy, PartialEq, Eq, Structural)]
pub enum SessionAction {
    /// Read the next request.
    ReadRequest,
    /// Call the handler and read the body.
    Serve,
    /// Answer with an error response that closes the connection.
    Refuse { is_timeout: bool },
    /// Send a `100 Continue` response.
    SendContinue,
    /// Send the response, marked with what becomes of the connection.
    SendResponse { keep_alive: bool, upgraded: bool },
    /// Hand the transport over to the other protocol.
    HandOver,
    /// End the connection without an error.
    Finish,
    /// End the connection with the error that occurred.
    Fail,
    /// Nothing.
    Nothing,
}

/// The response goes out.
pub open spec fn responding(served: Served, upgraded: bool) -> (SessionState, SessionAction) {
    (
        SessionState::Responding { served, upgraded },
        SessionAction::SendResponse { keep_alive: served.facts.keep_alive, upgraded },
    )
}

/// The state after an event, and what to do. An event that does not fit the
/// state changes nothing.
pub open spec fn session_step(state: SessionState, event: SessionEvent) -> (
    SessionState,
    SessionAction,
) {
    match (state, event) {
        (SessionState::Reading, SessionEvent::Request(served)) => (
            SessionState::Serving(served),
            SessionAction::Serve,
        ),
        (SessionState::Reading, SessionEvent::NoRequest { outcome, idle }) =>
            match exchange::verdict_on(outcome, idle) {
                ReadVerdict::Refuse { is_timeout } => (
                    SessionState::Refusing,
                    SessionAction::Refuse { is_timeout },
                ),
                ReadVerdict::Finish => (SessionState::Ended, SessionAction::Finish),
                ReadVerdict::Serve => (state, SessionAction::Nothing),
            },
        (SessionState::Serving(served), SessionEvent::Response { status, continue_sent, upgraded }) =>
            if !continue_sent && served.expects_continue && !(400 <= status < 600) {
                (SessionState::Continuing { served, upgraded }, SessionAction::SendContinue)
            } else {
                responding(served, upgraded)
            },
        (SessionState::Serving(_), SessionEvent::Failed) => (
            SessionState::Ended,
            SessionAction::Fail,
        ),
        (SessionState::Continuing { served, upgraded }, SessionEvent::Sent { .. }) => responding(
            served,
            upgraded,
        ),
        (SessionState::Responding { served, upgraded }, SessionEvent::Sent { cancelled }) =>
            if upgraded {
                (SessionState::Ended, SessionAction::HandOver)
            } else if cancelled || !served.facts.keep_alive {
                (SessionState::Ended, SessionAction::Finish)
            } else {
                (SessionState::Reading, SessionAction::ReadRequest)
            },
        // The error that was answered ends the connection, sent or not.
        (SessionState::Refusing, SessionEvent::Sent { .. }) => (
            SessionState::Ended,
            SessionAction::Fail,
        ),
        (SessionState::Refusing, SessionEvent::SendFailed) => (
            SessionState::Ended,
            SessionAction::Fail,
        ),
        (SessionState::Continuing { .. }, SessionEvent::SendFailed) => (
            SessionState::Ended,
            SessionAction::Fail,
        ),
        (SessionState::Responding { .. }, SessionEvent::SendFailed) => (
            SessionState::Ended,
            SessionAction::Fail,
        ),
        _ => (state, SessionAction::Nothing),
    }
}

/// A connection on its way from request to request.
#[derive(Debug)]
pub struct Session {
    pub state: SessionState,
}

impl Session {
    /// A connection whose first request is to be read.
    pub fn new() -> (session: Session)
        ensures
            session.state == SessionState::Reading,
    {
        Session { state: SessionState::Reading }
    }

    /// Takes what happened: what to do next.
    pub fn step(&mut self, event: SessionEvent) -> (action: SessionAction)
        ensures
            (final(self).state, action) == session_step(old(self).state, event),
    {
        match self.state {
            SessionState::Reading => match event {
                SessionEvent::Request(served) => {
                    self.state = SessionState::Serving(served);
                    SessionAction::Serve
                },
                SessionEvent::NoRequest { outcome, idle } => match read_verdict(outcome, idle) {
                    ReadVerdict::Refuse { is_timeout } => {
                        self.state = SessionState::Refusing;
                        SessionAction::Refuse { is_timeout }
                    },
                    ReadVerdict::Finish => {
                        self.state = SessionState::Ended;
                        SessionAction::Finish
                    },
                    ReadVerdict::Serve => SessionAction::Nothing,
                },
                _ => SessionAction::Nothing,
            },
            SessionState::Serving(served) => match event {
                SessionEvent::Response { status, continue_sent, upgraded } => {
                    if continue_before_response(continue_sent, served.expects_continue, status) {
                        self.state = SessionState::Continuing { served, upgraded };
                        SessionAction::SendContinue
                    } else {
                        self.respond(served, upgraded)
                    }
                },
                SessionEvent::Failed => self.fail(),
                _ => SessionAction::Nothing,
            },
            SessionState::Continuing { served, upgraded } => match event {
                SessionEvent::Sent { .. } => self.respond(served, upgraded),
                SessionEvent::SendFailed => self.fail(),
                _ => SessionAction::Nothing,
            },
            SessionState::Responding { served, upgraded } => match event {
                SessionEvent::Sent { cancelled } => match after_response(
                    upgraded,
                    cancelled,
                    served.facts.keep_alive,
                ) {
                    AfterResponse::Upgrade => {
                        self.state = SessionState::Ended;
                        SessionAction::HandOver
                    },
                    AfterResponse::Stop => {
                        self.state = SessionState::Ended;
                        SessionAction::Finish
                    },
                    AfterResponse::Next => {
                        self.state = SessionState::Reading;
                        SessionAction::ReadRequest
                    },
                },
                SessionEvent::SendFailed => self.fail(),
                _ => SessionAction::Nothing,
            },
            SessionState::Refusing => match event {
                SessionEvent::Sent { .. } => self.fail(),
                SessionEvent::SendFailed => self.fail(),
                _ => SessionAction::Nothing,
            },
            SessionState::Ended => SessionAction::Nothing,
        }
    }

    /// The response goes out.
    fn respond(&mut self, served: Served, upgraded: bool) -> (action: SessionAction)
        ensures
            (final(self).state, action) == responding(served, upgraded),
    {
        self.state = SessionState::Responding { served, upgraded };
        SessionAction::SendResponse { keep_alive: served.facts.keep_alive, upgraded }
    }

    /// The connection ends with the error that occurred.
    fn fail(&mut self) -> (action: SessionAction)
        ensures
            final(self).state == SessionState::Ended,
            action == SessionAction::Fail,
    {
        self.state = SessionState::Ended;
        SessionAction::Fail
    }
}

/// The state after events, one after the other.
pub open spec fn session_after(state: SessionState, events: Seq<SessionEvent>) -> SessionState
    decreases events.len(),
{
    if events.len() == 0 {
        state
    } else {
        session_step(session_after(state, events.drop_last()), events.last()).0
    }
}

/// How many of the events called for a request to be served.
pub open spec fn requests_served(state: SessionState, events: Seq<SessionEvent>) -> nat
    decreases events.len(),
{
    if events.len() == 0 {
        0
    } else {
        let action = session_step(session_after(state, events.drop_last()), events.last()).1;
        requests_served(state, events.drop_last()) + if action is Serve {
            1nat
        } else {
            0
        }
    }
}

/// How many of the events called for a response to be sent.
pub open spec fn responses_sent(state: SessionState, events: Seq<SessionEvent>) -> nat
    decreases events.len(),
{
    if events.len() == 0 {
        0
    } else {
        let action = session_step(session_after(state, events.drop_last()), events.last()).1;
        responses_sent(state, events.drop_last()) + if action is SendResponse {
            1nat
        } else {
            0
        }
    }
}

/// Requests and responses alternate: every response answers a request, and no
/// request is served before the one before it is answered.
pub proof fn requests_and_responses_alternate(events: Seq<SessionEvent>)
    ensures
        ({
            let served = requests_served(SessionState::Reading, events);
            let sent = responses_sent(SessionState::Reading, events);
            let state = session_after(SessionState::Reading, events);
            &&& sent <= served <= sent + 1
            &&& state is Serving || state is Continuing ==> served == sent + 1
            &&& state is Reading || state is Responding || state is Refusing ==> served == sent
        }),
    decreases events.len(),
{
    if events.len() > 0 {
        requests_and_responses_alternate(events.drop_last());
    }
}

/// Once the server shuts down, the response that is being sent is the last: no
/// further request is read.
pub proof fn shutdown_reads_no_request(state: SessionState)
    requires
        state is Responding,
    ensures
        session_step(state, SessionEvent::Sent { cancelled: true }).0 == SessionState::Ended,
{
}

/// A connection that has ended stays ended.
pub proof fn ended_stays_ended(events: Seq<SessionEvent>)
    ensures
        session_after(SessionState::Ended, events) == SessionState::Ended,
        requests_served(SessionState::Ended, events) == 0,
        responses_sent(SessionState::Ended, events) == 0,
    decreases events.len(),
{
    if events.len() > 0 {
        ended_stays_ended(events.drop_last());
    }
}

} // verus!
