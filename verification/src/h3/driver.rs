//! The connection driver's decisions: when the connection shuts down, what it
//! says then, and which request streams it serves.

use vstd::prelude::*;

use super::report::{self, h3_connection_error_message};

verus! {

/// `H3_NO_ERROR` (RFC 9114 Section 8.1).
pub const H3_NO_ERROR: u64 = 0x0100;

/// `H3_REQUEST_REJECTED` (RFC 9114 Section 8.1).
pub const H3_REQUEST_REJECTED: u64 = 0x010b;

/// Why a connection shuts down, other than by a protocol error.
#[derive(Debug, Clone, Copy, PartialEq, Eq, Structural)]
pub enum Cause {
    /// Shutdown was asked for, by us or by the peer.
    Asked,
    /// No request stream arrived within the accept timeout.
    AcceptTimeout,
}

/// How a connection ended.
#[derive(Debug)]
pub enum Conclusion {
    /// As it should.
    Clean,
    /// By the accept timeout.
    AcceptTimeout,
    /// By a protocol error, with this message.
    Protocol(String),
}

/// What a [`Conclusion`] says.
pub enum ConclusionView {
    Clean,
    AcceptTimeout,
    Protocol(Seq<char>),
}

impl View for Conclusion {
    type V = ConclusionView;

    open spec fn view(&self) -> ConclusionView {
        match *self {
            Conclusion::Clean => ConclusionView::Clean,
            Conclusion::AcceptTimeout => ConclusionView::AcceptTimeout,
            Conclusion::Protocol(message) => ConclusionView::Protocol(message@),
        }
    }
}

/// What the driver does about a connection that shuts down.
#[derive(Debug, Clone, Copy, PartialEq, Eq, Structural)]
pub enum Closing {
    /// It does not shut down.
    Open,
    /// Close with this code, then end as [`Driver::conclude`] says.
    CloseNow(u64),
    /// Every request has drained: after a grace period close with
    /// [`H3_NO_ERROR`] and end as [`Driver::conclude`] says.
    Drained,
    /// Wait for the requests in flight.
    AwaitRequests,
}

/// One step of a shutdown.
#[derive(Debug, Clone, Copy, PartialEq, Eq, Structural)]
pub struct ClosingStep {
    /// Send GOAWAY with this id first.
    pub send_goaway: Option<u64>,
    pub closing: Closing,
}

/// The state of the connection driver.
#[derive(Debug)]
pub struct Driver {
    /// The connection shuts down: no new requests.
    pub shutdown: bool,
    /// The control plane is torn down.
    pub control_dead: bool,
    /// The connection is being torn down by a protocol error and must close
    /// with this code (rather than the graceful GOAWAY + H3_NO_ERROR path).
    pub closing_with: Option<u64>,
    /// Human-readable detail for `closing_with`, when the error that triggered
    /// the close carried more context than its code.
    pub closing_detail: Option<String>,
    /// Why the connection shuts down gracefully.
    pub cause: Option<Cause>,
    /// The highest request stream that arrived.
    pub last_request_id: u64,
    /// The id in the GOAWAY that was sent.
    pub goaway_sent: Option<u64>,
}

/// What a [`Driver`] holds.
#[verifier::ext_equal]
pub struct DriverView {
    pub shutdown: bool,
    pub control_dead: bool,
    pub closing_with: Option<u64>,
    pub closing_detail: Option<Seq<char>>,
    pub cause: Option<Cause>,
    pub last_request_id: u64,
    pub goaway_sent: Option<u64>,
}

impl View for Driver {
    type V = DriverView;

    open spec fn view(&self) -> DriverView {
        DriverView {
            shutdown: self.shutdown,
            control_dead: self.control_dead,
            closing_with: self.closing_with,
            closing_detail: match self.closing_detail {
                Some(detail) => Some(detail@),
                None => None,
            },
            cause: self.cause,
            last_request_id: self.last_request_id,
            goaway_sent: self.goaway_sent,
        }
    }
}

impl DriverView {
    /// What holds of every driver: only a connection that shuts down has a
    /// reason to, a code to close with, or a GOAWAY sent; a code means that the
    /// control plane is torn down.
    pub open spec fn inv(self) -> bool {
        &&& self.closing_with is Some ==> self.shutdown && self.control_dead
        &&& self.closing_detail is Some ==> self.closing_with is Some
        &&& self.cause is Some ==> self.shutdown
        &&& self.goaway_sent is Some ==> self.shutdown
        &&& self.control_dead ==> self.shutdown
        &&& self.goaway_sent matches Some(id) ==> id <= self.last_request_id
    }

    /// A protocol error tears the connection down; the first one counts.
    pub open spec fn close_with(self, code: u64) -> DriverView {
        if self.closing_with is Some {
            self
        } else {
            DriverView { closing_with: Some(code), shutdown: true, control_dead: true, ..self }
        }
    }

    /// The connection shuts down gracefully, unless it does already.
    pub open spec fn shut_down(self, cause: Cause) -> DriverView {
        if self.shutdown {
            self
        } else {
            DriverView { shutdown: true, cause: Some(cause), ..self }
        }
    }

    /// What the triggers of a graceful shutdown do: being asked to comes before the
    /// accept timeout.
    pub open spec fn triggered(self, cancel_fired: bool, timeout_fired: bool) -> DriverView {
        if cancel_fired {
            self.shut_down(Cause::Asked)
        } else if timeout_fired {
            self.shut_down(Cause::AcceptTimeout)
        } else {
            self
        }
    }

    /// The control plane failed: a protocol error, unless the connection shuts
    /// down already.
    pub open spec fn control_failed(self, code: u64, detail: Seq<char>) -> DriverView {
        if self.shutdown {
            DriverView { control_dead: true, ..self }
        } else {
            DriverView {
                closing_with: Some(code),
                closing_detail: Some(detail),
                shutdown: true,
                control_dead: true,
                ..self
            }
        }
    }

    /// The GOAWAY to send, if one is due.
    pub open spec fn goaway_due(self) -> Option<u64> {
        if self.shutdown && self.closing_with is None && self.goaway_sent is None {
            Some(self.last_request_id)
        } else {
            None
        }
    }

    /// A step of the shutdown was taken.
    pub open spec fn closing_step(self) -> DriverView {
        match self.goaway_due() {
            Some(id) => DriverView { goaway_sent: Some(id), ..self },
            None => self,
        }
    }

    /// What is done about the shutdown.
    pub open spec fn closing(self, requests_in_flight: bool) -> Closing {
        if !self.shutdown {
            Closing::Open
        } else if self.closing_with is Some {
            Closing::CloseNow(self.closing_with->0)
        } else if requests_in_flight {
            Closing::AwaitRequests
        } else {
            Closing::Drained
        }
    }

    /// A request stream arrived.
    pub open spec fn arrived(self, id: u64) -> DriverView {
        DriverView {
            last_request_id: if id > self.last_request_id {
                id
            } else {
                self.last_request_id
            },
            ..self
        }
    }

    /// A request stream is served, unless it comes after our GOAWAY (RFC 9114
    /// Section 5.2).
    pub open spec fn serves(self, id: u64) -> bool {
        !self.shutdown || (self.goaway_sent matches Some(last) && id <= last)
    }

    /// How the connection ends.
    pub open spec fn conclusion(self) -> ConclusionView {
        match self.cause {
            Some(Cause::Asked) => ConclusionView::Clean,
            Some(Cause::AcceptTimeout) => ConclusionView::AcceptTimeout,
            None => match self.closing_with {
                Some(code) => ConclusionView::Protocol(
                    report::connection_error_text(code, self.closing_detail),
                ),
                None => ConclusionView::Clean,
            },
        }
    }
}

impl Driver {
    /// A driver of a connection that is open.
    pub fn new() -> (driver: Driver)
        ensures
            driver@ == (DriverView {
                shutdown: false,
                control_dead: false,
                closing_with: None,
                closing_detail: None,
                cause: None,
                last_request_id: 0,
                goaway_sent: None,
            }),
            driver@.inv(),
    {
        Driver {
            shutdown: false,
            control_dead: false,
            closing_with: None,
            closing_detail: None,
            cause: None,
            last_request_id: 0,
            goaway_sent: None,
        }
    }

    /// A request-stream task hit a connection-scoped error: close the
    /// connection with the code it recorded.
    pub fn note_close_code(&mut self, code: u64)
        requires
            old(self)@.inv(),
        ensures
            final(self)@.inv(),
            final(self)@ == old(self)@.close_with(code),
    {
        if self.closing_with.is_none() {
            self.closing_with = Some(code);
            self.shutdown = true;
            self.control_dead = true;
        }
    }

    /// Graceful shutdown triggers: being asked to comes before the accept
    /// timeout.
    pub fn note_triggers(&mut self, cancel_fired: bool, timeout_fired: bool)
        requires
            old(self)@.inv(),
        ensures
            final(self)@.inv(),
            final(self)@ == old(self)@.triggered(cancel_fired, timeout_fired),
    {
        if !self.shutdown {
            if cancel_fired {
                self.shutdown = true;
                self.cause = Some(Cause::Asked);
            } else if timeout_fired {
                self.shutdown = true;
                self.cause = Some(Cause::AcceptTimeout);
            }
        }
    }

    /// The peer is going away: stop accepting new request streams and close
    /// once the in-flight ones drain.
    pub fn note_peer_goaway(&mut self)
        requires
            old(self)@.inv(),
        ensures
            final(self)@.inv(),
            final(self)@ == old(self)@.shut_down(Cause::Asked),
    {
        if !self.shutdown {
            self.shutdown = true;
            self.cause = Some(Cause::Asked);
        }
    }

    /// Writing or reading the control plane failed. If the peer tore it down
    /// while we were shutting down, we stop using it, but in-flight requests
    /// still need to be served before the application close.
    pub fn note_control_failure(&mut self, code: u64, detail: String)
        requires
            old(self)@.inv(),
        ensures
            final(self)@.inv(),
            final(self)@ == old(self)@.control_failed(code, detail@),
    {
        if !self.shutdown {
            self.closing_with = Some(code);
            self.closing_detail = Some(detail);
            self.shutdown = true;
        }
        self.control_dead = true;
    }

    /// The next step of a shutdown: either a protocol error (close immediately
    /// with the recorded code) or a graceful drain (GOAWAY, then
    /// [`H3_NO_ERROR`] once every in-flight request has drained).
    pub fn next_closing_step(&mut self, requests_in_flight: bool) -> (step: ClosingStep)
        requires
            old(self)@.inv(),
        ensures
            final(self)@.inv(),
            final(self)@ == old(self)@.closing_step(),
            step == (ClosingStep {
                send_goaway: old(self)@.goaway_due(),
                closing: old(self)@.closing(requests_in_flight),
            }),
    {
        if !self.shutdown {
            return ClosingStep { send_goaway: None, closing: Closing::Open };
        }
        if let Some(code) = self.closing_with {
            return ClosingStep { send_goaway: None, closing: Closing::CloseNow(code) };
        }
        let send_goaway = if self.goaway_sent.is_none() {
            self.goaway_sent = Some(self.last_request_id);
            Some(self.last_request_id)
        } else {
            None
        };
        ClosingStep {
            send_goaway,
            closing: if requests_in_flight {
                Closing::AwaitRequests
            } else {
                Closing::Drained
            },
        }
    }

    /// A request stream arrived: whether it is served. One that is not is
    /// rejected with [`H3_REQUEST_REJECTED`].
    pub fn accept(&mut self, id: u64) -> (serve: bool)
        requires
            old(self)@.inv(),
        ensures
            final(self)@.inv(),
            final(self)@ == old(self)@.arrived(id),
            serve == old(self)@.serves(id),
    {
        if id > self.last_request_id {
            self.last_request_id = id;
        }
        if !self.shutdown {
            return true;
        }
        match self.goaway_sent {
            None => false,
            Some(last) => id <= last,
        }
    }

    /// How the connection ends.
    pub fn conclude(&self) -> (conclusion: Conclusion)
        ensures
            conclusion@ == self@.conclusion(),
    {
        match self.cause {
            Some(Cause::Asked) => Conclusion::Clean,
            Some(Cause::AcceptTimeout) => Conclusion::AcceptTimeout,
            None => match self.closing_with {
                Some(code) => match &self.closing_detail {
                    Some(detail) => Conclusion::Protocol(
                        h3_connection_error_message(code, Some(detail.as_str())),
                    ),
                    None => Conclusion::Protocol(h3_connection_error_message(code, None)),
                },
                None => Conclusion::Clean,
            },
        }
    }
}

/// The first protocol error decides the code that the connection closes with.
pub proof fn first_close_code_counts(d: DriverView, first: u64, second: u64, detail: Seq<char>)
    requires
        d.inv(),
        d.closing_with is None,
    ensures
        d.close_with(first).close_with(second) == d.close_with(first),
        d.close_with(first).control_failed(second, detail) == d.close_with(first),
        d.close_with(first).closing(true) == Closing::CloseNow(first),
        d.close_with(first).closing(false) == Closing::CloseNow(first),
{
}

/// A graceful shutdown announces the highest request that arrived. Requests up
/// to it are still served, later ones are rejected, and the announcement is made
/// once (RFC 9114 Section 5.2).
pub proof fn goaway_bounds_requests(d: DriverView, cause: Cause, id: u64)
    requires
        d.inv(),
        !d.shutdown,
    ensures
        ({
            let announced = d.shut_down(cause).closing_step();
            &&& d.shut_down(cause).goaway_due() == Some(d.last_request_id)
            &&& announced.goaway_due() is None
            &&& announced.serves(id) == (id <= d.last_request_id)
            &&& announced.arrived(id).goaway_sent == announced.goaway_sent
        }),
{
}

/// A graceful shutdown closes only once no request is in flight.
pub proof fn graceful_shutdown_waits(d: DriverView)
    requires
        d.shutdown,
        d.closing_with is None,
    ensures
        d.closing(true) == Closing::AwaitRequests,
        d.closing(false) == Closing::Drained,
        d.closing_step().closing_with is None,
{
}

} // verus!
