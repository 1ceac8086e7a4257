//! Connection-level reset accounting.

use vstd::prelude::*;

use super::error::H3Error;

verus! {

/// Per-connection budgets for the resets a hostile peer can force the server to
/// send or observe (RFC 9114 Section 10.5); `None` disables a budget.
#[derive(Debug, Clone, Copy, PartialEq, Eq, Structural)]
pub struct ResetLimits {
    pub max_local_error_resets: Option<usize>,
    pub max_pending_accept_resets: Option<usize>,
}

/// Connection-level reset accounting, shared between the driver and the
/// per-request tasks (which cannot themselves close the QUIC connection).
#[derive(Debug, Clone, Copy, PartialEq, Eq, Structural)]
pub struct ConnResetState {
    pub limits: ResetLimits,
    /// RESET_STREAM frames this endpoint has sent for the peer's protocol
    /// errors (bounded by `limits.max_local_error_resets`).
    pub local_error_resets: usize,
    /// Streams the peer terminated (RESET_STREAM or STOP_SENDING) before this
    /// endpoint accepted them (bounded by `limits.max_pending_accept_resets`).
    pub pending_accept_resets: usize,
    /// Application error code the connection must close with; the driver drains
    /// it on its next turn.
    pub close_code: Option<u64>,
}

/// A budget has no room for one more.
pub open spec fn spent(count: usize, limit: Option<usize>) -> bool {
    limit matches Some(max) && count >= max
}

/// A count within its budget.
pub open spec fn within(count: usize, limit: Option<usize>) -> bool {
    limit matches Some(max) ==> count <= max
}

/// One more, up to the largest number.
pub open spec fn one_more(n: usize) -> usize {
    if n == usize::MAX {
        n
    } else {
        (n + 1) as usize
    }
}

/// Why a request could not be read from its stream.
#[derive(Debug, Clone, Copy, PartialEq, Eq, Structural)]
pub enum RequestFailure {
    /// The peer terminated the stream (RESET_STREAM or STOP_SENDING) before its
    /// request was read.
    StreamScoped,
    /// The request message is malformed.
    Message,
    /// A connection-scoped protocol violation: a malformed frame, an invalid
    /// frame sequence, or a QPACK error.
    ConnectionScoped,
}

/// What is to be done about a request that could not be read.
#[derive(Debug, Clone, Copy, PartialEq, Eq, Structural)]
pub enum FailureAction {
    /// Report the stream's failure.
    Report,
    /// Report the stream's failure, then reset the stream and stop its peer
    /// from sending, with the failure's code.
    ReportAndReset,
    /// Nothing: the connection closes.
    Nothing,
}

impl ConnResetState {
    /// No budget is overdrawn.
    pub open spec fn wf(self) -> bool {
        &&& within(self.local_error_resets, self.limits.max_local_error_resets)
        &&& within(self.pending_accept_resets, self.limits.max_pending_accept_resets)
    }

    /// A state in which nothing has been counted.
    pub fn new(limits: ResetLimits) -> (state: ConnResetState)
        ensures
            state.wf(),
            state == (ConnResetState {
                limits,
                local_error_resets: 0,
                pending_accept_resets: 0,
                close_code: None,
            }),
    {
        ConnResetState {
            limits,
            local_error_resets: 0,
            pending_accept_resets: 0,
            close_code: None,
        }
    }

    /// Records a locally sent protocol-error reset; returns the code the
    /// connection must close with when the budget is exceeded.
    pub fn note_local_error_reset(&mut self) -> (code: Option<u64>)
        ensures
            old(self).wf() ==> final(self).wf(),
            if spent(old(self).local_error_resets, old(self).limits.max_local_error_resets) {
                &&& code == Some(H3Error::ExcessiveLoad.code())
                &&& *final(self) == *old(self)
            } else {
                &&& code is None
                &&& *final(self) == (ConnResetState {
                    local_error_resets: one_more(old(self).local_error_resets),
                    ..*old(self)
                })
            },
    {
        if let Some(max) = self.limits.max_local_error_resets {
            if self.local_error_resets >= max {
                return Some(H3Error::ExcessiveLoad.code());
            }
        }
        self.local_error_resets = self.local_error_resets.saturating_add(1);
        None
    }

    /// Records a peer-terminated, never-accepted stream; returns the code the
    /// connection must close with when the budget is exceeded.
    pub fn note_pending_accept_reset(&mut self) -> (code: Option<u64>)
        ensures
            old(self).wf() ==> final(self).wf(),
            if spent(old(self).pending_accept_resets, old(self).limits.max_pending_accept_resets) {
                &&& code == Some(H3Error::ExcessiveLoad.code())
                &&& *final(self) == *old(self)
            } else {
                &&& code is None
                &&& *final(self) == (ConnResetState {
                    pending_accept_resets: one_more(old(self).pending_accept_resets),
                    ..*old(self)
                })
            },
    {
        if let Some(max) = self.limits.max_pending_accept_resets {
            if self.pending_accept_resets >= max {
                return Some(H3Error::ExcessiveLoad.code());
            }
        }
        self.pending_accept_resets = self.pending_accept_resets.saturating_add(1);
        None
    }

    /// What a request that could not be read does to the accounting.
    pub open spec fn request_failed(self, failure: RequestFailure, code: u64) -> ConnResetState {
        match failure {
            RequestFailure::StreamScoped => if spent(
                self.pending_accept_resets,
                self.limits.max_pending_accept_resets,
            ) {
                ConnResetState { close_code: Some(H3Error::ExcessiveLoad.code()), ..self }
            } else {
                ConnResetState {
                    pending_accept_resets: one_more(self.pending_accept_resets),
                    ..self
                }
            },
            RequestFailure::Message => if spent(
                self.local_error_resets,
                self.limits.max_local_error_resets,
            ) {
                ConnResetState { close_code: Some(H3Error::ExcessiveLoad.code()), ..self }
            } else {
                ConnResetState { local_error_resets: one_more(self.local_error_resets), ..self }
            },
            RequestFailure::ConnectionScoped => ConnResetState { close_code: Some(code), ..self },
        }
    }

    /// Takes account of a request that could not be read, for the given reason
    /// and with the given application error code.
    ///
    /// A stream that the peer terminated is bounded by the pending-accept
    /// budget (RFC 9114 Section 10.5). A malformed message aborts the stream
    /// rather than the whole connection (Section 4.1.2), bounded by the
    /// local-reset budget. A connection-scoped violation closes the connection
    /// with the matching code.
    pub fn note_request_failure(&mut self, failure: RequestFailure, code: u64) -> (action:
        FailureAction)
        ensures
            old(self).wf() ==> final(self).wf(),
            *final(self) == old(self).request_failed(failure, code),
            action == (match failure {
                RequestFailure::StreamScoped => FailureAction::Report,
                RequestFailure::Message => FailureAction::ReportAndReset,
                RequestFailure::ConnectionScoped => FailureAction::Nothing,
            }),
    {
        match failure {
            RequestFailure::StreamScoped => {
                if let Some(code) = self.note_pending_accept_reset() {
                    self.close_code = Some(code);
                }
                FailureAction::Report
            },
            RequestFailure::Message => {
                if let Some(code) = self.note_local_error_reset() {
                    self.close_code = Some(code);
                }
                FailureAction::ReportAndReset
            },
            RequestFailure::ConnectionScoped => {
                self.close_code = Some(code);
                FailureAction::Nothing
            },
        }
    }

    /// Takes the code that the connection must close with, if any.
    pub fn take_close_code(&mut self) -> (code: Option<u64>)
        ensures
            code == old(self).close_code,
            *final(self) == (ConnResetState { close_code: None, ..*old(self) }),
    {
        let code = self.close_code;
        self.close_code = None;
        code
    }
}

/// Requests that could not be read, one after the other, all for one reason.
pub open spec fn failures(
    state: ConnResetState,
    failure: RequestFailure,
    codes: Seq<u64>,
) -> ConnResetState
    decreases codes.len(),
{
    if codes.len() == 0 {
        state
    } else {
        failures(state, failure, codes.drop_last()).request_failed(failure, codes.last())
    }
}

/// With a budget of `max`, malformed messages cost only their streams while they
/// fit the budget; as soon as one does not, the connection closes with
/// `H3_EXCESSIVE_LOAD` (RFC 9114 Section 10.5).
pub proof fn local_reset_budget_holds(state: ConnResetState, codes: Seq<u64>, max: usize)
    requires
        state.wf(),
        state.limits.max_local_error_resets == Some(max),
        state.close_code is None,
    ensures
        ({
            let after = failures(state, RequestFailure::Message, codes);
            &&& after.wf()
            &&& after.limits == state.limits
            &&& state.local_error_resets + codes.len() <= max ==> {
                &&& after.local_error_resets == state.local_error_resets + codes.len()
                &&& after.close_code is None
            }
            &&& state.local_error_resets + codes.len() > max ==> {
                &&& after.local_error_resets == max
                &&& after.close_code == Some(H3Error::ExcessiveLoad.code())
            }
        }),
    decreases codes.len(),
{
    if codes.len() > 0 {
        local_reset_budget_holds(state, codes.drop_last(), max);
    }
}

/// With a budget of `max`, streams that the peer terminates before they are
/// accepted are only counted while they fit the budget; as soon as one does not,
/// the connection closes with `H3_EXCESSIVE_LOAD`.
pub proof fn pending_reset_budget_holds(state: ConnResetState, codes: Seq<u64>, max: usize)
    requires
        state.wf(),
        state.limits.max_pending_accept_resets == Some(max),
        state.close_code is None,
    ensures
        ({
            let after = failures(state, RequestFailure::StreamScoped, codes);
            &&& after.wf()
            &&& after.limits == state.limits
            &&& state.pending_accept_resets + codes.len() <= max ==> {
                &&& after.pending_accept_resets == state.pending_accept_resets + codes.len()
                &&& after.close_code is None
            }
            &&& state.pending_accept_resets + codes.len() > max ==> {
                &&& after.pending_accept_resets == max
                &&& after.close_code == Some(H3Error::ExcessiveLoad.code())
            }
        }),
    decreases codes.len(),
{
    if codes.len() > 0 {
        pending_reset_budget_holds(state, codes.drop_last(), max);
    }
}

} // verus!
