//! The decisions of an HTTP/3 connection's driver.

use zincio_http::h3::driver::Cause;
use zincio_http::h3::{
    Closing, ClosingStep, Conclusion, ConnResetState, Driver, FailureAction, H3Error,
    RequestFailure, ResetLimits,
};

fn limits(local: Option<usize>, pending: Option<usize>) -> ResetLimits {
    ResetLimits {
        max_local_error_resets: local,
        max_pending_accept_resets: pending,
    }
}

#[test]
fn local_error_resets_are_bounded() {
    let mut state = ConnResetState::new(limits(Some(2), None));
    assert_eq!(state.note_local_error_reset(), None);
    assert_eq!(state.note_local_error_reset(), None);
    assert_eq!(state.note_local_error_reset(), Some(0x0107));
    assert_eq!(state.local_error_resets, 2);
}

#[test]
fn pending_accept_resets_are_bounded() {
    let mut state = ConnResetState::new(limits(None, Some(1)));
    assert_eq!(state.note_pending_accept_reset(), None);
    assert_eq!(
        state.note_pending_accept_reset(),
        Some(H3Error::ExcessiveLoad.code())
    );
    for _ in 0..100 {
        assert_eq!(state.note_local_error_reset(), None);
    }
}

#[test]
fn request_failures_are_accounted() {
    let mut state = ConnResetState::new(limits(Some(1), Some(0)));
    assert_eq!(
        state.note_request_failure(RequestFailure::Message, 0x010e),
        FailureAction::ReportAndReset
    );
    assert_eq!(state.take_close_code(), None);
    assert_eq!(
        state.note_request_failure(RequestFailure::Message, 0x010e),
        FailureAction::ReportAndReset
    );
    assert_eq!(state.take_close_code(), Some(0x0107));
    assert_eq!(state.take_close_code(), None);
    assert_eq!(
        state.note_request_failure(RequestFailure::StreamScoped, 0),
        FailureAction::Report
    );
    assert_eq!(state.take_close_code(), Some(0x0107));
    assert_eq!(
        state.note_request_failure(RequestFailure::ConnectionScoped, 0x0106),
        FailureAction::Nothing
    );
    assert_eq!(state.take_close_code(), Some(0x0106));
}

#[test]
fn an_open_connection_serves_requests() {
    let mut driver = Driver::new();
    assert!(driver.accept(0));
    assert!(driver.accept(8));
    assert!(driver.accept(4));
    assert_eq!(driver.last_request_id, 8);
    assert_eq!(
        driver.next_closing_step(true),
        ClosingStep {
            send_goaway: None,
            closing: Closing::Open
        }
    );
    assert!(matches!(driver.conclude(), Conclusion::Clean));
}

#[test]
fn graceful_shutdown_drains_requests() {
    let mut driver = Driver::new();
    driver.accept(8);
    driver.note_triggers(true, true);
    assert_eq!(driver.cause, Some(Cause::Asked));
    // Before the GOAWAY is out nothing is served.
    assert!(!driver.accept(4));
    assert_eq!(
        driver.next_closing_step(true),
        ClosingStep {
            send_goaway: Some(8),
            closing: Closing::AwaitRequests
        }
    );
    assert!(driver.accept(4));
    assert!(driver.accept(8));
    assert!(!driver.accept(12));
    assert_eq!(
        driver.next_closing_step(false),
        ClosingStep {
            send_goaway: None,
            closing: Closing::Drained
        }
    );
    assert!(matches!(driver.conclude(), Conclusion::Clean));
}

#[test]
fn the_accept_timeout_is_an_outcome_of_its_own() {
    let mut driver = Driver::new();
    driver.note_triggers(false, false);
    assert!(!driver.shutdown);
    driver.note_triggers(false, true);
    driver.note_peer_goaway();
    assert_eq!(driver.cause, Some(Cause::AcceptTimeout));
    assert!(matches!(driver.conclude(), Conclusion::AcceptTimeout));
}

#[test]
fn the_first_protocol_error_counts() {
    let mut driver = Driver::new();
    driver.note_close_code(0x0106);
    driver.note_close_code(0x0107);
    driver.note_control_failure(0x0101, String::from("later"));
    assert_eq!(
        driver.next_closing_step(true),
        ClosingStep {
            send_goaway: None,
            closing: Closing::CloseNow(0x0106)
        }
    );
    match driver.conclude() {
        Conclusion::Protocol(text) => {
            assert_eq!(text, "HTTP/3 connection error: FrameError (0x106)")
        }
        other => panic!("unexpected conclusion {other:?}"),
    }
}

#[test]
fn control_failures_carry_their_detail() {
    let mut driver = Driver::new();
    driver.note_control_failure(0x0105, String::from("bad frame"));
    match driver.conclude() {
        Conclusion::Protocol(text) => assert_eq!(
            text,
            "HTTP/3 connection error: FrameUnexpected (0x105): bad frame"
        ),
        other => panic!("unexpected conclusion {other:?}"),
    }
    // During a shutdown the control plane may go away.
    let mut driver = Driver::new();
    driver.note_peer_goaway();
    driver.note_control_failure(0x0105, String::from("bad frame"));
    assert!(driver.control_dead);
    assert_eq!(driver.closing_with, None);
    assert!(matches!(driver.conclude(), Conclusion::Clean));
}
