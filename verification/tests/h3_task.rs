//! The course of one HTTP/3 request.

use bytes::Bytes;
use http::HeaderMap;
use zincio_http::h3::{BodyPart, RequestTask, TaskAction, TaskEvent, TaskState, WaitEvent};

const SENT: TaskEvent = TaskEvent::Sent { upgraded: false };

fn started(is_100_continue: bool) -> RequestTask {
    let mut task = RequestTask::new();
    assert!(matches!(
        task.step(TaskEvent::Request { is_100_continue }),
        TaskAction::CallHandler
    ));
    task
}

fn streaming() -> RequestTask {
    let mut task = started(false);
    assert!(matches!(
        task.step(TaskEvent::Response {
            status: 200,
            end_stream: false
        }),
        TaskAction::SendResponse
    ));
    assert!(matches!(task.step(SENT), TaskAction::TakePart));
    task
}

#[test]
fn a_response_with_a_body_and_trailers() {
    let mut task = streaming();
    assert!(matches!(
        task.step(TaskEvent::Part(BodyPart::Data(Bytes::new()))),
        TaskAction::TakePart
    ));
    assert!(matches!(
        task.step(TaskEvent::Part(BodyPart::Other)),
        TaskAction::TakePart
    ));
    assert!(matches!(
        task.step(TaskEvent::Part(BodyPart::Data(Bytes::from_static(b"x")))),
        TaskAction::SendData(data) if data == "x"
    ));
    assert!(matches!(task.step(SENT), TaskAction::TakePart));
    let mut trailers = HeaderMap::new();
    trailers.insert("upgrade", "x".parse().unwrap());
    trailers.insert("x-sum", "1".parse().unwrap());
    assert!(matches!(
        task.step(TaskEvent::Part(BodyPart::Trailers(trailers))),
        TaskAction::SendTrailers(trailers) if trailers.len() == 1
    ));
    assert!(matches!(task.step(SENT), TaskAction::Finish));
    assert!(matches!(task.step(SENT), TaskAction::Nothing));
    assert_eq!(task.state, TaskState::Done);
}

#[test]
fn a_response_without_a_body() {
    let mut task = started(false);
    task.step(TaskEvent::Response {
        status: 204,
        end_stream: true,
    });
    assert!(matches!(task.step(SENT), TaskAction::Finish));
}

#[test]
fn interim_responses_come_before_the_response() {
    let mut task = started(true);
    assert!(matches!(
        task.step(TaskEvent::Ready(WaitEvent::EarlyHints)),
        TaskAction::SendEarlyHints
    ));
    // The handler learns of the failure.
    assert!(matches!(
        task.step(TaskEvent::SendFailed),
        TaskAction::AwaitHandler
    ));
    assert!(matches!(
        task.step(TaskEvent::Ready(WaitEvent::Nothing { body_wanted: true })),
        TaskAction::SendContinue
    ));
    assert!(matches!(task.step(SENT), TaskAction::AwaitHandler));
    assert!(matches!(
        task.step(TaskEvent::Ready(WaitEvent::Nothing { body_wanted: true })),
        TaskAction::AwaitHandler
    ));
    assert!(matches!(
        task.step(TaskEvent::Response {
            status: 200,
            end_stream: true
        }),
        TaskAction::SendResponse
    ));
}

#[test]
fn continue_may_come_with_the_response() {
    let mut task = started(true);
    assert!(matches!(
        task.step(TaskEvent::Response {
            status: 200,
            end_stream: true
        }),
        TaskAction::SendContinue
    ));
    assert!(matches!(task.step(SENT), TaskAction::SendResponse));

    let mut task = started(true);
    assert!(matches!(
        task.step(TaskEvent::Response {
            status: 413,
            end_stream: true
        }),
        TaskAction::SendResponse
    ));
}

#[test]
fn failures_end_the_request() {
    let mut task = started(false);
    assert!(matches!(
        task.step(TaskEvent::HandlerFailed),
        TaskAction::Report
    ));
    assert!(matches!(task.step(SENT), TaskAction::Nothing));

    let mut task = streaming();
    assert!(matches!(task.step(TaskEvent::BodyFailed), TaskAction::Report));
    assert_eq!(task.state, TaskState::Done);

    let mut task = streaming();
    task.step(TaskEvent::Part(BodyPart::Data(Bytes::from_static(b"x"))));
    assert!(matches!(task.step(TaskEvent::SendFailed), TaskAction::Report));

    let mut task = RequestTask::new();
    assert!(matches!(task.step(TaskEvent::NoRequest), TaskAction::Nothing));
    assert_eq!(task.state, TaskState::Done);
}

#[test]
fn an_upgrade_hands_the_stream_over() {
    let mut task = started(false);
    task.step(TaskEvent::Response {
        status: 200,
        end_stream: false,
    });
    assert!(matches!(
        task.step(TaskEvent::Sent { upgraded: true }),
        TaskAction::HandOver
    ));
    assert!(matches!(task.step(TaskEvent::BodyEnd), TaskAction::Nothing));
}

#[test]
fn events_that_do_not_fit_change_nothing() {
    let mut task = RequestTask::new();
    assert!(matches!(task.step(TaskEvent::BodyEnd), TaskAction::Nothing));
    assert_eq!(task.state, TaskState::Reading);
}
