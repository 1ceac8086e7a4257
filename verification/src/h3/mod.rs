//! HTTP/3 (RFC 9114).

pub mod body;
pub mod driver;
pub mod error;
pub mod frame;
pub mod laws;
pub mod report;
pub mod request;
pub mod resets;
pub mod task;

pub use driver::{Closing, ClosingStep, Conclusion, Driver};
pub use error::H3Error;
pub use frame::{Frame, FrameDecoder, FrameError, Settings};
pub use report::{h3_code_name, h3_connection_error, h3_stream_error};
pub use request::{
    body_action, is_100_continue, prepare_response, remove_invalid_http3_headers, BodyAction, BodyPart,
    ResponseWait, WaitAction, WaitEvent,
};
pub use resets::{ConnResetState, FailureAction, RequestFailure, ResetLimits};
pub use task::{RequestTask, TaskAction, TaskEvent, TaskState};
