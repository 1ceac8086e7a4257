//! HTTP/2 (RFC 9113).

pub mod codec;
pub mod connection;
pub mod error;
pub mod options;
pub mod stream;
