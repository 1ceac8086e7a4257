//! An HTTP/1.1, HTTP/2 and HTTP/3 server protocol library without I/O.

pub mod fx;
pub mod h1;
pub mod h2;
pub mod h3;
pub mod headers;
pub mod io_error;
pub mod numbers;
pub mod octets;
pub mod text;
pub mod time;

pub use io_error::stream_error_io_error;
