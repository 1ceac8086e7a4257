//! HTTP/1.x (RFC 9112).

pub mod chunk;
pub mod date;
pub mod exchange;
pub mod head;
pub mod laws;
pub mod lists;
pub mod session;

pub use chunk::write_chunk_size;
pub use date::DateCache;
pub use head::{search_header_body_separator, HeadError, HeadReader, HeadStep};
pub use session::{Served, Session, SessionAction, SessionEvent, SessionState};
