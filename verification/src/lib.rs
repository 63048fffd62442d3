//! Byte-range media sources.

pub mod content_range;
pub mod error;
pub mod fd_uri;
pub mod fetch;
pub mod full_reads;
pub mod headers;
pub mod http_read;
pub mod http_source;
pub mod length;
pub mod live_reads;
pub mod luma;
pub mod lut;
pub mod open_reads;
pub mod owned_fd;
pub mod range;
pub mod read_limits;
pub mod read_steps;
pub mod redact;
pub mod retry;
pub mod select;
pub mod text;
pub mod whole_reads;
