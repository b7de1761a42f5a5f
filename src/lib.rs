//! Decoding of line-oriented numeric samples from a serial byte stream, and a
//! bounded per-name history of the decoded values.

pub mod number;
pub mod value_parsing;
pub mod stream;
pub mod channel;
pub mod value_history;
pub mod serial_source;
