//! Logging with the standard syslog severity levels.
//!
//! The library decides which messages are kept, truncates long messages on
//! a UTF-8 character boundary, and composes the exact bytes of each log line
//! together with the stream it belongs to. Writing the bytes out is left to
//! the caller.

pub mod fixed_buffer;
pub mod logger;
pub mod severity;

pub use logger::{
    LogLine, Logger, OutputStream, COLON_SEPARATOR, MAXIMUM_MESSAGE_LENGTH, NEWLINE,
    TRUNCATION_SUFFIX,
};
pub use fixed_buffer::FixedBuffer;
pub use severity::SeverityLevel;
