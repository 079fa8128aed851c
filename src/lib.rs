//! Runtime utilities: calendar arithmetic on millisecond timestamps, level
//! filtered log formatting, and the bookkeeping of a background worker pool.

/// Calendar and clock arithmetic on UNIX millisecond timestamps.
pub mod time;

/// Decimal rendering of numbers into text.
pub mod text;

/// The background worker pool: its task queue and the decisions of its
/// lifecycle operations.
pub mod worker;

/// Log levels, loggers and the text of log lines.
pub mod log;
