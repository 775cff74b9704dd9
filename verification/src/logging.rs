//! Structured log lines. The library computes the line; whatever transport
//! emits it lives at the boundary.

use vstd::prelude::*;

use crate::error::error_message;
use crate::error::ConnectorError;

verus! {

/// The severity of a log line.
#[derive(Debug, PartialEq, Eq, Clone, Copy, Structural)]
pub enum LogLevel {
    Error,
    Warning,
    Info,
    Debug,
}

/// One log line: its severity, its message, and the context it was raised
/// in.
#[derive(Debug, PartialEq, Eq)]
pub struct LogLine {
    pub level: LogLevel,
    pub message: String,
    pub context: String,
}

/// The log line for an error.
pub fn log_error(err: &ConnectorError, context: &str) -> (r: LogLine)
    ensures
        r.level == LogLevel::Error,
        r.message@ == error_message(err@),
        r.context@ == context@,
{
    LogLine { level: LogLevel::Error, message: err.message(), context: context.to_owned() }
}

/// The log line for a warning.
pub fn log_warning(warning: &str, context: &str) -> (r: LogLine)
    ensures
        r.level == LogLevel::Warning,
        r.message@ == warning@,
        r.context@ == context@,
{
    LogLine { level: LogLevel::Warning, message: warning.to_owned(), context: context.to_owned() }
}

/// The log line for an informational message.
pub fn log_info(message: &str, context: &str) -> (r: LogLine)
    ensures
        r.level == LogLevel::Info,
        r.message@ == message@,
        r.context@ == context@,
{
    LogLine { level: LogLevel::Info, message: message.to_owned(), context: context.to_owned() }
}

/// The log line for a debug message.
pub fn log_debug(message: &str, context: &str) -> (r: LogLine)
    ensures
        r.level == LogLevel::Debug,
        r.message@ == message@,
        r.context@ == context@,
{
    LogLine { level: LogLevel::Debug, message: message.to_owned(), context: context.to_owned() }
}

} // verus!
