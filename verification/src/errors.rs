//! Errors of parsing and evaluating cron patterns.
use vstd::prelude::*;

verus! {

/// Represents errors that can occur while parsing and evaluating cron patterns.
#[derive(Debug, Clone, PartialEq, Eq)]
pub enum CronError {
    /// The pattern string provided was empty.
    EmptyPattern,
    /// Encountered an invalid date while parsing or evaluating a cron pattern.
    InvalidDate,
    /// Encountered an invalid time while parsing or evaluating a cron pattern.
    InvalidTime,
    /// The search for the next valid time exceeded a reasonable limit.
    TimeSearchLimitExceeded,
    /// The cron pattern provided is invalid.
    InvalidPattern(String),
    /// The pattern contains characters that are not allowed.
    IllegalCharacters(String),
    /// A component of the pattern is invalid.
    ComponentError(String),
}

} // verus!
