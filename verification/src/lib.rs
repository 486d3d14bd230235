//! Parsing, describing and evaluating cron patterns: when a pattern matches a
//! date and time, and the next or previous time it does.
use vstd::prelude::*;

pub mod component;
pub mod describe;
pub mod errors;
pub mod iterator;
pub mod parser;
pub mod pattern;
pub mod scheduler;
pub mod search;
pub mod text;
pub mod time;

pub use iterator::CronIterator;
pub use pattern::{YEAR_LOWER_LIMIT, YEAR_UPPER_LIMIT};

verus! {

/// The direction of a search in time.
#[derive(Clone, Copy, Debug, PartialEq, Eq, Structural, PartialOrd, Ord, Hash)]
pub enum Direction {
    Forward,
    Backward,
}

/// The fields of a date and time, from the least significant.
#[derive(Clone, Copy, Debug, PartialEq, Eq, Structural, PartialOrd, Ord, Hash)]
pub enum TimeComponent {
    Second,
    Minute,
    Hour,
    Day,
    Month,
    Year,
}

/// Whether a pattern runs at one fixed time of day, or at intervals. Daylight
/// saving time changes treat the two differently.
#[derive(Clone, Copy, Debug, PartialEq, Eq, Structural)]
pub enum JobType {
    FixedTime,
    IntervalWildcard,
}

/// A parsed cron schedule. Schedules compare by their patterns.
#[derive(Debug, PartialEq, PartialOrd, Hash)]
pub struct Cron {
    /// The parsed pattern.
    pub pattern: pattern::CronPattern,
}

impl Clone for Cron {
    /// A copy of the schedule.
    fn clone(&self) -> (c: Self)
        ensures
            c.pattern@ == self.pattern@,
    {
        Cron { pattern: self.pattern.clone() }
    }
}

impl Cron {
    /// An iterator over the occurrences from `start_from`, which may itself
    /// be the first, in `direction`.
    pub fn iter_from<T: time::CronDateTime>(&self, start_from: T, direction: Direction) -> (it:
        iterator::CronIterator<T>)
        ensures
            it.current() == start_from,
            it.includes_current(),
            it.direction() == direction,
            it.error() is None,
            it.cron().pattern@ == self.pattern@,
    {
        iterator::CronIterator::new(self.clone(), start_from, true, direction)
    }

    /// An iterator over the occurrences after `start_after`, forward.
    pub fn iter_after<T: time::CronDateTime>(&self, start_after: T) -> (it: iterator::CronIterator<
        T,
    >)
        ensures
            it.current() == start_after,
            !it.includes_current(),
            it.direction() == Direction::Forward,
            it.error() is None,
            it.cron().pattern@ == self.pattern@,
    {
        iterator::CronIterator::new(self.clone(), start_after, false, Direction::Forward)
    }

    /// An iterator over the occurrences before `start_before`, backward.
    pub fn iter_before<T: time::CronDateTime>(&self, start_before: T) -> (it:
        iterator::CronIterator<T>)
        ensures
            it.current() == start_before,
            !it.includes_current(),
            it.direction() == Direction::Backward,
            it.error() is None,
            it.cron().pattern@ == self.pattern@,
    {
        iterator::CronIterator::new(self.clone(), start_before, false, Direction::Backward)
    }

    /// A human-readable description of the schedule, in English.
    pub fn describe(&self) -> (r: String)
        requires
            describe::describable(self.pattern@),
        ensures
            r@ == describe::describe_text(self.pattern@, describe::English),
    {
        self.pattern.describe()
    }

    /// A human-readable description of the schedule in the given language.
    pub fn describe_lang<L: describe::Language>(&self, lang: L) -> (r: String)
        requires
            describe::describable(self.pattern@),
        ensures
            r@ == describe::describe_text(self.pattern@, lang),
    {
        self.pattern.describe_lang(lang)
    }

    /// The text the pattern was written as.
    pub fn as_str(&self) -> (s: &str)
        ensures
            s@ == self.pattern@.text,
    {
        self.pattern.as_str()
    }

    /// The text the pattern was written as, as a new string.
    pub fn to_string(&self) -> (s: String)
        ensures
            s@ == self.pattern@.text,
    {
        self.pattern.to_string()
    }
}

impl core::str::FromStr for Cron {
    type Err = errors::CronError;

    fn from_str(s: &str) -> (r: Result<Cron, errors::CronError>)
        ensures
            match parser::parse_spec(parser::default_config(), s@) {
                Ok(m) => r matches Ok(c) && c.pattern@ == m,
                Err(k) => r matches Err(e) && k.describes(e),
            },
            parser::parse_spec(parser::default_config(), s@) matches Err(
                parser::ParseFailure::FieldCount,
            ) ==> (r matches Err(errors::CronError::InvalidPattern(m)) && m@
                == parser::field_count_message(
                parser::default_config(),
                parser::normalized_text(parser::default_config(), s@),
            )),
    {
        parser::CronParser::new().parse(s)
    }
}

} // verus!
