//! Stepping through the occurrences of a pattern.
use vstd::prelude::*;

use crate::errors::CronError;
use crate::pattern::standard_pattern;
use crate::search::{
    accepted, answers, first_match, found_by_rule, nearest_by_rule, once_in_zone,
    search_owed_from,
};
use crate::time::CronDateTime;
use crate::{Cron, Direction};

verus! {

/// The occurrences of a pattern, one after another, from a start time in
/// one direction.
#[derive(Debug, Clone)]
pub struct CronIterator<T: CronDateTime> {
    cron: Cron,
    current_time: T,
    is_first: bool,
    inclusive: bool,
    direction: Direction,
    last_error: Option<CronError>,
}

impl<T: CronDateTime> CronIterator<T> {
    /// The schedule that is iterated.
    pub closed spec fn cron(&self) -> Cron {
        self.cron
    }

    /// The time the next search starts from.
    pub closed spec fn current(&self) -> T {
        self.current_time
    }

    /// Whether the next search may answer its start time itself.
    pub closed spec fn includes_current(&self) -> bool {
        self.is_first && self.inclusive
    }

    /// The direction of the iteration.
    pub closed spec fn direction(&self) -> Direction {
        self.direction
    }

    /// The error that ended the iteration, if any.
    pub closed spec fn error(&self) -> Option<CronError> {
        self.last_error
    }

    /// An iterator over the occurrences of `cron` from `start_time` in
    /// `direction`; `inclusive` lets the first occurrence be `start_time`
    /// itself.
    pub fn new(cron: Cron, start_time: T, inclusive: bool, direction: Direction) -> (it:
        CronIterator<T>)
        ensures
            it.cron() == cron,
            it.current() == start_time,
            it.includes_current() == inclusive,
            it.direction() == direction,
            it.error() is None,
    {
        CronIterator {
            cron,
            current_time: start_time,
            is_first: true,
            inclusive,
            direction,
            last_error: None,
        }
    }

    /// The error that ended the iteration: `None` while it runs, or after
    /// it ran out of occurrences without one.
    pub fn last_error(&self) -> (r: Option<&CronError>)
        ensures
            r == match self.error() {
                Some(e) => Some(&e),
                None => None::<&CronError>,
            },
    {
        match &self.last_error {
            Some(e) => Some(e),
            None => None,
        }
    }

    /// The next occurrence: after the previous one (or at the start time,
    /// the first time, where inclusive), in the iteration's direction. The
    /// iterator keeps the occurrence it found and hands out a copy of it.
    /// Each search after the first excludes the instant it starts from, so
    /// the occurrences run strictly one way. `None` ends the iteration and
    /// keeps the error that ended it.
    pub fn next(&mut self) -> (r: Option<T>)
        ensures
            final(self).cron() == old(self).cron(),
            final(self).direction() == old(self).direction(),
            !final(self).includes_current(),
            r is Some ==> accepted(
                old(self).current().instant(),
                final(self).current().instant(),
                old(self).includes_current(),
                old(self).direction(),
            ) && answers(old(self).cron().pattern@, final(self).current().civil_spec()),
            r is Some ==> found_by_rule(
                old(self).cron().pattern@,
                old(self).current(),
                old(self).includes_current(),
                old(self).direction(),
                final(self).current(),
            ),
            once_in_zone(old(self).current()) ==> (r is Some ==> nearest_by_rule(
                old(self).cron().pattern@,
                old(self).current(),
                old(self).includes_current(),
                old(self).direction(),
                final(self).current(),
            )),
            r matches Some(x) ==> x.civil_spec() == final(self).current().civil_spec()
                && x.instant() == final(self).current().instant() && x.fixed_offset() == final(self).current().fixed_offset(),
            old(self).current().fixed_offset() is Some ==> (r is Some ==> first_match(
                old(self).cron().pattern@,
                old(self).current().civil_spec(),
                final(self).current().civil_spec(),
                old(self).includes_current(),
                old(self).direction(),
            ) && final(self).current().fixed_offset() == old(self).current().fixed_offset()
                && final(self).current().civil_spec().wf() && final(self).current().instant() - old(
                self,
            ).current().instant() == (final(self).current().civil_spec().seconds() - old(
                self,
            ).current().civil_spec().seconds()) * 1_000_000_000),
            r is Some ==> final(self).error() == old(self).error(),
            r is None ==> final(self).error() is Some && final(self).current() == old(
                self,
            ).current(),
            old(self).current().fixed_offset() is Some && standard_pattern(old(self).cron().pattern@)
                && search_owed_from(
                old(self).cron().pattern@,
                old(self).current().civil_spec(),
                old(self).includes_current(),
                old(self).direction(),
            ) ==> r is Some,
    {
        let inclusive_search = if self.is_first {
            self.is_first = false;
            self.inclusive
        } else {
            false
        };
        match self.cron.find_occurrence(&self.current_time, inclusive_search, self.direction) {
            Ok(found_time) => {
                let answer = found_time.duplicate();
                self.current_time = found_time;
                Some(answer)
            },
            Err(e) => {
                self.last_error = Some(e);
                None
            },
        }
    }
}

} // verus!
