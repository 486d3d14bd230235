//! The moving position of the search through the calendar.
use vstd::prelude::*;

use crate::errors::CronError;
use crate::time::{
    day_number, days_in_year, lemma_date_in_calendar, lemma_date_order, lemma_moderate_shift, lemma_next_month, lemma_next_year,
    moderate_year, month_length, CivilDateTime,
    CivilTime, CronDateTime, DateModel, DateTimeModel, Resolution, TimeModel, Weekday,
};

verus! {

/// A wall clock date and time together with its day of the week.
///
/// The backend is asked for the weekday once, when a search starts; every
/// move below is a known number of days, so the weekday is kept in step from
/// then on. Every move returns `None` on overflow rather than wrapping.
#[derive(Debug, Clone, Copy, PartialEq, Eq)]
pub struct Cursor {
    civil: CivilDateTime,
    weekday: Weekday,
}

/// A shifted weekday is the weekday of the date that many days away.
proof fn lemma_shift_weekday(w: Weekday, n: int, k: int)
    requires
        w == Weekday::of_index(n),
    ensures
        Weekday::of_index(w.index() + k) == Weekday::of_index(n + k),
{
    Weekday::lemma_of_index(n);
    assert((n % 7 + k) % 7 == (n + k) % 7);
}

impl Cursor {
    #[verifier::type_invariant]
    closed spec fn inv(self) -> bool {
        self.weekday == self.civil@.date.weekday()
    }

    /// The wall clock date and time.
    pub closed spec fn model(self) -> DateTimeModel {
        self.civil@
    }

    /// The wall clock date and time as a value.
    pub closed spec fn civil_value(self) -> CivilDateTime {
        self.civil
    }

    /// The value of the wall clock date and time reads as the cursor's
    /// model.
    pub proof fn lemma_civil_value(self)
        ensures
            self.civil_value()@ == self.model(),
    {
    }

    /// Starts a search at the wall clock time of `start`.
    pub fn new<T: CronDateTime>(start: &T) -> (c: Cursor)
        ensures
            c.model() == start.civil_spec(),
            c.model().wf(),
            start.fixed_offset() matches Some(o) ==> start.instant() == (c.model().seconds() - o)
                * 1_000_000_000,
    {
        let civil = start.to_civil();
        proof {
            use_type_invariant(civil);
        }
        Cursor { civil, weekday: start.civil_weekday() }
    }

    /// Starts a search at a wall clock time whose weekday is known.
    pub fn from_parts(civil: CivilDateTime, weekday: Weekday) -> (c: Cursor)
        requires
            weekday == civil@.date.weekday(),
        ensures
            c.model() == civil@,
            c.model().wf(),
    {
        proof {
            use_type_invariant(civil);
        }
        Cursor { civil, weekday }
    }

    /// Returns the wall clock date and time.
    pub fn civil(self) -> (c: CivilDateTime)
        ensures
            c@ == self.model(),
            self.model().wf(),
    {
        proof {
            use_type_invariant(self.civil);
        }
        self.civil
    }

    /// Returns the day of the week.
    pub fn weekday(self) -> (w: Weekday)
        ensures
            w == self.model().date.weekday(),
    {
        proof {
            use_type_invariant(self);
        }
        self.weekday
    }

    /// Returns the time of day.
    pub fn time(self) -> (t: CivilTime)
        ensures
            t@ == self.model().time,
    {
        self.civil.time()
    }

    pub fn year(self) -> (y: i32)
        ensures
            y == self.model().date.year,
            self.model().wf(),
    {
        proof {
            use_type_invariant(self.civil);
        }
        self.civil.year()
    }

    pub fn month(self) -> (m: u32)
        ensures
            m == self.model().date.month,
            self.model().wf(),
    {
        proof {
            use_type_invariant(self.civil);
        }
        self.civil.month()
    }

    pub fn day(self) -> (d: u32)
        ensures
            d == self.model().date.day,
            self.model().wf(),
    {
        proof {
            use_type_invariant(self.civil);
        }
        self.civil.day()
    }

    pub fn hour(self) -> (h: u32)
        ensures
            h == self.model().time.hour,
            self.model().wf(),
    {
        proof {
            use_type_invariant(self.civil);
        }
        self.civil.hour()
    }

    pub fn minute(self) -> (m: u32)
        ensures
            m == self.model().time.minute,
            self.model().wf(),
    {
        proof {
            use_type_invariant(self.civil);
        }
        self.civil.minute()
    }

    pub fn second(self) -> (s: u32)
        ensures
            s == self.model().time.second,
            self.model().wf(),
    {
        proof {
            use_type_invariant(self.civil);
        }
        self.civil.second()
    }

    /// Replaces the time of day. The date, and so the weekday, does not move.
    pub fn with_time(self, time: CivilTime) -> (c: Cursor)
        ensures
            c.model() == (DateTimeModel { date: self.model().date, time: time@ }),
            c.model().wf(),
    {
        proof {
            use_type_invariant(self);
            use_type_invariant(self.civil);
            use_type_invariant(time);
        }
        Cursor { civil: self.civil.with_time(time), weekday: self.weekday }
    }

    /// Adds a signed number of seconds of wall clock time.
    pub fn checked_add_seconds(self, seconds: i64) -> (r: Option<Cursor>)
        ensures
            r matches Some(c) ==> c.model().wf(),
            r matches Some(c) ==> c.model().seconds() == self.model().seconds() + seconds,
            moderate_year(self.model().date.year) && -1_000_000 <= seconds <= 1_000_000 ==> r is Some,
    {
        proof {
            use_type_invariant(self);
        }
        let (civil, days) = match self.civil.checked_add_wall_seconds(seconds) {
            Some(p) => p,
            None => {
                return None;
            },
        };
        if days < i32::MIN as i64 || days > i32::MAX as i64 {
            return None;
        }
        proof {
            lemma_shift_weekday(self.weekday, self.civil@.date.number(), days as int);
        }
        Some(Cursor { civil, weekday: self.weekday.shift(days as i32) })
    }

    /// Adds a signed number of days, keeping the time of day.
    pub fn checked_add_days(self, days: i64) -> (r: Option<Cursor>)
        requires
            -1_000_000 <= days <= 1_000_000,
        ensures
            r matches Some(c) ==> c.model().wf(),
            r matches Some(c) ==> c.model().date.number() == self.model().date.number() + days
                && c.model().time == self.model().time,
            moderate_year(self.model().date.year) ==> r is Some,
            day_number(i32::MIN as int, 1, 1) <= self.model().date.number() + days
                <= day_number(i32::MAX as int, 12, 31) ==> r is Some,
    {
        proof {
            use_type_invariant(self);
            use_type_invariant(self.civil);
        }
        proof {
            if moderate_year(self.model().date.year) {
                lemma_moderate_shift(self.model().date, days as int);
            }
        }
        let date = match self.civil.date().checked_add_days(days) {
            Some(d) => d,
            None => {
                return None;
            },
        };
        proof {
            lemma_shift_weekday(self.weekday, self.civil@.date.number(), days as int);
        }
        Some(
            Cursor {
                civil: CivilDateTime::new(date, self.civil.time()),
                weekday: self.weekday.shift(days as i32),
            },
        )
    }

    /// Moves to the first moment of the next year.
    pub fn start_of_next_year(self) -> (r: Option<Cursor>)
        ensures
            r matches Some(c) ==> c.model().wf(),
            r matches Some(c) ==> c.model() == (DateTimeModel {
                date: DateModel { year: self.model().date.year + 1, month: 1, day: 1 },
                time: TimeModel { hour: 0, minute: 0, second: 0 },
            }),
            moderate_year(self.model().date.year) ==> r is Some,
            self.model().date.year < i32::MAX ==> r is Some,
    {
        proof {
            use_type_invariant(self);
            use_type_invariant(self.civil);
        }
        // From this day to the last day of the year, then one more.
        let to_year_end = days_in_year(self.year()) - self.civil.date().day_of_year();
        proof {
            let y = self.model().date.year;
            if y < i32::MAX {
                lemma_next_year(y);
                lemma_date_in_calendar(DateModel { year: y + 1, month: 1, day: 1 });
            }
        }
        match self.checked_add_days(to_year_end as i64 + 1) {
            Some(c) => {
                let moved = c.with_time(CivilTime::midnight());
                proof {
                    let y = self.model().date.year;
                    lemma_next_year(y);
                    use_type_invariant(c);
                    use_type_invariant(c.civil);
                    let target = DateModel { year: y + 1, month: 1, day: 1 };
                    lemma_date_order(c.model().date, target);
                }
                Some(moved)
            },
            None => None,
        }
    }

    /// Moves to the last moment of the previous year.
    pub fn end_of_previous_year(self) -> (r: Option<Cursor>)
        ensures
            r matches Some(c) ==> c.model().wf(),
            r matches Some(c) ==> c.model() == (DateTimeModel {
                date: DateModel { year: self.model().date.year - 1, month: 12, day: 31 },
                time: TimeModel { hour: 23, minute: 59, second: 59 },
            }),
            moderate_year(self.model().date.year) ==> r is Some,
            self.model().date.year > i32::MIN ==> r is Some,
    {
        proof {
            use_type_invariant(self);
            use_type_invariant(self.civil);
        }
        // Stepping back by the day of the year lands on the last day of the
        // previous year.
        let back = self.civil.date().day_of_year();
        proof {
            let y = self.model().date.year;
            if y > i32::MIN {
                lemma_next_year(y - 1);
                lemma_date_in_calendar(DateModel { year: y - 1, month: 12, day: 31 });
            }
        }
        match self.checked_add_days(-(back as i64)) {
            Some(c) => {
                let moved = c.with_time(CivilTime::end_of_day());
                proof {
                    let y = self.model().date.year;
                    lemma_next_year(y - 1);
                    use_type_invariant(c);
                    use_type_invariant(c.civil);
                    let target = DateModel { year: y - 1, month: 12, day: 31 };
                    lemma_date_order(c.model().date, target);
                }
                Some(moved)
            },
            None => None,
        }
    }

    /// Moves to the first moment of the next month.
    pub fn start_of_next_month(self) -> (r: Option<Cursor>)
        ensures
            r matches Some(c) ==> c.model().wf(),
            r matches Some(c) ==> c.model() == (DateTimeModel {
                date: if self.model().date.month == 12 {
                    DateModel { year: self.model().date.year + 1, month: 1, day: 1 }
                } else {
                    DateModel {
                        year: self.model().date.year,
                        month: self.model().date.month + 1,
                        day: 1,
                    }
                },
                time: TimeModel { hour: 0, minute: 0, second: 0 },
            }),
            moderate_year(self.model().date.year) ==> r is Some,
            !(self.model().date.month == 12 && self.model().date.year == i32::MAX) ==> r is Some,
    {
        proof {
            use_type_invariant(self);
            use_type_invariant(self.civil);
        }
        // From this day to the last day of the month, then one more.
        let to_month_end = self.civil.date().days_in_month() - self.day();
        proof {
            let y = self.model().date.year;
            let m = self.model().date.month;
            if m == 12 && y < i32::MAX {
                lemma_next_year(y);
                lemma_date_in_calendar(DateModel { year: y + 1, month: 1, day: 1 });
            } else if m < 12 {
                lemma_next_month(y, m);
                lemma_date_in_calendar(DateModel { year: y, month: m + 1, day: 1 });
            }
        }
        match self.checked_add_days(to_month_end as i64 + 1) {
            Some(c) => {
                let moved = c.with_time(CivilTime::midnight());
                proof {
                    let y = self.model().date.year;
                    let m = self.model().date.month;
                    use_type_invariant(c);
                    use_type_invariant(c.civil);
                    if m == 12 {
                        lemma_next_year(y);
                        let target = DateModel { year: y + 1, month: 1, day: 1 };
                        lemma_date_order(c.model().date, target);
                    } else {
                        lemma_next_month(y, m);
                        let target = DateModel { year: y, month: m + 1, day: 1 };
                        lemma_date_order(c.model().date, target);
                    }
                }
                Some(moved)
            },
            None => None,
        }
    }

    /// Moves to the last moment of the previous month.
    pub fn end_of_previous_month(self) -> (r: Option<Cursor>)
        ensures
            r matches Some(c) ==> c.model().wf(),
            r matches Some(c) ==> c.model() == (DateTimeModel {
                date: if self.model().date.month == 1 {
                    DateModel { year: self.model().date.year - 1, month: 12, day: 31 }
                } else {
                    DateModel {
                        year: self.model().date.year,
                        month: self.model().date.month - 1,
                        day: month_length(self.model().date.year, self.model().date.month - 1),
                    }
                },
                time: TimeModel { hour: 23, minute: 59, second: 59 },
            }),
            moderate_year(self.model().date.year) ==> r is Some,
            !(self.model().date.month == 1 && self.model().date.year == i32::MIN) ==> r is Some,
    {
        proof {
            use_type_invariant(self);
            use_type_invariant(self.civil);
        }
        // Stepping back by the day of the month lands on the last day of the
        // previous month.
        let back = self.day();
        proof {
            let y = self.model().date.year;
            let m = self.model().date.month;
            if m == 1 && y > i32::MIN {
                lemma_next_year(y - 1);
                lemma_date_in_calendar(DateModel { year: y - 1, month: 12, day: 31 });
            } else if m > 1 {
                lemma_next_month(y, m - 1);
                lemma_date_in_calendar(DateModel { year: y, month: m - 1, day: month_length(y, m - 1) });
            }
        }
        match self.checked_add_days(-(back as i64)) {
            Some(c) => {
                let moved = c.with_time(CivilTime::end_of_day());
                proof {
                    let y = self.model().date.year;
                    let m = self.model().date.month;
                    use_type_invariant(c);
                    use_type_invariant(c.civil);
                    if m == 1 {
                        lemma_next_year(y - 1);
                        let target = DateModel { year: y - 1, month: 12, day: 31 };
                        lemma_date_order(c.model().date, target);
                    } else {
                        lemma_next_month(y, m - 1);
                        let target = DateModel { year: y, month: m - 1, day: month_length(y, m - 1) };
                        lemma_date_order(c.model().date, target);
                    }
                }
                Some(moved)
            },
            None => None,
        }
    }

    /// Resolves the wall clock time in the same time zone as `origin`.
    pub fn resolve_in<T: CronDateTime>(self, origin: &T) -> (r: Result<Resolution<T>, CronError>)
        ensures
            r == origin.resolution_spec(self.civil_value()),
            r matches Ok(Resolution::Single(t)) ==> t.civil_spec() == self.model(),
            r matches Ok(Resolution::Ambiguous(a, b)) ==> a.civil_spec() == self.model()
                && b.civil_spec() == self.model() && a.instant() < b.instant(),
            origin.fixed_offset() matches Some(o) ==> r matches Ok(Resolution::Single(t))
                && t.fixed_offset() == Some(o) && t.instant() == (self.model().seconds() - o)
                * 1_000_000_000,
    {
        origin.resolve_civil(self.civil)
    }
}

} // verus!
