//! The search for matching wall clock times.
//!
//! The search walks the wall clock, which never skips or repeats a time. It
//! moves past whole years, months, days, hours, minutes and seconds that
//! cannot match, and stops at the first wall clock time that does.
use vstd::prelude::*;

use crate::component::{set_values, ComponentModel, ALL_BIT};
use crate::errors::CronError;
use crate::pattern::{
    and_then, lemma_scan_down, lemma_scan_down_answers, lemma_scan_up, lemma_scan_up_answers,
    lemma_standard_answers, standard_pattern, PatternModel, YEAR_LOWER_LIMIT, YEAR_UPPER_LIMIT,
};
use crate::time::cursor::Cursor;
use crate::time::fold::{fold_of, other_fold_edge, Fold};
use crate::time::{
    day_number, lemma_date_order, lemma_next_month, lemma_next_year, moderate_year, month_length,
    CivilDateTime, CivilTime, CronDateTime, DateModel, DateTimeModel, Resolution, TimeModel,
};
use crate::{Cron, Direction, JobType, TimeComponent};

verus! {

// ---------------------------------------------------------------------------
// Stretches of the wall clock without a match.
// ---------------------------------------------------------------------------

/// No wall clock time whose second count lies in `[lo, hi)` matches.
pub open spec fn no_match_in(p: PatternModel, lo: int, hi: int) -> bool {
    forall|d: DateTimeModel|
        #![trigger p.matches(d)]
        d.wf() && lo <= d.seconds() < hi ==> !p.matches(d)
}

/// The date after a date.
pub open spec fn next_date(d: DateModel) -> DateModel {
    if d.day < month_length(d.year, d.month) {
        DateModel { day: d.day + 1, ..d }
    } else if d.month < 12 {
        DateModel { year: d.year, month: d.month + 1, day: 1 }
    } else {
        DateModel { year: d.year + 1, month: 1, day: 1 }
    }
}

/// The date before a date.
pub open spec fn previous_date(d: DateModel) -> DateModel {
    if d.day > 1 {
        DateModel { day: d.day - 1, ..d }
    } else if d.month > 1 {
        DateModel { year: d.year, month: d.month - 1, day: month_length(d.year, d.month - 1) }
    } else {
        DateModel { year: d.year - 1, month: 12, day: 31 }
    }
}

/// The first moment of a date.
pub open spec fn at_midnight(d: DateModel) -> DateTimeModel {
    DateTimeModel { date: d, time: TimeModel { hour: 0, minute: 0, second: 0 } }
}

/// The last moment of a date.
pub open spec fn at_end_of_day(d: DateModel) -> DateTimeModel {
    DateTimeModel { date: d, time: TimeModel { hour: 23, minute: 59, second: 59 } }
}

/// The next date is one day away.
pub proof fn lemma_next_date(d: DateModel)
    requires
        d.wf(),
        d.year < i32::MAX,
    ensures
        next_date(d).wf(),
        next_date(d).number() == d.number() + 1,
{
    lemma_next_year(d.year);
    if d.month < 12 {
        lemma_next_month(d.year, d.month);
    }
}

/// The previous date is one day away.
pub proof fn lemma_previous_date(d: DateModel)
    requires
        d.wf(),
        d.year > i32::MIN,
    ensures
        previous_date(d).wf(),
        previous_date(d).number() == d.number() - 1,
{
    lemma_next_year(d.year - 1);
    if d.month > 1 {
        lemma_next_month(d.year, d.month - 1);
    }
}

/// Wall clock times between two moments of one day lie on that day.
pub proof fn lemma_within_day(c: DateTimeModel, d: DateTimeModel, lo: int, hi: int)
    requires
        c.wf(),
        d.wf(),
        0 <= lo,
        hi <= 86400,
        c.date.number() * 86400 + lo <= d.seconds() < c.date.number() * 86400 + hi,
    ensures
        d.date == c.date,
        lo <= d.time.seconds() < hi,
{
    let n = c.date.number();
    let m = d.date.number();
    assert(0 <= d.time.seconds() < 86400);
    if m < n {
        assert(m * 86400 + 86400 <= n * 86400);
    }
    if m > n {
        assert(n * 86400 + 86400 <= m * 86400);
    }
    assert(m == n);
    lemma_date_order(c.date, d.date);
}

/// Dates from a date up to the first of the next month share its month.
pub proof fn lemma_rest_of_month(c: DateModel, d: DateModel)
    requires
        c.wf(),
        d.wf(),
        i32::MIN < c.year < i32::MAX,
        c.number() <= d.number(),
        d.number() < (if c.month == 12 {
            day_number(c.year + 1, 1, 1)
        } else {
            day_number(c.year, c.month + 1, 1)
        }),
    ensures
        d.year == c.year,
        d.month == c.month,
{
    let next = if c.month == 12 {
        DateModel { year: c.year + 1, month: 1, day: 1 }
    } else {
        DateModel { year: c.year, month: c.month + 1, day: 1 }
    };
    lemma_date_order(d, c);
    lemma_date_order(c, d);
    lemma_date_order(next, d);
    lemma_date_order(d, next);
}

/// Dates from the last of the previous month up to a date share its month.
pub proof fn lemma_start_of_month(c: DateModel, d: DateModel)
    requires
        c.wf(),
        d.wf(),
        i32::MIN < c.year < i32::MAX,
        d.number() <= c.number(),
        d.number() > (if c.month == 1 {
            day_number(c.year - 1, 12, 31)
        } else {
            day_number(c.year, c.month - 1, month_length(c.year, c.month - 1))
        }),
    ensures
        d.year == c.year,
        d.month == c.month,
{
    let prev = if c.month == 1 {
        DateModel { year: c.year - 1, month: 12, day: 31 }
    } else {
        DateModel { year: c.year, month: c.month - 1, day: month_length(c.year, c.month - 1) }
    };
    lemma_date_order(d, c);
    lemma_date_order(c, d);
    lemma_date_order(prev, d);
    lemma_date_order(d, prev);
}

/// Dates from a date up to the first of the next year share its year.
pub proof fn lemma_rest_of_year(c: DateModel, d: DateModel)
    requires
        c.wf(),
        d.wf(),
        i32::MIN < c.year < i32::MAX,
        c.number() <= d.number() < day_number(c.year + 1, 1, 1),
    ensures
        d.year == c.year,
{
    let next = DateModel { year: c.year + 1, month: 1, day: 1 };
    lemma_date_order(d, c);
    lemma_date_order(c, d);
    lemma_date_order(next, d);
    lemma_date_order(d, next);
}

/// Dates from the last of the previous year up to a date share its year.
pub proof fn lemma_start_of_year(c: DateModel, d: DateModel)
    requires
        c.wf(),
        d.wf(),
        i32::MIN < c.year < i32::MAX,
        day_number(c.year - 1, 12, 31) < d.number() <= c.number(),
    ensures
        d.year == c.year,
{
    let prev = DateModel { year: c.year - 1, month: 12, day: 31 };
    lemma_date_order(d, c);
    lemma_date_order(c, d);
    lemma_date_order(prev, d);
    lemma_date_order(d, prev);
}

/// A match matches in every field.
pub proof fn lemma_match_fields(p: PatternModel, d: DateTimeModel)
    requires
        p.matches(d),
    ensures
        p.second_answer(d.time.second) == Some(true),
        p.minute_answer(d.time.minute) == Some(true),
        p.hour_answer(d.time.hour) == Some(true),
        p.day_answer(d.date.year, d.date.month, d.date.day, d.date.weekday()) == Some(true),
        p.month_answer(d.date.month) == Some(true),
        p.year_answer(d.date.year) == Some(true),
{
}

/// A wall clock time lies within its day.
pub proof fn lemma_seconds_in_day(d: DateTimeModel)
    requires
        d.wf(),
    ensures
        d.date.number() * 86400 <= d.seconds() < d.date.number() * 86400 + 86400,
        0 <= d.time.seconds() < 86400,
{
}

/// A time of day is fixed by its second count.
pub proof fn lemma_time_from_seconds(a: TimeModel, b: TimeModel)
    requires
        a.wf(),
        b.wf(),
        a.seconds() == b.seconds(),
    ensures
        a == b,
{
    if a.hour < b.hour {
        assert(a.seconds() < a.hour * 3600 + 3600);
        assert(a.hour * 3600 + 3600 <= b.hour * 3600);
    }
    if b.hour < a.hour {
        assert(b.seconds() < b.hour * 3600 + 3600);
        assert(b.hour * 3600 + 3600 <= a.hour * 3600);
    }
    if a.hour == b.hour && a.minute < b.minute {
        assert(a.minute * 60 + 60 <= b.minute * 60);
    }
    if a.hour == b.hour && b.minute < a.minute {
        assert(b.minute * 60 + 60 <= a.minute * 60);
    }
}

/// Wall clock times in `[c, c + 1)` are `c` itself.
pub proof fn lemma_single_second(c: DateTimeModel, d: DateTimeModel)
    requires
        c.wf(),
        d.wf(),
        c.seconds() == d.seconds(),
    ensures
        c == d,
{
    lemma_within_day(c, d, c.time.seconds(), c.time.seconds() + 1);
    lemma_time_from_seconds(c.time, d.time);
}

/// A date no later than the last supported year comes before its end.
pub proof fn lemma_below_limit(d: DateModel)
    requires
        d.wf(),
        d.year <= YEAR_UPPER_LIMIT,
    ensures
        d.number() < day_number(YEAR_UPPER_LIMIT + 1, 1, 1),
{
    crate::time::lemma_day_number_year_bounds(d.year, d.month, d.day);
    crate::time::lemma_days_before_year_monotone(d.year + 1, YEAR_UPPER_LIMIT + 1);
}

/// A date in or after the first supported year has a positive number.
pub proof fn lemma_above_limit(d: DateModel)
    requires
        d.wf(),
        d.year >= YEAR_LOWER_LIMIT,
    ensures
        d.number() >= 1,
{
    crate::time::lemma_day_number_year_bounds(d.year, d.month, d.day);
    crate::time::lemma_days_before_year_monotone(1, d.year);
}

/// Skipping the rest of a year that does not match skips no match.
pub proof fn lemma_skip_year(p: PatternModel, c: DateTimeModel, n: DateTimeModel, direction: Direction)
    requires
        c.wf(),
        n.wf(),
        i32::MIN < c.date.year < i32::MAX,
        p.year_answer(c.date.year) != Some(true),
        adjusted(c, TimeComponent::Year, direction) == Some(n),
    ensures
        direction == Direction::Forward ==> c.seconds() < n.seconds() && no_match_in(
            p,
            c.seconds(),
            n.seconds(),
        ),
        direction == Direction::Backward ==> n.seconds() < c.seconds() && no_match_in(
            p,
            n.seconds() + 1,
            c.seconds() + 1,
        ),
{
    lemma_next_year(c.date.year);
    lemma_next_year(c.date.year - 1);
    crate::time::lemma_day_number_year_bounds(c.date.year, c.date.month, c.date.day);
    if direction == Direction::Forward {
        assert forall|d: DateTimeModel|
            d.wf() && c.seconds() <= d.seconds() < n.seconds() implies !p.matches(d) by {
            lemma_seconds_in_day(c);
            lemma_seconds_in_day(d);
            lemma_rest_of_year(c.date, d.date);
            if p.matches(d) {
                lemma_match_fields(p, d);
            }
        }
    } else {
        assert forall|d: DateTimeModel|
            d.wf() && n.seconds() + 1 <= d.seconds() < c.seconds() + 1 implies !p.matches(d) by {
            lemma_seconds_in_day(c);
            lemma_seconds_in_day(d);
            lemma_start_of_year(c.date, d.date);
            if p.matches(d) {
                lemma_match_fields(p, d);
            }
        }
    }
}

/// Skipping the rest of a month that does not match skips no match.
pub proof fn lemma_skip_month(p: PatternModel, c: DateTimeModel, n: DateTimeModel, direction: Direction)
    requires
        c.wf(),
        n.wf(),
        i32::MIN < c.date.year < i32::MAX,
        p.month_answer(c.date.month) != Some(true),
        adjusted(c, TimeComponent::Month, direction) == Some(n),
    ensures
        direction == Direction::Forward ==> c.seconds() < n.seconds() && no_match_in(
            p,
            c.seconds(),
            n.seconds(),
        ),
        direction == Direction::Backward ==> n.seconds() < c.seconds() && no_match_in(
            p,
            n.seconds() + 1,
            c.seconds() + 1,
        ),
{
    lemma_next_year(c.date.year);
    lemma_next_year(c.date.year - 1);
    if c.date.month < 12 {
        lemma_next_month(c.date.year, c.date.month);
    }
    if c.date.month > 1 {
        lemma_next_month(c.date.year, c.date.month - 1);
    }
    if direction == Direction::Forward {
        assert(c.date.number() < n.date.number()) by {
            lemma_date_order(c.date, n.date);
        }
        assert forall|d: DateTimeModel|
            d.wf() && c.seconds() <= d.seconds() < n.seconds() implies !p.matches(d) by {
            lemma_seconds_in_day(c);
            lemma_seconds_in_day(d);
            lemma_rest_of_month(c.date, d.date);
            if p.matches(d) {
                lemma_match_fields(p, d);
            }
        }
    } else {
        assert(n.date.number() < c.date.number()) by {
            lemma_date_order(n.date, c.date);
        }
        assert forall|d: DateTimeModel|
            d.wf() && n.seconds() + 1 <= d.seconds() < c.seconds() + 1 implies !p.matches(d) by {
            lemma_seconds_in_day(c);
            lemma_seconds_in_day(d);
            lemma_start_of_month(c.date, d.date);
            if p.matches(d) {
                lemma_match_fields(p, d);
            }
        }
    }
}

/// Skipping the rest of a day that does not match skips no match.
pub proof fn lemma_skip_day(p: PatternModel, c: DateTimeModel, n: DateTimeModel, direction: Direction)
    requires
        c.wf(),
        n.wf(),
        i32::MIN < c.date.year < i32::MAX,
        p.day_answer(c.date.year, c.date.month, c.date.day, c.date.weekday()) != Some(true),
        adjusted(c, TimeComponent::Day, direction) == Some(n),
    ensures
        direction == Direction::Forward ==> c.seconds() < n.seconds() && no_match_in(
            p,
            c.seconds(),
            n.seconds(),
        ),
        direction == Direction::Backward ==> n.seconds() < c.seconds() && no_match_in(
            p,
            n.seconds() + 1,
            c.seconds() + 1,
        ),
{
    lemma_next_date(c.date);
    lemma_previous_date(c.date);
    lemma_seconds_in_day(c);
    if direction == Direction::Forward {
        assert forall|d: DateTimeModel|
            d.wf() && c.seconds() <= d.seconds() < n.seconds() implies !p.matches(d) by {
            lemma_within_day(c, d, c.time.seconds(), 86400);
            if p.matches(d) {
                lemma_match_fields(p, d);
            }
        }
    } else {
        assert forall|d: DateTimeModel|
            d.wf() && n.seconds() + 1 <= d.seconds() < c.seconds() + 1 implies !p.matches(d) by {
            lemma_within_day(c, d, 0, c.time.seconds() + 1);
            if p.matches(d) {
                lemma_match_fields(p, d);
            }
        }
    }
}

/// Skipping hours `[c.hour, h_end)` of the day, none of which matches,
/// skips no match.
pub proof fn lemma_skip_hours_forward(p: PatternModel, c: DateTimeModel, h_end: int)
    requires
        c.wf(),
        c.time.hour < h_end <= 24,
        forall|hh: int| c.time.hour <= hh < h_end ==> #[trigger] p.hour_answer(hh) != Some(true),
    ensures
        c.seconds() < c.date.number() * 86400 + h_end * 3600,
        no_match_in(p, c.seconds(), c.date.number() * 86400 + h_end * 3600),
{
    assert forall|d: DateTimeModel|
        d.wf() && c.seconds() <= d.seconds() < c.date.number() * 86400 + h_end
            * 3600 implies !p.matches(d) by {
        lemma_within_day(c, d, c.time.seconds(), h_end * 3600);
        if d.time.hour < c.time.hour {
            assert(d.time.hour * 3600 + 3600 <= c.time.hour * 3600);
        }
        if d.time.hour >= h_end {
            assert(d.time.hour * 3600 >= h_end * 3600);
        }
        assert(p.hour_answer(d.time.hour) != Some(true));
        if p.matches(d) {
            lemma_match_fields(p, d);
        }
    }
}

/// Skipping hours `[h_start, c.hour]` of the day, backward, skips no match.
pub proof fn lemma_skip_hours_backward(p: PatternModel, c: DateTimeModel, h_start: int)
    requires
        c.wf(),
        0 <= h_start <= c.time.hour,
        forall|hh: int| h_start <= hh <= c.time.hour ==> #[trigger] p.hour_answer(hh) != Some(true),
    ensures
        c.date.number() * 86400 + h_start * 3600 - 1 < c.seconds(),
        no_match_in(p, c.date.number() * 86400 + h_start * 3600, c.seconds() + 1),
{
    assert forall|d: DateTimeModel|
        d.wf() && c.date.number() * 86400 + h_start * 3600 <= d.seconds() < c.seconds()
            + 1 implies !p.matches(d) by {
        lemma_within_day(c, d, h_start * 3600, c.time.seconds() + 1);
        if d.time.hour > c.time.hour {
            assert(c.time.hour * 3600 + 3600 <= d.time.hour * 3600);
        }
        if d.time.hour < h_start {
            assert(d.time.hour * 3600 + 3600 <= h_start * 3600);
        }
        assert(p.hour_answer(d.time.hour) != Some(true));
        if p.matches(d) {
            lemma_match_fields(p, d);
        }
    }
}

/// Skipping minutes `[c.minute, m_end)` of the hour skips no match.
pub proof fn lemma_skip_minutes_forward(p: PatternModel, c: DateTimeModel, m_end: int)
    requires
        c.wf(),
        c.time.minute < m_end <= 60,
        forall|mm: int|
            c.time.minute <= mm < m_end ==> #[trigger] p.minute_answer(mm) != Some(true),
    ensures
        c.seconds() < c.date.number() * 86400 + c.time.hour * 3600 + m_end * 60,
        no_match_in(p, c.seconds(), c.date.number() * 86400 + c.time.hour * 3600 + m_end * 60),
{
    let end = c.time.hour * 3600 + m_end * 60;
    assert forall|d: DateTimeModel|
        d.wf() && c.seconds() <= d.seconds() < c.date.number() * 86400 + end implies !p.matches(
        d,
    ) by {
        lemma_within_day(c, d, c.time.seconds(), end);
        if d.time.hour < c.time.hour {
            assert(d.time.hour * 3600 + 3600 <= c.time.hour * 3600);
        }
        if d.time.hour > c.time.hour {
            assert(c.time.hour * 3600 + 3600 <= d.time.hour * 3600);
        }
        assert(d.time.hour == c.time.hour);
        if d.time.minute < c.time.minute {
            assert(d.time.minute * 60 + 60 <= c.time.minute * 60);
        }
        if d.time.minute >= m_end {
            assert(d.time.minute * 60 >= m_end * 60);
        }
        assert(p.minute_answer(d.time.minute) != Some(true));
        if p.matches(d) {
            lemma_match_fields(p, d);
        }
    }
}

/// Skipping minutes `[m_start, c.minute]` of the hour, backward, skips no
/// match.
pub proof fn lemma_skip_minutes_backward(p: PatternModel, c: DateTimeModel, m_start: int)
    requires
        c.wf(),
        0 <= m_start <= c.time.minute,
        forall|mm: int|
            m_start <= mm <= c.time.minute ==> #[trigger] p.minute_answer(mm) != Some(true),
    ensures
        c.date.number() * 86400 + c.time.hour * 3600 + m_start * 60 - 1 < c.seconds(),
        no_match_in(
            p,
            c.date.number() * 86400 + c.time.hour * 3600 + m_start * 60,
            c.seconds() + 1,
        ),
{
    let start = c.time.hour * 3600 + m_start * 60;
    assert forall|d: DateTimeModel|
        d.wf() && c.date.number() * 86400 + start <= d.seconds() < c.seconds()
            + 1 implies !p.matches(d) by {
        lemma_within_day(c, d, start, c.time.seconds() + 1);
        if d.time.hour < c.time.hour {
            assert(d.time.hour * 3600 + 3600 <= c.time.hour * 3600);
        }
        if d.time.hour > c.time.hour {
            assert(c.time.hour * 3600 + 3600 <= d.time.hour * 3600);
        }
        assert(d.time.hour == c.time.hour);
        if d.time.minute > c.time.minute {
            assert(c.time.minute * 60 + 60 <= d.time.minute * 60);
        }
        if d.time.minute < m_start {
            assert(d.time.minute * 60 + 60 <= m_start * 60);
        }
        assert(p.minute_answer(d.time.minute) != Some(true));
        if p.matches(d) {
            lemma_match_fields(p, d);
        }
    }
}

/// Skipping seconds `[c.second, s_end)` of the minute skips no match.
pub proof fn lemma_skip_seconds_forward(p: PatternModel, c: DateTimeModel, s_end: int)
    requires
        c.wf(),
        c.time.second < s_end <= 60,
        forall|ss: int|
            c.time.second <= ss < s_end ==> #[trigger] p.second_answer(ss) != Some(true),
    ensures
        c.seconds() < c.date.number() * 86400 + c.time.hour * 3600 + c.time.minute * 60 + s_end,
        no_match_in(
            p,
            c.seconds(),
            c.date.number() * 86400 + c.time.hour * 3600 + c.time.minute * 60 + s_end,
        ),
{
    let end = c.time.hour * 3600 + c.time.minute * 60 + s_end;
    assert forall|d: DateTimeModel|
        d.wf() && c.seconds() <= d.seconds() < c.date.number() * 86400 + end implies !p.matches(
        d,
    ) by {
        lemma_within_day(c, d, c.time.seconds(), end);
        if d.time.hour < c.time.hour {
            assert(d.time.hour * 3600 + 3600 <= c.time.hour * 3600);
        }
        if d.time.hour > c.time.hour {
            assert(c.time.hour * 3600 + 3600 <= d.time.hour * 3600);
        }
        if d.time.hour == c.time.hour && d.time.minute < c.time.minute {
            assert(d.time.minute * 60 + 60 <= c.time.minute * 60);
        }
        if d.time.hour == c.time.hour && d.time.minute > c.time.minute {
            assert(c.time.minute * 60 + 60 <= d.time.minute * 60);
        }
        assert(p.second_answer(d.time.second) != Some(true));
        if p.matches(d) {
            lemma_match_fields(p, d);
        }
    }
}

/// Skipping seconds `[s_start, c.second]` of the minute, backward, skips no
/// match.
pub proof fn lemma_skip_seconds_backward(p: PatternModel, c: DateTimeModel, s_start: int)
    requires
        c.wf(),
        0 <= s_start <= c.time.second,
        forall|ss: int|
            s_start <= ss <= c.time.second ==> #[trigger] p.second_answer(ss) != Some(true),
    ensures
        c.date.number() * 86400 + c.time.hour * 3600 + c.time.minute * 60 + s_start - 1
            < c.seconds(),
        no_match_in(
            p,
            c.date.number() * 86400 + c.time.hour * 3600 + c.time.minute * 60 + s_start,
            c.seconds() + 1,
        ),
{
    let start = c.time.hour * 3600 + c.time.minute * 60 + s_start;
    assert forall|d: DateTimeModel|
        d.wf() && c.date.number() * 86400 + start <= d.seconds() < c.seconds()
            + 1 implies !p.matches(d) by {
        lemma_within_day(c, d, start, c.time.seconds() + 1);
        if d.time.hour < c.time.hour {
            assert(d.time.hour * 3600 + 3600 <= c.time.hour * 3600);
        }
        if d.time.hour > c.time.hour {
            assert(c.time.hour * 3600 + 3600 <= d.time.hour * 3600);
        }
        if d.time.hour == c.time.hour && d.time.minute < c.time.minute {
            assert(d.time.minute * 60 + 60 <= c.time.minute * 60);
        }
        if d.time.hour == c.time.hour && d.time.minute > c.time.minute {
            assert(c.time.minute * 60 + 60 <= d.time.minute * 60);
        }
        assert(p.second_answer(d.time.second) != Some(true));
        if p.matches(d) {
            lemma_match_fields(p, d);
        }
    }
}

// ---------------------------------------------------------------------------
// Moving through the calendar.
// ---------------------------------------------------------------------------

/// Where `adjust_time_component` moves a wall clock time: past the rest of
/// the given field, resetting the smaller ones. `None` for the second field.
pub open spec fn adjusted(c: DateTimeModel, component: TimeComponent, direction: Direction) -> Option<
    DateTimeModel,
> {
    let y = c.date.year;
    let m = c.date.month;
    let h = c.time.hour;
    let mi = c.time.minute;
    match direction {
        Direction::Forward => match component {
            TimeComponent::Year => Some(at_midnight(DateModel { year: y + 1, month: 1, day: 1 })),
            TimeComponent::Month => Some(
                at_midnight(
                    if m == 12 {
                        DateModel { year: y + 1, month: 1, day: 1 }
                    } else {
                        DateModel { year: y, month: m + 1, day: 1 }
                    },
                ),
            ),
            TimeComponent::Day => Some(at_midnight(next_date(c.date))),
            TimeComponent::Hour => Some(
                if h < 23 {
                    DateTimeModel { date: c.date, time: TimeModel { hour: h + 1, minute: 0, second: 0 } }
                } else {
                    at_midnight(next_date(c.date))
                },
            ),
            TimeComponent::Minute => Some(
                if mi < 59 {
                    DateTimeModel {
                        date: c.date,
                        time: TimeModel { hour: h, minute: mi + 1, second: 0 },
                    }
                } else if h < 23 {
                    DateTimeModel { date: c.date, time: TimeModel { hour: h + 1, minute: 0, second: 0 } }
                } else {
                    at_midnight(next_date(c.date))
                },
            ),
            TimeComponent::Second => None,
        },
        Direction::Backward => match component {
            TimeComponent::Year => Some(
                at_end_of_day(DateModel { year: y - 1, month: 12, day: 31 }),
            ),
            TimeComponent::Month => Some(
                at_end_of_day(
                    if m == 1 {
                        DateModel { year: y - 1, month: 12, day: 31 }
                    } else {
                        DateModel { year: y, month: m - 1, day: month_length(y, m - 1) }
                    },
                ),
            ),
            TimeComponent::Day => Some(at_end_of_day(previous_date(c.date))),
            TimeComponent::Hour => Some(
                if h > 0 {
                    DateTimeModel {
                        date: c.date,
                        time: TimeModel { hour: h - 1, minute: 59, second: 59 },
                    }
                } else {
                    at_end_of_day(previous_date(c.date))
                },
            ),
            TimeComponent::Minute => Some(
                if mi > 0 {
                    DateTimeModel {
                        date: c.date,
                        time: TimeModel { hour: h, minute: mi - 1, second: 59 },
                    }
                } else if h > 0 {
                    DateTimeModel {
                        date: c.date,
                        time: TimeModel { hour: h - 1, minute: 59, second: 59 },
                    }
                } else {
                    at_end_of_day(previous_date(c.date))
                },
            ),
            TimeComponent::Second => None,
        },
    }
}

/// The second and minute a move to a new hour or minute starts from: the
/// first forward, the last backward.
pub open spec fn low_of(direction: Direction) -> int {
    match direction {
        Direction::Forward => 0,
        Direction::Backward => 59,
    }
}

/// What moving through the hour field did, from `a` to `b`: stayed on
/// the date at an hour that matches (where `a`'s hour matched, at `a`
/// itself, else at the start of the hour), or, with no hour left that
/// matches, moved past the day.
pub open spec fn hour_step(
    p: PatternModel,
    a: DateTimeModel,
    b: DateTimeModel,
    moved: bool,
    direction: Direction,
) -> bool {
    &&& (!moved ==> b.date == a.date && p.hour_answer(b.time.hour) == Some(true))
    &&& (!moved && p.hour_answer(a.time.hour) == Some(true) ==> b == a)
    &&& (!moved && p.hour_answer(a.time.hour) != Some(true) ==> b.time.minute == low_of(direction)
        && b.time.second == low_of(direction))
    &&& (moved ==> adjusted(a, TimeComponent::Day, direction) == Some(b))
    &&& (moved ==> forall|v: int|
        #![trigger p.hour_answer(v)]
        onward(v, a.time.hour, 23, direction) ==> p.hour_answer(v) != Some(true))
}

/// What moving through the minute field did, from `a` to `b`.
pub open spec fn minute_step(
    p: PatternModel,
    a: DateTimeModel,
    b: DateTimeModel,
    moved: bool,
    direction: Direction,
) -> bool {
    &&& (!moved ==> b.date == a.date && b.time.hour == a.time.hour && p.minute_answer(
        b.time.minute,
    ) == Some(true))
    &&& (!moved && p.minute_answer(a.time.minute) == Some(true) ==> b == a)
    &&& (!moved && p.minute_answer(a.time.minute) != Some(true) ==> b.time.second == low_of(
        direction,
    ))
    &&& (moved ==> adjusted(a, TimeComponent::Hour, direction) == Some(b))
    &&& (moved ==> forall|v: int|
        #![trigger p.minute_answer(v)]
        onward(v, a.time.minute, 59, direction) ==> p.minute_answer(v) != Some(true))
}

/// What moving through the second field did, from `a` to `b`.
pub open spec fn second_step(
    p: PatternModel,
    a: DateTimeModel,
    b: DateTimeModel,
    moved: bool,
    direction: Direction,
) -> bool {
    &&& (!moved ==> b.date == a.date && b.time.hour == a.time.hour && b.time.minute
        == a.time.minute && p.second_answer(b.time.second) == Some(true))
    &&& (!moved && p.second_answer(a.time.second) == Some(true) ==> b == a)
    &&& (moved ==> adjusted(a, TimeComponent::Minute, direction) == Some(b))
    &&& (moved ==> forall|v: int|
        #![trigger p.second_answer(v)]
        onward(v, a.time.second, 59, direction) ==> p.second_answer(v) != Some(true))
}

/// Whether a search in this direction has reached the supported edge of
/// the calendar.
pub open spec fn at_year_limit(c: DateTimeModel, direction: Direction) -> bool {
    match direction {
        Direction::Forward => c.date.year >= YEAR_UPPER_LIMIT,
        Direction::Backward => c.date.year <= YEAR_LOWER_LIMIT,
    }
}

/// A cursor on the given date at the given time of day.
fn at_time(c: Cursor, hour: u32, minute: u32, second: u32) -> (r: Cursor)
    requires
        hour < 24,
        minute < 60,
        second < 60,
    ensures
        r.model() == (DateTimeModel {
            date: c.model().date,
            time: TimeModel { hour: hour as int, minute: minute as int, second: second as int },
        }),
        r.model().wf(),
{
    c.with_time(CivilTime::from_parts_unchecked(hour, minute, second))
}

/// The cursor one day later, at midnight.
fn next_day(c: Cursor) -> (r: Result<Cursor, CronError>)
    requires
        c.model().date.year < YEAR_UPPER_LIMIT,
    ensures
        r matches Ok(n) ==> n.model() == at_midnight(next_date(c.model().date)) && n.model().wf(),
        r matches Err(e) ==> e is InvalidDate,
        moderate_year(c.model().date.year) ==> r is Ok,
        r is Ok,
{
    let y = c.year();
    proof {
        lemma_next_date(c.model().date);
        crate::time::lemma_date_in_calendar(next_date(c.model().date));
    }
    match c.checked_add_days(1) {
        Some(n) => {
            let r = at_time(n, 0, 0, 0);
            proof {
                lemma_next_date(c.model().date);
                lemma_date_order(n.model().date, next_date(c.model().date));
            }
            Ok(r)
        },
        None => Err(CronError::InvalidDate),
    }
}

/// The cursor one day earlier, at the end of the day.
fn previous_day(c: Cursor) -> (r: Result<Cursor, CronError>)
    requires
        c.model().date.year > YEAR_LOWER_LIMIT,
    ensures
        r matches Ok(n) ==> n.model() == at_end_of_day(previous_date(c.model().date))
            && n.model().wf(),
        r matches Err(e) ==> e is InvalidDate,
        moderate_year(c.model().date.year) ==> r is Ok,
        r is Ok,
{
    let y = c.year();
    proof {
        lemma_previous_date(c.model().date);
        crate::time::lemma_date_in_calendar(previous_date(c.model().date));
    }
    match c.checked_add_days(-1) {
        Some(n) => {
            let r = at_time(n, 23, 59, 59);
            proof {
                lemma_previous_date(c.model().date);
                lemma_date_order(n.model().date, previous_date(c.model().date));
            }
            Ok(r)
        },
        None => Err(CronError::InvalidDate),
    }
}

impl Cron {
    /// Moves past the rest of a field: forward to the first moment of the
    /// next year, month, day, hour or minute, or backward to the last moment
    /// of the previous one. Fails at the supported edge of the calendar.
    fn adjust_time_component(
        current_time: &mut Cursor,
        component: TimeComponent,
        direction: Direction,
    ) -> (r: Result<(), CronError>)
        ensures
            at_year_limit(old(current_time).model(), direction) ==> r == Err::<(), CronError>(
                CronError::TimeSearchLimitExceeded,
            ),
            r is Ok ==> adjusted(old(current_time).model(), component, direction) == Some(
                final(current_time).model(),
            ),
            r is Ok ==> final(current_time).model().wf(),
            r matches Err(e) ==> (e is TimeSearchLimitExceeded || e is InvalidDate
                || e is InvalidTime),
            r is Err ==> *final(current_time) == *old(current_time),
            moderate_year(old(current_time).model().date.year) && !at_year_limit(
                old(current_time).model(),
                direction,
            ) && !(component is Second) ==> r is Ok,
            !at_year_limit(old(current_time).model(), direction) && !(component is Second) ==> r is Ok,
            !(component is Second) && r is Err ==> r == Err::<(), CronError>(
                CronError::TimeSearchLimitExceeded,
            ),
    {
        let c = *current_time;
        let year = c.year();
        let h = c.hour();
        let mi = c.minute();
        match direction {
            Direction::Forward => {
                if year >= YEAR_UPPER_LIMIT {
                    return Err(CronError::TimeSearchLimitExceeded);
                }
                let moved = match component {
                    TimeComponent::Year => match c.start_of_next_year() {
                        Some(n) => n,
                        None => {
                            return Err(CronError::InvalidDate);
                        },
                    },
                    TimeComponent::Month => match c.start_of_next_month() {
                        Some(n) => n,
                        None => {
                            return Err(CronError::InvalidDate);
                        },
                    },
                    TimeComponent::Day => match next_day(c) {
                        Ok(n) => n,
                        Err(e) => {
                            return Err(e);
                        },
                    },
                    TimeComponent::Hour => if h < 23 {
                        at_time(c, h + 1, 0, 0)
                    } else {
                        match next_day(c) {
                            Ok(n) => n,
                            Err(e) => {
                                return Err(e);
                            },
                        }
                    },
                    TimeComponent::Minute => if mi < 59 {
                        at_time(c, h, mi + 1, 0)
                    } else if h < 23 {
                        at_time(c, h + 1, 0, 0)
                    } else {
                        match next_day(c) {
                            Ok(n) => n,
                            Err(e) => {
                                return Err(e);
                            },
                        }
                    },
                    TimeComponent::Second => {
                        return Err(CronError::InvalidTime);
                    },
                };
                *current_time = moved;
                Ok(())
            },
            Direction::Backward => {
                if year <= YEAR_LOWER_LIMIT {
                    return Err(CronError::TimeSearchLimitExceeded);
                }
                let moved = match component {
                    TimeComponent::Year => match c.end_of_previous_year() {
                        Some(n) => n,
                        None => {
                            return Err(CronError::InvalidDate);
                        },
                    },
                    TimeComponent::Month => match c.end_of_previous_month() {
                        Some(n) => n,
                        None => {
                            return Err(CronError::InvalidDate);
                        },
                    },
                    TimeComponent::Day => {
                                                match previous_day(c) {
                            Ok(n) => n,
                            Err(e) => {
                                return Err(e);
                            },
                        }
                    },
                    TimeComponent::Hour => if h > 0 {
                        at_time(c, h - 1, 59, 59)
                    } else {
                                                match previous_day(c) {
                            Ok(n) => n,
                            Err(e) => {
                                return Err(e);
                            },
                        }
                    },
                    TimeComponent::Minute => if mi > 0 {
                        at_time(c, h, mi - 1, 59)
                    } else if h > 0 {
                        at_time(c, h - 1, 59, 59)
                    } else {
                                                match previous_day(c) {
                            Ok(n) => n,
                            Err(e) => {
                                return Err(e);
                            },
                        }
                    },
                    TimeComponent::Second => {
                        return Err(CronError::InvalidTime);
                    },
                };
                *current_time = moved;
                Ok(())
            },
        }
    }
}

/// What skipping the rest of a year, month or day gives: no match skipped,
/// a strict move, and a place within the supported years.
#[verifier::rlimit(60)]
pub proof fn lemma_skip_date_field(
    p: PatternModel,
    before: DateTimeModel,
    after: DateTimeModel,
    component: TimeComponent,
    direction: Direction,
)
    requires
        before.wf(),
        after.wf(),
        i32::MIN < before.date.year < i32::MAX,
        !at_year_limit(before, direction),
        adjusted(before, component, direction) == Some(after),
        component is Year || component is Month || component is Day,
        component is Year ==> p.year_answer(before.date.year) != Some(true),
        component is Month ==> p.month_answer(before.date.month) != Some(true),
        component is Day ==> p.day_answer(
            before.date.year,
            before.date.month,
            before.date.day,
            before.date.weekday(),
        ) != Some(true),
    ensures
        searched(p, before, after, direction),
        after.seconds() != before.seconds(),
        direction == Direction::Forward ==> after.seconds() < day_number(
            YEAR_UPPER_LIMIT + 1,
            1,
            1,
        ) * 86400,
        direction == Direction::Backward ==> after.seconds() >= 0,
        after.time == (match direction {
            Direction::Forward => TimeModel { hour: 0, minute: 0, second: 0 },
            Direction::Backward => TimeModel { hour: 23, minute: 59, second: 59 },
        }),
{
    if component is Year {
        lemma_skip_year(p, before, after, direction);
    } else if component is Month {
        lemma_skip_month(p, before, after, direction);
    } else {
        lemma_skip_day(p, before, after, direction);
    }
    lemma_seconds_in_day(after);
    if direction == Direction::Forward {
        lemma_below_limit(after.date);
    } else {
        lemma_above_limit(after.date);
    }
}

/// Where `set_time_component` puts a wall clock time: the field set to
/// `value` and the smaller fields reset, to their first value forward and
/// their last backward. `None` where the value is out of range or the field
/// is not a time of day field.
pub open spec fn time_set(c: DateTimeModel, component: TimeComponent, value: int, direction: Direction) -> Option<
    DateTimeModel,
> {
    let low: int = if direction == Direction::Forward {
        0
    } else {
        59
    };
    match component {
        TimeComponent::Second => if 0 <= value <= 59 {
            Some(DateTimeModel { date: c.date, time: TimeModel { second: value, ..c.time } })
        } else {
            None
        },
        TimeComponent::Minute => if 0 <= value <= 59 {
            Some(
                DateTimeModel {
                    date: c.date,
                    time: TimeModel { hour: c.time.hour, minute: value, second: low },
                },
            )
        } else {
            None
        },
        TimeComponent::Hour => if 0 <= value <= 23 {
            Some(
                DateTimeModel {
                    date: c.date,
                    time: TimeModel { hour: value, minute: low, second: low },
                },
            )
        } else {
            None
        },
        _ => None,
    }
}

/// The search stays within the supported years and has skipped no match
/// between where it started and where it stands.
pub open spec fn searched(p: PatternModel, start: DateTimeModel, cur: DateTimeModel, direction: Direction) -> bool {
    match direction {
        Direction::Forward => start.seconds() <= cur.seconds() && no_match_in(
            p,
            start.seconds(),
            cur.seconds(),
        ),
        Direction::Backward => cur.seconds() <= start.seconds() && no_match_in(
            p,
            cur.seconds() + 1,
            start.seconds() + 1,
        ),
    }
}

/// `searched`, kept folded: the rounds of a search pass it on without
/// looking inside.
#[verifier::opaque]
pub open spec fn passed(p: PatternModel, start: DateTimeModel, cur: DateTimeModel, direction: Direction) -> bool {
    searched(p, start, cur, direction)
}

/// Folding and unfolding `passed`, and its composition.
pub proof fn lemma_passed(
    p: PatternModel,
    a: DateTimeModel,
    b: DateTimeModel,
    c: DateTimeModel,
    direction: Direction,
)
    ensures
        passed(p, a, b, direction) <==> searched(p, a, b, direction),
        passed(p, a, b, direction) && passed(p, b, c, direction) ==> passed(p, a, c, direction),
{
    reveal(passed);
}

/// A time that matches lies ahead of `c` in the direction of the search,
/// inside the years that a search walks without reaching its edge: before
/// the last supported year forward, after the first backward.
pub open spec fn match_ahead(p: PatternModel, c: DateTimeModel, direction: Direction) -> bool {
    exists|m: DateTimeModel|
        #![trigger p.matches(m)]
        m.wf() && p.matches(m) && match direction {
            Direction::Forward => c.seconds() <= m.seconds() && m.date.year < YEAR_UPPER_LIMIT,
            Direction::Backward => m.seconds() <= c.seconds() && m.date.year > YEAR_LOWER_LIMIT,
        }
}

/// A search keeps a match ahead of it: it skips none.
pub proof fn lemma_match_ahead_kept(
    p: PatternModel,
    a: DateTimeModel,
    b: DateTimeModel,
    direction: Direction,
)
    requires
        match_ahead(p, a, direction),
        searched(p, a, b, direction),
    ensures
        match_ahead(p, b, direction),
{
    let m = choose|m: DateTimeModel|
        #![trigger p.matches(m)]
        m.wf() && p.matches(m) && match direction {
            Direction::Forward => a.seconds() <= m.seconds() && m.date.year < YEAR_UPPER_LIMIT,
            Direction::Backward => m.seconds() <= a.seconds() && m.date.year > YEAR_LOWER_LIMIT,
        };
    assert(p.matches(m));
}

/// The year order follows the second count.
pub proof fn lemma_year_order(a: DateTimeModel, b: DateTimeModel)
    requires
        a.wf(),
        b.wf(),
        a.seconds() <= b.seconds(),
    ensures
        a.date.year <= b.date.year,
{
    crate::time::lemma_seconds_order(b, a);
    lemma_date_order(b.date, a.date);
}

/// With a match ahead, a search stands within moderate years, short of the
/// supported edge, once it started in a moderate year.
pub proof fn lemma_ahead_in_range(
    p: PatternModel,
    start: DateTimeModel,
    c: DateTimeModel,
    direction: Direction,
)
    requires
        start.wf(),
        c.wf(),
        moderate_year(start.date.year),
        searched(p, start, c, direction),
        match_ahead(p, c, direction),
    ensures
        moderate_year(c.date.year),
        !at_year_limit(c, direction),
{
    let m = choose|m: DateTimeModel|
        #![trigger p.matches(m)]
        m.wf() && p.matches(m) && match direction {
            Direction::Forward => c.seconds() <= m.seconds() && m.date.year < YEAR_UPPER_LIMIT,
            Direction::Backward => m.seconds() <= c.seconds() && m.date.year > YEAR_LOWER_LIMIT,
        };
    match direction {
        Direction::Forward => {
            lemma_year_order(start, c);
            lemma_year_order(c, m);
        },
        Direction::Backward => {
            lemma_year_order(c, start);
            lemma_year_order(m, c);
        },
    }
}

/// Searches compose.
pub proof fn lemma_searched_trans(
    p: PatternModel,
    a: DateTimeModel,
    b: DateTimeModel,
    c: DateTimeModel,
    direction: Direction,
)
    requires
        searched(p, a, b, direction),
        searched(p, b, c, direction),
    ensures
        searched(p, a, c, direction),
{
}

impl Cron {
    /// Whether the wall clock time under a cursor matches the pattern.
    fn cursor_matches(&self, c: Cursor) -> (r: Result<bool, CronError>)
        ensures
            r is Ok <==> self.pattern@.answer(c.model()) is Some,
            r matches Ok(b) ==> self.pattern@.answer(c.model()) == Some(b),
            r matches Err(e) ==> e is ComponentError,
            standard_pattern(self.pattern@) ==> r is Ok,
    {
        let _ = c.year();
        proof {
            if standard_pattern(self.pattern@) {
                lemma_standard_answers(self.pattern@, c.model());
            }
        }
        let second = c.second();
        let s = match self.pattern.second_match(second) {
            Ok(b) => b,
            Err(e) => {
                return Err(e);
            },
        };
        if !s {
            return Ok(false);
        }
        let minute = c.minute();
        let m = match self.pattern.minute_match(minute) {
            Ok(b) => b,
            Err(e) => {
                return Err(e);
            },
        };
        if !m {
            return Ok(false);
        }
        let hour = c.hour();
        let h = match self.pattern.hour_match(hour) {
            Ok(b) => b,
            Err(e) => {
                return Err(e);
            },
        };
        if !h {
            return Ok(false);
        }
        let d = match self.pattern.day_match(c.year(), c.month(), c.day(), c.weekday()) {
            Ok(b) => b,
            Err(e) => {
                return Err(e);
            },
        };
        if !d {
            return Ok(false);
        }
        let mo = match self.pattern.month_match(c.month()) {
            Ok(b) => b,
            Err(e) => {
                return Err(e);
            },
        };
        if !mo {
            return Ok(false);
        }
        self.pattern.year_match(c.year())
    }

    /// Whether a date and time matches the pattern, on its local wall clock:
    /// every field, with the day fields read against its weekday.
    pub fn is_time_matching<T: CronDateTime>(&self, time: &T) -> (r: Result<bool, CronError>)
        ensures
            r is Ok <==> self.pattern@.answer(time.civil_spec()) is Some,
            r matches Ok(b) ==> self.pattern@.answer(time.civil_spec()) == Some(b),
            r matches Err(e) ==> e is ComponentError,
            standard_pattern(self.pattern@) ==> r is Ok,
    {
        self.cursor_matches(Cursor::new(time))
    }

    /// Sets a time of day field and resets the smaller ones.
    fn set_time_component(
        current_time: &mut Cursor,
        component: TimeComponent,
        value: u32,
        direction: Direction,
    ) -> (r: Result<(), CronError>)
        ensures
            match time_set(old(current_time).model(), component, value as int, direction) {
                Some(m) => r is Ok && final(current_time).model() == m,
                None => r == Err::<(), CronError>(CronError::InvalidTime) && *final(current_time)
                    == *old(current_time),
            },
            final(current_time).model().wf(),
    {
        let c = *current_time;
        let h = c.hour();
        let mi = c.minute();
        let low: u32 = match direction {
            Direction::Forward => 0,
            Direction::Backward => 59,
        };
        let moved = match component {
            TimeComponent::Second => {
                if value > 59 {
                    return Err(CronError::InvalidTime);
                }
                at_time(c, h, mi, value)
            },
            TimeComponent::Minute => {
                if value > 59 {
                    return Err(CronError::InvalidTime);
                }
                at_time(c, h, value, low)
            },
            TimeComponent::Hour => {
                if value > 23 {
                    return Err(CronError::InvalidTime);
                }
                at_time(c, value, low, low)
            },
            _ => {
                return Err(CronError::InvalidTime);
            },
        };
        *current_time = moved;
        Ok(())
    }

    /// Moves past the rest of a year, month or day that does not match.
    fn skip_date_field(
        &self,
        current_time: &mut Cursor,
        component: TimeComponent,
        direction: Direction,
    ) -> (r: Result<(), CronError>)
        requires
            component is Year || component is Month || component is Day,
            component is Year ==> self.pattern@.year_answer(old(current_time).model().date.year)
                != Some(true),
            component is Month ==> self.pattern@.month_answer(
                old(current_time).model().date.month,
            ) != Some(true),
            component is Day ==> {
                let d = old(current_time).model().date;
                self.pattern@.day_answer(d.year, d.month, d.day, d.weekday()) != Some(true)
            },
        ensures
            r is Ok ==> searched(
                self.pattern@,
                old(current_time).model(),
                final(current_time).model(),
                direction,
            ),
            r is Ok ==> final(current_time).model().seconds() != old(
                current_time,
            ).model().seconds(),
            r is Ok ==> final(current_time).model().wf(),
            r is Ok && direction == Direction::Forward ==> final(current_time).model().seconds()
                < day_number(YEAR_UPPER_LIMIT + 1, 1, 1) * 86400,
            r is Ok && direction == Direction::Backward ==> final(current_time).model().seconds()
                >= 0,
            r is Ok ==> final(current_time).model().time == (match direction {
                Direction::Forward => TimeModel { hour: 0, minute: 0, second: 0 },
                Direction::Backward => TimeModel { hour: 23, minute: 59, second: 59 },
            }),
            r matches Err(e) ==> (e is TimeSearchLimitExceeded || e is InvalidDate
                || e is InvalidTime),
            moderate_year(old(current_time).model().date.year) && !at_year_limit(
                old(current_time).model(),
                direction,
            ) ==> r is Ok,
    {
        let ghost p = self.pattern@;
        let ghost before = current_time.model();
        let year = current_time.year();
        if year == i32::MIN || year == i32::MAX {
            return Err(CronError::InvalidDate);
        }
        match Self::adjust_time_component(current_time, component, direction) {
            Ok(()) => {},
            Err(e) => {
                return Err(e);
            },
        }
        proof {
            lemma_skip_date_field(p, before, current_time.model(), component, direction);
        }
        Ok(())
    }

    /// Moves past whole years, months or days that do not match, until the
    /// field matches. Returns whether it moved; a move lands on the first
    /// (forward) or last (backward) moment of a day.
    fn find_matching_date_component(
        &self,
        current_time: &mut Cursor,
        direction: Direction,
        component: TimeComponent,
    ) -> (r: Result<bool, CronError>)
        ensures
            r is Ok ==> searched(
                self.pattern@,
                old(current_time).model(),
                final(current_time).model(),
                direction,
            ),
            r is Ok ==> final(current_time).model().wf(),
            r matches Ok(false) ==> *final(current_time) == *old(current_time),
            r matches Ok(true) ==> final(current_time).model().time == (match direction {
                Direction::Forward => TimeModel { hour: 0, minute: 0, second: 0 },
                Direction::Backward => TimeModel { hour: 23, minute: 59, second: 59 },
            }),
            r is Ok && component is Year ==> self.pattern@.year_answer(
                final(current_time).model().date.year,
            ) == Some(true),
            r is Ok && component is Month ==> self.pattern@.month_answer(
                final(current_time).model().date.month,
            ) == Some(true),
            r is Ok && component is Day ==> {
                let d = final(current_time).model().date;
                self.pattern@.day_answer(d.year, d.month, d.day, d.weekday()) == Some(true)
            },
            r matches Err(e) ==> (e is TimeSearchLimitExceeded || e is InvalidDate
                || e is InvalidTime || e is ComponentError),
            r matches Ok(true) ==> match direction {
                Direction::Forward => final(current_time).model().date.number() > old(
                    current_time,
                ).model().date.number(),
                Direction::Backward => final(current_time).model().date.number() < old(
                    current_time,
                ).model().date.number(),
            },
            component is Year && self.pattern@.year_answer(old(current_time).model().date.year)
                == Some(true) ==> r == Ok::<bool, CronError>(false),
            component is Month && self.pattern@.month_answer(old(current_time).model().date.month)
                == Some(true) ==> r == Ok::<bool, CronError>(false),
            component is Day && {
                let d = old(current_time).model().date;
                self.pattern@.day_answer(d.year, d.month, d.day, d.weekday()) == Some(true)
            } ==> r == Ok::<bool, CronError>(false),
            standard_pattern(self.pattern@) && moderate_year(old(current_time).model().date.year)
                && match_ahead(self.pattern@, old(current_time).model(), direction) && (
            component is Year || component is Month || component is Day) ==> r is Ok,
    {
        let ghost start = current_time.model();
        let ghost p = self.pattern@;
        let _ = current_time.year();
        let mut changed = false;
        let ghost bound = day_number(YEAR_UPPER_LIMIT + 1, 1, 1) * 86400;
        loop
            invariant
                p == self.pattern@,
                bound == day_number(YEAR_UPPER_LIMIT + 1, 1, 1) * 86400,
                current_time.model().wf(),
                searched(p, start, current_time.model(), direction),
                !changed ==> *current_time == *old(current_time),
                start == old(current_time).model(),
                changed ==> current_time.model().time == (match direction {
                    Direction::Forward => TimeModel { hour: 0, minute: 0, second: 0 },
                    Direction::Backward => TimeModel { hour: 23, minute: 59, second: 59 },
                }),
                start.wf(),
                changed ==> match direction {
                    Direction::Forward => current_time.model().date.number() > start.date.number(),
                    Direction::Backward => current_time.model().date.number() < start.date.number(),
                },
                component is Year && p.year_answer(start.date.year) == Some(true) ==> !changed,
                component is Month && p.month_answer(start.date.month) == Some(true) ==> !changed,
                component is Day && p.day_answer(
                    start.date.year,
                    start.date.month,
                    start.date.day,
                    start.date.weekday(),
                ) == Some(true) ==> !changed,
                standard_pattern(p) && moderate_year(start.date.year) && match_ahead(
                    p,
                    start,
                    direction,
                ) ==> match_ahead(p, current_time.model(), direction),
            decreases (match direction {
                Direction::Forward => bound - current_time.model().seconds(),
                Direction::Backward => current_time.model().seconds(),
            }),
        {
            let c = *current_time;
            proof {
                if standard_pattern(p) {
                    lemma_standard_answers(p, c.model());
                }
                if standard_pattern(p) && moderate_year(start.date.year) && match_ahead(
                    p,
                    start,
                    direction,
                ) {
                    lemma_ahead_in_range(p, start, c.model(), direction);
                }
            }
            let ok = match component {
                TimeComponent::Year => match self.pattern.year_match(c.year()) {
                    Ok(b) => b,
                    Err(e) => {
                        return Err(e);
                    },
                },
                TimeComponent::Month => match self.pattern.month_match(c.month()) {
                    Ok(b) => b,
                    Err(e) => {
                        return Err(e);
                    },
                },
                TimeComponent::Day => match self.pattern.day_match(
                    c.year(),
                    c.month(),
                    c.day(),
                    c.weekday(),
                ) {
                    Ok(b) => b,
                    Err(e) => {
                        return Err(e);
                    },
                },
                _ => true,
            };
            if ok {
                return Ok(changed);
            }
            match self.skip_date_field(current_time, component, direction) {
                Ok(()) => {},
                Err(e) => {
                    return Err(e);
                },
            }
            proof {
                lemma_searched_trans(p, start, c.model(), current_time.model(), direction);
                if standard_pattern(p) && moderate_year(start.date.year) && match_ahead(
                    p,
                    start,
                    direction,
                ) {
                    lemma_match_ahead_kept(p, c.model(), current_time.model(), direction);
                }
            }
            changed = true;
        }
    }
}

impl Cron {
    /// Moves to the next (forward) or previous (backward) hour the pattern
    /// allows on this day, or past the day where there is none. Returns
    /// whether it moved past the day.
    fn match_hour(&self, current_time: &mut Cursor, direction: Direction) -> (r: Result<
        bool,
        CronError,
    >)
        ensures
            r is Ok ==> searched(
                self.pattern@,
                old(current_time).model(),
                final(current_time).model(),
                direction,
            ),
            r is Ok ==> final(current_time).model().wf(),
            r matches Ok(false) ==> final(current_time).model().date == old(
                current_time,
            ).model().date && self.pattern@.hour_answer(final(current_time).model().time.hour)
                == Some(true),
            r matches Ok(false) ==> (self.pattern@.hour_answer(old(current_time).model().time.hour)
                == Some(true) ==> *final(current_time) == *old(current_time)),
            r matches Ok(false) ==> (self.pattern@.hour_answer(old(current_time).model().time.hour)
                != Some(true) ==> final(current_time).model().time.minute == low_of(direction)
                && final(current_time).model().time.second == low_of(direction)),
            r matches Ok(true) ==> adjusted(old(current_time).model(), TimeComponent::Day, direction)
                == Some(final(current_time).model()),
            r matches Ok(true) ==> forall|v: int|
                #![trigger self.pattern@.hour_answer(v)]
                (match direction {
                    Direction::Forward => old(current_time).model().time.hour <= v <= 23,
                    Direction::Backward => 0 <= v <= old(current_time).model().time.hour,
                }) ==> self.pattern@.hour_answer(v) != Some(true),
            r matches Ok(moved) ==> hour_step(
                self.pattern@,
                old(current_time).model(),
                final(current_time).model(),
                moved,
                direction,
            ),
            standard_pattern(self.pattern@) && moderate_year(old(current_time).model().date.year)
                && !at_year_limit(old(current_time).model(), direction) ==> r is Ok,
            r matches Err(e) ==> (e is TimeSearchLimitExceeded || e is InvalidDate
                || e is InvalidTime || e is ComponentError),
    {
        let c = *current_time;
        let h = c.hour();
        let ghost p = self.pattern@;
        let ghost cm = c.model();
        proof {
            if standard_pattern(p) {
                assert forall|x: int| h <= x <= p.hours.max implies #[trigger] p.hours.readable(x, ALL_BIT) by {}
                assert forall|x: int| p.hours.min <= x <= h implies #[trigger] p.hours.readable(x, ALL_BIT) by {}
                lemma_scan_up_answers(p.hours, h as int, p.hours.max);
                lemma_scan_down_answers(p.hours, p.hours.min, h as int);
            }
        }
        let found = match self.pattern.find_match_in_component(h, TimeComponent::Hour, direction) {
            Ok(f) => f,
            Err(e) => {
                return Err(e);
            },
        };
        proof {
            lemma_scan_up(p.hours, h as int, p.hours.max);
            lemma_scan_down(p.hours, p.hours.min, h as int);
        }
        match found {
            Some(v) => {
                if v != h {
                    match Self::set_time_component(current_time, TimeComponent::Hour, v, direction) {
                        Ok(()) => {},
                        Err(e) => {
                            return Err(e);
                        },
                    }
                    proof {
                        if direction == Direction::Forward {
                            lemma_skip_hours_forward(p, cm, v as int);
                        } else {
                            lemma_skip_hours_backward(p, cm, v as int + 1);
                        }
                    }
                }
                Ok(false)
            },
            None => {
                match Self::adjust_time_component(current_time, TimeComponent::Day, direction) {
                    Ok(()) => {},
                    Err(e) => {
                        return Err(e);
                    },
                }
                proof {
                    if direction == Direction::Forward {
                        lemma_next_date(cm.date);
                        lemma_skip_hours_forward(p, cm, 24);
                    } else {
                        lemma_previous_date(cm.date);
                        lemma_skip_hours_backward(p, cm, 0);
                    }
                }
                Ok(true)
            },
        }
    }

    /// Moves to the next or previous minute the pattern allows in this
    /// hour, or past the hour where there is none. Returns whether it moved
    /// past the hour.
    fn match_minute(&self, current_time: &mut Cursor, direction: Direction) -> (r: Result<
        bool,
        CronError,
    >)
        ensures
            r is Ok ==> searched(
                self.pattern@,
                old(current_time).model(),
                final(current_time).model(),
                direction,
            ),
            r is Ok ==> final(current_time).model().wf(),
            r matches Ok(false) ==> final(current_time).model().date == old(
                current_time,
            ).model().date && final(current_time).model().time.hour == old(
                current_time,
            ).model().time.hour && self.pattern@.minute_answer(
                final(current_time).model().time.minute,
            ) == Some(true),
            r matches Ok(false) ==> (self.pattern@.minute_answer(
                old(current_time).model().time.minute,
            ) == Some(true) ==> *final(current_time) == *old(current_time)),
            r matches Ok(false) ==> (self.pattern@.minute_answer(
                old(current_time).model().time.minute,
            ) != Some(true) ==> final(current_time).model().time.second == low_of(direction)),
            r matches Ok(true) ==> adjusted(old(current_time).model(), TimeComponent::Hour, direction)
                == Some(final(current_time).model()),
            r matches Ok(true) ==> forall|v: int|
                #![trigger self.pattern@.minute_answer(v)]
                (match direction {
                    Direction::Forward => old(current_time).model().time.minute <= v <= 59,
                    Direction::Backward => 0 <= v <= old(current_time).model().time.minute,
                }) ==> self.pattern@.minute_answer(v) != Some(true),
            r matches Ok(moved) ==> minute_step(
                self.pattern@,
                old(current_time).model(),
                final(current_time).model(),
                moved,
                direction,
            ),
            standard_pattern(self.pattern@) && moderate_year(old(current_time).model().date.year)
                && !at_year_limit(old(current_time).model(), direction) ==> r is Ok,
            r matches Err(e) ==> (e is TimeSearchLimitExceeded || e is InvalidDate
                || e is InvalidTime || e is ComponentError),
    {
        let c = *current_time;
        let mi = c.minute();
        let h = c.hour();
        let ghost p = self.pattern@;
        let ghost cm = c.model();
        proof {
            if standard_pattern(p) {
                assert forall|x: int| mi <= x <= p.minutes.max implies #[trigger] p.minutes.readable(x, ALL_BIT) by {}
                assert forall|x: int| p.minutes.min <= x <= mi implies #[trigger] p.minutes.readable(x, ALL_BIT) by {}
                lemma_scan_up_answers(p.minutes, mi as int, p.minutes.max);
                lemma_scan_down_answers(p.minutes, p.minutes.min, mi as int);
            }
        }
        let found = match self.pattern.find_match_in_component(
            mi,
            TimeComponent::Minute,
            direction,
        ) {
            Ok(f) => f,
            Err(e) => {
                return Err(e);
            },
        };
        proof {
            lemma_scan_up(p.minutes, mi as int, p.minutes.max);
            lemma_scan_down(p.minutes, p.minutes.min, mi as int);
        }
        match found {
            Some(v) => {
                if v != mi {
                    match Self::set_time_component(
                        current_time,
                        TimeComponent::Minute,
                        v,
                        direction,
                    ) {
                        Ok(()) => {},
                        Err(e) => {
                            return Err(e);
                        },
                    }
                    proof {
                        if direction == Direction::Forward {
                            lemma_skip_minutes_forward(p, cm, v as int);
                        } else {
                            lemma_skip_minutes_backward(p, cm, v as int + 1);
                        }
                    }
                }
                Ok(false)
            },
            None => {
                match Self::adjust_time_component(current_time, TimeComponent::Hour, direction) {
                    Ok(()) => {},
                    Err(e) => {
                        return Err(e);
                    },
                }
                proof {
                    if direction == Direction::Forward {
                        lemma_next_date(cm.date);
                        lemma_skip_minutes_forward(p, cm, 60);
                    } else {
                        lemma_previous_date(cm.date);
                        lemma_skip_minutes_backward(p, cm, 0);
                    }
                }
                Ok(true)
            },
        }
    }

    /// Moves to the next or previous second the pattern allows in this
    /// minute, or past the minute where there is none. Returns whether it
    /// moved past the minute.
    fn match_second(&self, current_time: &mut Cursor, direction: Direction) -> (r: Result<
        bool,
        CronError,
    >)
        ensures
            r is Ok ==> searched(
                self.pattern@,
                old(current_time).model(),
                final(current_time).model(),
                direction,
            ),
            r is Ok ==> final(current_time).model().wf(),
            r matches Ok(false) ==> final(current_time).model().date == old(
                current_time,
            ).model().date && final(current_time).model().time.hour == old(
                current_time,
            ).model().time.hour && final(current_time).model().time.minute == old(
                current_time,
            ).model().time.minute && self.pattern@.second_answer(
                final(current_time).model().time.second,
            ) == Some(true),
            r matches Ok(false) ==> (self.pattern@.second_answer(
                old(current_time).model().time.second,
            ) == Some(true) ==> *final(current_time) == *old(current_time)),
            r matches Ok(true) ==> adjusted(old(current_time).model(), TimeComponent::Minute, direction)
                == Some(final(current_time).model()),
            r matches Ok(true) ==> forall|v: int|
                #![trigger self.pattern@.second_answer(v)]
                (match direction {
                    Direction::Forward => old(current_time).model().time.second <= v <= 59,
                    Direction::Backward => 0 <= v <= old(current_time).model().time.second,
                }) ==> self.pattern@.second_answer(v) != Some(true),
            r matches Ok(moved) ==> second_step(
                self.pattern@,
                old(current_time).model(),
                final(current_time).model(),
                moved,
                direction,
            ),
            standard_pattern(self.pattern@) && moderate_year(old(current_time).model().date.year)
                && !at_year_limit(old(current_time).model(), direction) ==> r is Ok,
            r matches Err(e) ==> (e is TimeSearchLimitExceeded || e is InvalidDate
                || e is InvalidTime || e is ComponentError),
    {
        let c = *current_time;
        let sec = c.second();
        let ghost p = self.pattern@;
        let ghost cm = c.model();
        proof {
            if standard_pattern(p) {
                assert forall|x: int| sec <= x <= p.seconds.max implies #[trigger] p.seconds.readable(x, ALL_BIT) by {}
                assert forall|x: int| p.seconds.min <= x <= sec implies #[trigger] p.seconds.readable(x, ALL_BIT) by {}
                lemma_scan_up_answers(p.seconds, sec as int, p.seconds.max);
                lemma_scan_down_answers(p.seconds, p.seconds.min, sec as int);
            }
        }
        let found = match self.pattern.find_match_in_component(
            sec,
            TimeComponent::Second,
            direction,
        ) {
            Ok(f) => f,
            Err(e) => {
                return Err(e);
            },
        };
        proof {
            lemma_scan_up(p.seconds, sec as int, p.seconds.max);
            lemma_scan_down(p.seconds, p.seconds.min, sec as int);
        }
        match found {
            Some(v) => {
                if v != sec {
                    match Self::set_time_component(
                        current_time,
                        TimeComponent::Second,
                        v,
                        direction,
                    ) {
                        Ok(()) => {},
                        Err(e) => {
                            return Err(e);
                        },
                    }
                    proof {
                        if direction == Direction::Forward {
                            lemma_skip_seconds_forward(p, cm, v as int);
                        } else {
                            lemma_skip_seconds_backward(p, cm, v as int + 1);
                        }
                    }
                }
                Ok(false)
            },
            None => {
                match Self::adjust_time_component(current_time, TimeComponent::Minute, direction) {
                    Ok(()) => {},
                    Err(e) => {
                        return Err(e);
                    },
                }
                proof {
                    if direction == Direction::Forward {
                        lemma_next_date(cm.date);
                        lemma_skip_seconds_forward(p, cm, 60);
                    } else {
                        lemma_previous_date(cm.date);
                        lemma_skip_seconds_backward(p, cm, 0);
                    }
                }
                Ok(true)
            },
        }
    }
}

// ---------------------------------------------------------------------------
// Why a search with a match ahead finds it in time.
// ---------------------------------------------------------------------------

/// The date fields match the date of `c`.
pub open spec fn date_fields_match(p: PatternModel, c: DateTimeModel) -> bool {
    &&& p.year_answer(c.date.year) == Some(true)
    &&& p.month_answer(c.date.month) == Some(true)
    &&& p.day_answer(c.date.year, c.date.month, c.date.day, c.date.weekday()) == Some(true)
}

/// `c` with its second replaced.
pub open spec fn with_second(c: DateTimeModel, s: int) -> DateTimeModel {
    DateTimeModel { date: c.date, time: TimeModel { hour: c.time.hour, minute: c.time.minute, second: s } }
}

/// The second a search stands on after it left the first second of a
/// minute (forward) or the last (backward).
pub open spec fn stepped_second(direction: Direction) -> int {
    match direction {
        Direction::Forward => 1,
        Direction::Backward => 58,
    }
}

/// Whether `v` lies from `from` on, in the direction of the search, within
/// `0` to `top`.
pub open spec fn onward(v: int, from: int, top: int, direction: Direction) -> bool {
    match direction {
        Direction::Forward => from <= v <= top,
        Direction::Backward => 0 <= v <= from,
    }
}

/// The search stands one second into a minute whose first second did not
/// match, on a date and at an hour that match.
pub open spec fn past_minute_start(p: PatternModel, c: DateTimeModel, direction: Direction) -> bool {
    &&& c.time.second == stepped_second(direction)
    &&& date_fields_match(p, c)
    &&& p.hour_answer(c.time.hour) == Some(true)
    &&& !p.matches(with_second(c, low_of(direction)))
}

/// The search stands one second into an hour whose first second did not
/// match, on a date that matches.
pub open spec fn past_hour_start(p: PatternModel, c: DateTimeModel, direction: Direction) -> bool {
    &&& c.time.minute == low_of(direction)
    &&& c.time.second == stepped_second(direction)
    &&& date_fields_match(p, c)
    &&& !p.matches(with_second(c, low_of(direction)))
}

/// The days between the search and the match it heads for.
pub open spec fn days_to(m: DateTimeModel, c: DateTimeModel, direction: Direction) -> int {
    match direction {
        Direction::Forward => m.date.number() - c.date.number(),
        Direction::Backward => c.date.number() - m.date.number(),
    }
}

/// What is left of a search that heads for `m`: four rounds for each day,
/// and fewer within a day the further the search has come.
pub open spec fn rounds_left(m: DateTimeModel, c: DateTimeModel, level: int, direction: Direction) -> int {
    4 * days_to(m, c, direction) + (2 - level)
}

/// A time matches exactly when every field answers that it does.
pub proof fn lemma_matches_fields(p: PatternModel, c: DateTimeModel)
    ensures
        p.matches(c) <==> (date_fields_match(p, c) && p.hour_answer(c.time.hour) == Some(true)
            && p.minute_answer(c.time.minute) == Some(true) && p.second_answer(c.time.second)
            == Some(true)),
{
}

/// The date order follows the second count.
proof fn lemma_number_order(a: DateTimeModel, b: DateTimeModel)
    requires
        a.wf(),
        b.wf(),
        a.seconds() <= b.seconds(),
    ensures
        a.date.number() <= b.date.number(),
{
    crate::time::lemma_seconds_order(b, a);
}

/// `b` is no further back than `a` in the direction of the search.
pub open spec fn not_behind(a: DateTimeModel, b: DateTimeModel, direction: Direction) -> bool {
    match direction {
        Direction::Forward => a.seconds() <= b.seconds(),
        Direction::Backward => b.seconds() <= a.seconds(),
    }
}

/// One second into an hour whose first second did not match, the minute
/// field still has its match ahead within the hour: the hour, or the
/// minute and second it starts from, all begin at their first value.
proof fn lemma_minute_ahead(
    p: PatternModel,
    m: DateTimeModel,
    c0: DateTimeModel,
    a2: DateTimeModel,
    direction: Direction,
)
    requires
        p.matches(m),
        m.wf(),
        past_hour_start(p, c0, direction),
        p.hour_answer(c0.time.hour) == Some(true) ==> a2 == c0,
        p.hour_answer(c0.time.hour) != Some(true) ==> a2.time.minute == low_of(direction),
    ensures
        onward(m.time.minute, a2.time.minute, 59, direction),
{
    lemma_matches_fields(p, m);
}

/// One second into a minute or an hour whose first second did not match,
/// the second field still has its match ahead: the round found it.
proof fn lemma_second_ahead(
    p: PatternModel,
    m: DateTimeModel,
    c0: DateTimeModel,
    level: int,
    a2: DateTimeModel,
    a3: DateTimeModel,
    direction: Direction,
)
    requires
        p.matches(m),
        m.wf(),
        level == 1 || level == 2,
        level == 1 ==> past_minute_start(p, c0, direction),
        level == 2 ==> past_hour_start(p, c0, direction),
        p.hour_answer(c0.time.hour) == Some(true) ==> a2 == c0,
        p.hour_answer(c0.time.hour) != Some(true) ==> a2.time.minute == low_of(direction)
            && a2.time.second == low_of(direction),
        a3.date == a2.date,
        a3.time.hour == a2.time.hour,
        p.minute_answer(a2.time.minute) == Some(true) ==> a3 == a2,
        p.minute_answer(a2.time.minute) != Some(true) ==> a3.time.second == low_of(direction),
    ensures
        onward(m.time.second, a3.time.second, 59, direction),
{
    lemma_matches_fields(p, m);
    let low = low_of(direction);
    lemma_matches_fields(p, with_second(c0, low));
    if p.hour_answer(c0.time.hour) == Some(true) && p.minute_answer(c0.time.minute) == Some(true) {
        assert(a3 == c0);
        assert(p.second_answer(low) != Some(true));
        assert(m.time.second != low);
    }
}

/// The second next to `e` on its date, in the direction of the search.
proof fn lemma_next_second(e: DateTimeModel, n: DateTimeModel, direction: Direction)
    requires
        e.wf(),
        n.wf(),
        n.date == e.date,
        e.time.second == low_of(direction),
        n.seconds() == e.seconds() + match direction {
            Direction::Forward => 1int,
            Direction::Backward => -1int,
        },
    ensures
        n.time.hour == e.time.hour,
        n.time.minute == e.time.minute,
        n.time.second == stepped_second(direction),
        with_second(n, low_of(direction)) == e,
{
    let x = DateTimeModel {
        date: e.date,
        time: TimeModel {
            hour: e.time.hour,
            minute: e.time.minute,
            second: stepped_second(direction),
        },
    };
    lemma_single_second(x, n);
}

/// A round that moved past the rest of an hour and stayed on its date
/// started below one second into an hour, and ends one second into the
/// next hour.
proof fn lemma_round_past_hour(
    p: PatternModel,
    m: DateTimeModel,
    c0: DateTimeModel,
    level: int,
    a2: DateTimeModel,
    e: DateTimeModel,
    n: DateTimeModel,
    direction: Direction,
)
    requires
        m.wf(),
        p.matches(m),
        c0.wf(),
        a2.wf(),
        e.wf(),
        n.wf(),
        moderate_year(a2.date.year),
        0 <= level <= 2,
        level == 2 ==> past_hour_start(p, c0, direction),
        date_fields_match(p, c0),
        a2.date == c0.date,
        e.date == c0.date,
        n.date == c0.date,
        p.hour_answer(c0.time.hour) == Some(true) ==> a2 == c0,
        p.hour_answer(c0.time.hour) != Some(true) ==> a2.time.minute == low_of(direction)
            && a2.time.second == low_of(direction),
        adjusted(a2, TimeComponent::Hour, direction) == Some(e),
        forall|v: int|
            #![trigger p.minute_answer(v)]
            onward(v, a2.time.minute, 59, direction) ==> p.minute_answer(v) != Some(true),
        !p.matches(e),
        n.seconds() == e.seconds() + match direction {
            Direction::Forward => 1int,
            Direction::Backward => -1int,
        },
    ensures
        level != 2,
        past_hour_start(p, n, direction),
{
    if a2.time.hour == (match direction {
        Direction::Forward => 23int,
        Direction::Backward => 0int,
    }) {
        match direction {
            Direction::Forward => lemma_next_date(a2.date),
            Direction::Backward => lemma_previous_date(a2.date),
        }
    }
    lemma_next_second(e, n, direction);
    if level == 2 {
        lemma_minute_ahead(p, m, c0, a2, direction);
        lemma_matches_fields(p, m);
    }
}

/// A round that moved past the rest of a minute and stayed on its date
/// started from the start of a search, and ends one second into the next
/// minute, or into the next hour.
proof fn lemma_round_past_minute(
    p: PatternModel,
    m: DateTimeModel,
    c0: DateTimeModel,
    level: int,
    a2: DateTimeModel,
    a3: DateTimeModel,
    e: DateTimeModel,
    n: DateTimeModel,
    direction: Direction,
)
    requires
        m.wf(),
        p.matches(m),
        c0.wf(),
        a2.wf(),
        a3.wf(),
        e.wf(),
        n.wf(),
        moderate_year(a3.date.year),
        0 <= level <= 2,
        level == 1 ==> past_minute_start(p, c0, direction),
        level == 2 ==> past_hour_start(p, c0, direction),
        date_fields_match(p, c0),
        a2.date == c0.date,
        a3.date == c0.date,
        e.date == c0.date,
        n.date == c0.date,
        p.hour_answer(a2.time.hour) == Some(true),
        p.hour_answer(c0.time.hour) == Some(true) ==> a2 == c0,
        p.hour_answer(c0.time.hour) != Some(true) ==> a2.time.minute == low_of(direction)
            && a2.time.second == low_of(direction),
        a3.time.hour == a2.time.hour,
        p.minute_answer(a2.time.minute) == Some(true) ==> a3 == a2,
        p.minute_answer(a2.time.minute) != Some(true) ==> a3.time.second == low_of(direction),
        adjusted(a3, TimeComponent::Minute, direction) == Some(e),
        forall|v: int|
            #![trigger p.second_answer(v)]
            onward(v, a3.time.second, 59, direction) ==> p.second_answer(v) != Some(true),
        !p.matches(e),
        n.seconds() == e.seconds() + match direction {
            Direction::Forward => 1int,
            Direction::Backward => -1int,
        },
    ensures
        level == 0,
        a3.time.minute == (match direction {
            Direction::Forward => 59int,
            Direction::Backward => 0int,
        }) ==> past_hour_start(p, n, direction),
        a3.time.minute != (match direction {
            Direction::Forward => 59int,
            Direction::Backward => 0int,
        }) ==> past_minute_start(p, n, direction),
{
    if level != 0 {
        lemma_second_ahead(p, m, c0, level, a2, a3, direction);
        lemma_matches_fields(p, m);
    }
    if a3.time.minute == (match direction {
        Direction::Forward => 59int,
        Direction::Backward => 0int,
    }) && a3.time.hour == (match direction {
        Direction::Forward => 23int,
        Direction::Backward => 0int,
    }) {
        match direction {
            Direction::Forward => lemma_next_date(a3.date),
            Direction::Backward => lemma_previous_date(a3.date),
        }
    }
    lemma_next_second(e, n, direction);
}

/// What moving through the date fields did: left `c0` as it was, on a
/// date that matches, or moved to `a1` on a later date.
pub open spec fn date_phase(
    p: PatternModel,
    m: DateTimeModel,
    c0: DateTimeModel,
    a1: DateTimeModel,
    date_moved: bool,
    direction: Direction,
) -> bool {
    &&& a1.wf()
    &&& not_behind(c0, a1, direction)
    &&& (!date_moved ==> a1 == c0 && date_fields_match(p, c0))
    &&& (date_moved ==> days_to(m, a1, direction) < days_to(m, c0, direction))
}

/// What moving through the hour (to `a2`), the minute (to `a3`) and the
/// second (to `e`) did.
pub open spec fn time_phases(
    p: PatternModel,
    m: DateTimeModel,
    a1: DateTimeModel,
    a2: DateTimeModel,
    hour_moved: bool,
    a3: DateTimeModel,
    minute_moved: bool,
    e: DateTimeModel,
    second_moved: bool,
    direction: Direction,
) -> bool {
    &&& a2.wf()
    &&& a3.wf()
    &&& e.wf()
    &&& moderate_year(a2.date.year)
    &&& moderate_year(a3.date.year)
    &&& not_behind(a1, a2, direction)
    &&& not_behind(a2, a3, direction)
    &&& not_behind(a3, e, direction)
    &&& (hour_moved ==> days_to(m, a2, direction) < days_to(m, a1, direction))
    &&& hour_step(p, a1, a2, hour_moved, direction)
    &&& (hour_moved ==> a3 == a2 && !minute_moved)
    &&& (!hour_moved ==> minute_step(p, a2, a3, minute_moved, direction))
    &&& (hour_moved || minute_moved ==> e == a3 && !second_moved)
    &&& (!hour_moved && !minute_moved ==> second_step(p, a3, e, second_moved, direction))
}

/// The moves through the hour, minute and second fields make up the time
/// phases of a round.
proof fn lemma_time_phases(
    p: PatternModel,
    m: DateTimeModel,
    a1: DateTimeModel,
    a2: DateTimeModel,
    hour_moved: bool,
    a3: DateTimeModel,
    minute_moved: bool,
    e: DateTimeModel,
    second_moved: bool,
    direction: Direction,
)
    requires
        a2.wf(),
        a3.wf(),
        e.wf(),
        moderate_year(a2.date.year),
        moderate_year(a3.date.year),
        not_behind(a1, a2, direction),
        not_behind(a2, a3, direction),
        not_behind(a3, e, direction),
        hour_moved ==> days_to(m, a2, direction) < days_to(m, a1, direction),
        hour_step(p, a1, a2, hour_moved, direction),
        hour_moved ==> a3 == a2 && !minute_moved,
        !hour_moved ==> minute_step(p, a2, a3, minute_moved, direction),
        hour_moved || minute_moved ==> e == a3 && !second_moved,
        !hour_moved && !minute_moved ==> second_step(p, a3, e, second_moved, direction),
    ensures
        time_phases(p, m, a1, a2, hour_moved, a3, minute_moved, e, second_moved, direction),
{
}

/// One round of a search that has a match ahead and finds none leaves it
/// fewer rounds to go. The round moved through the date fields (to `a1`),
/// the hour (to `a2`), the minute (to `a3`) and the second (to `e`), found
/// that `e` does not match, and stepped to `n`. A round that stays on its
/// date climbs from the start of a search to one second into a minute, and
/// from there to one second into an hour; a round from one second into an
/// hour can only find its match or leave the date.
pub proof fn lemma_round_progress(
    p: PatternModel,
    m: DateTimeModel,
    c0: DateTimeModel,
    level: int,
    a1: DateTimeModel,
    date_moved: bool,
    a2: DateTimeModel,
    hour_moved: bool,
    a3: DateTimeModel,
    minute_moved: bool,
    e: DateTimeModel,
    second_moved: bool,
    n: DateTimeModel,
    direction: Direction,
) -> (l: int)
    requires
        m.wf(),
        p.matches(m),
        c0.wf(),
        n.wf(),
        not_behind(n, m, direction),
        n.seconds() == e.seconds() + match direction {
            Direction::Forward => 1int,
            Direction::Backward => -1int,
        },
        0 <= level <= 2,
        level == 1 ==> past_minute_start(p, c0, direction),
        level == 2 ==> past_hour_start(p, c0, direction),
        date_phase(p, m, c0, a1, date_moved, direction),
        time_phases(p, m, a1, a2, hour_moved, a3, minute_moved, e, second_moved, direction),
        !p.matches(e),
    ensures
        0 <= l <= 2,
        l == 1 ==> past_minute_start(p, n, direction),
        l == 2 ==> past_hour_start(p, n, direction),
        rounds_left(m, n, l, direction) < rounds_left(m, c0, level, direction),
        days_to(m, n, direction) >= 0,
{
    match direction {
        Direction::Forward => {
            lemma_number_order(c0, a1);
            lemma_number_order(a1, a2);
            lemma_number_order(a2, a3);
            lemma_number_order(a3, e);
            lemma_number_order(e, n);
            lemma_number_order(n, m);
        },
        Direction::Backward => {
            lemma_number_order(a1, c0);
            lemma_number_order(a2, a1);
            lemma_number_order(a3, a2);
            lemma_number_order(e, a3);
            lemma_number_order(n, e);
            lemma_number_order(m, n);
        },
    }
    if days_to(m, n, direction) < days_to(m, c0, direction) {
        0
    } else {
        lemma_date_order(a3.date, c0.date);
        lemma_date_order(e.date, c0.date);
        lemma_date_order(n.date, c0.date);
        if minute_moved {
            lemma_round_past_hour(p, m, c0, level, a2, e, n, direction);
            2
        } else if second_moved {
            lemma_round_past_minute(p, m, c0, level, a2, a3, e, n, direction);
            if a3.time.minute == (match direction {
                Direction::Forward => 59int,
                Direction::Backward => 0int,
            }) {
                2
            } else {
                1
            }
        } else {
            lemma_matches_fields(p, e);
            0
        }
    }
}

/// Where a search is owed an answer: a match lies ahead within the years
/// it walks, and it starts within a million years of the start of the
/// count.
pub open spec fn search_owed(p: PatternModel, start: DateTimeModel, direction: Direction) -> bool {
    &&& match_ahead(p, start, direction)
    &&& moderate_year(start.date.year)
}

/// The search stands within the supported years, on the side it came
/// from: from the first year on forward, up to the last backward.
pub open spec fn within_years(c: DateTimeModel, direction: Direction) -> bool {
    match direction {
        Direction::Forward => c.date.year >= YEAR_LOWER_LIMIT,
        Direction::Backward => c.date.year <= YEAR_UPPER_LIMIT,
    }
}

/// Where a search from `start` is owed an answer: it starts within a
/// million years of the start of the count, and a time that it may answer
/// matches, before the last supported year forward or after the first
/// backward.
pub open spec fn search_owed_from(
    p: PatternModel,
    start: DateTimeModel,
    inclusive: bool,
    direction: Direction,
) -> bool {
    &&& moderate_year(start.date.year)
    &&& exists|m: DateTimeModel|
        #![trigger p.matches(m)]
        m.wf() && p.matches(m) && match direction {
            Direction::Forward => (if inclusive {
                start.seconds()
            } else {
                start.seconds() + 1
            }) <= m.seconds() && m.date.year < YEAR_UPPER_LIMIT,
            Direction::Backward => m.seconds() <= (if inclusive {
                start.seconds()
            } else {
                start.seconds() - 1
            }) && m.date.year > YEAR_LOWER_LIMIT,
        }
}

/// A search owed from `start` starts in a moderate year, and is owed from
/// the time it starts at: `start`, or the second after or before it.
pub proof fn lemma_owed_from(
    p: PatternModel,
    start: DateTimeModel,
    first: DateTimeModel,
    inclusive: bool,
    direction: Direction,
)
    requires
        start.wf(),
        first.wf(),
        search_owed_from(p, start, inclusive, direction),
        first.seconds() == start.seconds() + (if inclusive {
            0int
        } else {
            match direction {
                Direction::Forward => 1int,
                Direction::Backward => -1int,
            }
        }),
    ensures
        moderate_year(start.date.year),
        search_owed(p, first, direction),
{
    let m = choose|m: DateTimeModel|
        #![trigger p.matches(m)]
        m.wf() && p.matches(m) && match direction {
            Direction::Forward => (if inclusive {
                start.seconds()
            } else {
                start.seconds() + 1
            }) <= m.seconds() && m.date.year < YEAR_UPPER_LIMIT,
            Direction::Backward => m.seconds() <= (if inclusive {
                start.seconds()
            } else {
                start.seconds() - 1
            }) && m.date.year > YEAR_LOWER_LIMIT,
        };
    assert(p.matches(m));
    match direction {
        Direction::Forward => {
            lemma_year_order(start, m);
            lemma_year_order(start, first);
        },
        Direction::Backward => {
            lemma_year_order(m, start);
            lemma_year_order(first, start);
        },
    }
}

/// An owed search starts in a moderate year, at most a few million rounds
/// from its match.
proof fn lemma_owed_bounds(
    p: PatternModel,
    start: DateTimeModel,
    m: DateTimeModel,
    direction: Direction,
)
    requires
        start.wf(),
        search_owed(p, start, direction),
        m.wf(),
        p.matches(m),
        match direction {
            Direction::Forward => start.seconds() <= m.seconds() && m.date.year < YEAR_UPPER_LIMIT,
            Direction::Backward => m.seconds() <= start.seconds() && m.date.year > YEAR_LOWER_LIMIT,
        },
    ensures
        moderate_year(start.date.year),
        days_to(m, start, direction) >= 0,
        rounds_bound(m, direction) + 1 < MAX_SEARCH_ITERATIONS,
        standard_pattern(p) ==> round_owed(p, m, start, 0, direction),
{
    match direction {
        Direction::Forward => {
            lemma_year_order(start, m);
            lemma_number_order(start, m);
            lemma_below_limit(m.date);
        },
        Direction::Backward => {
            lemma_year_order(m, start);
            lemma_number_order(m, start);
            lemma_above_limit(m.date);
        },
    }
    assert(day_number(YEAR_UPPER_LIMIT + 1, 1, 1) < 2_000_000);
}

/// The most rounds a search within the supported years has left before it
/// reaches its match `m`.
pub open spec fn rounds_bound(m: DateTimeModel, direction: Direction) -> int {
    match direction {
        Direction::Forward => 4 * (m.date.number() - 1) + 2,
        Direction::Backward => 4 * (day_number(YEAR_UPPER_LIMIT + 1, 1, 1) - m.date.number()) + 2,
    }
}

/// Within the supported years, a search has no more rounds left than the
/// bound.
proof fn lemma_rounds_within(m: DateTimeModel, c: DateTimeModel, level: int, direction: Direction)
    requires
        c.wf(),
        within_years(c, direction),
        0 <= level <= 2,
    ensures
        rounds_left(m, c, level, direction) <= rounds_bound(m, direction),
{
    match direction {
        Direction::Forward => lemma_above_limit(c.date),
        Direction::Backward => lemma_below_limit(c.date),
    }
}

/// What a step of a search heading for the match `m` from `c` may count
/// on: the pattern's shape, the match ahead within the years the search
/// walks, and a moderate year to stand in.
pub open spec fn step_owed(p: PatternModel, m: DateTimeModel, c: DateTimeModel, direction: Direction) -> bool {
    &&& standard_pattern(p)
    &&& c.wf()
    &&& m.wf()
    &&& p.matches(m)
    &&& moderate_year(c.date.year)
    &&& not_behind(c, m, direction)
    &&& match direction {
        Direction::Forward => m.date.year < YEAR_UPPER_LIMIT,
        Direction::Backward => m.date.year > YEAR_LOWER_LIMIT,
    }
}

/// What a round of a search heading for `m` from `c` at `level` may
/// count on: a step owed, and what the level says of `c`.
pub open spec fn round_owed(p: PatternModel, m: DateTimeModel, c: DateTimeModel, level: int, direction: Direction) -> bool {
    &&& step_owed(p, m, c, direction)
    &&& 0 <= level <= 2
    &&& (level == 1 ==> past_minute_start(p, c, direction))
    &&& (level == 2 ==> past_hour_start(p, c, direction))
    &&& days_to(m, c, direction) >= 0
}

/// A search that skipped no match keeps the step it is owed.
proof fn lemma_step_owed_kept(
    p: PatternModel,
    m: DateTimeModel,
    a: DateTimeModel,
    b: DateTimeModel,
    direction: Direction,
)
    requires
        step_owed(p, m, a, direction),
        b.wf(),
        searched(p, a, b, direction),
    ensures
        step_owed(p, m, b, direction),
        match_ahead(p, b, direction),
        !at_year_limit(b, direction),
{
    assert(p.matches(m));
    assert(not_behind(b, m, direction));
    match direction {
        Direction::Forward => {
            lemma_year_order(a, b);
            lemma_year_order(b, m);
        },
        Direction::Backward => {
            lemma_year_order(b, a);
            lemma_year_order(m, b);
        },
    }
}

/// What a round that found no match left: the search heading for `m` went
/// from `c` at `level` to `n` at `l`, with fewer rounds to go.
pub open spec fn next_round(
    p: PatternModel,
    m: DateTimeModel,
    c: DateTimeModel,
    level: int,
    n: DateTimeModel,
    l: int,
    direction: Direction,
) -> bool {
    &&& 0 <= l <= 2
    &&& (l == 1 ==> past_minute_start(p, n, direction))
    &&& (l == 2 ==> past_hour_start(p, n, direction))
    &&& rounds_left(m, n, l, direction) < rounds_left(m, c, level, direction)
    &&& days_to(m, n, direction) >= 0
}

/// The most candidate times a search examines before it gives up: a year
/// of seconds.
pub const MAX_SEARCH_ITERATIONS: u32 = 31_622_400;

/// The most seconds a search walks to leave a gap in the wall clock.
pub const MAX_GAP_SEARCH_SECONDS: u32 = 7_200;

/// Whether a field is one fixed value: written without a step or a
/// wildcard, with a single value.
pub open spec fn fixed_component(m: ComponentModel) -> bool {
    &&& m.step == 1
    &&& !m.from_wildcard
    &&& set_values(m, ALL_BIT).len() == 1
}

/// A pattern runs at a fixed time of day when its second, minute and hour
/// are each one fixed value, and at intervals otherwise.
pub open spec fn job_type_spec(p: PatternModel) -> JobType {
    if fixed_component(p.seconds) && fixed_component(p.minutes) && fixed_component(p.hours) {
        JobType::FixedTime
    } else {
        JobType::IntervalWildcard
    }
}

/// A field that holds one fixed value carries its bit at no other value.
proof fn lemma_fixed_single_value(m: ComponentModel, u: int, v: int)
    requires
        fixed_component(m),
        0 <= m.min,
        m.max <= 65535,
        m.has(u, ALL_BIT),
        m.has(v, ALL_BIT),
    ensures
        u == v,
{
    crate::component::lemma_values_complete(m, ALL_BIT, m.max + 1, u);
    crate::component::lemma_values_complete(m, ALL_BIT, m.max + 1, v);
    let vals = set_values(m, ALL_BIT);
    let ku = choose|k: int| 0 <= k < vals.len() && vals[k] == u as u16;
    let kv = choose|k: int| 0 <= k < vals.len() && vals[k] == v as u16;
    assert(ku == 0 && kv == 0);
}

/// A job at a fixed time runs at one time of day: any two times that match
/// it have the same time of day. A pattern whose second, minute or hour
/// takes more than one value is never a job at a fixed time.
pub proof fn lemma_fixed_time_once_a_day(p: PatternModel, a: DateTimeModel, b: DateTimeModel)
    requires
        job_type_spec(p) == JobType::FixedTime,
        0 <= p.seconds.min && p.seconds.max <= 65535,
        0 <= p.minutes.min && p.minutes.max <= 65535,
        0 <= p.hours.min && p.hours.max <= 65535,
        p.matches(a),
        p.matches(b),
    ensures
        a.time == b.time,
{
    lemma_fixed_single_value(p.seconds, a.time.second, b.time.second);
    lemma_fixed_single_value(p.minutes, a.time.minute, b.time.minute);
    lemma_fixed_single_value(p.hours, a.time.hour, b.time.hour);
}

/// Whether an instant `x` may answer a search from the instant `start`:
/// after it forward, before it backward, or equal where inclusive.
pub open spec fn accepted(start: int, x: int, inclusive: bool, direction: Direction) -> bool {
    match direction {
        Direction::Forward => if inclusive {
            start <= x
        } else {
            start < x
        },
        Direction::Backward => if inclusive {
            x <= start
        } else {
            x < start
        },
    }
}

/// The first wall clock time that matches, from `start` on in the
/// direction of the search (from the second after or before it, where the
/// search is exclusive), with no match in between.
pub open spec fn first_match(
    p: PatternModel,
    start: DateTimeModel,
    c: DateTimeModel,
    inclusive: bool,
    direction: Direction,
) -> bool {
    &&& p.matches(c)
    &&& match direction {
        Direction::Forward => {
            let lo = if inclusive {
                start.seconds()
            } else {
                start.seconds() + 1
            };
            lo <= c.seconds() && no_match_in(p, lo, c.seconds())
        },
        Direction::Backward => {
            let hi = if inclusive {
                start.seconds()
            } else {
                start.seconds() - 1
            };
            c.seconds() <= hi && no_match_in(p, c.seconds() + 1, hi + 1)
        },
    }
}

/// What a search may answer: a time whose wall clock matches, or, for a
/// job at a fixed time whose time fell into a gap in the wall clock, the
/// first instant after the gap on a date that matches.
pub open spec fn answers(p: PatternModel, c: DateTimeModel) -> bool {
    p.matches(c) || (job_type_spec(p) == JobType::FixedTime && p.date_matches(c))
}

/// A search that may answer its own start time, started at a time that
/// matches, answers that time.
pub proof fn lemma_match_finds_itself(
    p: PatternModel,
    start: DateTimeModel,
    c: DateTimeModel,
    direction: Direction,
)
    requires
        start.wf(),
        c.wf(),
        p.matches(start),
        first_match(p, start, c, true, direction),
    ensures
        c == start,
{
    lemma_single_second(start, c);
}

/// A search has one answer: two first matches from the same start, in the
/// same direction, are the same time.
pub proof fn lemma_first_match_unique(
    p: PatternModel,
    start: DateTimeModel,
    a: DateTimeModel,
    b: DateTimeModel,
    inclusive: bool,
    direction: Direction,
)
    requires
        a.wf(),
        b.wf(),
        first_match(p, start, a, inclusive, direction),
        first_match(p, start, b, inclusive, direction),
    ensures
        a == b,
{
    lemma_single_second(a, b);
}

/// From a time that matches, the previous occurrence before its next
/// occurrence is that time again.
pub proof fn lemma_next_then_previous(p: PatternModel, a: DateTimeModel, n: DateTimeModel)
    requires
        a.wf(),
        p.matches(a),
        first_match(p, a, n, false, Direction::Forward),
    ensures
        first_match(p, n, a, false, Direction::Backward),
{
}

/// From a time that matches, the next occurrence after its previous
/// occurrence is that time again.
pub proof fn lemma_previous_then_next(p: PatternModel, a: DateTimeModel, v: DateTimeModel)
    requires
        a.wf(),
        p.matches(a),
        first_match(p, a, v, false, Direction::Backward),
    ensures
        first_match(p, v, a, false, Direction::Forward),
{
}

/// The occurrences of a pattern come one after another: the next
/// occurrence after the next occurrence from `s` is the first match after
/// `s` but one, and nothing between `s` and it matches but the first.
pub proof fn lemma_consecutive_occurrences(
    p: PatternModel,
    s: DateTimeModel,
    n1: DateTimeModel,
    n2: DateTimeModel,
    inclusive: bool,
)
    requires
        n1.wf(),
        first_match(p, s, n1, inclusive, Direction::Forward),
        first_match(p, n1, n2, false, Direction::Forward),
    ensures
        n1.seconds() < n2.seconds(),
        forall|d: DateTimeModel|
            #![trigger p.matches(d)]
            d.wf() && (if inclusive {
                s.seconds()
            } else {
                s.seconds() + 1
            }) <= d.seconds() < n2.seconds() && p.matches(d) ==> d == n1,
{
    assert forall|d: DateTimeModel|
        #![trigger p.matches(d)]
        d.wf() && (if inclusive {
            s.seconds()
        } else {
            s.seconds() + 1
        }) <= d.seconds() < n2.seconds() && p.matches(d) implies d == n1 by {
        lemma_single_second(n1, d);
    }
}

/// Whether `x` may answer a search from `start`.
fn accepts<T: CronDateTime>(start: &T, x: &T, inclusive: bool, direction: Direction) -> (b: bool)
    ensures
        b == accepted(start.instant(), x.instant(), inclusive, direction),
{
    match direction {
        Direction::Forward => if inclusive {
            !x.is_before(start)
        } else {
            start.is_before(x)
        },
        Direction::Backward => if inclusive {
            !start.is_before(x)
        } else {
            x.is_before(start)
        },
    }
}

/// Whether `x` lies on the near side of the edge of a repeated range, in
/// the direction of the search.
fn before_edge<T: CronDateTime>(x: &T, edge: &T, direction: Direction) -> (b: bool)
    ensures
        b == match direction {
            Direction::Forward => x.instant() < edge.instant(),
            Direction::Backward => edge.instant() < x.instant(),
        },
{
    match direction {
        Direction::Forward => x.is_before(edge),
        Direction::Backward => edge.is_before(x),
    }
}

/// The first instant that a resolution gives: the one instant of a time that
/// happens once, the earlier of a time that happens twice, and none for a
/// time in a gap or a failed resolution.
pub open spec fn first_instant<T>(res: Result<Resolution<T>, CronError>) -> Option<T> {
    match res {
        Ok(Resolution::Single(t)) => Some(t),
        Ok(Resolution::Ambiguous(a, _)) => Some(a),
        _ => None,
    }
}

/// The instant that a resolved matching wall clock time gives a search from
/// `start`, if it lies beyond the start. A time that happens once gives its
/// instant. A time that happens twice gives a job at a fixed time its first
/// instant only, and an interval job the first of its two instants in the
/// direction of the search that lies beyond the start. A time in a gap gives
/// no instant of its own.
pub open spec fn pick_spec<T: CronDateTime>(
    start: T,
    res: Resolution<T>,
    job: JobType,
    inclusive: bool,
    direction: Direction,
) -> Option<T> {
    match res {
        Resolution::Single(t) => if accepted(start.instant(), t.instant(), inclusive, direction) {
            Some(t)
        } else {
            None
        },
        Resolution::Ambiguous(a, b) => match job {
            JobType::FixedTime => if accepted(start.instant(), a.instant(), inclusive, direction) {
                Some(a)
            } else {
                None
            },
            JobType::IntervalWildcard => {
                let first = match direction {
                    Direction::Forward => a,
                    Direction::Backward => b,
                };
                let second = match direction {
                    Direction::Forward => b,
                    Direction::Backward => a,
                };
                if accepted(start.instant(), first.instant(), inclusive, direction) {
                    Some(first)
                } else if accepted(start.instant(), second.instant(), inclusive, direction) {
                    Some(second)
                } else {
                    None
                }
            },
        },
        Resolution::Gap => None,
    }
}

/// Picks the instant that a resolved matching wall clock time gives a
/// search from `start`, as `pick_spec` says.
pub fn pick_instant<T: CronDateTime>(
    start: &T,
    res: Resolution<T>,
    job: JobType,
    inclusive: bool,
    direction: Direction,
) -> (r: Option<T>)
    ensures
        r == pick_spec(*start, res, job, inclusive, direction),
{
    match res {
        Resolution::Single(t) => {
            if accepts(start, &t, inclusive, direction) {
                Some(t)
            } else {
                None
            }
        },
        Resolution::Ambiguous(a, b) => {
            match job {
                JobType::FixedTime => {
                    if accepts(start, &a, inclusive, direction) {
                        Some(a)
                    } else {
                        None
                    }
                },
                JobType::IntervalWildcard => {
                    match direction {
                        Direction::Forward => {
                            if accepts(start, &a, inclusive, direction) {
                                Some(a)
                            } else if accepts(start, &b, inclusive, direction) {
                                Some(b)
                            } else {
                                None
                            }
                        },
                        Direction::Backward => {
                            if accepts(start, &b, inclusive, direction) {
                                Some(b)
                            } else if accepts(start, &a, inclusive, direction) {
                                Some(a)
                            } else {
                                None
                            }
                        },
                    }
                },
            }
        },
        Resolution::Gap => None,
    }
}

/// A job at a fixed time runs once at a wall clock time that happens twice:
/// at its earlier instant, whichever way a search goes and wherever it
/// starts. Any pick from the repeated time is that earlier instant, so a
/// forward and a backward search that both pick from it agree.
pub proof fn lemma_fixed_time_takes_earlier_instant<T: CronDateTime>(
    start1: T,
    start2: T,
    a: T,
    b: T,
    inclusive1: bool,
    inclusive2: bool,
    direction1: Direction,
    direction2: Direction,
)
    ensures
        pick_spec(start1, Resolution::Ambiguous(a, b), JobType::FixedTime, inclusive1, direction1)
            matches Some(x) ==> x == a,
        pick_spec(start1, Resolution::Ambiguous(a, b), JobType::FixedTime, inclusive1, direction1)
            matches Some(x) ==> (pick_spec(
            start2,
            Resolution::Ambiguous(a, b),
            JobType::FixedTime,
            inclusive2,
            direction2,
        ) matches Some(y) ==> x == y),
{
}

/// An answer by the rules for a job at a fixed time, at a matching wall
/// clock time that happens twice, is that time's earlier instant.
pub proof fn lemma_fixed_time_answer_is_earlier<T: CronDateTime>(
    p: PatternModel,
    start: T,
    m: CivilDateTime,
    inclusive: bool,
    direction: Direction,
    x: T,
)
    requires
        rule_answer(p, start, m, JobType::FixedTime, inclusive, direction, x),
    ensures
        start.resolution_spec(m) matches Ok(Resolution::Ambiguous(a, _)) ==> x == a,
{
}

/// Whether `x` is the instant that ends a gap that `m` falls into, in the
/// time zone of `origin`: the first instant of the first wall clock second
/// after `m`, at most `MAX_GAP_SEARCH_SECONDS + 1` seconds on, that does not
/// fall into a gap, with every second between falling into it.
pub open spec fn ends_gap<T: CronDateTime>(origin: T, m: DateTimeModel, x: T) -> bool {
    exists|n: CivilDateTime|
        #![trigger origin.resolution_spec(n)]
        {
            &&& n@.wf()
            &&& m.seconds() < n@.seconds() <= m.seconds() + MAX_GAP_SEARCH_SECONDS + 1
            &&& first_instant(origin.resolution_spec(n)) == Some(x)
            &&& forall|n2: CivilDateTime|
                #![trigger origin.resolution_spec(n2)]
                n2@.wf() && m.seconds() < n2@.seconds() < n@.seconds() ==> origin.resolution_spec(
                    n2,
                ) == Ok::<Resolution<T>, CronError>(Resolution::Gap)
        }
}

/// Whether `x` answers a search from `start` at the matching wall clock time
/// `m`, by the rules for times that happen once, twice or never: what
/// `pick_spec` picks from the resolution of `m`, or, for a job at a fixed
/// time whose time falls into a gap, the instant that ends the gap, where
/// its date matches and it lies beyond the start.
pub open spec fn rule_answer<T: CronDateTime>(
    p: PatternModel,
    start: T,
    m: CivilDateTime,
    job: JobType,
    inclusive: bool,
    direction: Direction,
    x: T,
) -> bool {
    match start.resolution_spec(m) {
        Ok(Resolution::Gap) => {
            &&& job is FixedTime
            &&& ends_gap(start, m@, x)
            &&& p.date_matches(x.civil_spec())
            &&& accepted(start.instant(), x.instant(), inclusive, direction)
        },
        Ok(res) => pick_spec(start, res, job, inclusive, direction) == Some(x),
        Err(_) => false,
    }
}

/// Whether `x` answers a search for `p` from `start` by the rules for times
/// that happen once, twice or never, at some wall clock time that matches.
pub open spec fn found_by_rule<T: CronDateTime>(
    p: PatternModel,
    start: T,
    inclusive: bool,
    direction: Direction,
    x: T,
) -> bool {
    exists|m: CivilDateTime|
        #![trigger start.resolution_spec(m)]
        m@.wf() && p.matches(m@) && rule_answer(p, start, m, job_type_spec(p), inclusive, direction, x)
}

/// A gap has one end: the instant that ends it is unique.
pub proof fn lemma_ends_gap_unique<T: CronDateTime>(origin: T, m: DateTimeModel, x1: T, x2: T)
    requires
        ends_gap(origin, m, x1),
        ends_gap(origin, m, x2),
    ensures
        x1 == x2,
{
    let n1 = choose|n: CivilDateTime|
        #![trigger origin.resolution_spec(n)]
        {
            &&& n@.wf()
            &&& m.seconds() < n@.seconds() <= m.seconds() + MAX_GAP_SEARCH_SECONDS + 1
            &&& first_instant(origin.resolution_spec(n)) == Some(x1)
            &&& forall|n2: CivilDateTime|
                #![trigger origin.resolution_spec(n2)]
                n2@.wf() && m.seconds() < n2@.seconds() < n@.seconds() ==> origin.resolution_spec(
                    n2,
                ) == Ok::<Resolution<T>, CronError>(Resolution::Gap)
        };
    let n2 = choose|n: CivilDateTime|
        #![trigger origin.resolution_spec(n)]
        {
            &&& n@.wf()
            &&& m.seconds() < n@.seconds() <= m.seconds() + MAX_GAP_SEARCH_SECONDS + 1
            &&& first_instant(origin.resolution_spec(n)) == Some(x2)
            &&& forall|n3: CivilDateTime|
                #![trigger origin.resolution_spec(n3)]
                n3@.wf() && m.seconds() < n3@.seconds() < n@.seconds() ==> origin.resolution_spec(
                    n3,
                ) == Ok::<Resolution<T>, CronError>(Resolution::Gap)
        };
    if n1@.seconds() < n2@.seconds() {
        assert(origin.resolution_spec(n1) == Ok::<Resolution<T>, CronError>(Resolution::Gap));
    } else if n2@.seconds() < n1@.seconds() {
        assert(origin.resolution_spec(n2) == Ok::<Resolution<T>, CronError>(Resolution::Gap));
    } else {
        lemma_single_second(n1@, n2@);
        crate::time::lemma_civil_view_injective(n1, n2);
    }
}

/// Whether the wall clock time `m` lies on the walk of a search from the
/// wall clock time `s` up to, and not including, `cur`.
pub open spec fn in_walk(
    s: DateTimeModel,
    inclusive: bool,
    direction: Direction,
    m: DateTimeModel,
    cur: DateTimeModel,
) -> bool {
    match direction {
        Direction::Forward => (if inclusive {
            s.seconds()
        } else {
            s.seconds() + 1
        }) <= m.seconds() < cur.seconds(),
        Direction::Backward => cur.seconds() < m.seconds() <= (if inclusive {
            s.seconds()
        } else {
            s.seconds() - 1
        }),
    }
}

/// Whether no matching wall clock time on the walk of a search from `start`
/// up to `cur` gives the search an answer by the rules.
pub open spec fn walked_without_answer<T: CronDateTime>(
    p: PatternModel,
    start: T,
    inclusive: bool,
    direction: Direction,
    cur: DateTimeModel,
) -> bool {
    forall|m: CivilDateTime|
        #![trigger start.resolution_spec(m)]
        m@.wf() && p.matches(m@) && in_walk(start.civil_spec(), inclusive, direction, m@, cur)
            ==> forall|x: T|
            #![trigger rule_answer(p, start, m, job_type_spec(p), inclusive, direction, x)]
            !rule_answer(p, start, m, job_type_spec(p), inclusive, direction, x)
}

/// Whether the wall clock time `m` lies on a search's walk from the wall
/// clock time `s`: at or beyond its first second in the search's direction.
pub open spec fn on_walk_from(s: DateTimeModel, inclusive: bool, direction: Direction, m: DateTimeModel) -> bool {
    match direction {
        Direction::Forward => (if inclusive {
            s.seconds()
        } else {
            s.seconds() + 1
        }) <= m.seconds(),
        Direction::Backward => m.seconds() <= (if inclusive {
            s.seconds()
        } else {
            s.seconds() - 1
        }),
    }
}

/// Whether `x` answers a search for `p` from `start` at the nearest
/// matching wall clock time on its walk that gives an answer by the rules:
/// no matching time on the walk before it gave one.
pub open spec fn nearest_by_rule<T: CronDateTime>(
    p: PatternModel,
    start: T,
    inclusive: bool,
    direction: Direction,
    x: T,
) -> bool {
    exists|m: CivilDateTime|
        #![trigger start.resolution_spec(m)]
        m@.wf() && p.matches(m@) && on_walk_from(start.civil_spec(), inclusive, direction, m@)
            && rule_answer(p, start, m, job_type_spec(p), inclusive, direction, x)
            && walked_without_answer(p, start, inclusive, direction, m@)
}

/// A matching wall clock time gives a search at most one answer.
pub proof fn lemma_rule_answer_unique<T: CronDateTime>(
    p: PatternModel,
    start: T,
    m: CivilDateTime,
    job: JobType,
    inclusive: bool,
    direction: Direction,
    x1: T,
    x2: T,
)
    requires
        rule_answer(p, start, m, job, inclusive, direction, x1),
        rule_answer(p, start, m, job, inclusive, direction, x2),
    ensures
        x1 == x2,
{
    if start.resolution_spec(m) == Ok::<Resolution<T>, CronError>(Resolution::Gap) {
        lemma_ends_gap_unique(start, m@, x1, x2);
    }
}

/// Whether the wall clock time of `t` happens only once in its time zone,
/// so `t` is on no repeated range.
pub open spec fn once_in_zone<T: CronDateTime>(t: T) -> bool {
    forall|c: CivilDateTime|
        #![trigger t.resolution_spec(c)]
        c@ == t.civil_spec() ==> !(t.resolution_spec(c) matches Ok(Resolution::Ambiguous(_, _)))
}

/// One second of wall clock time further in the direction of the search.
fn step(c: Cursor, direction: Direction) -> (r: Result<Cursor, CronError>)
    ensures
        r matches Ok(n) ==> n.model().wf() && n.model().seconds() == c.model().seconds() + (
        match direction {
            Direction::Forward => 1int,
            Direction::Backward => -1int,
        }),
        r matches Err(e) ==> e is InvalidTime,
        moderate_year(c.model().date.year) ==> r is Ok,
{
    let delta: i64 = match direction {
        Direction::Forward => 1,
        Direction::Backward => -1,
    };
    match c.checked_add_seconds(delta) {
        Some(n) => Ok(n),
        None => Err(CronError::InvalidTime),
    }
}

/// The first instant after a gap in the wall clock: the wall clock is
/// walked forward from `c` until a time resolves.
fn after_gap<T: CronDateTime>(origin: &T, c: Cursor) -> (r: Result<T, CronError>)
    requires
        c.model().wf(),
    ensures
        r matches Ok(g) ==> g.civil_spec().wf() && c.model().seconds() < g.civil_spec().seconds()
            <= c.model().seconds() + MAX_GAP_SEARCH_SECONDS + 1,
        r matches Ok(g) ==> ends_gap(*origin, c.model(), g),
        origin.fixed_offset() is Some && moderate_year(c.model().date.year) ==> (r matches Ok(g)
            && g.civil_spec().seconds() == c.model().seconds() + 1 && g.fixed_offset()
            == origin.fixed_offset()),
{
    let mut temp = c;
    let mut count: u32 = 0;
    loop
        invariant
            count <= MAX_GAP_SEARCH_SECONDS,
            temp.model().wf(),
            c.model().wf(),
            temp.model().seconds() == c.model().seconds() + count,
            count == 0 ==> temp == c,
            count > 0 ==> !(origin.fixed_offset() is Some && moderate_year(c.model().date.year)),
            forall|n2: CivilDateTime|
                #![trigger origin.resolution_spec(n2)]
                n2@.wf() && c.model().seconds() < n2@.seconds() <= c.model().seconds() + count
                    ==> origin.resolution_spec(n2) == Ok::<Resolution<T>, CronError>(
                    Resolution::Gap,
                ),
        decreases MAX_GAP_SEARCH_SECONDS + 1 - count,
    {
        temp = match step(temp, Direction::Forward) {
            Ok(n) => n,
            Err(e) => {
                return Err(e);
            },
        };
        count = count + 1;
        proof {
            temp.lemma_civil_value();
        }
        let ghost here = temp.civil_value();
        match temp.resolve_in(origin) {
            Ok(Resolution::Single(t)) => {
                assert(first_instant(origin.resolution_spec(here)) == Some(t));
                assert(ends_gap(*origin, c.model(), t));
                return Ok(t);
            },
            Ok(Resolution::Ambiguous(a, _)) => {
                assert(first_instant(origin.resolution_spec(here)) == Some(a));
                assert(ends_gap(*origin, c.model(), a));
                return Ok(a);
            },
            Ok(Resolution::Gap) => {
                assert forall|n2: CivilDateTime|
                    #![trigger origin.resolution_spec(n2)]
                    n2@.wf() && c.model().seconds() < n2@.seconds() <= c.model().seconds()
                        + count implies origin.resolution_spec(n2) == Ok::<
                        Resolution<T>,
                        CronError,
                    >(Resolution::Gap) by {
                    if n2@.seconds() == c.model().seconds() + count {
                        lemma_single_second(n2@, here@);
                        crate::time::lemma_civil_view_injective(n2, here);
                    }
                }
            },
            Err(e) => {
                return Err(e);
            },
        }
        if count > MAX_GAP_SEARCH_SECONDS {
            return Err(CronError::TimeSearchLimitExceeded);
        }
    }
}

impl Cron {
    /// Whether the pattern runs at one fixed time of day or at intervals.
    /// A fixed time has a second, a minute and an hour that are each one
    /// value, written without a step or a wildcard.
    pub fn determine_job_type(&self) -> (j: JobType)
        ensures
            j == job_type_spec(self.pattern@),
    {
        let s = &self.pattern.seconds;
        let m = &self.pattern.minutes;
        let h = &self.pattern.hours;
        let is_seconds_fixed = s.step_value() == 1 && !s.wildcard() && s.get_set_values(
            ALL_BIT,
        ).len() == 1;
        let is_minutes_fixed = m.step_value() == 1 && !m.wildcard() && m.get_set_values(
            ALL_BIT,
        ).len() == 1;
        let is_hours_fixed = h.step_value() == 1 && !h.wildcard() && h.get_set_values(
            ALL_BIT,
        ).len() == 1;
        if is_seconds_fixed && is_minutes_fixed && is_hours_fixed {
            JobType::FixedTime
        } else {
            JobType::IntervalWildcard
        }
    }

    /// Moves to the next or previous value of the hour, minute or second
    /// field that the pattern allows, or past the next larger field where
    /// there is none. Returns whether it moved past the larger field.
    fn find_matching_granular_component(
        &self,
        current_time: &mut Cursor,
        direction: Direction,
        component: TimeComponent,
    ) -> (r: Result<bool, CronError>)
        ensures
            r is Ok ==> searched(
                self.pattern@,
                old(current_time).model(),
                final(current_time).model(),
                direction,
            ),
            r is Ok ==> final(current_time).model().wf(),
            !(component is Hour || component is Minute || component is Second) ==> r
                == Err::<bool, CronError>(CronError::InvalidTime),
            component is Hour ==> (r matches Ok(moved) ==> hour_step(
                self.pattern@,
                old(current_time).model(),
                final(current_time).model(),
                moved,
                direction,
            )),
            component is Minute ==> (r matches Ok(moved) ==> minute_step(
                self.pattern@,
                old(current_time).model(),
                final(current_time).model(),
                moved,
                direction,
            )),
            component is Second ==> (r matches Ok(moved) ==> second_step(
                self.pattern@,
                old(current_time).model(),
                final(current_time).model(),
                moved,
                direction,
            )),
            (component is Hour || component is Minute || component is Second) && standard_pattern(
                self.pattern@,
            ) && moderate_year(old(current_time).model().date.year) && !at_year_limit(
                old(current_time).model(),
                direction,
            ) ==> r is Ok,
    {
        match component {
            TimeComponent::Hour => self.match_hour(current_time, direction),
            TimeComponent::Minute => self.match_minute(current_time, direction),
            TimeComponent::Second => self.match_second(current_time, direction),
            _ => Err(CronError::InvalidTime),
        }
    }

    /// Moves through the year, month and day fields, as far as the first
    /// that had to move.
    fn align_date(&self, cur: &mut Cursor, direction: Direction, Ghost(m): Ghost<DateTimeModel>) -> (r:
        Result<bool, CronError>)
        requires
            old(cur).model().wf(),
        ensures
            r is Ok ==> final(cur).model().wf() && passed(
                self.pattern@,
                old(cur).model(),
                final(cur).model(),
                direction,
            ),
            r matches Ok(moved) ==> date_phase(
                self.pattern@,
                m,
                old(cur).model(),
                final(cur).model(),
                moved,
                direction,
            ),
            step_owed(self.pattern@, m, old(cur).model(), direction) ==> r is Ok,
            r is Ok ==> within_years(final(cur).model(), direction),
    {
        let ghost p = self.pattern@;
        let ghost c0 = cur.model();
        proof {
            if step_owed(p, m, c0, direction) {
                assert(p.matches(m));
            }
        }
        let mut changed = match self.find_matching_date_component(
            cur,
            direction,
            TimeComponent::Year,
        ) {
            Ok(b) => b,
            Err(e) => {
                return Err(e);
            },
        };
        let ghost y = cur.model();
        if !changed {
            changed = match self.find_matching_date_component(
                cur,
                direction,
                TimeComponent::Month,
            ) {
                Ok(b) => b,
                Err(e) => {
                    return Err(e);
                },
            };
        }
        if !changed {
            changed = match self.find_matching_date_component(
                cur,
                direction,
                TimeComponent::Day,
            ) {
                Ok(b) => b,
                Err(e) => {
                    return Err(e);
                },
            };
        }
        if changed {
            *cur = match direction {
                Direction::Forward => at_time(*cur, 0, 0, 0),
                Direction::Backward => at_time(*cur, 23, 59, 59),
            };
        }
        proof {
            lemma_searched_trans(p, c0, y, cur.model(), direction);
            lemma_searched_trans(p, y, y, cur.model(), direction);
            match direction {
                Direction::Forward => lemma_year_order(y, cur.model()),
                Direction::Backward => lemma_year_order(cur.model(), y),
            }
            lemma_passed(p, c0, cur.model(), cur.model(), direction);
        }
        Ok(changed)
    }

    /// Moves through the hour, minute and second fields; answers which of
    /// them moved past the rest of the field above.
    fn align_time(&self, cur: &mut Cursor, direction: Direction, Ghost(m): Ghost<DateTimeModel>) -> (r:
        Result<(bool, bool, bool, Ghost<DateTimeModel>, Ghost<DateTimeModel>), CronError>)
        requires
            old(cur).model().wf(),
        ensures
            r is Ok ==> final(cur).model().wf() && passed(
                self.pattern@,
                old(cur).model(),
                final(cur).model(),
                direction,
            ),
            r matches Ok((h, mi, se, a2, a3)) ==> step_owed(self.pattern@, m, old(cur).model(), direction)
                ==> time_phases(
                self.pattern@,
                m,
                old(cur).model(),
                a2@,
                h,
                a3@,
                mi,
                final(cur).model(),
                se,
                direction,
            ),
            step_owed(self.pattern@, m, old(cur).model(), direction) ==> r is Ok,
    {
        let ghost p = self.pattern@;
        let ghost a1 = cur.model();
        let ghost owed = step_owed(p, m, a1, direction);
        proof {
            if owed {
                lemma_step_owed_kept(p, m, a1, a1, direction);
            }
        }
        let hour_moved = match self.find_matching_granular_component(
            cur,
            direction,
            TimeComponent::Hour,
        ) {
            Ok(b) => b,
            Err(e) => {
                return Err(e);
            },
        };
        let ghost a2 = cur.model();
        proof {
            if owed {
                lemma_step_owed_kept(p, m, a1, a2, direction);
                if hour_moved {
                    match direction {
                        Direction::Forward => lemma_next_date(a1.date),
                        Direction::Backward => lemma_previous_date(a1.date),
                    }
                }
            }
        }
        let mut minute_moved = false;
        if !hour_moved {
            minute_moved = match self.find_matching_granular_component(
                cur,
                direction,
                TimeComponent::Minute,
            ) {
                Ok(b) => b,
                Err(e) => {
                    return Err(e);
                },
            };
        }
        let ghost a3 = cur.model();
        proof {
            if owed {
                lemma_step_owed_kept(p, m, a2, a3, direction);
            }
        }
        let mut second_moved = false;
        if !hour_moved && !minute_moved {
            second_moved = match self.find_matching_granular_component(
                cur,
                direction,
                TimeComponent::Second,
            ) {
                Ok(b) => b,
                Err(e) => {
                    return Err(e);
                },
            };
        }
        proof {
            lemma_searched_trans(p, a1, a2, a3, direction);
            lemma_searched_trans(p, a1, a3, cur.model(), direction);
            if owed {
                lemma_time_phases(
                    p,
                    m,
                    a1,
                    a2,
                    hour_moved,
                    a3,
                    minute_moved,
                    cur.model(),
                    second_moved,
                    direction,
                );
            }
        }
        proof {
            lemma_passed(p, a1, cur.model(), cur.model(), direction);
        }
        Ok((hour_moved, minute_moved, second_moved, Ghost(a2), Ghost(a3)))
    }

    /// One round of the search: moves through the date fields, then the
    /// hour, minute and second, and answers whether the time it reached
    /// matches; where it does not, steps one second on. With a match ahead,
    /// a round that finds none leaves fewer rounds to go.
    fn search_round(
        &self,
        cur: &mut Cursor,
        direction: Direction,
        Ghost(m): Ghost<DateTimeModel>,
        Ghost(level): Ghost<int>,
    ) -> (r: Result<(bool, Ghost<int>), CronError>)
        requires
            old(cur).model().wf(),
        ensures
            r is Ok ==> final(cur).model().wf() && passed(
                self.pattern@,
                old(cur).model(),
                final(cur).model(),
                direction,
            ),
            r matches Ok((found, _)) ==> (found ==> self.pattern@.matches(final(cur).model())),
            round_owed(self.pattern@, m, old(cur).model(), level, direction) ==> r is Ok,
            r matches Ok((false, _)) ==> within_years(final(cur).model(), direction),
            round_owed(self.pattern@, m, old(cur).model(), level, direction) ==> (r matches Ok(
                (found, l),
            ) ==> (!found ==> next_round(self.pattern@, m, old(cur).model(), level, final(cur).model(), l@, direction)
                && round_owed(self.pattern@, m, final(cur).model(), l@, direction))),
    {
        let ghost p = self.pattern@;
        let ghost c0 = cur.model();
        let ghost owed = round_owed(p, m, c0, level, direction);
        let date_moved = match self.align_date(cur, direction, Ghost(m)) {
            Ok(b) => b,
            Err(e) => {
                return Err(e);
            },
        };
        let ghost a1 = cur.model();
        proof {
            lemma_passed(p, c0, a1, a1, direction);
            if owed {
                lemma_step_owed_kept(p, m, c0, a1, direction);
            }
        }
        let (hour_moved, minute_moved, second_moved, Ghost(a2), Ghost(a3)) = match self.align_time(
            cur,
            direction,
            Ghost(m),
        ) {
            Ok(x) => x,
            Err(e) => {
                return Err(e);
            },
        };
        let ghost e = cur.model();
        proof {
            lemma_passed(p, c0, a1, e, direction);
            lemma_passed(p, c0, e, e, direction);
            if owed {
                lemma_step_owed_kept(p, m, c0, e, direction);
            }
        }
        let found = match self.cursor_matches(*cur) {
            Ok(b) => b,
            Err(e) => {
                return Err(e);
            },
        };
        if found {
            return Ok((true, Ghost(level)));
        }
        *cur = match step(*cur, direction) {
            Ok(n) => n,
            Err(e) => {
                return Err(e);
            },
        };
        let ghost n = cur.model();
        proof {
            assert(searched(p, e, n, direction)) by {
                assert forall|d: DateTimeModel|
                    d.wf() && (match direction {
                        Direction::Forward => e.seconds() <= d.seconds() < n.seconds(),
                        Direction::Backward => n.seconds() + 1 <= d.seconds() < e.seconds() + 1,
                    }) implies !p.matches(d) by {
                    lemma_single_second(e, d);
                }
            }
            lemma_searched_trans(p, c0, e, n, direction);
            lemma_passed(p, c0, n, n, direction);
            lemma_passed(p, a1, e, e, direction);
            match direction {
                Direction::Forward => lemma_year_order(a1, n),
                Direction::Backward => lemma_year_order(n, a1),
            }
        }
        let ghost mut l: int = 0;
        proof {
            if owed {
                lemma_step_owed_kept(p, m, c0, n, direction);
                l = lemma_round_progress(
                    p,
                    m,
                    c0,
                    level,
                    a1,
                    date_moved,
                    a2,
                    hour_moved,
                    a3,
                    minute_moved,
                    e,
                    second_moved,
                    n,
                    direction,
                );
            }
        }
        Ok((false, Ghost(l)))
    }

    /// The first wall clock time, from `start` on in the given direction,
    /// that matches the pattern. With a match ahead, inside the supported
    /// years, and a pattern of the usual shape, the search finds it.
    fn civil_search(&self, start: Cursor, direction: Direction) -> (r: Result<Cursor, CronError>)
        ensures
            r matches Ok(c) ==> c.model().wf() && self.pattern@.matches(c.model()) && searched(
                self.pattern@,
                start.model(),
                c.model(),
                direction,
            ),
            standard_pattern(self.pattern@) && search_owed(self.pattern@, start.model(), direction)
                ==> r is Ok,
    {
        let ghost p = self.pattern@;
        let ghost s0 = start.model();
        let mut cur = start;
        let _ = cur.year();
        let ghost complete = standard_pattern(p) && search_owed(p, s0, direction);
        let ghost m = choose|m: DateTimeModel|
            #![trigger p.matches(m)]
            m.wf() && p.matches(m) && match direction {
                Direction::Forward => s0.seconds() <= m.seconds() && m.date.year < YEAR_UPPER_LIMIT,
                Direction::Backward => m.seconds() <= s0.seconds() && m.date.year > YEAR_LOWER_LIMIT,
            };
        proof {
            if complete {
                lemma_owed_bounds(p, s0, m, direction);
            }
        }
        let ghost mut level: int = 0;
        let mut iterations: u32 = 0;
        proof {
            lemma_passed(p, s0, s0, s0, direction);
        }
        loop
            invariant
                p == self.pattern@,
                cur.model().wf(),
                s0 == start.model(),
                passed(p, s0, cur.model(), direction),
                iterations <= MAX_SEARCH_ITERATIONS,
                complete == (standard_pattern(p) && search_owed(p, s0, direction)),
                complete ==> round_owed(p, m, cur.model(), level, direction),
                complete && iterations == 0 ==> level == 0,
                complete && iterations > 0 ==> within_years(cur.model(), direction) && iterations
                    + rounds_left(m, cur.model(), level, direction) <= rounds_bound(m, direction)
                    + 1,
                complete ==> rounds_bound(m, direction) + 1 < MAX_SEARCH_ITERATIONS,
            decreases MAX_SEARCH_ITERATIONS - iterations,
        {
            if iterations >= MAX_SEARCH_ITERATIONS {
                return Err(CronError::TimeSearchLimitExceeded);
            }
            iterations = iterations + 1;
            let ghost here = cur.model();
            let (found, Ghost(next_level)) = match self.search_round(
                &mut cur,
                direction,
                Ghost(m),
                Ghost(level),
            ) {
                Ok(x) => x,
                Err(e) => {
                    return Err(e);
                },
            };
            proof {
                lemma_passed(p, s0, here, cur.model(), direction);
                lemma_passed(p, s0, cur.model(), cur.model(), direction);
            }
            if found {
                return Ok(cur);
            }
            proof {
                if complete && iterations == 1 {
                    lemma_rounds_within(m, cur.model(), next_level, direction);
                }
                level = next_level;
            }
        }
    }

    /// The first wall clock time from `start` on, in the given direction,
    /// that matches the pattern; from the second after (forward) or before
    /// (backward) `start` where the search is not inclusive. No wall clock
    /// time in between matches.
    pub fn find_civil_occurrence(
        &self,
        start: CivilDateTime,
        inclusive: bool,
        direction: Direction,
    ) -> (r: Result<CivilDateTime, CronError>)
        ensures
            r matches Ok(c) ==> first_match(self.pattern@, start@, c@, inclusive, direction),
            standard_pattern(self.pattern@) && search_owed_from(
                self.pattern@,
                start@,
                inclusive,
                direction,
            ) ==> r is Ok,
    {
        let mut cursor = Cursor::new(&start);
        let ghost s0 = cursor.model();
        proof {
            if search_owed_from(self.pattern@, s0, inclusive, direction) {
                lemma_owed_from(self.pattern@, s0, s0, true, direction);
            }
        }
        if !inclusive {
            cursor = match step(cursor, direction) {
                Ok(n) => n,
                Err(e) => {
                    return Err(e);
                },
            };
        }
        proof {
            if search_owed_from(self.pattern@, s0, inclusive, direction) {
                lemma_owed_from(self.pattern@, s0, cursor.model(), inclusive, direction);
            }
        }
        match self.civil_search(cursor, direction) {
            Ok(c) => Ok(c.civil()),
            Err(e) => Err(e),
        }
    }

    /// Whether the date of an instant matches the date fields.
    fn date_matches_at<T: CronDateTime>(&self, g: &T) -> (r: Result<bool, CronError>)
        ensures
            r matches Ok(true) ==> self.pattern@.date_matches(g.civil_spec()),
            r is Ok <==> and_then(
                self.pattern@.day_answer(
                    g.civil_spec().date.year,
                    g.civil_spec().date.month,
                    g.civil_spec().date.day,
                    g.civil_spec().date.weekday(),
                ),
                and_then(
                    self.pattern@.month_answer(g.civil_spec().date.month),
                    self.pattern@.year_answer(g.civil_spec().date.year),
                ),
            ) is Some,
            r matches Ok(b) ==> Some(b) == and_then(
                self.pattern@.day_answer(
                    g.civil_spec().date.year,
                    g.civil_spec().date.month,
                    g.civil_spec().date.day,
                    g.civil_spec().date.weekday(),
                ),
                and_then(
                    self.pattern@.month_answer(g.civil_spec().date.month),
                    self.pattern@.year_answer(g.civil_spec().date.year),
                ),
            ),
            r matches Err(e) ==> e is ComponentError,
    {
        let c = Cursor::new(g);
        let d = match self.pattern.day_match(c.year(), c.month(), c.day(), c.weekday()) {
            Ok(b) => b,
            Err(e) => {
                return Err(e);
            },
        };
        if !d {
            return Ok(false);
        }
        let m = match self.pattern.month_match(c.month()) {
            Ok(b) => b,
            Err(e) => {
                return Err(e);
            },
        };
        if !m {
            return Ok(false);
        }
        self.pattern.year_match(c.year())
    }

    /// A walk with no answer up to `cur` has none up to the match `c` that a
    /// wall clock search from `cur` finds.
    proof fn lemma_walk_to<T: CronDateTime>(
        &self,
        start: T,
        inclusive: bool,
        direction: Direction,
        cur: DateTimeModel,
        c: DateTimeModel,
    )
        requires
            walked_without_answer(self.pattern@, start, inclusive, direction, cur),
            searched(self.pattern@, cur, c, direction),
        ensures
            walked_without_answer(self.pattern@, start, inclusive, direction, c),
    {
        let p = self.pattern@;
        assert forall|m: CivilDateTime|
            #![trigger start.resolution_spec(m)]
            m@.wf() && p.matches(m@) && in_walk(start.civil_spec(), inclusive, direction, m@, c)
                implies forall|x: T|
                #![trigger rule_answer(p, start, m, job_type_spec(p), inclusive, direction, x)]
                !rule_answer(p, start, m, job_type_spec(p), inclusive, direction, x) by {
            assert(in_walk(start.civil_spec(), inclusive, direction, m@, cur));
        }
    }

    /// A walk with no answer up to the match `c`, which gave none, has none
    /// up to the second after `c`.
    proof fn lemma_walk_past<T: CronDateTime>(
        &self,
        start: T,
        inclusive: bool,
        direction: Direction,
        c: Cursor,
        next: DateTimeModel,
    )
        requires
            walked_without_answer(self.pattern@, start, inclusive, direction, c.model()),
            c.model().wf(),
            c.civil_value()@ == c.model(),
            forall|x: T|
                #![trigger rule_answer(self.pattern@, start, c.civil_value(), job_type_spec(self.pattern@), inclusive, direction, x)]
                !rule_answer(
                    self.pattern@,
                    start,
                    c.civil_value(),
                    job_type_spec(self.pattern@),
                    inclusive,
                    direction,
                    x,
                ),
            next.seconds() == c.model().seconds() + match direction {
                Direction::Forward => 1int,
                Direction::Backward => -1int,
            },
        ensures
            walked_without_answer(self.pattern@, start, inclusive, direction, next),
    {
        let p = self.pattern@;
        assert forall|m: CivilDateTime|
            #![trigger start.resolution_spec(m)]
            m@.wf() && p.matches(m@) && in_walk(start.civil_spec(), inclusive, direction, m@, next)
                implies forall|x: T|
                #![trigger rule_answer(p, start, m, job_type_spec(p), inclusive, direction, x)]
                !rule_answer(p, start, m, job_type_spec(p), inclusive, direction, x) by {
            if m@.seconds() == c.model().seconds() {
                lemma_single_second(m@, c.model());
                crate::time::lemma_civil_view_injective(m, c.civil_value());
            } else {
                assert(in_walk(start.civil_spec(), inclusive, direction, m@, c.model()));
            }
        }
    }

    /// The instant that a matching wall clock time gives in the time zone of
    /// `start`, if it may answer the search. A time that happens once or
    /// twice gives what `pick_instant` picks; a time in a gap gives a job at
    /// a fixed time the first instant after the gap, if that instant's date
    /// matches and it lies beyond the start, and an interval job nothing.
    fn candidate<T: CronDateTime>(
        &self,
        start: &T,
        c: Cursor,
        job: JobType,
        inclusive: bool,
        direction: Direction,
    ) -> (r: Result<Option<T>, CronError>)
        requires
            self.pattern@.matches(c.model()),
            job == job_type_spec(self.pattern@),
        ensures
            r matches Ok(Some(x)) ==> accepted(start.instant(), x.instant(), inclusive, direction)
                && answers(self.pattern@, x.civil_spec()),
            r matches Ok(Some(x)) ==> rule_answer(
                self.pattern@,
                *start,
                c.civil_value(),
                job,
                inclusive,
                direction,
                x,
            ),
            start.resolution_spec(c.civil_value()) matches Ok(res) ==> (!(res is Gap
                && job is FixedTime) ==> r == Ok::<Option<T>, CronError>(
                pick_spec(*start, res, job, inclusive, direction),
            )),
            r == Ok::<Option<T>, CronError>(None) ==> forall|x: T|
                #![trigger rule_answer(self.pattern@, *start, c.civil_value(), job, inclusive, direction, x)]
                !rule_answer(self.pattern@, *start, c.civil_value(), job, inclusive, direction, x),
            start.resolution_spec(c.civil_value()) matches Err(e) ==> r == Err::<
                Option<T>,
                CronError,
            >(e),
            start.fixed_offset() matches Some(o) ==> (start.instant() == (
            start.civil_spec().seconds() - o) * 1_000_000_000 && accepted(
                start.civil_spec().seconds(),
                c.model().seconds(),
                inclusive,
                direction,
            ) ==> (r matches Ok(Some(x)) && x.civil_spec() == c.model() && x.fixed_offset()
                == Some(o) && x.instant() == (c.model().seconds() - o) * 1_000_000_000)),
    {
        proof {
            c.lemma_civil_value();
        }
        match c.resolve_in(start) {
            Ok(Resolution::Gap) => {
                match job {
                    JobType::FixedTime => {
                        let g = match after_gap(start, c) {
                            Ok(g) => g,
                            Err(e) => {
                                return Err(e);
                            },
                        };
                        let on_date = match self.date_matches_at(&g) {
                            Ok(b) => b,
                            Err(e) => {
                                return Err(e);
                            },
                        };
                        if on_date && accepts(start, &g, inclusive, direction) {
                            Ok(Some(g))
                        } else {
                            proof {
                                assert forall|x: T|
                                    #![trigger rule_answer(self.pattern@, *start, c.civil_value(), job, inclusive, direction, x)]
                                    !rule_answer(
                                    self.pattern@,
                                    *start,
                                    c.civil_value(),
                                    job,
                                    inclusive,
                                    direction,
                                    x,
                                ) by {
                                    if rule_answer(
                                        self.pattern@,
                                        *start,
                                        c.civil_value(),
                                        job,
                                        inclusive,
                                        direction,
                                        x,
                                    ) {
                                        lemma_ends_gap_unique(*start, c.model(), x, g);
                                    }
                                }
                            }
                            Ok(None)
                        }
                    },
                    JobType::IntervalWildcard => Ok(None),
                }
            },
            Ok(res) => Ok(pick_instant(start, res, job, inclusive, direction)),
            Err(e) => Err(e),
        }
    }

    /// The next (forward) or previous (backward) occurrence of the pattern
    /// from `start`, in real time.
    ///
    /// The search walks the wall clock. Where a time zone repeats a range of
    /// wall clock times, a search that starts on one half of it finishes
    /// that half first, then walks the other half from its edge. A time that
    /// happens twice runs a job at a fixed time once, at its first instant,
    /// and an interval job at each instant. A job at a fixed time whose time
    /// falls into a gap runs at the first instant after the gap, where that
    /// instant's date matches; an interval job skips the gap.
    pub(crate) fn find_occurrence<T: CronDateTime>(
        &self,
        start: &T,
        inclusive: bool,
        direction: Direction,
    ) -> (r: Result<T, CronError>)
        ensures
            r matches Ok(x) ==> accepted(start.instant(), x.instant(), inclusive, direction)
                && answers(self.pattern@, x.civil_spec()),
            r matches Ok(x) ==> found_by_rule(self.pattern@, *start, inclusive, direction, x),
            once_in_zone(*start) ==> (r matches Ok(x) ==> nearest_by_rule(
                self.pattern@,
                *start,
                inclusive,
                direction,
                x,
            )),
            start.fixed_offset() is Some ==> (r matches Ok(x) ==> first_match(
                self.pattern@,
                start.civil_spec(),
                x.civil_spec(),
                inclusive,
                direction,
            ) && x.fixed_offset() == start.fixed_offset() && x.civil_spec().wf() && x.instant()
                - start.instant() == (x.civil_spec().seconds() - start.civil_spec().seconds())
                * 1_000_000_000),
            start.fixed_offset() is Some && standard_pattern(self.pattern@) && search_owed_from(
                self.pattern@,
                start.civil_spec(),
                inclusive,
                direction,
            ) ==> r is Ok,
    {
        let job = self.determine_job_type();
        let fold = match fold_of(start) {
            Ok(f) => f,
            Err(e) => {
                return Err(e);
            },
        };
        let far_half = match direction {
            Direction::Forward => match fold {
                Some(Fold::Earlier) => true,
                _ => false,
            },
            Direction::Backward => match fold {
                Some(Fold::Later) => true,
                _ => false,
            },
        };
        let mut edge: Option<T> = if far_half {
            let on = match direction {
                Direction::Forward => Fold::Earlier,
                Direction::Backward => Fold::Later,
            };
            match other_fold_edge(start, on) {
                Ok(e) => Some(e),
                Err(e) => {
                    return Err(e);
                },
            }
        } else {
            None
        };
        let ghost simple = once_in_zone(*start);
        assert(simple ==> edge is None);
        let mut cursor = Cursor::new(start);
        let ghost owed = start.fixed_offset() is Some && standard_pattern(self.pattern@)
            && search_owed_from(self.pattern@, start.civil_spec(), inclusive, direction);
        proof {
            if owed {
                lemma_owed_from(self.pattern@, cursor.model(), cursor.model(), true, direction);
            }
        }
        if !inclusive {
            cursor = match step(cursor, direction) {
                Ok(n) => n,
                Err(e) => {
                    return Err(e);
                },
            };
        }
        let ghost first = cursor.model();
        proof {
            if owed {
                lemma_owed_from(self.pattern@, start.civil_spec(), first, inclusive, direction);
            }
        }
        let mut iterations: u32 = 0;
        loop
            invariant
                iterations <= MAX_SEARCH_ITERATIONS,
                job == job_type_spec(self.pattern@),
                start.fixed_offset() matches Some(o) ==> {
                    &&& edge is None
                    &&& iterations == 0
                    &&& cursor.model() == first
                    &&& start.instant() == (start.civil_spec().seconds() - o) * 1_000_000_000
                },
                first.wf(),
                inclusive ==> first == start.civil_spec(),
                !inclusive ==> first.seconds() == start.civil_spec().seconds() + match direction {
                    Direction::Forward => 1int,
                    Direction::Backward => -1int,
                },
                owed == (start.fixed_offset() is Some && standard_pattern(self.pattern@)
                    && search_owed_from(self.pattern@, start.civil_spec(), inclusive, direction)),
                owed ==> search_owed(self.pattern@, first, direction),
                simple == once_in_zone(*start),
                simple ==> edge is None,
                simple ==> cursor.model().wf(),
                simple ==> walked_without_answer(
                    self.pattern@,
                    *start,
                    inclusive,
                    direction,
                    cursor.model(),
                ),
                simple ==> match direction {
                    Direction::Forward => first.seconds() <= cursor.model().seconds(),
                    Direction::Backward => cursor.model().seconds() <= first.seconds(),
                },
            decreases MAX_SEARCH_ITERATIONS - iterations,
        {
            if iterations >= MAX_SEARCH_ITERATIONS {
                return Err(CronError::TimeSearchLimitExceeded);
            }
            iterations = iterations + 1;
            let c = match self.civil_search(cursor, direction) {
                Ok(c) => c,
                Err(e) => {
                    return Err(e);
                },
            };
            match self.candidate(start, c, job, inclusive, direction) {
                Ok(Some(x)) => {
                    let jump_to = match &edge {
                        Some(e) => if before_edge(&x, e, direction) {
                            None
                        } else {
                            Some(Cursor::new(e))
                        },
                        None => None,
                    };
                    match jump_to {
                        Some(j) => {
                            cursor = j;
                            edge = None;
                        },
                        None => {
                            proof {
                                c.lemma_civil_value();
                                if simple {
                                    self.lemma_walk_to(*start, inclusive, direction, cursor.model(), c.model());
                                    assert(on_walk_from(start.civil_spec(), inclusive, direction, c.model()));
                                }
                                assert(rule_answer(
                                    self.pattern@,
                                    *start,
                                    c.civil_value(),
                                    job,
                                    inclusive,
                                    direction,
                                    x,
                                ));
                            }
                            return Ok(x);
                        },
                    }
                },
                Ok(None) => {
                    let ghost before = cursor.model();
                    cursor = match step(c, direction) {
                        Ok(n) => n,
                        Err(e) => {
                            return Err(e);
                        },
                    };
                    proof {
                        if simple {
                            c.lemma_civil_value();
                            self.lemma_walk_to(*start, inclusive, direction, before, c.model());
                            self.lemma_walk_past(*start, inclusive, direction, c, cursor.model());
                        }
                    }
                },
                Err(e) => {
                    return Err(e);
                },
            }
        }
    }

    /// The next occurrence of the pattern after `start_time`, or at it where
    /// `inclusive`.
    pub fn find_next_occurrence<T: CronDateTime>(&self, start_time: &T, inclusive: bool) -> (r:
        Result<T, CronError>)
        ensures
            r matches Ok(x) ==> (if inclusive {
                start_time.instant() <= x.instant()
            } else {
                start_time.instant() < x.instant()
            }) && answers(self.pattern@, x.civil_spec()),
            r matches Ok(x) ==> found_by_rule(
                self.pattern@,
                *start_time,
                inclusive,
                Direction::Forward,
                x,
            ),
            once_in_zone(*start_time) ==> (r matches Ok(x) ==> nearest_by_rule(
                self.pattern@,
                *start_time,
                inclusive,
                Direction::Forward,
                x,
            )),
            start_time.fixed_offset() is Some ==> (r matches Ok(x) ==> first_match(
                self.pattern@,
                start_time.civil_spec(),
                x.civil_spec(),
                inclusive,
                Direction::Forward,
            ) && x.fixed_offset() == start_time.fixed_offset() && x.civil_spec().wf()
                && x.instant() - start_time.instant() == (x.civil_spec().seconds()
                - start_time.civil_spec().seconds()) * 1_000_000_000),
            start_time.fixed_offset() is Some && standard_pattern(self.pattern@)
                && search_owed_from(self.pattern@, start_time.civil_spec(), inclusive, Direction::Forward)
                ==> r is Ok,
    {
        self.find_occurrence(start_time, inclusive, Direction::Forward)
    }

    /// The previous occurrence of the pattern before `start_time`, or at it
    /// where `inclusive`.
    pub fn find_previous_occurrence<T: CronDateTime>(&self, start_time: &T, inclusive: bool) -> (r:
        Result<T, CronError>)
        ensures
            r matches Ok(x) ==> (if inclusive {
                x.instant() <= start_time.instant()
            } else {
                x.instant() < start_time.instant()
            }) && answers(self.pattern@, x.civil_spec()),
            r matches Ok(x) ==> found_by_rule(
                self.pattern@,
                *start_time,
                inclusive,
                Direction::Backward,
                x,
            ),
            once_in_zone(*start_time) ==> (r matches Ok(x) ==> nearest_by_rule(
                self.pattern@,
                *start_time,
                inclusive,
                Direction::Backward,
                x,
            )),
            start_time.fixed_offset() is Some ==> (r matches Ok(x) ==> first_match(
                self.pattern@,
                start_time.civil_spec(),
                x.civil_spec(),
                inclusive,
                Direction::Backward,
            ) && x.fixed_offset() == start_time.fixed_offset() && x.civil_spec().wf()
                && x.instant() - start_time.instant() == (x.civil_spec().seconds()
                - start_time.civil_spec().seconds()) * 1_000_000_000),
            start_time.fixed_offset() is Some && standard_pattern(self.pattern@)
                && search_owed_from(self.pattern@, start_time.civil_spec(), inclusive, Direction::Backward)
                ==> r is Ok,
    {
        self.find_occurrence(start_time, inclusive, Direction::Backward)
    }
}

} // verus!
