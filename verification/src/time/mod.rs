//! Civil (wall clock) dates and times in the proleptic Gregorian calendar.
//!
//! The search runs on the civil types of this module, so a pattern gives the
//! same result with every date and time library. A library is connected
//! through the [`CronDateTime`] trait.
use vstd::prelude::*;

use crate::errors::CronError;

pub mod cursor;
pub mod fold;

verus! {

pub const SECONDS_PER_DAY: i64 = 86_400;

// ---------------------------------------------------------------------------
// The calendar, as mathematics.
// ---------------------------------------------------------------------------

/// Whether `year` is a leap year in the proleptic Gregorian calendar.
pub open spec fn leap(year: int) -> bool {
    (year % 4 == 0 && year % 100 != 0) || year % 400 == 0
}

/// The number of days of `month` (1 to 12) in `year`.
pub open spec fn month_length(year: int, month: int) -> int {
    if month == 2 {
        if leap(year) { 29 } else { 28 }
    } else if month == 4 || month == 6 || month == 9 || month == 11 {
        30
    } else {
        31
    }
}

/// The number of days of `year`.
pub open spec fn year_length(year: int) -> int {
    if leap(year) { 366 } else { 365 }
}

/// The number of days of the whole months before `month` in `year`.
pub open spec fn days_before_month(year: int, month: int) -> int {
    let common: int = if month <= 1 { 0 }
        else if month == 2 { 31 }
        else if month == 3 { 59 }
        else if month == 4 { 90 }
        else if month == 5 { 120 }
        else if month == 6 { 151 }
        else if month == 7 { 181 }
        else if month == 8 { 212 }
        else if month == 9 { 243 }
        else if month == 10 { 273 }
        else if month == 11 { 304 }
        else { 334 };
    common + if month > 2 && leap(year) { 1int } else { 0int }
}

/// The day of the year of a date, counting from 1.
pub open spec fn ordinal_day(year: int, month: int, day: int) -> int {
    days_before_month(year, month) + day
}

/// The number of days of all the years before `year`, counted from year 1.
pub open spec fn days_before_year(year: int) -> int {
    let p = year - 1;
    365 * p + p / 4 - p / 100 + p / 400
}

/// A count of days in which consecutive dates have consecutive numbers.
/// January 1st of year 1 has the number 1.
pub open spec fn day_number(year: int, month: int, day: int) -> int {
    days_before_year(year) + ordinal_day(year, month, day)
}

/// Whether the year, month and day name a date that exists.
pub open spec fn valid_date(year: int, month: int, day: int) -> bool {
    &&& 1 <= month <= 12
    &&& 1 <= day <= month_length(year, month)
}

/// Whether the hour, minute and second name a time of day.
pub open spec fn valid_time(hour: int, minute: int, second: int) -> bool {
    &&& 0 <= hour < 24
    &&& 0 <= minute < 60
    &&& 0 <= second < 60
}

/// The months of a year follow one another, and its last day is the day
/// of the year equal to its length.
pub proof fn lemma_months_fill_the_year(year: int, month: int)
    requires
        1 <= month < 12,
    ensures
        days_before_month(year, month + 1) == days_before_month(year, month) + month_length(
            year,
            month,
        ),
        ordinal_day(year, 12, 31) == year_length(year),
{
}

/// The month after a valid month starts right after its last day.
pub proof fn lemma_next_month(year: int, month: int)
    requires
        1 <= month < 12,
    ensures
        day_number(year, month + 1, 1) == day_number(year, month, month_length(year, month)) + 1,
{
}

/// Counting one number further passes a multiple of 4 exactly when it lands on one.
proof fn lemma_quarter_step(p: int)
    ensures
        (p + 1) / 4 == p / 4 + if (p + 1) % 4 == 0 { 1int } else { 0int },
{
}

/// Counting one number further passes a multiple of 100 exactly when it lands on one.
proof fn lemma_century_step(p: int)
    ensures
        (p + 1) / 100 == p / 100 + if (p + 1) % 100 == 0 { 1int } else { 0int },
{
}

/// Counting one number further passes a multiple of 400 exactly when it lands on one.
proof fn lemma_quadricentennial_step(p: int)
    ensures
        (p + 1) / 400 == p / 400 + if (p + 1) % 400 == 0 { 1int } else { 0int },
{
}

/// A year holds as many days as its length.
#[verifier::spinoff_prover]
pub proof fn lemma_next_year(year: int)
    ensures
        days_before_year(year + 1) == days_before_year(year) + year_length(year),
        day_number(year + 1, 1, 1) == day_number(year, 12, 31) + 1,
{
    let p = year - 1;
    lemma_quarter_step(p);
    lemma_century_step(p);
    lemma_quadricentennial_step(p);
}

/// Consecutive valid dates have consecutive day numbers, and the numbers
/// grow with the date.
pub proof fn lemma_day_number_monotone(y1: int, m1: int, d1: int, y2: int, m2: int, d2: int)
    requires
        valid_date(y1, m1, d1),
        valid_date(y2, m2, d2),
        (y1, m1, d1) != (y2, m2, d2),
        y1 < y2 || (y1 == y2 && (m1 < m2 || (m1 == m2 && d1 < d2))),
    ensures
        day_number(y1, m1, d1) < day_number(y2, m2, d2),
    decreases y2 - y1,
{
    if y1 < y2 {
        lemma_day_number_year_bounds(y1, m1, d1);
        lemma_day_number_year_bounds(y2, m2, d2);
        lemma_days_before_year_monotone(y1 + 1, y2);
    }
}

/// The days of a year lie between its first and its last day number.
pub proof fn lemma_day_number_year_bounds(y: int, m: int, d: int)
    requires
        valid_date(y, m, d),
    ensures
        days_before_year(y) < day_number(y, m, d) <= days_before_year(y + 1),
{
    lemma_next_year(y);
}

/// A year within a million years of the start of the count.
pub open spec fn moderate_year(year: int) -> bool {
    -1_000_000 <= year <= 1_000_000
}

/// A date in a moderate year, moved by up to a million days, stays within
/// the years that the calendar types hold.
pub proof fn lemma_moderate_shift(d: DateModel, k: int)
    requires
        d.wf(),
        moderate_year(d.year),
        -1_000_000 <= k <= 1_000_000,
    ensures
        day_number(i32::MIN as int, 1, 1) <= d.number() + k <= day_number(i32::MAX as int, 12, 31),
{
    lemma_day_number_year_bounds(d.year, d.month, d.day);
    let p = d.year - 1;
    let n = d.year;
    assert(4 * (p / 4) <= p < 4 * (p / 4) + 4);
    assert(100 * (p / 100) <= p < 100 * (p / 100) + 100);
    assert(400 * (p / 400) <= p < 400 * (p / 400) + 400);
    assert(4 * (n / 4) <= n < 4 * (n / 4) + 4);
    assert(100 * (n / 100) <= n < 100 * (n / 100) + 100);
    assert(400 * (n / 400) <= n < 400 * (n / 400) + 400);
    let lo = i32::MIN as int - 1;
    let hi = i32::MAX as int;
    assert(day_number(i32::MIN as int, 1, 1) == 365 * lo + lo / 4 - lo / 100 + lo / 400 + 1);
    assert(day_number(i32::MAX as int, 12, 31) == 365 * hi + hi / 4 - hi / 100 + hi / 400);
}

/// Whether a wall clock second count lies within the years that the
/// calendar types hold, `i32::MIN` to `i32::MAX`.
pub open spec fn seconds_in_calendar(s: int) -> bool {
    &&& day_number(i32::MIN as int, 1, 1) * 86400 <= s
    &&& s < (day_number(i32::MAX as int, 12, 31) + 1) * 86400
}

/// The first and the last day that the calendar types hold lie within a
/// trillion days of the start of the count.
pub proof fn lemma_calendar_limits()
    ensures
        -1_000_000_000_000 <= day_number(i32::MIN as int, 1, 1) <= day_number(
            i32::MAX as int,
            12,
            31,
        ) <= 1_000_000_000_000,
{
    let lo = i32::MIN as int - 1;
    let hi = i32::MAX as int;
    assert(day_number(i32::MIN as int, 1, 1) == 365 * lo + lo / 4 - lo / 100 + lo / 400 + 1);
    assert(day_number(i32::MAX as int, 12, 31) == 365 * hi + hi / 4 - hi / 100 + hi / 400);
}

/// Every valid date with a year that an `i32` holds lies between the first
/// and the last day that the calendar types hold.
pub proof fn lemma_date_in_calendar(d: DateModel)
    requires
        d.wf(),
        i32::MIN <= d.year <= i32::MAX,
    ensures
        day_number(i32::MIN as int, 1, 1) <= d.number() <= day_number(i32::MAX as int, 12, 31),
{
    let first = DateModel { year: i32::MIN as int, month: 1, day: 1 };
    let last = DateModel { year: i32::MAX as int, month: 12, day: 31 };
    lemma_date_order(first, d);
    lemma_date_order(d, last);
}

/// Years never shrink the count.
pub proof fn lemma_days_before_year_monotone(a: int, b: int)
    requires
        a <= b,
    ensures
        days_before_year(a) <= days_before_year(b),
    decreases b - a,
{
    if a < b {
        lemma_next_year(a);
        lemma_days_before_year_monotone(a + 1, b);
    }
}

// ---------------------------------------------------------------------------
// Weekdays.
// ---------------------------------------------------------------------------

/// A day of the week, counted from Sunday as cron patterns count it.
#[derive(Debug, Clone, Copy, PartialEq, Eq, Structural, PartialOrd, Ord, Hash)]
pub enum Weekday {
    Sunday,
    Monday,
    Tuesday,
    Wednesday,
    Thursday,
    Friday,
    Saturday,
}

impl Weekday {
    /// The number of days from Sunday, 0 to 6.
    pub open spec fn index(self) -> int {
        match self {
            Weekday::Sunday => 0,
            Weekday::Monday => 1,
            Weekday::Tuesday => 2,
            Weekday::Wednesday => 3,
            Weekday::Thursday => 4,
            Weekday::Friday => 5,
            Weekday::Saturday => 6,
        }
    }

    /// The weekday a number of days from Sunday, wrapping every seven days.
    pub open spec fn of_index(i: int) -> Weekday {
        let r = i % 7;
        if r == 0 {
            Weekday::Sunday
        } else if r == 1 {
            Weekday::Monday
        } else if r == 2 {
            Weekday::Tuesday
        } else if r == 3 {
            Weekday::Wednesday
        } else if r == 4 {
            Weekday::Thursday
        } else if r == 5 {
            Weekday::Friday
        } else {
            Weekday::Saturday
        }
    }

    /// The two descriptions agree.
    pub proof fn lemma_index(self)
        ensures
            0 <= self.index() < 7,
            Weekday::of_index(self.index()) == self,
    {
    }

    /// The two descriptions agree.
    pub proof fn lemma_of_index(i: int)
        ensures
            Weekday::of_index(i).index() == i % 7,
    {
    }

    /// Shifting a weekday by `a` days and then by `b` days shifts it by
    /// `a + b` days; shifting back undoes a shift.
    pub proof fn lemma_shift_compose(self, a: int, b: int)
        ensures
            Weekday::of_index(Weekday::of_index(self.index() + a).index() + b) == Weekday::of_index(
                self.index() + a + b,
            ),
            Weekday::of_index(Weekday::of_index(self.index() - a).index() + a) == self,
    {
        Weekday::lemma_of_index(self.index() + a);
        Weekday::lemma_of_index(self.index() - a);
        vstd::arithmetic::div_mod::lemma_add_mod_noop_right(b, self.index() + a, 7);
        vstd::arithmetic::div_mod::lemma_add_mod_noop_right(a, self.index() - a, 7);
        assert((self.index() + a) % 7 + b == b + (self.index() + a) % 7);
        assert((self.index() - a) % 7 + a == a + (self.index() - a) % 7);
        self.lemma_index();
    }

    /// Returns the number of days from Sunday, in the range 0 to 6.
    pub fn num_days_from_sunday(self) -> (n: u32)
        ensures
            n == self.index(),
    {
        match self {
            Weekday::Sunday => 0,
            Weekday::Monday => 1,
            Weekday::Tuesday => 2,
            Weekday::Wednesday => 3,
            Weekday::Thursday => 4,
            Weekday::Friday => 5,
            Weekday::Saturday => 6,
        }
    }

    /// Creates a weekday from the number of days from Sunday, wrapping every
    /// seven days. This is the inverse of `num_days_from_sunday`.
    pub fn from_days_from_sunday(days: u32) -> (w: Weekday)
        ensures
            w.index() == days % 7,
            w == Weekday::of_index(days as int),
    {
        let r = days % 7;
        if r == 0 {
            Weekday::Sunday
        } else if r == 1 {
            Weekday::Monday
        } else if r == 2 {
            Weekday::Tuesday
        } else if r == 3 {
            Weekday::Wednesday
        } else if r == 4 {
            Weekday::Thursday
        } else if r == 5 {
            Weekday::Friday
        } else {
            Weekday::Saturday
        }
    }

    /// Returns the weekday a signed number of days away.
    pub fn shift(self, days: i32) -> (w: Weekday)
        ensures
            w.index() == (self.index() + days) % 7,
            w == Weekday::of_index(self.index() + days),
    {
        let total: i64 = self.num_days_from_sunday() as i64 + days as i64;
        match total.checked_rem_euclid(7) {
            Some(r) => Weekday::from_days_from_sunday(r as u32),
            None => Weekday::Sunday,
        }
    }
}

// ---------------------------------------------------------------------------
// Calendar functions.
// ---------------------------------------------------------------------------

/// Whether `d` divides `year`.
fn divides(year: i32, d: i32) -> (b: bool)
    requires
        d > 1,
    ensures
        b == (year as int % d as int == 0),
{
    match year.checked_rem_euclid(d) {
        Some(r) => r == 0,
        None => false,
    }
}

/// Returns `true` if `year` is a leap year in the proleptic Gregorian calendar.
pub fn is_leap_year(year: i32) -> (b: bool)
    ensures
        b == leap(year as int),
{
    (divides(year, 4) && !divides(year, 100)) || divides(year, 400)
}

/// Returns the number of days in a month, which must be in the range 1 to 12.
pub fn days_in_month(year: i32, month: u32) -> (n: u32)
    requires
        1 <= month <= 12,
    ensures
        n == month_length(year as int, month as int),
{
    if month == 2 {
        if is_leap_year(year) { 29 } else { 28 }
    } else if month == 4 || month == 6 || month == 9 || month == 11 {
        30
    } else {
        31
    }
}

/// Returns the number of days in a year, either 365 or 366.
pub fn days_in_year(year: i32) -> (n: u32)
    ensures
        n == year_length(year as int),
{
    if is_leap_year(year) { 366 } else { 365 }
}

/// Returns the day of the year, in the range 1 to 366. The month must be in
/// the range 1 to 12 and the day must exist.
pub fn day_of_year(year: i32, month: u32, day: u32) -> (n: u32)
    requires
        valid_date(year as int, month as int, day as int),
    ensures
        n == ordinal_day(year as int, month as int, day as int),
        1 <= n <= year_length(year as int),
{
    let common: u32 = if month == 1 { 0 }
        else if month == 2 { 31 }
        else if month == 3 { 59 }
        else if month == 4 { 90 }
        else if month == 5 { 120 }
        else if month == 6 { 151 }
        else if month == 7 { 181 }
        else if month == 8 { 212 }
        else if month == 9 { 243 }
        else if month == 10 { 273 }
        else if month == 11 { 304 }
        else { 334 };
    let leap_day: u32 = if month > 2 && is_leap_year(year) { 1 } else { 0 };
    common + day + leap_day
}

} // verus!
verus! {

// ---------------------------------------------------------------------------
// Models of the civil types.
// ---------------------------------------------------------------------------

/// A date as mathematics.
pub ghost struct DateModel {
    pub year: int,
    pub month: int,
    pub day: int,
}

impl DateModel {
    /// The date exists, and its year fits the year type.
    pub open spec fn wf(self) -> bool {
        &&& valid_date(self.year, self.month, self.day)
        &&& i32::MIN <= self.year <= i32::MAX
    }

    /// The date's place in the count of days.
    pub open spec fn number(self) -> int {
        day_number(self.year, self.month, self.day)
    }

    /// The date's day of the week.
    pub open spec fn weekday(self) -> Weekday {
        Weekday::of_index(self.number())
    }

    /// The length of the date's month.
    pub open spec fn month_length(self) -> int {
        month_length(self.year, self.month)
    }
}

/// A time of day as mathematics.
pub ghost struct TimeModel {
    pub hour: int,
    pub minute: int,
    pub second: int,
}

impl TimeModel {
    /// The time of day exists.
    pub open spec fn wf(self) -> bool {
        valid_time(self.hour, self.minute, self.second)
    }

    /// The number of seconds since midnight.
    pub open spec fn seconds(self) -> int {
        self.hour * 3600 + self.minute * 60 + self.second
    }
}

/// A date and a time of day as mathematics.
pub ghost struct DateTimeModel {
    pub date: DateModel,
    pub time: TimeModel,
}

impl DateTimeModel {
    /// Both parts exist.
    pub open spec fn wf(self) -> bool {
        self.date.wf() && self.time.wf()
    }

    /// The number of seconds on a wall clock that never jumps.
    pub open spec fn seconds(self) -> int {
        self.date.number() * 86400 + self.time.seconds()
    }
}

/// The wall clock order of valid date and times follows the second count.
pub proof fn lemma_seconds_order(a: DateTimeModel, b: DateTimeModel)
    requires
        a.wf(),
        b.wf(),
    ensures
        a.date.number() < b.date.number() ==> a.seconds() < b.seconds(),
        a.date.number() == b.date.number() ==> (a.seconds() < b.seconds() <==> a.time.seconds()
            < b.time.seconds()),
{
}

/// Different valid dates have different numbers, in calendar order.
pub proof fn lemma_date_order(a: DateModel, b: DateModel)
    requires
        a.wf(),
        b.wf(),
    ensures
        a == b <==> a.number() == b.number(),
        (a.year < b.year || (a.year == b.year && (a.month < b.month || (a.month == b.month
            && a.day < b.day)))) ==> a.number() < b.number(),
{
    if a != b {
        if a.year < b.year || (a.year == b.year && (a.month < b.month || (a.month == b.month
            && a.day < b.day))) {
            lemma_day_number_monotone(a.year, a.month, a.day, b.year, b.month, b.day);
        } else {
            lemma_day_number_monotone(b.year, b.month, b.day, a.year, a.month, a.day);
        }
    }
}

// ---------------------------------------------------------------------------
// Civil dates.
// ---------------------------------------------------------------------------

/// A civil date: a year, a month and a day, without a time zone.
#[derive(Debug, Clone, Copy, PartialEq, Eq, Structural, PartialOrd, Ord, Hash)]
pub struct CivilDate {
    year: i32,
    month: u8,
    day: u8,
}

impl View for CivilDate {
    type V = DateModel;

    closed spec fn view(&self) -> DateModel {
        DateModel { year: self.year as int, month: self.month as int, day: self.day as int }
    }
}

impl CivilDate {
    #[verifier::type_invariant]
    closed spec fn inv(self) -> bool {
        self@.wf()
    }

    /// Two dates are the same value exactly when their models are.
    pub proof fn lemma_view_injective(a: CivilDate, b: CivilDate)
        ensures
            a@ == b@ <==> a == b,
    {
    }

    /// Creates a date, or returns `None` if the date does not exist.
    pub fn from_ymd_opt(year: i32, month: u32, day: u32) -> (r: Option<CivilDate>)
        ensures
            r is Some <==> valid_date(year as int, month as int, day as int),
            r matches Some(d) ==> d@ == (DateModel {
                year: year as int,
                month: month as int,
                day: day as int,
            }),
    {
        if month == 0 || month > 12 {
            return None;
        }
        if day == 0 || day > days_in_month(year, month) {
            return None;
        }
        Some(CivilDate { year, month: month as u8, day: day as u8 })
    }

    /// Creates a date, or returns `CronError::InvalidDate` if the date does
    /// not exist.
    pub fn from_ymd(year: i32, month: u32, day: u32) -> (r: Result<CivilDate, CronError>)
        ensures
            r is Ok <==> valid_date(year as int, month as int, day as int),
            r matches Ok(d) ==> d@ == (DateModel {
                year: year as int,
                month: month as int,
                day: day as int,
            }),
            r matches Err(e) ==> e == CronError::InvalidDate,
    {
        match CivilDate::from_ymd_opt(year, month, day) {
            Some(d) => Ok(d),
            None => Err(CronError::InvalidDate),
        }
    }

    /// Creates a date from parts that the caller knows to name a real date.
    pub fn from_parts_unchecked(year: i32, month: u32, day: u32) -> (d: CivilDate)
        requires
            valid_date(year as int, month as int, day as int),
        ensures
            d@ == (DateModel { year: year as int, month: month as int, day: day as int }),
    {
        CivilDate { year, month: month as u8, day: day as u8 }
    }

    /// Returns the year.
    pub fn year(self) -> (y: i32)
        ensures
            y == self@.year,
    {
        self.year
    }

    /// Returns the month, in the range 1 to 12.
    pub fn month(self) -> (m: u32)
        ensures
            m == self@.month,
    {
        self.month as u32
    }

    /// Returns the day of the month, in the range 1 to 31.
    pub fn day(self) -> (d: u32)
        ensures
            d == self@.day,
    {
        self.day as u32
    }

    /// Returns the number of days in this date's month.
    pub fn days_in_month(self) -> (n: u32)
        ensures
            n == self@.month_length(),
    {
        proof {
            use_type_invariant(self);
        }
        days_in_month(self.year, self.month as u32)
    }

    /// Returns the day of the year, in the range 1 to 366.
    pub fn day_of_year(self) -> (n: u32)
        ensures
            n == ordinal_day(self@.year, self@.month, self@.day),
    {
        proof {
            use_type_invariant(self);
        }
        day_of_year(self.year, self.month as u32, self.day as u32)
    }

    /// Adds a signed number of days, or returns `None` if the year would leave
    /// the range of an `i32`.
    pub(crate) fn checked_add_days(self, days: i64) -> (r: Option<CivilDate>)
        requires
            i64::MIN <= self@.day + days <= i64::MAX,
        ensures
            r matches Some(d) ==> d@.wf() && d@.number() == self@.number() + days,
            r is None ==> self@.number() + days < day_number(i32::MIN as int, 1, 1)
                || self@.number() + days > day_number(i32::MAX as int, 12, 31),
    {
        proof {
            use_type_invariant(self);
        }
        let mut year = self.year;
        let mut month = self.month as u32;
        let mut day: i64 = self.day as i64 + days;
        let ghost target = self@.number() + days;
        // Usually the result stays inside the same month and neither loop runs.
        while day > days_in_month(year, month) as i64
            invariant
                1 <= month <= 12,
                target == self@.number() + days,
                target == day_number(year as int, month as int, 1) - 1 + day,
            decreases day,
        {
            let length = days_in_month(year, month);
            proof {
                if month < 12 {
                    lemma_next_month(year as int, month as int);
                } else {
                    lemma_next_year(year as int);
                }
            }
            day = day - length as i64;
            month = month + 1;
            if month > 12 {
                month = 1;
                match year.checked_add(1) {
                    Some(y) => {
                        year = y;
                    },
                    None => {
                        return None;
                    },
                }
            }
        }
        while day < 1
            invariant
                1 <= month <= 12,
                day <= month_length(year as int, month as int),
                target == self@.number() + days,
                target == day_number(year as int, month as int, 1) - 1 + day,
            decreases if day < 1 { 1 - day } else { 0 },
        {
            if month == 1 {
                proof {
                    lemma_next_year(year as int - 1);
                }
                match year.checked_sub(1) {
                    Some(y) => {
                        year = y;
                    },
                    None => {
                        return None;
                    },
                }
                month = 12;
            } else {
                proof {
                    lemma_next_month(year as int, month as int - 1);
                }
                month = month - 1;
            }
            day = day + days_in_month(year, month) as i64;
        }
        Some(CivilDate { year, month: month as u8, day: day as u8 })
    }
}

} // verus!
verus! {

// ---------------------------------------------------------------------------
// Civil times of day.
// ---------------------------------------------------------------------------

/// A civil time of day to second precision, without a time zone.
#[derive(Debug, Clone, Copy, PartialEq, Eq, Structural, PartialOrd, Ord, Hash)]
pub struct CivilTime {
    hour: u8,
    minute: u8,
    second: u8,
}

impl View for CivilTime {
    type V = TimeModel;

    closed spec fn view(&self) -> TimeModel {
        TimeModel {
            hour: self.hour as int,
            minute: self.minute as int,
            second: self.second as int,
        }
    }
}

impl CivilTime {
    #[verifier::type_invariant]
    closed spec fn inv(self) -> bool {
        self@.wf()
    }

    /// Two times are the same value exactly when their models are.
    pub proof fn lemma_view_injective(a: CivilTime, b: CivilTime)
        ensures
            a@ == b@ <==> a == b,
    {
    }

    /// The first second of a day, 00:00:00.
    pub fn midnight() -> (t: CivilTime)
        ensures
            t@ == (TimeModel { hour: 0, minute: 0, second: 0 }),
    {
        CivilTime { hour: 0, minute: 0, second: 0 }
    }

    /// The last second of a day, 23:59:59.
    pub fn end_of_day() -> (t: CivilTime)
        ensures
            t@ == (TimeModel { hour: 23, minute: 59, second: 59 }),
    {
        CivilTime { hour: 23, minute: 59, second: 59 }
    }

    /// Creates a time of day, or returns `None` if any part is out of range.
    pub fn from_hms_opt(hour: u32, minute: u32, second: u32) -> (r: Option<CivilTime>)
        ensures
            r is Some <==> valid_time(hour as int, minute as int, second as int),
            r matches Some(t) ==> t@ == (TimeModel {
                hour: hour as int,
                minute: minute as int,
                second: second as int,
            }),
    {
        if hour > 23 || minute > 59 || second > 59 {
            return None;
        }
        Some(CivilTime::from_parts_unchecked(hour, minute, second))
    }

    /// Creates a time of day from parts that the caller knows to be in range.
    pub fn from_parts_unchecked(hour: u32, minute: u32, second: u32) -> (t: CivilTime)
        requires
            valid_time(hour as int, minute as int, second as int),
        ensures
            t@ == (TimeModel { hour: hour as int, minute: minute as int, second: second as int }),
    {
        CivilTime { hour: hour as u8, minute: minute as u8, second: second as u8 }
    }

    /// Returns the hour, in the range 0 to 23.
    pub fn hour(self) -> (h: u32)
        ensures
            h == self@.hour,
    {
        self.hour as u32
    }

    /// Returns the minute, in the range 0 to 59.
    pub fn minute(self) -> (m: u32)
        ensures
            m == self@.minute,
    {
        self.minute as u32
    }

    /// Returns the second, in the range 0 to 59.
    pub fn second(self) -> (s: u32)
        ensures
            s == self@.second,
    {
        self.second as u32
    }

    /// Returns the number of seconds since midnight.
    pub(crate) fn seconds_of_day(self) -> (s: i64)
        ensures
            s == self@.seconds(),
    {
        self.hour as i64 * 3600 + self.minute as i64 * 60 + self.second as i64
    }

    /// Creates a time of day from a number of seconds since midnight.
    pub(crate) fn from_seconds_of_day(seconds: i64) -> (t: CivilTime)
        requires
            0 <= seconds < 86400,
        ensures
            t@.wf(),
            t@.seconds() == seconds,
    {
        let hour = seconds / 3600;
        let rest = seconds % 3600;
        let minute = rest / 60;
        let second = rest % 60;
        CivilTime { hour: hour as u8, minute: minute as u8, second: second as u8 }
    }
}

// ---------------------------------------------------------------------------
// Civil dates and times.
// ---------------------------------------------------------------------------

/// A civil date and time to second precision, without a time zone.
#[derive(Debug, Clone, Copy, PartialEq, Eq, Structural, PartialOrd, Ord, Hash)]
pub struct CivilDateTime {
    date: CivilDate,
    time: CivilTime,
}

impl View for CivilDateTime {
    type V = DateTimeModel;

    closed spec fn view(&self) -> DateTimeModel {
        DateTimeModel { date: self.date@, time: self.time@ }
    }
}

impl CivilDateTime {
    #[verifier::type_invariant]
    closed spec fn inv(self) -> bool {
        self@.wf()
    }

    /// Two date and times are the same value exactly when their models are.
    pub proof fn lemma_view_injective(a: CivilDateTime, b: CivilDateTime)
        ensures
            a@ == b@ <==> a == b,
    {
        CivilDate::lemma_view_injective(a.date, b.date);
        CivilTime::lemma_view_injective(a.time, b.time);
    }

    /// Joins a date and a time of day.
    pub fn new(date: CivilDate, time: CivilTime) -> (dt: CivilDateTime)
        ensures
            dt@ == (DateTimeModel { date: date@, time: time@ }),
    {
        proof {
            use_type_invariant(date);
            use_type_invariant(time);
        }
        CivilDateTime { date, time }
    }

    /// Creates a date and time, or returns `None` if either part is invalid.
    pub fn from_ymd_hms_opt(
        year: i32,
        month: u32,
        day: u32,
        hour: u32,
        minute: u32,
        second: u32,
    ) -> (r: Option<CivilDateTime>)
        ensures
            r is Some <==> valid_date(year as int, month as int, day as int) && valid_time(
                hour as int,
                minute as int,
                second as int,
            ),
            r matches Some(dt) ==> dt@ == (DateTimeModel {
                date: DateModel { year: year as int, month: month as int, day: day as int },
                time: TimeModel { hour: hour as int, minute: minute as int, second: second as int },
            }),
    {
        let date = match CivilDate::from_ymd_opt(year, month, day) {
            Some(d) => d,
            None => {
                return None;
            },
        };
        let time = match CivilTime::from_hms_opt(hour, minute, second) {
            Some(t) => t,
            None => {
                return None;
            },
        };
        Some(CivilDateTime::new(date, time))
    }

    /// Creates a date and time, or returns `InvalidDate` for a date that does
    /// not exist and `InvalidTime` for a time of day out of range.
    pub fn from_ymd_hms(
        year: i32,
        month: u32,
        day: u32,
        hour: u32,
        minute: u32,
        second: u32,
    ) -> (r: Result<CivilDateTime, CronError>)
        ensures
            r is Ok <==> valid_date(year as int, month as int, day as int) && valid_time(
                hour as int,
                minute as int,
                second as int,
            ),
            r matches Ok(dt) ==> dt@ == (DateTimeModel {
                date: DateModel { year: year as int, month: month as int, day: day as int },
                time: TimeModel { hour: hour as int, minute: minute as int, second: second as int },
            }),
            r matches Err(e) ==> (e == CronError::InvalidDate <==> !valid_date(
                year as int,
                month as int,
                day as int,
            )),
            r matches Err(e) ==> (e == CronError::InvalidDate || e == CronError::InvalidTime),
    {
        let date = match CivilDate::from_ymd(year, month, day) {
            Ok(d) => d,
            Err(e) => {
                return Err(e);
            },
        };
        let time = match CivilTime::from_hms_opt(hour, minute, second) {
            Some(t) => t,
            None => {
                return Err(CronError::InvalidTime);
            },
        };
        Ok(CivilDateTime::new(date, time))
    }

    /// Returns the date part.
    pub fn date(self) -> (d: CivilDate)
        ensures
            d@ == self@.date,
    {
        self.date
    }

    /// Returns the time of day.
    pub fn time(self) -> (t: CivilTime)
        ensures
            t@ == self@.time,
    {
        self.time
    }

    /// Returns the year.
    pub fn year(self) -> (y: i32)
        ensures
            y == self@.date.year,
    {
        self.date.year()
    }

    /// Returns the month, in the range 1 to 12.
    pub fn month(self) -> (m: u32)
        ensures
            m == self@.date.month,
    {
        self.date.month()
    }

    /// Returns the day of the month, in the range 1 to 31.
    pub fn day(self) -> (d: u32)
        ensures
            d == self@.date.day,
    {
        self.date.day()
    }

    /// Returns the hour, in the range 0 to 23.
    pub fn hour(self) -> (h: u32)
        ensures
            h == self@.time.hour,
    {
        self.time.hour()
    }

    /// Returns the minute, in the range 0 to 59.
    pub fn minute(self) -> (m: u32)
        ensures
            m == self@.time.minute,
    {
        self.time.minute()
    }

    /// Returns the second, in the range 0 to 59.
    pub fn second(self) -> (s: u32)
        ensures
            s == self@.time.second,
    {
        self.time.second()
    }

    /// Replaces the time of day, keeping the date.
    pub(crate) fn with_time(self, time: CivilTime) -> (dt: CivilDateTime)
        ensures
            dt@ == (DateTimeModel { date: self@.date, time: time@ }),
    {
        proof {
            use_type_invariant(self.date);
            use_type_invariant(time);
        }
        CivilDateTime { date: self.date, time }
    }

    /// Adds a signed number of seconds to the wall clock, returning the result
    /// and the number of days it moved. The wall clock never skips or repeats
    /// a time here; daylight saving time applies only when a time zone
    /// resolves the result.
    pub(crate) fn checked_add_wall_seconds(self, seconds: i64) -> (r: Option<(CivilDateTime, i64)>)
        ensures
            r matches Some((dt, days)) ==> {
                &&& dt@.wf()
                &&& dt@.seconds() == self@.seconds() + seconds
                &&& dt@.date.number() == self@.date.number() + days
                &&& -1_000_000 <= seconds <= 1_000_000 ==> -100 <= days <= 100
            },
            moderate_year(self@.date.year) && -1_000_000 <= seconds <= 1_000_000 ==> r is Some,
            r is Some <==> seconds_in_calendar(self@.seconds() + seconds),
    {
        proof {
            use_type_invariant(self);
            use_type_invariant(self.date);
            use_type_invariant(self.time);
            lemma_calendar_limits();
            lemma_date_in_calendar(self@.date);
        }
        let total = match self.time.seconds_of_day().checked_add(seconds) {
            Some(t) => t,
            None => {
                return None;
            },
        };
        let days = match total.checked_div_euclid(SECONDS_PER_DAY) {
            Some(d) => d,
            None => {
                return None;
            },
        };
        let rest = match total.checked_rem_euclid(SECONDS_PER_DAY) {
            Some(r) => r,
            None => {
                return None;
            },
        };
        proof {
            let t = total as int;
            assert(86400 * (t / 86400) <= t < 86400 * (t / 86400) + 86400);
            if moderate_year(self@.date.year) && -1_000_000 <= seconds <= 1_000_000 {
                lemma_moderate_shift(self@.date, days as int);
            }
        }
        let date = if days == 0 {
            self.date
        } else {
            match self.date.checked_add_days(days) {
                Some(d) => d,
                None => {
                    return None;
                },
            }
        };
        let moved = CivilDateTime { date, time: CivilTime::from_seconds_of_day(rest) };
        proof {
            use_type_invariant(date);
            lemma_date_in_calendar(date@);
        }
        Some((moved, days))
    }
}

} // verus!
verus! {

// ---------------------------------------------------------------------------
// Date and time backends.
// ---------------------------------------------------------------------------

/// The result of resolving a civil date and time in a time zone.
///
/// A wall clock time is not always one instant. When daylight saving time
/// starts, a range of wall clock times never happens, and when it ends, a range
/// happens twice.
#[derive(Debug, Clone, PartialEq, Eq)]
pub enum Resolution<T> {
    /// The wall clock time happens exactly once.
    Single(T),
    /// The wall clock time happens twice, because the clock was set back.
    /// The first value is the earlier instant.
    Ambiguous(T, T),
    /// The wall clock time never happens, because the clock was set forward.
    Gap,
}

/// Whether `m` may be the wall clock reading of `t`: any reading may, so a
/// type that leaves its reading unspecified has one for each of its values.
pub closed spec fn reading_of<T>(t: &T, m: DateTimeModel) -> bool {
    true
}

/// Whether `n` may be the instant of `t`: any instant may, so a type that
/// leaves its instant unspecified has one for each of its values.
pub closed spec fn instant_of<T>(t: &T, n: int) -> bool {
    true
}

/// Whether `r` may be how the time zone of `t` resolves `civil`: any
/// answer may, so a type that leaves its resolution unspecified has one for
/// each value and wall clock time.
pub closed spec fn resolution_of<T>(t: &T, civil: CivilDateTime, r: Result<Resolution<T>, CronError>) -> bool {
    true
}

/// Two date and times with the same reading are the same value.
pub proof fn lemma_civil_view_injective(a: CivilDateTime, b: CivilDateTime)
    requires
        a@ == b@,
    ensures
        a == b,
{
    assert(a.date@ == b.date@);
    assert(a.time@ == b.time@);
}

/// A date and time type that the search can run over.
///
/// Implement it to use a date and time library; the search returns the same
/// type that it is given. An implementation promises what the `ensures`
/// clauses below say: the wall clock reading of every value it hands back,
/// and the order of instants.
pub trait CronDateTime: Sized + Clone {
    /// The local wall clock date and time of this value. A type that does
    /// not give it here leaves it unspecified: some reading for each value,
    /// which its methods below must keep to.
    closed spec fn civil_spec(&self) -> DateTimeModel {
        choose|m: DateTimeModel| reading_of(self, m)
    }

    /// The instant this value names, in nanoseconds on the absolute time line.
    /// A type that does not give it here leaves it unspecified: some instant
    /// for each value, which its methods below must keep to.
    closed spec fn instant(&self) -> int {
        choose|n: int| instant_of(self, n)
    }

    /// The offset of this value's wall clock from the absolute time line, in
    /// seconds, where its time zone never changes that offset: a fixed offset
    /// or none at all. `None` where the zone may change its clock, which is
    /// what a type that does not give it here declares.
    closed spec fn fixed_offset(&self) -> Option<int> {
        None
    }

    /// How this value's time zone resolves the wall clock time `civil`: the
    /// answer of `resolve_civil`, which depends on the zone and the wall clock
    /// time alone. A type that does not give it here leaves it unspecified.
    closed spec fn resolution_spec(&self, civil: CivilDateTime) -> Result<Resolution<Self>, CronError> {
        choose|r: Result<Resolution<Self>, CronError>| resolution_of(self, civil, r)
    }

    /// Returns the local wall clock date and time. Under a fixed offset the
    /// instant is the wall clock reading less the offset.
    fn to_civil(&self) -> (c: CivilDateTime)
        ensures
            c@ == self.civil_spec(),
            self.fixed_offset() matches Some(o) ==> self.instant() == (c@.seconds() - o)
                * 1_000_000_000,
    ;

    /// Returns the day of the week of the local wall clock date.
    fn civil_weekday(&self) -> (w: Weekday)
        ensures
            w == self.civil_spec().date.weekday(),
    ;

    /// Resolves a wall clock date and time in the same time zone as `self`.
    /// Every value returned carries the given wall clock time; types without
    /// a time zone, and zones with a fixed offset, always return
    /// `Resolution::Single`, under the same offset.
    fn resolve_civil(&self, civil: CivilDateTime) -> (r: Result<Resolution<Self>, CronError>)
        ensures
            r == self.resolution_spec(civil),
            self.fixed_offset() matches Some(o) ==> r matches Ok(Resolution::Single(t))
                && t.fixed_offset() == Some(o) && t.instant() == (civil@.seconds() - o)
                * 1_000_000_000,
            r matches Ok(Resolution::Single(t)) ==> t.civil_spec() == civil@,
            r matches Ok(Resolution::Ambiguous(a, b)) ==> {
                &&& a.civil_spec() == civil@
                &&& b.civil_spec() == civil@
                &&& a.instant() < b.instant()
            },
    ;

    /// Adds a signed number of seconds of elapsed time, or returns `None` on
    /// overflow.
    fn checked_add_seconds(&self, seconds: i64) -> (r: Option<Self>)
        ensures
            r matches Some(t) ==> t.instant() == self.instant() + seconds * 1_000_000_000
                && t.fixed_offset() == self.fixed_offset(),
    ;

    /// Whether this value's instant comes before `other`'s.
    fn is_before(&self, other: &Self) -> (b: bool)
        ensures
            b == (self.instant() < other.instant()),
    ;

    /// A copy of this value: the same wall clock time, instant and offset.
    fn duplicate(&self) -> (d: Self)
        ensures
            d.civil_spec() == self.civil_spec(),
            d.instant() == self.instant(),
            d.fixed_offset() == self.fixed_offset(),
    ;
}

/// Euclidean division by a positive number.
fn floor_div(a: i64, b: i64) -> (q: i64)
    requires
        b > 0,
    ensures
        q == a / b,
{
    assert(i64::MIN <= a / b <= i64::MAX) by (nonlinear_arith)
        requires
            b > 0,
            i64::MIN <= a <= i64::MAX,
    {
        if a >= 0 {
            assert(0 <= a / b <= a);
        } else {
            assert(a <= a / b < 0);
        }
    }
    match a.checked_div_euclid(b) {
        Some(q) => q,
        None => 0,
    }
}

/// The day number of a date, as the calendar defines it.
pub(crate) fn date_number(d: CivilDate) -> (n: i64)
    ensures
        n == d@.number(),
{
    proof {
        use_type_invariant(d);
    }
    let p: i64 = d.year() as i64 - 1;
    let before = 365 * p + floor_div(p, 4) - floor_div(p, 100) + floor_div(p, 400);
    before + d.day_of_year() as i64
}

/// The day of the week of a date, worked out from the calendar.
pub(crate) fn weekday_of(d: CivilDate) -> (w: Weekday)
    ensures
        w == d@.weekday(),
{
    let n = date_number(d);
    match n.checked_rem_euclid(7) {
        Some(r) => Weekday::from_days_from_sunday(r as u32),
        None => Weekday::Sunday,
    }
}

/// A civil date and time is its own wall clock reading, in no time zone.
impl CronDateTime for CivilDateTime {
    open spec fn civil_spec(&self) -> DateTimeModel {
        self@
    }

    open spec fn instant(&self) -> int {
        self@.seconds() * 1_000_000_000
    }

    open spec fn fixed_offset(&self) -> Option<int> {
        Some(0)
    }

    open spec fn resolution_spec(&self, civil: CivilDateTime) -> Result<Resolution<Self>, CronError> {
        Ok(Resolution::Single(civil))
    }

    fn to_civil(&self) -> (c: CivilDateTime) {
        *self
    }

    fn civil_weekday(&self) -> (w: Weekday) {
        weekday_of(self.date)
    }

    fn resolve_civil(&self, civil: CivilDateTime) -> (r: Result<Resolution<Self>, CronError>) {
        Ok(Resolution::Single(civil))
    }

    fn checked_add_seconds(&self, seconds: i64) -> (r: Option<Self>)
        ensures
            r is Some <==> seconds_in_calendar(self@.seconds() + seconds),
            r matches Some(t) ==> t@.wf() && t@.seconds() == self@.seconds() + seconds,
    {
        match self.checked_add_wall_seconds(seconds) {
            Some((dt, _)) => Some(dt),
            None => None,
        }
    }

    fn is_before(&self, other: &Self) -> (b: bool) {
        proof {
            use_type_invariant(self);
            use_type_invariant(other);
            lemma_seconds_order(self@, other@);
            lemma_seconds_order(other@, self@);
        }
        let a = date_number(self.date);
        let b = date_number(other.date);
        a < b || (a == b && self.time.seconds_of_day() < other.time.seconds_of_day())
    }

    fn duplicate(&self) -> (d: Self) {
        *self
    }
}

} // verus!
