//! A parsed cron pattern, and the questions it answers about dates and times.
use vstd::prelude::*;

use crate::component::{
    ComponentModel, CronComponent, ALL_BIT, CLOSEST_WEEKDAY_BIT, LAST_BIT, NONE_BIT,
    NTH_1ST_BIT, NTH_2ND_BIT, NTH_3RD_BIT, NTH_4TH_BIT, NTH_5TH_BIT, NTH_ALL,
};
use crate::errors::CronError;
use crate::text::{chars_of, push_char, push_str};
use crate::time::{days_in_month, valid_date, DateTimeModel, Weekday};
use crate::{Direction, TimeComponent};

use core::cmp::Ordering;
use vstd::std_specs::cmp::PartialOrdSpecImpl;

verus! {

/// The years a pattern can name.
pub const YEAR_LOWER_LIMIT: i32 = 1;
/// The last year a pattern can name; searches stop there.
pub const YEAR_UPPER_LIMIT: i32 = 5000;

/// What `is_bit_set` answers: whether the value carries the bit, or `None`
/// where the query fails.
pub open spec fn bit_query(c: ComponentModel, pos: int, bit: u8) -> Option<bool> {
    if c.readable(pos, bit) {
        Some(c.has(pos, bit))
    } else {
        None
    }
}

/// `a? && b?`: the second answer counts only where the first holds.
pub open spec fn and_then(a: Option<bool>, b: Option<bool>) -> Option<bool> {
    match a {
        None => None,
        Some(false) => Some(false),
        Some(true) => b,
    }
}

/// The day that a `W` day resolves to: itself on a weekday; a Saturday moves
/// back to Friday, or on the 1st forward to Monday; a Sunday moves forward to
/// Monday, or on the last day back to Friday.
pub open spec fn w_target(pattern_day: int, len: int, w: Weekday) -> int {
    if w == Weekday::Saturday {
        if pattern_day > 1 {
            pattern_day - 1
        } else {
            pattern_day + 2
        }
    } else if w == Weekday::Sunday {
        if pattern_day < len {
            pattern_day + 1
        } else {
            pattern_day - 2
        }
    } else {
        pattern_day
    }
}

/// The scan of `W` days from `pd` to `last` for one that resolves to `day`,
/// whose weekday is `wd`, in a month of `len` days.
pub open spec fn closest_scan(
    days: ComponentModel,
    len: int,
    day: int,
    wd: Weekday,
    pd: int,
    last: int,
) -> Option<bool>
    decreases last - pd + 1,
{
    if pd > last {
        Some(false)
    } else if !days.readable(pd, CLOSEST_WEEKDAY_BIT) {
        None
    } else if days.has(pd, CLOSEST_WEEKDAY_BIT) && w_target(
        pd,
        len,
        Weekday::of_index(wd.index() + pd - day),
    ) == day {
        Some(true)
    } else {
        closest_scan(days, len, day, wd, pd + 1, last)
    }
}

/// Whether a `W` day of the pattern resolves to `day`. Only pattern days
/// within two days of `day`, and inside the month, can.
pub open spec fn closest_answer(days: ComponentModel, len: int, day: int, wd: Weekday) -> Option<
    bool,
> {
    let first = if day - 2 < 1 {
        1
    } else {
        day - 2
    };
    let last = if day + 2 > len {
        len
    } else {
        day + 2
    };
    closest_scan(days, len, day, wd, first, last)
}

/// The last weekday (Monday to Friday) of a month, from its length and the
/// weekday of its last day.
pub open spec fn last_weekday_of(len: int, last: Weekday) -> int {
    if last == Weekday::Saturday {
        len - 1
    } else if last == Weekday::Sunday {
        len - 2
    } else {
        len
    }
}

/// Whether a weekday is Monday to Friday.
pub open spec fn is_workday(w: Weekday) -> bool {
    w != Weekday::Saturday && w != Weekday::Sunday
}

/// A `W` day resolves to a weekday of the same month, at most two days
/// away: a Saturday to the Friday before, a Sunday to the Monday after,
/// except where that would leave the month.
pub proof fn lemma_closest_weekday_in_month(pattern_day: int, len: int, w: Weekday)
    requires
        1 <= pattern_day <= len,
        28 <= len,
    ensures
        1 <= w_target(pattern_day, len, w) <= len,
        -2 <= w_target(pattern_day, len, w) - pattern_day <= 2,
        is_workday(Weekday::of_index(w.index() + w_target(pattern_day, len, w) - pattern_day)),
        is_workday(w) ==> w_target(pattern_day, len, w) == pattern_day,
{
}

/// Whether the `W` day `d` of a month of `len` days, which holds the weekday
/// `wd` on `day`, resolves to `day`.
pub open spec fn resolves_to(days: ComponentModel, len: int, day: int, wd: Weekday, d: int) -> bool {
    days.has(d, CLOSEST_WEEKDAY_BIT) && w_target(d, len, Weekday::of_index(wd.index() + d - day))
        == day
}

/// A scan of readable days answers whether one of them resolves to `day`.
proof fn lemma_closest_scan_exact(
    days: ComponentModel,
    len: int,
    day: int,
    wd: Weekday,
    pd: int,
    last: int,
)
    requires
        forall|d: int| pd <= d <= last ==> #[trigger] days.readable(d, CLOSEST_WEEKDAY_BIT),
    ensures
        closest_scan(days, len, day, wd, pd, last) == Some(
            exists|d: int| pd <= d <= last && #[trigger] resolves_to(days, len, day, wd, d),
        ),
    decreases last - pd + 1,
{
    if pd <= last {
        assert(days.readable(pd, CLOSEST_WEEKDAY_BIT));
        lemma_closest_scan_exact(days, len, day, wd, pd + 1, last);
        if resolves_to(days, len, day, wd, pd) {
        } else {
            assert forall|d: int| pd <= d <= last && resolves_to(days, len, day, wd, d) implies pd
                + 1 <= d <= last by {
            }
        }
    }
}

/// The `W` rule for a day of the month: where every day's bit can be read,
/// the day matches exactly when some `W` day of the month resolves to it,
/// and those days lie within two days of it.
pub proof fn lemma_closest_weekday_days(days: ComponentModel, len: int, day: int, wd: Weekday)
    requires
        28 <= len,
        1 <= day <= len,
        forall|d: int| 1 <= d <= len ==> #[trigger] days.readable(d, CLOSEST_WEEKDAY_BIT),
    ensures
        closest_answer(days, len, day, wd) == Some(
            exists|d: int| 1 <= d <= len && #[trigger] resolves_to(days, len, day, wd, d),
        ),
{
    let first = if day - 2 < 1 {
        1
    } else {
        day - 2
    };
    let last = if day + 2 > len {
        len
    } else {
        day + 2
    };
    lemma_closest_scan_exact(days, len, day, wd, first, last);
    assert forall|d: int| 1 <= d <= len && resolves_to(days, len, day, wd, d) implies first <= d
        <= last by {
        lemma_closest_weekday_in_month(d, len, Weekday::of_index(wd.index() + d - day));
    }
}

/// A weekday marked only by its last occurrence (`5L`) matches a day
/// exactly when no later day of the same month falls on that weekday:
/// when the day seven days on is past the end of the month.
pub proof fn lemma_last_occurrence_of_weekday(p: PatternModel, len: int, day: int, wd: Weekday)
    requires
        28 <= len,
        1 <= day <= len,
        p.days_of_week.readable(wd.index(), LAST_BIT),
        p.days_of_week.readable(wd.index(), ALL_BIT),
        p.days_of_week.has(wd.index(), LAST_BIT),
        !p.days_of_week.has(wd.index(), ALL_BIT),
        nth_of_day(day) matches Some(b) ==> p.days_of_week.readable(wd.index(), b)
            && !p.days_of_week.has(wd.index(), b),
    ensures
        p.dow_answer(len, day, wd) == Some(!(1 <= day + 7 <= len)),
{
}

/// The occurrence bit that `#n` sets, for `n` from 1 to 5.
pub open spec fn occurrence_bit_of(n: int) -> u8 {
    if n == 1 {
        NTH_1ST_BIT
    } else if n == 2 {
        NTH_2ND_BIT
    } else if n == 3 {
        NTH_3RD_BIT
    } else if n == 4 {
        NTH_4TH_BIT
    } else {
        NTH_5TH_BIT
    }
}

/// A weekday marked only by its `n`th occurrence (`5#2`) matches a day
/// exactly when `n - 1` earlier days of the month fall on that weekday:
/// when the day lies in the month's `n`th week of days, `7n - 6` to `7n`.
pub proof fn lemma_nth_occurrence_of_weekday(
    p: PatternModel,
    n: int,
    len: int,
    day: int,
    wd: Weekday,
)
    requires
        1 <= n <= 5,
        len <= 31,
        1 <= day <= len,
        p.days_of_week.readable(wd.index(), LAST_BIT),
        p.days_of_week.readable(wd.index(), ALL_BIT),
        !p.days_of_week.has(wd.index(), LAST_BIT),
        !p.days_of_week.has(wd.index(), ALL_BIT),
        forall|k: int|
            1 <= k <= 5 ==> p.days_of_week.readable(wd.index(), #[trigger] occurrence_bit_of(k))
                && (p.days_of_week.has(wd.index(), occurrence_bit_of(k)) <==> k == n),
    ensures
        p.dow_answer(len, day, wd) == Some(7 * (n - 1) < day <= 7 * n),
{
    let k = (day - 1) / 7 + 1;
    assert(1 <= k <= 5);
    assert(nth_of_day(day) == Some(occurrence_bit_of(k)));
    assert(p.days_of_week.has(wd.index(), occurrence_bit_of(k)) <==> k == n);
}

/// The last weekday of a month is its last day that falls Monday to
/// Friday: within its last three days, and followed only by a weekend.
pub proof fn lemma_last_weekday_of_month(len: int, last: Weekday)
    requires
        28 <= len,
    ensures
        len - 2 <= last_weekday_of(len, last) <= len,
        is_workday(Weekday::of_index(last.index() + last_weekday_of(len, last) - len)),
        forall|d: int|
            last_weekday_of(len, last) < d <= len ==> !is_workday(
                #[trigger] Weekday::of_index(last.index() + d - len),
            ),
{
}

/// The occurrence bit of a day of the month within its weekday: days 1 to 7
/// hold the first occurrence of every weekday, days 8 to 14 the second, and
/// so on.
pub open spec fn nth_of_day(day: int) -> Option<u8> {
    let k = (day - 1) / 7;
    if k == 0 {
        Some(NTH_1ST_BIT)
    } else if k == 1 {
        Some(NTH_2ND_BIT)
    } else if k == 2 {
        Some(NTH_3RD_BIT)
    } else if k == 3 {
        Some(NTH_4TH_BIT)
    } else if k == 4 {
        Some(NTH_5TH_BIT)
    } else {
        None
    }
}

/// Whether a weekday-of-month combination matches, from the day-of-month and
/// day-of-week answers and the pattern's flags.
pub open spec fn combine_days(
    day_matches: bool,
    dow_matches: bool,
    star_dom: bool,
    star_dow: bool,
    dom_and_dow: bool,
) -> bool {
    if (day_matches && star_dow) || (dow_matches && star_dom) {
        true
    } else if !star_dom && !star_dow {
        if !dom_and_dow {
            day_matches || dow_matches
        } else {
            day_matches && dow_matches
        }
    } else {
        false
    }
}

/// A pattern as mathematics.
pub ghost struct PatternModel {
    pub seconds: ComponentModel,
    pub minutes: ComponentModel,
    pub hours: ComponentModel,
    pub days: ComponentModel,
    pub months: ComponentModel,
    pub days_of_week: ComponentModel,
    pub years: ComponentModel,
    pub star_dom: bool,
    pub star_dow: bool,
    pub dom_and_dow: bool,
    pub text: Seq<char>,
}

impl PatternModel {
    /// Whether the year matches; years outside the supported range never do.
    pub open spec fn year_answer(self, year: int) -> Option<bool> {
        if year < YEAR_LOWER_LIMIT || year > YEAR_UPPER_LIMIT {
            Some(false)
        } else {
            bit_query(self.years, year, ALL_BIT)
        }
    }

    /// Whether a month (1 to 12) matches.
    pub open spec fn month_answer(self, month: int) -> Option<bool> {
        if month < 1 || month > 12 {
            None
        } else {
            bit_query(self.months, month, ALL_BIT)
        }
    }

    /// Whether an hour (0 to 23) matches.
    pub open spec fn hour_answer(self, hour: int) -> Option<bool> {
        if hour < 0 || hour > 23 {
            None
        } else {
            bit_query(self.hours, hour, ALL_BIT)
        }
    }

    /// Whether a minute (0 to 59) matches.
    pub open spec fn minute_answer(self, minute: int) -> Option<bool> {
        if minute < 0 || minute > 59 {
            None
        } else {
            bit_query(self.minutes, minute, ALL_BIT)
        }
    }

    /// Whether a second (0 to 59) matches.
    pub open spec fn second_answer(self, second: int) -> Option<bool> {
        if second < 0 || second > 59 {
            None
        } else {
            bit_query(self.seconds, second, ALL_BIT)
        }
    }

    /// The day-of-month side of a day: the day itself, `L`, `LW` and `W`.
    pub open spec fn dom_answer(self, len: int, day: int, wd: Weekday) -> Option<bool> {
        let days = self.days;
        match bit_query(days, day, ALL_BIT) {
            None => None,
            Some(dm0) => {
                let dm1 = if !dm0 && days.enables(LAST_BIT) && days.enables(CLOSEST_WEEKDAY_BIT)
                    && day == last_weekday_of(len, Weekday::of_index(wd.index() + len - day)) {
                    true
                } else if !dm0 && days.enables(LAST_BIT) && !days.enables(CLOSEST_WEEKDAY_BIT)
                    && day == len {
                    true
                } else {
                    dm0
                };
                if dm1 {
                    Some(true)
                } else {
                    closest_answer(days, len, day, wd)
                }
            },
        }
    }

    /// The day-of-week side of a day: its nth occurrence, its last
    /// occurrence, and the weekday itself.
    pub open spec fn dow_answer(self, len: int, day: int, wd: Weekday) -> Option<bool> {
        let dow = self.days_of_week;
        let w = wd.index();
        let nth = match nth_of_day(day) {
            Some(b) => bit_query(dow, w, b),
            None => Some(false),
        };
        match nth {
            None => None,
            Some(d0) => {
                let last = if d0 {
                    Some(true)
                } else {
                    match bit_query(dow, w, LAST_BIT) {
                        None => None,
                        Some(l) => Some(l && day + 7 > len),
                    }
                };
                match last {
                    None => None,
                    Some(d1) => if d1 {
                        Some(true)
                    } else {
                        bit_query(dow, w, ALL_BIT)
                    },
                }
            },
        }
    }

    /// Whether a date matches the day fields, given the weekday of the date;
    /// `None` where the date does not exist or a query fails.
    pub open spec fn day_answer(self, year: int, month: int, day: int, wd: Weekday) -> Option<
        bool,
    > {
        if !valid_date(year, month, day) {
            None
        } else {
            let len = crate::time::month_length(year, month);
            match self.dom_answer(len, day, wd) {
                None => None,
                Some(a) => match self.dow_answer(len, day, wd) {
                    None => None,
                    Some(b) => Some(
                        combine_days(a, b, self.star_dom, self.star_dow, self.dom_and_dow),
                    ),
                },
            }
        }
    }

    /// Whether a date and time matches every field, the day fields with the
    /// date's true weekday; `None` where a query fails.
    pub open spec fn answer(self, c: crate::time::DateTimeModel) -> Option<bool> {
        and_then(
            self.second_answer(c.time.second),
            and_then(
                self.minute_answer(c.time.minute),
                and_then(
                    self.hour_answer(c.time.hour),
                    and_then(
                        self.day_answer(c.date.year, c.date.month, c.date.day, c.date.weekday()),
                        and_then(
                            self.month_answer(c.date.month),
                            self.year_answer(c.date.year),
                        ),
                    ),
                ),
            ),
        )
    }

    /// Whether a date and time matches the pattern.
    pub open spec fn matches(self, c: crate::time::DateTimeModel) -> bool {
        self.answer(c) == Some(true)
    }

    /// Whether the date of a date and time matches the date fields.
    pub open spec fn date_matches(self, c: crate::time::DateTimeModel) -> bool {
        and_then(
            self.day_answer(c.date.year, c.date.month, c.date.day, c.date.weekday()),
            and_then(self.month_answer(c.date.month), self.year_answer(c.date.year)),
        ) == Some(true)
    }
}

/// Every time a pattern matches lies within the supported years, 1 to
/// 5000.
pub proof fn lemma_matches_within_supported_years(p: PatternModel, c: DateTimeModel)
    requires
        p.matches(c),
    ensures
        YEAR_LOWER_LIMIT <= c.date.year <= YEAR_UPPER_LIMIT,
{
}

/// The first value from `v` up to `hi` that carries the value bit:
/// `Some(None)` where there is none, `None` where a query fails first.
pub open spec fn scan_up(c: ComponentModel, v: int, hi: int) -> Option<Option<int>>
    decreases hi - v + 1,
{
    if v > hi {
        Some(None)
    } else if !c.readable(v, ALL_BIT) {
        None
    } else if c.has(v, ALL_BIT) {
        Some(Some(v))
    } else {
        scan_up(c, v + 1, hi)
    }
}

/// The last value from `v` down to `lo` that carries the value bit.
pub open spec fn scan_down(c: ComponentModel, lo: int, v: int) -> Option<Option<int>>
    decreases v - lo + 1,
{
    if v < lo {
        Some(None)
    } else if !c.readable(v, ALL_BIT) {
        None
    } else if c.has(v, ALL_BIT) {
        Some(Some(v))
    } else {
        scan_down(c, lo, v - 1)
    }
}

/// A component of the usual shape for its field: values from `min` to
/// `max`, one byte each, with the value bit supported.
pub open spec fn standard_component(c: ComponentModel, min: int, max: int) -> bool {
    &&& c.min == min
    &&& c.max == max
    &&& c.bits.len() == max + 1
    &&& c.supports(ALL_BIT)
}

/// Every field of a pattern has the usual shape, with the special bits
/// that its field supports: every pattern that parses has it.
pub open spec fn standard_pattern(p: PatternModel) -> bool {
    &&& standard_component(p.seconds, 0, 59)
    &&& standard_component(p.minutes, 0, 59)
    &&& standard_component(p.hours, 0, 23)
    &&& standard_component(p.days, 1, 31)
    &&& p.days.supports(CLOSEST_WEEKDAY_BIT)
    &&& standard_component(p.months, 1, 12)
    &&& standard_component(p.days_of_week, 0, 7)
    &&& p.days_of_week.supports(LAST_BIT)
    &&& p.days_of_week.supports(NTH_1ST_BIT)
    &&& p.days_of_week.supports(NTH_2ND_BIT)
    &&& p.days_of_week.supports(NTH_3RD_BIT)
    &&& p.days_of_week.supports(NTH_4TH_BIT)
    &&& p.days_of_week.supports(NTH_5TH_BIT)
    &&& standard_component(p.years, 1, 5000)
}

/// A scan over readable values answers.
proof fn lemma_closest_scan_answers(
    days: ComponentModel,
    len: int,
    day: int,
    wd: Weekday,
    pd: int,
    last: int,
)
    requires
        forall|x: int| pd <= x <= last ==> #[trigger] days.readable(x, CLOSEST_WEEKDAY_BIT),
    ensures
        closest_scan(days, len, day, wd, pd, last) is Some,
    decreases last - pd + 1,
{
    if pd <= last {
        assert(days.readable(pd, CLOSEST_WEEKDAY_BIT));
        lemma_closest_scan_answers(days, len, day, wd, pd + 1, last);
    }
}

/// For a pattern of the usual shape, every query about an existing date
/// and time answers, and so does every scan of a time of day field.
pub proof fn lemma_standard_answers(p: PatternModel, c: DateTimeModel)
    requires
        standard_pattern(p),
        c.wf(),
    ensures
        p.answer(c) is Some,
        p.day_answer(c.date.year, c.date.month, c.date.day, c.date.weekday()) is Some,
        p.month_answer(c.date.month) is Some,
        p.year_answer(c.date.year) is Some,
        p.hour_answer(c.time.hour) is Some,
        p.minute_answer(c.time.minute) is Some,
        p.second_answer(c.time.second) is Some,
{
    let len = crate::time::month_length(c.date.year, c.date.month);
    let day = c.date.day;
    let first = if day - 2 < 1 { 1 } else { day - 2 };
    let last = if day + 2 > len { len } else { day + 2 };
    assert forall|x: int| first <= x <= last implies #[trigger] p.days.readable(
        x,
        CLOSEST_WEEKDAY_BIT,
    ) by {}
    lemma_closest_scan_answers(p.days, len, day, c.date.weekday(), first, last);
    c.date.weekday().lemma_index();
}

/// A scan up through readable values answers.
pub proof fn lemma_scan_up_answers(c: ComponentModel, v: int, hi: int)
    requires
        forall|x: int| v <= x <= hi ==> #[trigger] c.readable(x, ALL_BIT),
    ensures
        scan_up(c, v, hi) is Some,
    decreases hi - v + 1,
{
    if v <= hi {
        assert(c.readable(v, ALL_BIT));
        lemma_scan_up_answers(c, v + 1, hi);
    }
}

/// A scan down through readable values answers.
pub proof fn lemma_scan_down_answers(c: ComponentModel, lo: int, v: int)
    requires
        forall|x: int| lo <= x <= v ==> #[trigger] c.readable(x, ALL_BIT),
    ensures
        scan_down(c, lo, v) is Some,
    decreases v - lo + 1,
{
    if v >= lo {
        assert(c.readable(v, ALL_BIT));
        lemma_scan_down_answers(c, lo, v - 1);
    }
}

/// What an upward scan finds: the first value that carries the bit, with
/// none before it.
pub proof fn lemma_scan_up(c: ComponentModel, v: int, hi: int)
    ensures
        scan_up(c, v, hi) matches Some(Some(x)) ==> v <= x <= hi && c.has(x, ALL_BIT) && forall|
            y: int,
        | v <= y < x ==> !c.has(y, ALL_BIT),
        scan_up(c, v, hi) matches Some(None) ==> forall|y: int|
            v <= y <= hi ==> !c.has(y, ALL_BIT),
    decreases hi - v + 1,
{
    if v <= hi && c.readable(v, ALL_BIT) && !c.has(v, ALL_BIT) {
        lemma_scan_up(c, v + 1, hi);
    }
}

/// What a downward scan finds: the last value that carries the bit, with
/// none after it.
pub proof fn lemma_scan_down(c: ComponentModel, lo: int, v: int)
    ensures
        scan_down(c, lo, v) matches Some(Some(x)) ==> lo <= x <= v && c.has(x, ALL_BIT) && forall|
            y: int,
        | x < y <= v ==> !c.has(y, ALL_BIT),
        scan_down(c, lo, v) matches Some(None) ==> forall|y: int|
            lo <= y <= v ==> !c.has(y, ALL_BIT),
    decreases v - lo + 1,
{
    if v >= lo && c.readable(v, ALL_BIT) && !c.has(v, ALL_BIT) {
        lemma_scan_down(c, lo, v - 1);
    }
}

/// The text a pattern was written as. It takes no part in comparisons or
/// hashing, so that patterns compare by the schedule they describe.
#[derive(Debug)]
pub struct PatternText {
    text: String,
}

impl View for PatternText {
    type V = Seq<char>;

    closed spec fn view(&self) -> Seq<char> {
        self.text@
    }
}

impl PatternText {
    /// Keeps a copy of the text.
    pub fn new(text: &str) -> (t: PatternText)
        ensures
            t@ == text@,
    {
        PatternText { text: String::from_str(text) }
    }

    /// The text.
    pub fn as_str(&self) -> (s: &str)
        ensures
            s@ == self@,
    {
        self.text.as_str()
    }
}

impl PartialEq for PatternText {
    fn eq(&self, other: &Self) -> (r: bool) {
        true
    }
}

impl vstd::std_specs::cmp::PartialEqSpecImpl for PatternText {
    open spec fn obeys_eq_spec() -> bool {
        true
    }

    open spec fn eq_spec(&self, other: &Self) -> bool {
        true
    }
}

impl Eq for PatternText {

}

impl PartialOrd for PatternText {
    fn partial_cmp(&self, other: &Self) -> (r: Option<Ordering>) {
        Some(Ordering::Equal)
    }
}

impl PartialOrdSpecImpl for PatternText {
    open spec fn obeys_partial_cmp_spec() -> bool {
        true
    }

    open spec fn partial_cmp_spec(&self, other: &Self) -> Option<Ordering> {
        Some(Ordering::Equal)
    }
}

impl Clone for PatternText {
    /// A copy of the text.
    fn clone(&self) -> (t: Self)
        ensures
            t@ == self@,
    {
        PatternText { text: self.text.clone() }
    }
}

impl core::hash::Hash for PatternText {
    fn hash<H: core::hash::Hasher>(&self, state: &mut H) {
    }
}

/// A parsed cron pattern: one component per field, and how the two day
/// fields combine. Patterns compare field by field in this order, from the
/// seconds to the flags; the text takes no part.
#[derive(Debug, PartialEq, Eq, PartialOrd, Hash)]
pub struct CronPattern {
    pub seconds: CronComponent,
    pub minutes: CronComponent,
    pub hours: CronComponent,
    pub days: CronComponent,
    pub months: CronComponent,
    pub days_of_week: CronComponent,
    pub years: CronComponent,
    pub star_dom: bool,
    pub star_dow: bool,
    pub dom_and_dow: bool,
    pub pattern: PatternText,
}

impl View for CronPattern {
    type V = PatternModel;

    open spec fn view(&self) -> PatternModel {
        PatternModel {
            seconds: self.seconds@,
            minutes: self.minutes@,
            hours: self.hours@,
            days: self.days@,
            months: self.months@,
            days_of_week: self.days_of_week@,
            years: self.years@,
            star_dom: self.star_dom,
            star_dow: self.star_dow,
            dom_and_dow: self.dom_and_dow,
            text: self.pattern@,
        }
    }
}

impl Clone for CronPattern {
    /// A copy of the pattern, with the same fields and text.
    fn clone(&self) -> (p: Self)
        ensures
            p@ == self@,
    {
        CronPattern {
            seconds: self.seconds.clone(),
            minutes: self.minutes.clone(),
            hours: self.hours.clone(),
            days: self.days.clone(),
            months: self.months.clone(),
            days_of_week: self.days_of_week.clone(),
            years: self.years.clone(),
            star_dom: self.star_dom,
            star_dow: self.star_dow,
            dom_and_dow: self.dom_and_dow,
            pattern: self.pattern.clone(),
        }
    }
}

/// A query of one bit, with its error.
fn query(c: &CronComponent, pos: u16, bit: u8) -> (r: Result<bool, CronError>)
    ensures
        r is Ok <==> bit_query(c@, pos as int, bit) is Some,
        r matches Ok(b) ==> bit_query(c@, pos as int, bit) == Some(b),
        r matches Err(e) ==> e is ComponentError,
{
    c.is_bit_set(pos, bit)
}

impl CronPattern {
    /// A pattern with empty components of the standard ranges, for `text`.
    pub fn new(pattern: &str) -> (p: CronPattern)
        ensures
            p@.text == pattern@,
            p@.seconds == CronComponent::new_model(0, 59, NONE_BIT, 0),
            p@.minutes == CronComponent::new_model(0, 59, NONE_BIT, 0),
            p@.hours == CronComponent::new_model(0, 23, NONE_BIT, 0),
            p@.days == CronComponent::new_model(1, 31, LAST_BIT | CLOSEST_WEEKDAY_BIT, 0),
            p@.months == CronComponent::new_model(1, 12, NONE_BIT, 0),
            p@.days_of_week == CronComponent::new_model(0, 7, LAST_BIT | NTH_ALL, 0),
            p@.years == CronComponent::new_model(1, 5000, NONE_BIT, 0),
            !p@.star_dom && !p@.star_dow && !p@.dom_and_dow,
    {
        CronPattern {
            seconds: CronComponent::new(0, 59, NONE_BIT, 0),
            minutes: CronComponent::new(0, 59, NONE_BIT, 0),
            hours: CronComponent::new(0, 23, NONE_BIT, 0),
            days: CronComponent::new(1, 31, LAST_BIT | CLOSEST_WEEKDAY_BIT, 0),
            months: CronComponent::new(1, 12, NONE_BIT, 0),
            days_of_week: CronComponent::new(0, 7, LAST_BIT | NTH_ALL, 0),
            years: CronComponent::new(1, 5000, NONE_BIT, 0),
            star_dom: false,
            star_dow: false,
            dom_and_dow: false,
            pattern: PatternText::new(pattern),
        }
    }

    /// Whether a year matches; years outside the supported range never do.
    pub fn year_match(&self, year: i32) -> (r: Result<bool, CronError>)
        ensures
            r is Ok <==> self@.year_answer(year as int) is Some,
            r matches Ok(b) ==> self@.year_answer(year as int) == Some(b),
            r matches Err(e) ==> e is ComponentError,
    {
        if year < YEAR_LOWER_LIMIT || year > YEAR_UPPER_LIMIT {
            return Ok(false);
        }
        query(&self.years, year as u16, ALL_BIT)
    }

    /// The occurrence bit of a day within its weekday, or `None` past the
    /// fifth.
    fn nth_weekday_bit(day: u32) -> (r: Option<u8>)
        requires
            day >= 1,
        ensures
            r == nth_of_day(day as int),
    {
        let k = (day - 1) / 7;
        if k == 0 {
            Some(NTH_1ST_BIT)
        } else if k == 1 {
            Some(NTH_2ND_BIT)
        } else if k == 2 {
            Some(NTH_3RD_BIT)
        } else if k == 3 {
            Some(NTH_4TH_BIT)
        } else if k == 4 {
            Some(NTH_5TH_BIT)
        } else {
            None
        }
    }

    /// The last weekday (Monday to Friday) of a month, from its length and
    /// the weekday of its last day.
    fn last_weekday_of_month(month_length: u32, last_weekday: Weekday) -> (d: u32)
        requires
            month_length >= 2,
        ensures
            d == last_weekday_of(month_length as int, last_weekday),
    {
        match last_weekday {
            Weekday::Saturday => month_length - 1,
            Weekday::Sunday => month_length - 2,
            _ => month_length,
        }
    }

    /// Whether a date matches the day fields. `weekday` must be the weekday
    /// of the date; the other weekdays of the month follow from it.
    pub fn day_match(&self, year: i32, month: u32, day: u32, weekday: Weekday) -> (r: Result<
        bool,
        CronError,
    >)
        ensures
            !valid_date(year as int, month as int, day as int) ==> r == Err::<bool, CronError>(
                CronError::InvalidDate,
            ),
            valid_date(year as int, month as int, day as int) ==> (r is Ok <==> self@.day_answer(
                year as int,
                month as int,
                day as int,
                weekday,
            ) is Some),
            r matches Ok(b) ==> self@.day_answer(year as int, month as int, day as int, weekday)
                == Some(b),
            valid_date(year as int, month as int, day as int) ==> (r matches Err(e)
                ==> e is ComponentError),
    {
        if month == 0 || month > 12 {
            return Err(CronError::InvalidDate);
        }
        let len = days_in_month(year, month);
        if day == 0 || day > len {
            return Err(CronError::InvalidDate);
        }
        let day_matches = match self.dom_match(len, day, weekday) {
            Ok(b) => b,
            Err(e) => {
                return Err(e);
            },
        };
        let dow_matches = match self.dow_match(len, day, weekday) {
            Ok(b) => b,
            Err(e) => {
                return Err(e);
            },
        };
        if (day_matches && self.star_dow) || (dow_matches && self.star_dom) {
            Ok(true)
        } else if !self.star_dom && !self.star_dow {
            if !self.dom_and_dow {
                Ok(day_matches || dow_matches)
            } else {
                Ok(day_matches && dow_matches)
            }
        } else {
            Ok(false)
        }
    }

    /// The day-of-month side of `day_match`.
    fn dom_match(&self, len: u32, day: u32, weekday: Weekday) -> (r: Result<bool, CronError>)
        requires
            28 <= len <= 31,
            1 <= day <= len,
        ensures
            r is Ok <==> self@.dom_answer(len as int, day as int, weekday) is Some,
            r matches Ok(b) ==> self@.dom_answer(len as int, day as int, weekday) == Some(b),
            r matches Err(e) ==> e is ComponentError,
    {
        let mut day_matches = match query(&self.days, day as u16, ALL_BIT) {
            Ok(b) => b,
            Err(e) => {
                return Err(e);
            },
        };
        if !day_matches && self.days.is_feature_enabled(LAST_BIT)
            && self.days.is_feature_enabled(CLOSEST_WEEKDAY_BIT) && day
            == Self::last_weekday_of_month(len, weekday.shift((len - day) as i32)) {
            day_matches = true;
        } else if !day_matches && self.days.is_feature_enabled(LAST_BIT)
            && !self.days.is_feature_enabled(CLOSEST_WEEKDAY_BIT) && day == len {
            day_matches = true;
        }
        if day_matches {
            return Ok(true);
        }
        self.closest_weekday(len, day, weekday)
    }

    /// The day-of-week side of `day_match`.
    fn dow_match(&self, len: u32, day: u32, weekday: Weekday) -> (r: Result<bool, CronError>)
        requires
            28 <= len <= 31,
            1 <= day <= len,
        ensures
            r is Ok <==> self@.dow_answer(len as int, day as int, weekday) is Some,
            r matches Ok(b) ==> self@.dow_answer(len as int, day as int, weekday) == Some(b),
            r matches Err(e) ==> e is ComponentError,
    {
        let weekday_bit = weekday.num_days_from_sunday() as u16;
        let mut dow_matches = false;
        match Self::nth_weekday_bit(day) {
            Some(nth_bit) => {
                dow_matches = match query(&self.days_of_week, weekday_bit, nth_bit) {
                    Ok(b) => b,
                    Err(e) => {
                        return Err(e);
                    },
                };
            },
            None => {},
        }
        if !dow_matches {
            let last = match query(&self.days_of_week, weekday_bit, LAST_BIT) {
                Ok(b) => b,
                Err(e) => {
                    return Err(e);
                },
            };
            if last && day + 7 > len {
                dow_matches = true;
            }
        }
        if dow_matches {
            return Ok(true);
        }
        query(&self.days_of_week, weekday_bit, ALL_BIT)
    }

    /// Whether a `W` day of the pattern resolves to `day`. `weekday` must be
    /// the weekday of `day`, and `month_length` the length of its month.
    pub fn closest_weekday(&self, month_length: u32, day: u32, weekday: Weekday) -> (r: Result<
        bool,
        CronError,
    >)
        requires
            28 <= month_length <= 31,
            1 <= day <= month_length,
        ensures
            r is Ok <==> closest_answer(
                self@.days,
                month_length as int,
                day as int,
                weekday,
            ) is Some,
            r matches Ok(b) ==> closest_answer(self@.days, month_length as int, day as int, weekday)
                == Some(b),
            r matches Err(e) ==> e is ComponentError,
    {
        let first: u32 = if day < 3 {
            1
        } else {
            day - 2
        };
        let last: u32 = if day + 2 > month_length {
            month_length
        } else {
            day + 2
        };
        let ghost days = self@.days;
        let ghost len = month_length as int;
        let mut pattern_day: u32 = first;
        while pattern_day <= last
            invariant
                first <= pattern_day <= last + 1,
                1 <= first,
                1 <= day <= month_length,
                last <= month_length <= 31,
                28 <= month_length,
                days == self@.days,
                len == month_length,
                closest_answer(days, len, day as int, weekday) == closest_scan(
                    days,
                    len,
                    day as int,
                    weekday,
                    pattern_day as int,
                    last as int,
                ),
            decreases last + 1 - pattern_day,
        {
            let set = match query(&self.days, pattern_day as u16, CLOSEST_WEEKDAY_BIT) {
                Ok(b) => b,
                Err(e) => {
                    return Err(e);
                },
            };
            if set {
                let shifted = weekday.shift(pattern_day as i32 - day as i32);
                let target_day: u32 = match shifted {
                    Weekday::Saturday => if pattern_day > 1 {
                        pattern_day - 1
                    } else {
                        pattern_day + 2
                    },
                    Weekday::Sunday => if pattern_day < month_length {
                        pattern_day + 1
                    } else {
                        pattern_day - 2
                    },
                    _ => pattern_day,
                };
                if target_day == day {
                    return Ok(true);
                }
            }
            pattern_day = pattern_day + 1;
        }
        Ok(false)
    }

    /// Whether a month (1 to 12) matches.
    pub fn month_match(&self, month: u32) -> (r: Result<bool, CronError>)
        ensures
            !(1 <= month <= 12) ==> r == Err::<bool, CronError>(CronError::InvalidDate),
            1 <= month <= 12 ==> (r is Ok <==> self@.month_answer(month as int) is Some),
            r matches Ok(b) ==> self@.month_answer(month as int) == Some(b),
            1 <= month <= 12 ==> (r matches Err(e) ==> e is ComponentError),
    {
        if month < 1 || month > 12 {
            return Err(CronError::InvalidDate);
        }
        query(&self.months, month as u16, ALL_BIT)
    }

    /// Whether an hour (0 to 23) matches.
    pub fn hour_match(&self, hour: u32) -> (r: Result<bool, CronError>)
        ensures
            hour > 23 ==> r == Err::<bool, CronError>(CronError::InvalidTime),
            hour <= 23 ==> (r is Ok <==> self@.hour_answer(hour as int) is Some),
            r matches Ok(b) ==> self@.hour_answer(hour as int) == Some(b),
            hour <= 23 ==> (r matches Err(e) ==> e is ComponentError),
    {
        if hour > 23 {
            return Err(CronError::InvalidTime);
        }
        query(&self.hours, hour as u16, ALL_BIT)
    }

    /// Whether a minute (0 to 59) matches.
    pub fn minute_match(&self, minute: u32) -> (r: Result<bool, CronError>)
        ensures
            minute > 59 ==> r == Err::<bool, CronError>(CronError::InvalidTime),
            minute <= 59 ==> (r is Ok <==> self@.minute_answer(minute as int) is Some),
            r matches Ok(b) ==> self@.minute_answer(minute as int) == Some(b),
            minute <= 59 ==> (r matches Err(e) ==> e is ComponentError),
    {
        if minute > 59 {
            return Err(CronError::InvalidTime);
        }
        query(&self.minutes, minute as u16, ALL_BIT)
    }

    /// Whether a second (0 to 59) matches.
    pub fn second_match(&self, second: u32) -> (r: Result<bool, CronError>)
        ensures
            second > 59 ==> r == Err::<bool, CronError>(CronError::InvalidTime),
            second <= 59 ==> (r is Ok <==> self@.second_answer(second as int) is Some),
            r matches Ok(b) ==> self@.second_answer(second as int) == Some(b),
            second <= 59 ==> (r matches Err(e) ==> e is ComponentError),
    {
        if second > 59 {
            return Err(CronError::InvalidTime);
        }
        query(&self.seconds, second as u16, ALL_BIT)
    }

    /// The next (forward) or previous (backward) value of the second, minute
    /// or hour field, from `value` on, that the pattern allows.
    #[verifier::loop_isolation(false)]
    pub fn find_match_in_component(
        &self,
        value: u32,
        component_type: TimeComponent,
        direction: Direction,
    ) -> (r: Result<Option<u32>, CronError>)
        ensures
            !(component_type is Second || component_type is Minute || component_type is Hour)
                ==> (r matches Err(e) && e is ComponentError),
            (component_type is Second || component_type is Minute || component_type is Hour) ==> {
                let c = self.field_of(component_type);
                let v = value as int % 65536;
                &&& v > c.max ==> (r matches Err(e) && e is ComponentError)
                &&& v <= c.max ==> {
                    let s = match direction {
                        Direction::Forward => scan_up(c, v, c.max),
                        Direction::Backward => scan_down(c, c.min, v),
                    };
                    &&& r is Ok <==> s is Some
                    &&& r matches Ok(o) ==> (s == Some(
                        match o {
                            Some(x) => Some(x as int),
                            None => None::<int>,
                        },
                    ))
                    &&& r matches Err(e) ==> e is ComponentError
                }
            },
    {
        let component = match component_type {
            TimeComponent::Second => &self.seconds,
            TimeComponent::Minute => &self.minutes,
            TimeComponent::Hour => &self.hours,
            _ => {
                return Err(
                    CronError::ComponentError(
                        String::from_str("Invalid component type for match search"),
                    ),
                );
            },
        };
        let value_u16: u16 = (value % 65536) as u16;
        let max = component.max_value();
        if value_u16 > max {
            return Err(out_of_component_error(value, max));
        }
        let ghost c = component@;
        assert(c == self.field_of(component_type));
        assert(value_u16 as int == value as int % 65536);
        match direction {
            Direction::Forward => {
                let hi: u32 = max as u32;
                let mut next_value: u32 = value_u16 as u32;
                while next_value <= hi
                    invariant
                        value_u16 <= next_value <= hi + 1,
                        hi == c.max,
                        hi <= 65535,
                        c == component@,
                        scan_up(c, value_u16 as int, c.max) == scan_up(
                            c,
                            next_value as int,
                            c.max,
                        ),
                    decreases hi + 1 - next_value,
                {
                    match query(component, next_value as u16, ALL_BIT) {
                        Ok(true) => {
                            return Ok(Some(next_value));
                        },
                        Ok(false) => {},
                        Err(e) => {
                            return Err(e);
                        },
                    }
                    next_value = next_value + 1;
                }
            },
            Direction::Backward => {
                let lo: u32 = component.min_value() as u32;
                let mut prev_value: u32 = value_u16 as u32;
                if prev_value < lo {
                    return Ok(None);
                }
                while prev_value >= lo
                    invariant
                        lo <= prev_value + 1,
                        prev_value <= value_u16,
                        lo == c.min,
                        c == component@,
                        scan_down(c, c.min, value_u16 as int) == scan_down(
                            c,
                            c.min,
                            prev_value as int,
                        ),
                    decreases prev_value + 1 - lo,
                {
                    match query(component, prev_value as u16, ALL_BIT) {
                        Ok(true) => {
                            return Ok(Some(prev_value));
                        },
                        Ok(false) => {},
                        Err(e) => {
                            return Err(e);
                        },
                    }
                    if prev_value == 0 {
                        return Ok(None);
                    }
                    prev_value = prev_value - 1;
                }
            },
        }
        Ok(None)
    }

    /// The component of the second, minute or hour field.
    pub open spec fn field_of(&self, t: TimeComponent) -> ComponentModel {
        match t {
            TimeComponent::Second => self@.seconds,
            TimeComponent::Minute => self@.minutes,
            _ => self@.hours,
        }
    }

    /// A human-readable description of the pattern, in English.
    pub fn describe(&self) -> (r: String)
        requires
            crate::describe::describable(self@),
        ensures
            r@ == crate::describe::describe_text(self@, crate::describe::English),
    {
        crate::describe::describe(self, &crate::describe::English)
    }

    /// A human-readable description of the pattern in the given language.
    pub fn describe_lang<L: crate::describe::Language>(&self, lang: L) -> (r: String)
        requires
            crate::describe::describable(self@),
        ensures
            r@ == crate::describe::describe_text(self@, lang),
    {
        crate::describe::describe(self, &lang)
    }

    /// The text the pattern was written as.
    pub fn as_str(&self) -> (s: &str)
        ensures
            s@ == self@.text,
    {
        self.pattern.as_str()
    }

    /// The text the pattern was written as, as a new string.
    pub fn to_string(&self) -> (s: String)
        ensures
            s@ == self@.text,
    {
        String::from_str(self.pattern.as_str())
    }
}

/// The message for a value past the end of a component.
fn out_of_component_error(value: u32, max: u16) -> (e: CronError)
    ensures
        e is ComponentError,
{
    let mut m: Vec<char> = Vec::new();
    crate::text::push_str(&mut m, "Input value ");
    crate::text::push_decimal(&mut m, value as u64);
    crate::text::push_str(&mut m, " is out of bounds for the component (max: ");
    crate::text::push_decimal(&mut m, max as u64);
    crate::text::push_str(&mut m, ").");
    CronError::ComponentError(crate::text::string_of(&m))
}

} // verus!
