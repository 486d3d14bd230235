//! Searches in real time zones, through `chrono`, `chrono-tz` and `jiff`.

use std::str::FromStr as _;

use chrono::{
    DateTime, Datelike, FixedOffset, LocalResult, NaiveDate, NaiveDateTime, TimeDelta, TimeZone,
    Timelike,
};
use chrono_tz::Tz;
use croner::errors::CronError;
use croner::iterator::CronIterator;
use croner::parser::{CronParser, Seconds};
use croner::time::fold::{fold_of, other_fold_edge, Fold};
use croner::time::{CivilDateTime, CronDateTime, Resolution, Weekday};
use croner::{Cron, Direction};

// ---------------------------------------------------------------------------
// Backends for the tests.
// ---------------------------------------------------------------------------

/// A `chrono` date and time in a time zone.
#[derive(Clone, Debug, PartialEq)]
struct Chrono<Z: TimeZone>(DateTime<Z>);

fn chrono_civil(naive: NaiveDateTime) -> CivilDateTime {
    CivilDateTime::from_ymd_hms_opt(
        naive.year(),
        naive.month(),
        naive.day(),
        naive.hour(),
        naive.minute(),
        naive.second(),
    )
    .expect("chrono keeps every part in range")
}

fn chrono_naive(civil: CivilDateTime) -> Result<NaiveDateTime, CronError> {
    NaiveDate::from_ymd_opt(civil.year(), civil.month(), civil.day())
        .ok_or(CronError::InvalidDate)?
        .and_hms_opt(civil.hour(), civil.minute(), civil.second())
        .ok_or(CronError::InvalidTime)
}

impl<Z: TimeZone> CronDateTime for Chrono<Z> {
    fn to_civil(&self) -> CivilDateTime {
        chrono_civil(self.0.naive_local())
    }

    fn civil_weekday(&self) -> Weekday {
        Weekday::from_days_from_sunday(self.0.naive_local().weekday().num_days_from_sunday())
    }

    fn resolve_civil(&self, civil: CivilDateTime) -> Result<Resolution<Self>, CronError> {
        let naive = chrono_naive(civil)?;
        Ok(match self.0.timezone().from_local_datetime(&naive) {
            LocalResult::Single(dt) => Resolution::Single(Chrono(dt)),
            LocalResult::Ambiguous(a, b) => Resolution::Ambiguous(Chrono(a), Chrono(b)),
            LocalResult::None => Resolution::Gap,
        })
    }

    fn checked_add_seconds(&self, seconds: i64) -> Option<Self> {
        self.0
            .clone()
            .checked_add_signed(TimeDelta::try_seconds(seconds)?)
            .map(Chrono)
    }

    fn is_before(&self, other: &Self) -> bool {
        self.0 < other.0
    }

    fn duplicate(&self) -> Self {
        self.clone()
    }
}

/// A `jiff` date and time in a time zone.
#[derive(Clone, Debug, PartialEq)]
struct Jiff(jiff::Zoned);

/// A `jiff` date and time without a time zone.
#[derive(Clone, Copy, Debug, PartialEq)]
struct JiffCivil(jiff::civil::DateTime);

fn jiff_civil(dt: jiff::civil::DateTime) -> CivilDateTime {
    CivilDateTime::from_ymd_hms_opt(
        i32::from(dt.year()),
        dt.month() as u32,
        dt.day() as u32,
        dt.hour() as u32,
        dt.minute() as u32,
        dt.second() as u32,
    )
    .expect("jiff keeps every part in range")
}

fn jiff_datetime(civil: CivilDateTime) -> Result<jiff::civil::DateTime, CronError> {
    let year = i16::try_from(civil.year()).map_err(|_| CronError::InvalidDate)?;
    jiff::civil::DateTime::new(
        year,
        civil.month() as i8,
        civil.day() as i8,
        civil.hour() as i8,
        civil.minute() as i8,
        civil.second() as i8,
        0,
    )
    .map_err(|_| CronError::InvalidDate)
}

fn jiff_weekday(w: jiff::civil::Weekday) -> Weekday {
    Weekday::from_days_from_sunday(w.to_sunday_zero_offset() as u32)
}

impl CronDateTime for Jiff {
    fn to_civil(&self) -> CivilDateTime {
        jiff_civil(self.0.datetime())
    }

    fn civil_weekday(&self) -> Weekday {
        jiff_weekday(self.0.weekday())
    }

    fn resolve_civil(&self, civil: CivilDateTime) -> Result<Resolution<Self>, CronError> {
        let dt = jiff_datetime(civil)?;
        let ambiguous = self.0.time_zone().to_ambiguous_zoned(dt);
        Ok(match ambiguous.offset() {
            jiff::tz::AmbiguousOffset::Unambiguous { .. } => Resolution::Single(Jiff(
                ambiguous.unambiguous().map_err(|_| CronError::InvalidTime)?,
            )),
            jiff::tz::AmbiguousOffset::Fold { .. } => {
                let earlier = ambiguous.clone().earlier().map_err(|_| CronError::InvalidTime)?;
                let later = ambiguous.later().map_err(|_| CronError::InvalidTime)?;
                Resolution::Ambiguous(Jiff(earlier), Jiff(later))
            }
            jiff::tz::AmbiguousOffset::Gap { .. } => Resolution::Gap,
        })
    }

    fn checked_add_seconds(&self, seconds: i64) -> Option<Self> {
        self.0
            .checked_add(jiff::SignedDuration::from_secs(seconds))
            .ok()
            .map(Jiff)
    }

    fn is_before(&self, other: &Self) -> bool {
        self.0.timestamp() < other.0.timestamp()
    }

    fn duplicate(&self) -> Self {
        self.clone()
    }
}

impl CronDateTime for JiffCivil {
    fn to_civil(&self) -> CivilDateTime {
        jiff_civil(self.0)
    }

    fn civil_weekday(&self) -> Weekday {
        jiff_weekday(self.0.weekday())
    }

    fn resolve_civil(&self, civil: CivilDateTime) -> Result<Resolution<Self>, CronError> {
        Ok(Resolution::Single(JiffCivil(jiff_datetime(civil)?)))
    }

    fn checked_add_seconds(&self, seconds: i64) -> Option<Self> {
        self.0
            .checked_add(jiff::SignedDuration::from_secs(seconds))
            .ok()
            .map(JiffCivil)
    }

    fn is_before(&self, other: &Self) -> bool {
        self.0 < other.0
    }

    fn duplicate(&self) -> Self {
        *self
    }
}

fn take<T: CronDateTime>(mut it: CronIterator<T>, n: usize) -> Vec<T> {
    let mut out = Vec::new();
    while out.len() < n {
        match it.next() {
            Some(t) => out.push(t),
            None => break,
        }
    }
    out
}

fn with_seconds(pattern: &str) -> Cron {
    CronParser::builder()
        .seconds(Seconds::Optional)
        .build()
        .parse(pattern)
        .expect("the pattern must parse")
}

fn every_minute() -> Cron {
    Cron::from_str("* * * * *").expect("the pattern must parse")
}

// ---------------------------------------------------------------------------
// Fixed offsets.
// ---------------------------------------------------------------------------

#[test]
fn test_is_time_matching_different_time_zones() -> Result<(), CronError> {
    let cron = Cron::from_str("0 12 * * *")?;
    let time_east_matching = FixedOffset::east_opt(3600)
        .expect("Success")
        .with_ymd_and_hms(2023, 1, 1, 12, 0, 0)
        .unwrap();
    let time_west_matching = FixedOffset::west_opt(3600)
        .expect("Success")
        .with_ymd_and_hms(2023, 1, 1, 12, 0, 0)
        .unwrap();

    assert!(cron.is_time_matching(&Chrono(time_east_matching))?);
    assert!(cron.is_time_matching(&Chrono(time_west_matching))?);
    Ok(())
}

#[test]
fn searches_in_utc_follow_the_wall_clock() -> Result<(), CronError> {
    let cron = Cron::from_str("15 9 * * MON")?;
    let start = Chrono(chrono::Utc.with_ymd_and_hms(2024, 5, 15, 12, 0, 0).unwrap());
    let next = cron.find_next_occurrence(&start, false)?;
    assert_eq!(next.0, chrono::Utc.with_ymd_and_hms(2024, 5, 20, 9, 15, 0).unwrap());
    let previous = cron.find_previous_occurrence(&next, false)?;
    assert_eq!(previous.0, chrono::Utc.with_ymd_and_hms(2024, 5, 13, 9, 15, 0).unwrap());
    // From the occurrence, the next one after the previous one is itself.
    assert_eq!(cron.find_next_occurrence(&previous, false)?, next);
    Ok(())
}

// ---------------------------------------------------------------------------
// Telling the halves of a repeated range apart.
// ---------------------------------------------------------------------------

fn paris(hour: u32, minute: u32, second: u32, fold: Fold) -> Chrono<Tz> {
    let ambiguous = chrono_tz::Europe::Paris.with_ymd_and_hms(2024, 10, 27, hour, minute, second);
    Chrono(
        match fold {
            Fold::Earlier => ambiguous.earliest(),
            Fold::Later => ambiguous.latest(),
        }
        .expect("the test time must exist"),
    )
}

#[test]
fn reads_the_half_that_an_instant_is_on() {
    assert_eq!(fold_of(&paris(2, 30, 0, Fold::Earlier)).unwrap(), Some(Fold::Earlier));
    assert_eq!(fold_of(&paris(2, 30, 0, Fold::Later)).unwrap(), Some(Fold::Later));
    assert_eq!(fold_of(&paris(1, 30, 0, Fold::Earlier)).unwrap(), None);
    assert_eq!(fold_of(&paris(3, 30, 0, Fold::Earlier)).unwrap(), None);
}

#[test]
fn reads_the_half_of_an_instant_with_sub_second_precision() {
    for fold in [Fold::Earlier, Fold::Later] {
        let instant = Chrono(paris(2, 30, 0, fold).0 + TimeDelta::milliseconds(500));
        assert_eq!(fold_of(&instant).unwrap(), Some(fold));
    }
}

#[test]
fn finds_the_edge_from_anywhere_in_the_range() {
    let change = paris(2, 0, 0, Fold::Later);
    let before_change = change.checked_add_seconds(-1).unwrap();
    for (hour, minute, second) in [(2, 0, 0), (2, 30, 0), (2, 59, 59)] {
        let earlier = paris(hour, minute, second, Fold::Earlier);
        assert_eq!(other_fold_edge(&earlier, Fold::Earlier).unwrap(), change);
        let later = paris(hour, minute, second, Fold::Later);
        assert_eq!(other_fold_edge(&later, Fold::Later).unwrap(), before_change);
    }
}

// ---------------------------------------------------------------------------
// Repeated ranges, with chrono.
// ---------------------------------------------------------------------------

struct Overlap {
    name: &'static str,
    zone: Tz,
    year: i32,
    month: u32,
    day: u32,
    hour: u32,
    minute: u32,
}

enum Pass {
    First,
    Second,
}

impl Overlap {
    fn at(&self, pass: Pass) -> Chrono<Tz> {
        let repeated =
            self.zone.with_ymd_and_hms(self.year, self.month, self.day, self.hour, self.minute, 0);
        let LocalResult::Ambiguous(first, second) = repeated else {
            panic!("{}: the test time must happen twice", self.name)
        };
        Chrono(match pass {
            Pass::First => first,
            Pass::Second => second,
        })
    }

    fn jiff_at(&self, pass: Pass) -> Jiff {
        let zone = jiff::tz::TimeZone::get(self.name).expect("known zone");
        let ambiguous = zone.to_ambiguous_zoned(
            jiff::civil::date(self.year as i16, self.month as i8, self.day as i8).at(
                self.hour as i8,
                self.minute as i8,
                0,
                0,
            ),
        );
        Jiff(match pass {
            Pass::First => ambiguous.earlier().expect("the time must be ambiguous"),
            Pass::Second => ambiguous.later().expect("the time must be ambiguous"),
        })
    }
}

fn overlaps() -> Vec<Overlap> {
    vec![
        Overlap {
            name: "Europe/Paris",
            zone: chrono_tz::Europe::Paris,
            year: 2024,
            month: 10,
            day: 27,
            hour: 2,
            minute: 30,
        },
        Overlap {
            name: "Australia/Lord_Howe",
            zone: chrono_tz::Australia::Lord_Howe,
            year: 2024,
            month: 4,
            day: 7,
            hour: 1,
            minute: 40,
        },
        Overlap {
            name: "Pacific/Chatham",
            zone: chrono_tz::Pacific::Chatham,
            year: 2024,
            month: 4,
            day: 7,
            hour: 3,
            minute: 20,
        },
    ]
}

fn moves_one_way<T: CronDateTime>(times: &[T], direction: Direction) -> bool {
    times.windows(2).all(|step| match direction {
        Direction::Forward => step[0].is_before(&step[1]),
        Direction::Backward => step[1].is_before(&step[0]),
    })
}

#[test]
fn chrono_search_never_answers_with_a_time_it_has_passed() {
    for overlap in overlaps() {
        let cron = every_minute();
        let second = overlap.at(Pass::Second);
        let next = cron.find_next_occurrence(&second, false).expect("the search must succeed");
        assert!(next.0 > second.0, "{}: forward search from {:?} answered {:?}", overlap.name, second, next);

        let first = overlap.at(Pass::First);
        let previous =
            cron.find_previous_occurrence(&first, false).expect("the search must succeed");
        assert!(previous.0 < first.0, "{}: backward search answered {:?}", overlap.name, previous);
    }
}

#[test]
fn chrono_iterators_run_one_way_and_cover_every_instant_once() {
    for overlap in overlaps() {
        let cron = every_minute();
        let forward = take(cron.iter_after(overlap.at(Pass::First)), 200);
        assert!(moves_one_way(&forward, Direction::Forward), "{}", overlap.name);

        let last = forward.last().expect("the run must not be empty").clone();
        let mut backward = take(cron.iter_before(last), 199);
        assert!(moves_one_way(&backward, Direction::Backward), "{}", overlap.name);
        backward.reverse();
        assert_eq!(backward, forward[..199], "{}: the two directions disagree", overlap.name);
    }
}

#[test]
fn chrono_a_duplicated_minute_comes_round_exactly_twice() {
    for overlap in overlaps() {
        let cron = every_minute();
        let first = overlap.at(Pass::First);
        let wanted = first.0.naive_local();
        let hits = take(cron.iter_from(first, Direction::Forward), 201)
            .iter()
            .filter(|time| time.0.naive_local() == wanted)
            .count();
        assert_eq!(hits, 2, "{}: {wanted} came round {hits} times, not twice", overlap.name);
    }
}

#[test]
fn chrono_a_match_in_a_later_overlap_takes_its_own_real_order() {
    let cron: Cron = "*/30 2 26-27 10 *".parse().expect("the pattern must parse");
    let start = Chrono(
        chrono_tz::Europe::Paris
            .with_ymd_and_hms(2024, 10, 27, 2, 45, 0)
            .latest()
            .expect("the test time must exist"),
    );
    let next = cron.find_next_occurrence(&start, false).expect("search must succeed");
    assert_eq!(
        next.0,
        chrono_tz::Europe::Paris
            .with_ymd_and_hms(2025, 10, 26, 2, 0, 0)
            .earliest()
            .expect("test time must exist")
    );
}

// ---------------------------------------------------------------------------
// Repeated ranges, with jiff.
// ---------------------------------------------------------------------------

#[test]
fn jiff_search_never_answers_with_a_time_it_has_passed() {
    for overlap in overlaps() {
        let cron = every_minute();
        let second = overlap.jiff_at(Pass::Second);
        let next = cron.find_next_occurrence(&second, false).expect("the search must succeed");
        assert!(next.0 > second.0, "{}: forward search answered {:?}", overlap.name, next);

        let first = overlap.jiff_at(Pass::First);
        let previous =
            cron.find_previous_occurrence(&first, false).expect("the search must succeed");
        assert!(previous.0 < first.0, "{}: backward search answered {:?}", overlap.name, previous);
    }
}

#[test]
fn jiff_iterators_run_one_way_and_cover_every_instant_once() {
    for overlap in overlaps() {
        let cron = every_minute();
        let forward = take(cron.iter_after(overlap.jiff_at(Pass::First)), 200);
        assert!(moves_one_way(&forward, Direction::Forward), "{}", overlap.name);

        let last = forward.last().expect("the run must not be empty").clone();
        let mut backward = take(cron.iter_before(last), 199);
        assert!(moves_one_way(&backward, Direction::Backward), "{}", overlap.name);
        backward.reverse();
        assert_eq!(backward, forward[..199], "{}: the two directions disagree", overlap.name);
    }
}

#[test]
fn jiff_a_duplicated_minute_comes_round_exactly_twice() {
    for overlap in overlaps() {
        let cron = every_minute();
        let first = overlap.jiff_at(Pass::First);
        let wanted = first.0.datetime();
        let hits = take(cron.iter_from(first, Direction::Forward), 201)
            .iter()
            .filter(|time| time.0.datetime() == wanted)
            .count();
        assert_eq!(hits, 2, "{}: {wanted} came round {hits} times, not twice", overlap.name);
    }
}

#[test]
fn jiff_a_match_in_a_later_overlap_takes_its_own_real_order() {
    let paris = jiff::tz::TimeZone::get("Europe/Paris").expect("known zone");
    let cron: Cron = "*/30 2 26-27 10 *".parse().expect("the pattern must parse");
    let start = Jiff(
        paris
            .to_ambiguous_zoned(jiff::civil::date(2024, 10, 27).at(2, 45, 0, 0))
            .later()
            .expect("the time must be ambiguous"),
    );
    let next = cron.find_next_occurrence(&start, false).expect("search must succeed");
    let expected = paris
        .to_ambiguous_zoned(jiff::civil::date(2025, 10, 26).at(2, 0, 0, 0))
        .earlier()
        .expect("the time must be ambiguous");
    assert_eq!(next.0, expected);
}

// ---------------------------------------------------------------------------
// The jiff backend on ordinary dates.
// ---------------------------------------------------------------------------

fn stockholm() -> jiff::tz::TimeZone {
    jiff::tz::TimeZone::get("Europe/Stockholm").expect("the tzdb to know Europe/Stockholm")
}

fn jzoned(tz: &jiff::tz::TimeZone, y: i16, m: i8, d: i8, hh: i8, mm: i8, ss: i8) -> Jiff {
    Jiff(
        tz.to_ambiguous_zoned(jiff::civil::date(y, m, d).at(hh, mm, ss, 0))
            .earlier()
            .expect("a valid wall clock time"),
    )
}

#[test]
fn matches_a_zoned_time() -> Result<(), CronError> {
    let tz = stockholm();
    let cron = Cron::from_str("0 9 1 1 *")?;
    assert!(cron.is_time_matching(&jzoned(&tz, 2023, 1, 1, 9, 0, 0))?);
    assert!(!cron.is_time_matching(&jzoned(&tz, 2023, 1, 1, 10, 0, 0))?);
    Ok(())
}

#[test]
fn finds_the_next_and_previous_occurrence() -> Result<(), CronError> {
    let tz = stockholm();
    let cron = Cron::from_str("0 0 * * FRI")?;
    let start = jzoned(&tz, 2024, 1, 3, 12, 0, 0);
    assert_eq!(cron.find_next_occurrence(&start, false)?, jzoned(&tz, 2024, 1, 5, 0, 0, 0));
    assert_eq!(
        cron.find_previous_occurrence(&start, false)?,
        jzoned(&tz, 2023, 12, 29, 0, 0, 0)
    );
    Ok(())
}

#[test]
fn iterates_forwards_and_backwards() -> Result<(), CronError> {
    let tz = stockholm();
    let cron = Cron::from_str("0 0 * * MON")?;
    let start = jzoned(&tz, 2022, 2, 28, 23, 59, 0);

    let forward = take(cron.iter_after(start.clone()), 3);
    assert_eq!(
        forward,
        vec![
            jzoned(&tz, 2022, 3, 7, 0, 0, 0),
            jzoned(&tz, 2022, 3, 14, 0, 0, 0),
            jzoned(&tz, 2022, 3, 21, 0, 0, 0),
        ]
    );

    let backward = take(cron.iter_before(start), 2);
    assert_eq!(
        backward,
        vec![jzoned(&tz, 2022, 2, 28, 0, 0, 0), jzoned(&tz, 2022, 2, 21, 0, 0, 0)]
    );
    Ok(())
}

#[test]
fn works_with_an_unzoned_civil_datetime() -> Result<(), CronError> {
    let cron = Cron::from_str("0 0 L * *")?;
    let start = JiffCivil(jiff::civil::date(2024, 2, 1).at(0, 0, 0, 0));
    let next = cron.find_next_occurrence(&start, false)?;
    assert_eq!(next.0, jiff::civil::date(2024, 2, 29).at(0, 0, 0, 0));
    Ok(())
}

#[test]
fn honours_the_special_day_patterns() -> Result<(), CronError> {
    let tz = stockholm();
    let cron = Cron::from_str("0 0 * * FRI#L")?;
    assert!(cron.is_time_matching(&jzoned(&tz, 2023, 12, 29, 0, 0, 0))?);

    let cron = Cron::from_str("0 0 15W * *")?;
    assert!(cron.is_time_matching(&jzoned(&tz, 2023, 6, 15, 0, 0, 0))?);
    assert!(!cron.is_time_matching(&jzoned(&tz, 2023, 6, 16, 0, 0, 0))?);
    Ok(())
}

// ---------------------------------------------------------------------------
// Gaps and repeats with a seconds field, in Stockholm.
// ---------------------------------------------------------------------------

fn stockholm_chrono(year: i32, month: u32, day: u32, hour: u32, minute: u32, second: u32) -> Chrono<Tz> {
    Chrono(
        chrono_tz::Europe::Stockholm
            .with_ymd_and_hms(year, month, day, hour, minute, second)
            .earliest()
            .expect("the test time must exist"),
    )
}

#[test]
fn a_fixed_time_in_a_gap_runs_right_after_it() -> Result<(), CronError> {
    let cron = with_seconds("0 30 2 * * *");
    let start = stockholm_chrono(2025, 3, 30, 1, 59, 59);
    assert_eq!(cron.find_next_occurrence(&start, false)?, stockholm_chrono(2025, 3, 30, 3, 0, 0));

    // Backward, the run after the gap is found, then the day before.
    let gap_run = stockholm_chrono(2025, 3, 30, 3, 0, 0);
    assert_eq!(
        cron.find_previous_occurrence(&stockholm_chrono(2025, 3, 30, 4, 0, 0), false)?,
        gap_run
    );
    assert_eq!(
        cron.find_previous_occurrence(&gap_run, false)?,
        stockholm_chrono(2025, 3, 29, 2, 30, 0)
    );
    Ok(())
}

#[test]
fn an_interval_job_skips_a_gap() -> Result<(), CronError> {
    let start = stockholm_chrono(2025, 3, 30, 1, 59, 59);
    let cron = with_seconds("0 */5 * * * *");
    assert_eq!(cron.find_next_occurrence(&start, false)?, stockholm_chrono(2025, 3, 30, 3, 0, 0));
    let cron = with_seconds("* * * * * *");
    assert_eq!(cron.find_next_occurrence(&start, false)?, stockholm_chrono(2025, 3, 30, 3, 0, 0));

    let cron = with_seconds("0 * * * * *");
    assert_eq!(
        take(cron.iter_before(stockholm_chrono(2025, 3, 30, 3, 2, 0)), 4),
        vec![
            stockholm_chrono(2025, 3, 30, 3, 1, 0),
            stockholm_chrono(2025, 3, 30, 3, 0, 0),
            stockholm_chrono(2025, 3, 30, 1, 59, 0),
            stockholm_chrono(2025, 3, 30, 1, 58, 0),
        ]
    );
    Ok(())
}

#[test]
fn a_fixed_time_in_a_repeat_runs_once() -> Result<(), CronError> {
    let cron = with_seconds("0 30 2 * * *");
    let start = stockholm_chrono(2025, 10, 26, 1, 59, 59);
    let first = cron.find_next_occurrence(&start, false)?;
    assert_eq!(first, stockholm_chrono(2025, 10, 26, 2, 30, 0));
    let after = cron.find_next_occurrence(&first, false)?;
    assert_eq!(after, stockholm_chrono(2025, 10, 27, 2, 30, 0));
    Ok(())
}

#[test]
fn an_interval_job_runs_on_both_halves_of_a_repeat() -> Result<(), CronError> {
    let cron = with_seconds("0 0 */2 * * *");
    let start = stockholm_chrono(2025, 10, 26, 0, 0, 0);
    let runs = take(cron.iter_from(start, Direction::Forward), 4);
    let two = chrono_tz::Europe::Stockholm.with_ymd_and_hms(2025, 10, 26, 2, 0, 0);
    assert_eq!(runs[0], stockholm_chrono(2025, 10, 26, 0, 0, 0));
    assert_eq!(runs[1].0, two.earliest().unwrap());
    assert_eq!(runs[2].0, two.latest().unwrap());
    assert_eq!(runs[3], stockholm_chrono(2025, 10, 26, 4, 0, 0));

    // Every minute of the repeated hour comes round on each half, the first
    // half in full before the second.
    let cron = with_seconds("0 * 2 * * *");
    let runs = take(cron.iter_after(stockholm_chrono(2025, 10, 26, 1, 59, 59)), 120);
    assert_eq!(runs.len(), 120);
    for minute in 0..60u32 {
        let wall = chrono_tz::Europe::Stockholm.with_ymd_and_hms(2025, 10, 26, 2, minute, 0);
        assert_eq!(runs[minute as usize].0, wall.earliest().unwrap());
        assert_eq!(runs[60 + minute as usize].0, wall.latest().unwrap());
    }
    Ok(())
}

#[test]
fn a_gap_across_midnight_does_not_trap_a_search() -> Result<(), CronError> {
    let toronto = chrono_tz::America::Toronto;
    let cron = with_seconds("0 45 23 30 3 *");
    let backward =
        cron.find_previous_occurrence(&Chrono(toronto.with_ymd_and_hms(1919, 4, 15, 12, 0, 0).unwrap()), false)?;
    let forward =
        cron.find_next_occurrence(&Chrono(toronto.with_ymd_and_hms(1919, 3, 25, 12, 0, 0).unwrap()), false)?;
    assert_eq!(backward.0, toronto.with_ymd_and_hms(1918, 3, 30, 23, 45, 0).unwrap());
    assert_eq!(forward.0, toronto.with_ymd_and_hms(1920, 3, 30, 23, 45, 0).unwrap());
    Ok(())
}

#[test]
fn chrono_and_jiff_agree_across_transitions() {
    let patterns = ["0 0 * * *", "*/7 * * * *", "0 30 2 * * *", "0 0 */2 * * *", "0 0 L * *"];
    let starts = [(2025, 3, 30, 1, 59, 59), (2025, 10, 26, 1, 59, 59), (2024, 2, 27, 12, 0, 0)];
    for zone in ["Europe/Stockholm", "Australia/Lord_Howe", "UTC"] {
        let chrono_zone: Tz = zone.parse().expect("a known time zone");
        let jiff_zone = jiff::tz::TimeZone::get(zone).expect("a known time zone");
        for (year, month, day, hour, minute, second) in starts {
            let chrono_start = Chrono(
                chrono_zone
                    .with_ymd_and_hms(year, month, day, hour, minute, second)
                    .earliest()
                    .expect("a valid start time"),
            );
            let jiff_start = jzoned(
                &jiff_zone,
                year as i16,
                month as i8,
                day as i8,
                hour as i8,
                minute as i8,
                second as i8,
            );
            for pattern in patterns {
                let cron = with_seconds(pattern);
                for direction in [Direction::Forward, Direction::Backward] {
                    let from_chrono: Vec<i64> = take(cron.iter_from(chrono_start.clone(), direction), 30)
                        .iter()
                        .map(|t| t.0.timestamp())
                        .collect();
                    let from_jiff: Vec<i64> = take(cron.iter_from(jiff_start.clone(), direction), 30)
                        .iter()
                        .map(|t| t.0.timestamp().as_second())
                        .collect();
                    assert_eq!(from_chrono, from_jiff, "{pattern} in {zone} going {direction:?}");
                }
            }
        }
    }
}
