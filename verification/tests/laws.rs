//! The laws of the library, on concrete values.

use std::str::FromStr as _;

use croner::component::{ALL_BIT, CLOSEST_WEEKDAY_BIT, LAST_BIT, NTH_1ST_BIT, NTH_2ND_BIT};
use croner::describe::{describe, English};
use croner::errors::CronError;
use croner::parser::{CronParser, Seconds, Year};
use croner::scheduler::{CronScheduler, ScheduledTaskContext, TickAction};
use croner::search::pick_instant;
use croner::time::{CivilDateTime, Resolution};
use croner::{Direction, JobType};
use croner::Cron;

fn at(year: i32, month: u32, day: u32, hour: u32, minute: u32, second: u32) -> CivilDateTime {
    CivilDateTime::from_ymd_hms(year, month, day, hour, minute, second).expect("test time must exist")
}

#[test]
fn a_search_from_a_match_that_may_answer_it_answers_it() -> Result<(), CronError> {
    let cron = Cron::from_str("*/15 9-17 * * MON-FRI")?;
    let t = at(2024, 3, 6, 10, 30, 0);
    assert!(cron.is_time_matching(&t)?);
    assert_eq!(cron.find_next_occurrence(&t, true)?, t);
    assert_eq!(cron.find_previous_occurrence(&t, true)?, t);
    Ok(())
}

#[test]
fn the_previous_of_the_next_occurrence_is_the_start() -> Result<(), CronError> {
    let cron = Cron::from_str("0 12 L * *")?;
    let t = at(2024, 2, 29, 12, 0, 0);
    assert!(cron.is_time_matching(&t)?);
    let next = cron.find_next_occurrence(&t, false)?;
    assert_eq!(next, at(2024, 3, 31, 12, 0, 0));
    assert_eq!(cron.find_previous_occurrence(&next, false)?, t);
    let previous = cron.find_previous_occurrence(&t, false)?;
    assert_eq!(previous, at(2024, 1, 31, 12, 0, 0));
    assert_eq!(cron.find_next_occurrence(&previous, false)?, t);
    Ok(())
}

#[test]
fn nothing_between_consecutive_occurrences_matches() -> Result<(), CronError> {
    let cron = Cron::from_str("*/20 10 * * *")?;
    let start = at(2024, 7, 1, 9, 55, 0);
    let first = cron.find_next_occurrence(&start, false)?;
    let second = cron.find_next_occurrence(&first, false)?;
    assert_eq!(first, at(2024, 7, 1, 10, 0, 0));
    assert_eq!(second, at(2024, 7, 1, 10, 20, 0));
    for minute in 1..20 {
        assert!(!cron.is_time_matching(&at(2024, 7, 1, 10, minute, 0))?);
    }
    Ok(())
}

#[test]
fn every_parsed_pattern_can_be_described() {
    for pattern in ["* * * * *", "0 0 * * 7", "5 4 L 2 *", "0 0 0 1W * * 2030-2040/3"] {
        let cron = CronParser::builder()
            .seconds(Seconds::Optional)
            .year(Year::Optional)
            .build()
            .parse(pattern)
            .expect("the pattern parses");
        assert!(!describe(&cron.pattern, &English).is_empty(), "{pattern}");
    }
}

#[test]
fn sunday_may_be_written_as_seven_or_zero() -> Result<(), CronError> {
    let seven = Cron::from_str("0 0 * * 7")?;
    let zero = Cron::from_str("0 0 * * 0")?;
    assert_eq!(seven, zero);
    assert!(seven.pattern.days_of_week.is_bit_set(0, ALL_BIT)?);
    assert!(!seven.pattern.days_of_week.is_bit_set(7, ALL_BIT)?);

    let nth = Cron::from_str("0 0 * * 7#2")?;
    assert!(nth.pattern.days_of_week.is_bit_set(0, NTH_2ND_BIT)?);
    assert!(!nth.pattern.days_of_week.is_bit_set(7, NTH_2ND_BIT)?);
    assert!(!nth.pattern.days_of_week.is_bit_set(0, NTH_1ST_BIT)?);

    // A range up to 7 keeps Monday and Saturday where they are.
    let range = Cron::from_str("0 0 * * 6-7")?;
    assert!(range.pattern.days_of_week.is_bit_set(6, ALL_BIT)?);
    assert!(range.pattern.days_of_week.is_bit_set(0, ALL_BIT)?);
    assert!(!range.pattern.days_of_week.is_bit_set(1, ALL_BIT)?);
    Ok(())
}

#[test]
fn a_closest_weekday_stays_in_its_month() -> Result<(), CronError> {
    // 31 August 2025 is a Sunday: the closest weekday is Friday the 29th.
    let cron = Cron::from_str("0 0 31W * *")?;
    assert!(cron.is_time_matching(&at(2025, 8, 29, 0, 0, 0))?);
    assert!(!cron.is_time_matching(&at(2025, 9, 1, 0, 0, 0))?);
    // 1 March 2025 is a Saturday: the closest weekday is Monday the 3rd.
    let cron = Cron::from_str("0 0 1W * *")?;
    assert!(cron.is_time_matching(&at(2025, 3, 3, 0, 0, 0))?);
    assert!(!cron.is_time_matching(&at(2025, 2, 28, 0, 0, 0))?);
    Ok(())
}

#[test]
fn the_last_weekday_of_a_month_is_its_last_monday_to_friday() -> Result<(), CronError> {
    let mut cron = Cron::from_str("0 0 1 * *")?;
    cron.pattern.days.enable_feature(LAST_BIT)?;
    cron.pattern.days.enable_feature(CLOSEST_WEEKDAY_BIT)?;
    // August 2025 ends on a Sunday, November 2025 on a Sunday, February 2025 on a Friday.
    assert!(cron.is_time_matching(&at(2025, 8, 29, 0, 0, 0))?);
    assert!(!cron.is_time_matching(&at(2025, 8, 31, 0, 0, 0))?);
    assert!(cron.is_time_matching(&at(2025, 11, 28, 0, 0, 0))?);
    assert!(cron.is_time_matching(&at(2025, 2, 28, 0, 0, 0))?);
    Ok(())
}

#[test]
fn occurrences_lie_within_the_supported_years() {
    let cron = Cron::from_str("0 0 1 1 *").unwrap();
    assert_eq!(
        cron.find_next_occurrence(&at(5000, 6, 1, 0, 0, 0), false).unwrap_err(),
        CronError::TimeSearchLimitExceeded
    );
    assert!(cron.find_previous_occurrence(&at(1, 1, 1, 0, 0, 0), false).is_err());
}

#[test]
fn a_builder_with_no_option_set_builds_the_default_parser() {
    assert_eq!(CronParser::builder().build(), CronParser::new());
}

#[test]
fn a_scheduler_runs_when_the_pattern_matches_and_once_a_second() {
    let cron = Cron::from_str("*/5 * * * *").unwrap();
    let mut scheduler = CronScheduler::new(cron);
    assert!(scheduler.is_stopped());
    let now = at(2024, 1, 1, 12, 5, 0);
    assert_eq!(scheduler.tick(&now, 100, 100, false, true), TickAction::Finished);

    scheduler.start();
    assert!(scheduler.is_running());
    assert_eq!(scheduler.tick(&now, 100, 100, true, true), TickAction::Wait);
    assert_eq!(scheduler.tick(&now, 100, 100, false, true), TickAction::Run);
    assert_eq!(scheduler.previous_or_current_run(), Some(100));
    // Already run in this second.
    assert_eq!(scheduler.tick(&now, 100, 100, false, true), TickAction::Wait);
    // A minute that does not match waits.
    assert_eq!(scheduler.tick(&at(2024, 1, 1, 12, 6, 0), 160, 160, false, true), TickAction::Wait);
    // A busy pool of several workers still runs.
    assert_eq!(scheduler.tick(&at(2024, 1, 1, 12, 10, 0), 400, 400, true, false), TickAction::Run);
    assert_eq!(scheduler.previous_or_current_run(), Some(400));

    scheduler.pause();
    assert!(!scheduler.is_running());
    assert!(!scheduler.is_stopped());
    scheduler.resume();
    assert!(scheduler.is_running());
}

#[test]
fn a_scheduler_lists_its_next_runs() {
    let cron = Cron::from_str("0 */6 * * *").unwrap();
    let scheduler = CronScheduler::new(cron).with_max_executions(3);
    let start = at(2024, 1, 1, 1, 0, 0);
    assert_eq!(
        scheduler.next_runs(start, 3),
        vec![at(2024, 1, 1, 6, 0, 0), at(2024, 1, 1, 12, 0, 0), at(2024, 1, 1, 18, 0, 0)]
    );
    assert_eq!(scheduler.next_run_from(&at(2024, 1, 1, 6, 0, 0)), Some(at(2024, 1, 1, 6, 0, 0)));
    assert_eq!(scheduler.next_run_after(&at(2024, 1, 1, 6, 0, 0)), Some(at(2024, 1, 1, 12, 0, 0)));
    assert_eq!(scheduler.next_runs(start, 0), vec![]);
}

#[test]
fn a_search_owed_an_answer_finds_it_from_outside_the_supported_years() -> Result<(), CronError> {
    let cron = Cron::from_str("0 0 1 1 *")?;
    // Forward from before the first supported year.
    assert_eq!(cron.find_next_occurrence(&at(-5, 6, 1, 0, 0, 0), false)?, at(1, 1, 1, 0, 0, 0));
    // Backward from after the last supported year.
    assert_eq!(cron.find_previous_occurrence(&at(6000, 6, 1, 0, 0, 0), false)?, at(5000, 1, 1, 0, 0, 0));
    // Every search from a matching time inside the years finds the next one.
    let mut t = at(1999, 1, 1, 0, 0, 0);
    for year in 2000..2010 {
        t = cron.find_next_occurrence(&t, false)?;
        assert_eq!(t, at(year, 1, 1, 0, 0, 0));
    }
    Ok(())
}

#[test]
fn scheduled_task_context_hands_back_its_value() {
    let context = ScheduledTaskContext::new(String::from("job"));
    assert_eq!(context.get(), Some(&String::from("job")));
}

#[test]
fn pick_instant_follows_the_rules_for_repeated_and_skipped_times() {
    let start = CivilDateTime::from_ymd_hms(2024, 10, 27, 1, 0, 0).unwrap();
    let first = CivilDateTime::from_ymd_hms(2024, 10, 27, 2, 30, 0).unwrap();
    let second = CivilDateTime::from_ymd_hms(2024, 10, 27, 3, 30, 0).unwrap();
    let before = CivilDateTime::from_ymd_hms(2024, 10, 27, 0, 30, 0).unwrap();
    // A time that happens twice gives a job at a fixed time its first instant.
    assert_eq!(
        pick_instant(&start, Resolution::Ambiguous(first, second), JobType::FixedTime, false, Direction::Forward),
        Some(first)
    );
    // An interval job takes the first instant beyond the start in its direction.
    assert_eq!(
        pick_instant(&start, Resolution::Ambiguous(before, second), JobType::IntervalWildcard, false, Direction::Forward),
        Some(second)
    );
    let late = CivilDateTime::from_ymd_hms(2024, 10, 27, 4, 0, 0).unwrap();
    assert_eq!(
        pick_instant(&late, Resolution::Ambiguous(first, second), JobType::IntervalWildcard, false, Direction::Backward),
        Some(second)
    );
    // A fixed-time job whose first instant lies behind the start gets nothing.
    assert_eq!(
        pick_instant(&start, Resolution::Ambiguous(before, second), JobType::FixedTime, false, Direction::Forward),
        None
    );
    // A gap gives no instant of its own.
    assert_eq!(
        pick_instant(&start, Resolution::<CivilDateTime>::Gap, JobType::FixedTime, false, Direction::Forward),
        None
    );
    assert_eq!(
        pick_instant(&start, Resolution::Single(first), JobType::FixedTime, false, Direction::Forward),
        Some(first)
    );
    assert_eq!(
        pick_instant(&start, Resolution::Single(before), JobType::FixedTime, false, Direction::Forward),
        None
    );
}
