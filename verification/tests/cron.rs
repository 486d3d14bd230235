use std::str::FromStr as _;

use croner::errors::CronError;
use croner::parser::{CronParser, Seconds};
use croner::pattern::{CronPattern, YEAR_LOWER_LIMIT, YEAR_UPPER_LIMIT};
use croner::time::{CivilDateTime, CronDateTime, Weekday};
use croner::{Cron, Direction, JobType};

fn at(year: i32, month: u32, day: u32, hour: u32, minute: u32, second: u32) -> CivilDateTime {
    CivilDateTime::from_ymd_hms(year, month, day, hour, minute, second).expect("test time must exist")
}

fn collect(mut it: croner::iterator::CronIterator<CivilDateTime>, n: usize) -> Vec<CivilDateTime> {
    let mut out = Vec::new();
    while out.len() < n {
        match it.next() {
            Some(t) => out.push(t),
            None => break,
        }
    }
    out
}

fn day_match(pattern: &CronPattern, year: i32, month: u32, day: u32) -> Result<bool, CronError> {
    let weekday = at(year, month, day, 0, 0, 0).civil_weekday();
    pattern.day_match(year, month, day, weekday)
}

#[test]
fn test_is_time_matching() -> Result<(), CronError> {
    let cron = Cron::from_str("0 9 1 1 *")?;
    assert!(cron.is_time_matching(&at(2023, 1, 1, 9, 0, 0))?);
    assert!(!cron.is_time_matching(&at(2023, 1, 1, 10, 0, 0))?);
    Ok(())
}

#[test]
fn test_last_day_of_february_non_leap_year() -> Result<(), CronError> {
    let cron = Cron::from_str("0 9 L 2 *")?;
    assert!(cron.is_time_matching(&at(2023, 2, 28, 9, 0, 0))?);
    assert!(!cron.is_time_matching(&at(2023, 2, 28, 10, 0, 0))?);
    assert!(!cron.is_time_matching(&at(2023, 2, 27, 9, 0, 0))?);
    Ok(())
}

#[test]
fn test_last_day_of_february_leap_year() -> Result<(), CronError> {
    let cron = Cron::from_str("0 9 L 2 *")?;
    assert!(cron.is_time_matching(&at(2024, 2, 29, 9, 0, 0))?);
    assert!(!cron.is_time_matching(&at(2024, 2, 29, 10, 0, 0))?);
    assert!(!cron.is_time_matching(&at(2024, 2, 28, 9, 0, 0))?);
    Ok(())
}

#[test]
fn test_last_friday_of_year() -> Result<(), CronError> {
    let cron = Cron::from_str("0 0 * * FRI#L")?;
    assert!(cron.is_time_matching(&at(2023, 12, 29, 0, 0, 0))?);
    Ok(())
}

#[test]
fn test_last_friday_of_year_alternative_alpha_syntax() -> Result<(), CronError> {
    let cron = Cron::from_str("0 0 * * FRIl")?;
    assert!(cron.is_time_matching(&at(2023, 12, 29, 0, 0, 0))?);
    Ok(())
}

#[test]
fn test_last_friday_of_year_alternative_number_syntax() -> Result<(), CronError> {
    let cron = Cron::from_str("0 0 * * 5L")?;
    assert!(cron.is_time_matching(&at(2023, 12, 29, 0, 0, 0))?);
    Ok(())
}

#[test]
fn test_find_next_occurrence() -> Result<(), CronError> {
    let cron = CronParser::builder()
        .seconds(Seconds::Optional)
        .build()
        .parse("* * * * * *")?;
    let next = cron.find_next_occurrence(&at(2023, 1, 1, 0, 0, 29), false)?;
    assert_eq!(next, at(2023, 1, 1, 0, 0, 30));
    Ok(())
}

#[test]
fn test_find_next_minute() -> Result<(), CronError> {
    let cron = Cron::from_str("* * * * *")?;
    let next = cron.find_next_occurrence(&at(2023, 1, 1, 0, 0, 29), false)?;
    assert_eq!(next, at(2023, 1, 1, 0, 1, 0));
    Ok(())
}

#[test]
fn test_wrap_month_and_year() -> Result<(), CronError> {
    let cron = CronParser::builder()
        .seconds(Seconds::Optional)
        .build()
        .parse("0 0 15 * * *")?;
    let next = cron.find_next_occurrence(&at(2023, 12, 31, 16, 0, 0), false)?;
    assert_eq!(next, at(2024, 1, 1, 15, 0, 0));
    Ok(())
}

#[test]
fn test_weekday_pattern_correct_weekdays() -> Result<(), CronError> {
    let schedule = CronParser::builder()
        .seconds(Seconds::Optional)
        .build()
        .parse("0 0 0 * * 5,6")?;
    let next_runs = collect(schedule.iter_after(at(2022, 2, 17, 0, 0, 0)), 6);
    assert_eq!(next_runs[0].year(), 2022);
    assert_eq!(next_runs[0].month(), 2);
    assert_eq!(next_runs[0].day(), 18);
    assert_eq!(next_runs[1].day(), 19);
    assert_eq!(next_runs[2].day(), 25);
    assert_eq!(next_runs[3].day(), 26);
    assert_eq!(next_runs[4].month(), 3);
    assert_eq!(next_runs[4].day(), 4);
    assert_eq!(next_runs[5].day(), 5);
    Ok(())
}

#[test]
fn test_weekday_pattern_combined_with_day_of_month() -> Result<(), CronError> {
    let schedule = CronParser::builder()
        .seconds(Seconds::Optional)
        .build()
        .parse("59 59 23 2 * 6")?;
    let next_runs = collect(schedule.iter_after(at(2022, 1, 31, 0, 0, 0)), 6);
    assert_eq!(next_runs[0].year(), 2022);
    assert_eq!(next_runs[0].month(), 2);
    assert_eq!(next_runs[0].day(), 2);
    assert_eq!(next_runs[1].month(), 2);
    assert_eq!(next_runs[1].day(), 5);
    assert_eq!(next_runs[2].month(), 2);
    assert_eq!(next_runs[2].day(), 12);
    assert_eq!(next_runs[3].month(), 2);
    assert_eq!(next_runs[3].day(), 19);
    assert_eq!(next_runs[4].month(), 2);
    assert_eq!(next_runs[4].day(), 26);
    assert_eq!(next_runs[5].month(), 3);
    assert_eq!(next_runs[5].day(), 2);
    Ok(())
}

#[test]
fn test_weekday_pattern_alone() -> Result<(), CronError> {
    let schedule = Cron::from_str("15 9 * * mon")?;
    let next_runs = collect(schedule.iter_after(at(2022, 2, 28, 23, 59, 0)), 3);
    assert_eq!(next_runs[0].year(), 2022);
    assert_eq!(next_runs[0].month(), 3);
    assert_eq!(next_runs[0].day(), 7);
    assert_eq!(next_runs[0].hour(), 9);
    assert_eq!(next_runs[0].minute(), 15);
    assert_eq!(next_runs[1].day(), 14);
    assert_eq!(next_runs[1].hour(), 9);
    assert_eq!(next_runs[1].minute(), 15);
    assert_eq!(next_runs[2].day(), 21);
    assert_eq!(next_runs[2].hour(), 9);
    assert_eq!(next_runs[2].minute(), 15);
    Ok(())
}

#[test]
fn test_cron_expression_13w_wed() -> Result<(), CronError> {
    let cron = Cron::from_str("0 0 13W * WED")?;
    let expected_dates = [
        at(2024, 1, 3, 0, 0, 0),
        at(2024, 1, 10, 0, 0, 0),
        at(2024, 1, 12, 0, 0, 0),
        at(2024, 1, 17, 0, 0, 0),
        at(2024, 1, 24, 0, 0, 0),
    ];
    let runs = collect(cron.clone().iter_from(at(2024, 1, 1, 0, 0, 0), Direction::Forward), 5);
    assert_eq!(runs, expected_dates);
    Ok(())
}

#[test]
fn test_cron_expression_31dec_fri() -> Result<(), CronError> {
    let cron = CronParser::builder()
        .seconds(Seconds::Required)
        .dom_and_dow(true)
        .build()
        .parse("0 0 0 31 12 FRI")?;
    let expected_dates = [
        at(2027, 12, 31, 0, 0, 0),
        at(2032, 12, 31, 0, 0, 0),
        at(2038, 12, 31, 0, 0, 0),
        at(2049, 12, 31, 0, 0, 0),
        at(2055, 12, 31, 0, 0, 0),
    ];
    let runs = collect(cron.iter_from(at(2024, 1, 1, 0, 0, 0), Direction::Forward), 5);
    assert_eq!(runs, expected_dates);
    Ok(())
}

#[test]
fn test_find_next_occurrence_edge_case_inclusive() -> Result<(), CronError> {
    let cron = CronParser::builder()
        .seconds(Seconds::Required)
        .build()
        .parse("59 59 23 * * *")?;
    let start = at(2023, 3, 14, 23, 59, 59);
    assert_eq!(cron.find_next_occurrence(&start, true)?, start);
    Ok(())
}

#[test]
fn test_find_next_occurrence_edge_case_exclusive() -> Result<(), CronError> {
    let cron = CronParser::builder()
        .seconds(Seconds::Optional)
        .build()
        .parse("59 59 23 * * *")?;
    let start = at(2023, 3, 14, 23, 59, 59);
    assert_eq!(cron.find_next_occurrence(&start, false)?, at(2023, 3, 15, 23, 59, 59));
    Ok(())
}

#[test]
fn test_cron_iterator_large_time_jumps() -> Result<(), CronError> {
    let cron = Cron::from_str("0 0 * * *")?;
    let runs = collect(cron.iter_after(at(2020, 1, 1, 0, 0, 0)), 365 * 5 + 2);
    assert_eq!(runs.last().copied(), Some(at(2025, 1, 1, 0, 0, 0)));
    Ok(())
}

#[test]
fn test_handling_different_month_lengths() -> Result<(), CronError> {
    let cron = Cron::from_str("0 0 L * *")?;
    assert_eq!(
        cron.find_next_occurrence(&at(2023, 2, 1, 0, 0, 0), false)?,
        at(2023, 2, 28, 0, 0, 0)
    );
    assert_eq!(
        cron.find_next_occurrence(&at(2024, 2, 1, 0, 0, 0), false)?,
        at(2024, 2, 29, 0, 0, 0)
    );
    assert_eq!(
        cron.find_next_occurrence(&at(2023, 4, 1, 0, 0, 0), false)?,
        at(2023, 4, 30, 0, 0, 0)
    );
    Ok(())
}

#[test]
fn test_cron_iterator_non_standard_intervals() -> Result<(), CronError> {
    let cron = CronParser::builder()
        .seconds(Seconds::Optional)
        .build()
        .parse("*/29 */13 * * * *")?;
    let runs = collect(cron.iter_after(at(2023, 1, 1, 0, 0, 0)), 2);
    assert_eq!(runs[0].hour() % 13, 0);
    assert_eq!(runs[0].minute() % 29, 0);
    assert_eq!(runs[1].hour() % 13, 0);
    assert_eq!(runs[1].minute() % 29, 0);
    Ok(())
}

#[test]
fn test_cron_iterator_non_standard_intervals_with_offset() -> Result<(), CronError> {
    // Steps from a single start value need sloppy ranges.
    assert!(Cron::from_str("7/29 2/13 * * *").is_err());
    let cron = CronParser::builder().sloppy_ranges(true).build().parse("7/29 2/13 * * *")?;
    let runs = collect(cron.iter_after(at(2023, 1, 1, 0, 0, 0)), 2);
    assert_eq!(runs[0].hour(), 2);
    assert_eq!(runs[0].minute(), 7);
    assert_eq!(runs[1].hour(), 2);
    assert_eq!(runs[1].minute(), 36);
    Ok(())
}

#[test]
fn test_unusual_cron_expression_end_month_start_month_mon() -> Result<(), CronError> {
    let cron = Cron::from_str("0 0 */31,1-7 */1 MON")?;
    let expected_dates = vec![
        at(2023, 12, 25, 0, 0, 0),
        at(2024, 1, 1, 0, 0, 0),
        at(2024, 1, 2, 0, 0, 0),
        at(2024, 1, 3, 0, 0, 0),
        at(2024, 1, 4, 0, 0, 0),
        at(2024, 1, 5, 0, 0, 0),
        at(2024, 1, 6, 0, 0, 0),
        at(2024, 1, 7, 0, 0, 0),
        at(2024, 1, 8, 0, 0, 0),
        at(2024, 1, 15, 0, 0, 0),
        at(2024, 1, 22, 0, 0, 0),
        at(2024, 1, 29, 0, 0, 0),
        at(2024, 2, 1, 0, 0, 0),
    ];
    let runs = collect(
        cron.iter_from(at(2023, 12, 24, 0, 0, 0), Direction::Forward),
        expected_dates.len(),
    );
    assert_eq!(runs.len(), 13);
    assert_eq!(runs, expected_dates);
    Ok(())
}

#[test]
fn test_unusual_cron_expression_end_month_start_month_mon_dom_and_dow() -> Result<(), CronError> {
    let cron = CronParser::builder()
        .seconds(Seconds::Optional)
        .dom_and_dow(true)
        .build()
        .parse("0 0 */31,1-7 */1 MON")?;
    let expected_dates = [
        at(2024, 1, 1, 0, 0, 0),
        at(2024, 2, 5, 0, 0, 0),
        at(2024, 3, 4, 0, 0, 0),
    ];
    let runs = collect(cron.iter_from(at(2023, 12, 24, 0, 0, 0), Direction::Forward), 3);
    assert_eq!(runs, expected_dates);
    Ok(())
}

#[test]
fn test_cron_expression_29feb_march_fri() -> Result<(), CronError> {
    let cron = CronParser::builder()
        .seconds(Seconds::Optional)
        .dom_and_dow(true)
        .build()
        .parse("0 0 29 2-3 FRI")?;
    let expected_dates = [
        at(2024, 3, 29, 0, 0, 0),
        at(2030, 3, 29, 0, 0, 0),
        at(2036, 2, 29, 0, 0, 0),
        at(2041, 3, 29, 0, 0, 0),
        at(2047, 3, 29, 0, 0, 0),
    ];
    let runs = collect(cron.iter_from(at(2024, 1, 1, 0, 0, 0), Direction::Forward), 5);
    assert_eq!(runs, expected_dates);
    Ok(())
}

#[test]
fn test_cron_expression_second_sunday_using_seven() -> Result<(), CronError> {
    let cron = CronParser::builder()
        .seconds(Seconds::Optional)
        .build()
        .parse("0 0 0 * * 7#2")?;
    let expected_dates = [
        at(2024, 10, 13, 0, 0, 0),
        at(2024, 11, 10, 0, 0, 0),
        at(2024, 12, 8, 0, 0, 0),
        at(2025, 1, 12, 0, 0, 0),
        at(2025, 2, 9, 0, 0, 0),
    ];
    let runs = collect(cron.iter_from(at(2024, 10, 1, 0, 0, 0), Direction::Forward), 5);
    assert_eq!(runs, expected_dates);
    Ok(())
}

#[test]
fn test_specific_and_wildcard_entries() -> Result<(), CronError> {
    let cron = Cron::from_str("15 */2 * 3,5 FRI")?;
    assert!(cron.is_time_matching(&at(2023, 3, 3, 2, 15, 0))?);
    assert!(!cron.is_time_matching(&at(2023, 3, 3, 3, 15, 0))?);
    Ok(())
}

#[test]
fn test_month_weekday_edge_cases() -> Result<(), CronError> {
    let cron = Cron::from_str("0 0 * 2-3 SUN")?;
    assert!(cron.is_time_matching(&at(2023, 2, 5, 0, 0, 0))?);
    assert!(!cron.is_time_matching(&at(2023, 2, 5, 0, 0, 1))?);
    Ok(())
}

#[test]
fn test_leap_year() -> Result<(), CronError> {
    let cron = Cron::from_str("0 0 29 2 *")?;
    assert!(cron.is_time_matching(&at(2024, 2, 29, 0, 0, 0))?);
    Ok(())
}

#[test]
fn test_tabs_for_separator() -> Result<(), CronError> {
    let cron = Cron::from_str("0	0	29	2	*")?;
    assert!(cron.is_time_matching(&at(2024, 2, 29, 0, 0, 0))?);
    Ok(())
}

#[test]
fn test_mixed_separators() -> Result<(), CronError> {
    let cron = Cron::from_str("0 	0  	29 	2 		*")?;
    assert!(cron.is_time_matching(&at(2024, 2, 29, 0, 0, 0))?);
    Ok(())
}

#[test]
fn test_mixed_leading_separators() -> Result<(), CronError> {
    let cron = Cron::from_str(" 	0 0 29 2 *")?;
    assert!(cron.is_time_matching(&at(2024, 2, 29, 0, 0, 0))?);
    Ok(())
}

#[test]
fn test_mixed_tailing_separators() -> Result<(), CronError> {
    let cron = Cron::from_str("0 0 29 2 * 	 ")?;
    assert!(cron.is_time_matching(&at(2024, 2, 29, 0, 0, 0))?);
    Ok(())
}

#[test]
fn test_time_overflow() -> Result<(), CronError> {
    let cron_match = CronParser::builder()
        .seconds(Seconds::Optional)
        .build()
        .parse("59 59 23 31 12 *")?;
    let cron_next = CronParser::builder()
        .seconds(Seconds::Optional)
        .build()
        .parse("0 0 0 1 1 *")?;
    let time_matching = at(2023, 12, 31, 23, 59, 59);
    assert!(cron_match.is_time_matching(&time_matching)?);
    assert_eq!(cron_next.find_next_occurrence(&time_matching, false)?, at(2024, 1, 1, 0, 0, 0));
    assert_eq!(
        cron_match.find_next_occurrence(&time_matching, false)?,
        at(2024, 12, 31, 23, 59, 59)
    );
    Ok(())
}

#[test]
fn test_yearly_recurrence() -> Result<(), CronError> {
    let cron = Cron::from_str("0 0 1 1 *")?;
    assert!(cron.is_time_matching(&at(2023, 1, 1, 0, 0, 0))?);
    assert!(!cron.is_time_matching(&at(2023, 1, 2, 0, 0, 0))?);
    Ok(())
}

#[test]
fn test_find_previous_occurrence() -> Result<(), CronError> {
    let cron = Cron::from_str("* * * * *")?;
    let prev = cron.find_previous_occurrence(&at(2023, 1, 1, 0, 1, 30), false)?;
    assert_eq!(prev, at(2023, 1, 1, 0, 1, 0));
    Ok(())
}

#[test]
fn test_find_previous_occurrence_inclusive() -> Result<(), CronError> {
    let cron = Cron::from_str("* * * * *")?;
    let start = at(2023, 1, 1, 0, 1, 0);
    assert_eq!(cron.find_previous_occurrence(&start, true)?, start);
    Ok(())
}

#[test]
fn test_wrap_year_backwards() -> Result<(), CronError> {
    let cron = Cron::from_str("0 0 1 1 *")?;
    assert_eq!(
        cron.find_previous_occurrence(&at(2024, 1, 1, 0, 0, 1), false)?,
        at(2024, 1, 1, 0, 0, 0)
    );
    assert_eq!(
        cron.find_previous_occurrence(&at(2024, 1, 1, 0, 0, 0), false)?,
        at(2023, 1, 1, 0, 0, 0)
    );
    Ok(())
}

#[test]
fn test_find_occurrence_at_min_year_limit() -> Result<(), CronError> {
    let cron = Cron::from_str("0 0 1 1 *")?;
    let start = at(YEAR_LOWER_LIMIT, 1, 1, 0, 0, 1);
    let expected = at(YEAR_LOWER_LIMIT, 1, 1, 0, 0, 0);
    assert_eq!(cron.find_previous_occurrence(&start, false)?, expected);
    let result = cron.find_previous_occurrence(&expected, false);
    assert!(matches!(result, Err(CronError::TimeSearchLimitExceeded)));
    Ok(())
}

#[test]
fn test_find_occurrence_at_max_year_limit() -> Result<(), CronError> {
    let cron = Cron::from_str("0 0 1 1 *")?;
    let start = at(YEAR_UPPER_LIMIT - 1, 12, 31, 23, 59, 59);
    let expected = at(YEAR_UPPER_LIMIT, 1, 1, 0, 0, 0);
    assert_eq!(cron.find_next_occurrence(&start, false)?, expected);
    let result = cron.find_next_occurrence(&expected, false);
    assert!(matches!(result, Err(CronError::TimeSearchLimitExceeded)));
    Ok(())
}

#[test]
fn test_weekday_for_historical_date_1831() -> Result<(), CronError> {
    let cron = Cron::from_str("0 0 * * SUN")?;
    assert!(cron.is_time_matching(&at(1831, 6, 5, 0, 0, 0))?);
    assert!(!cron.is_time_matching(&at(1831, 6, 6, 0, 0, 0))?);
    Ok(())
}

#[test]
fn test_find_next_occurrence_with_year_range_outside_start() {
    let cron = Cron::from_str("0 0 0 1 1 * 2080-2085").unwrap();
    let next = cron.find_next_occurrence(&at(2024, 1, 1, 0, 0, 0), false).unwrap();
    assert_eq!(next, at(2080, 1, 1, 0, 0, 0));
}

#[test]
fn test_find_previous_occurrence_with_year_range_outside_start() {
    let cron = Cron::from_str("0 0 0 1 1 * 2030-2035").unwrap();
    let prev = cron.find_previous_occurrence(&at(2050, 1, 1, 0, 0, 0), false).unwrap();
    assert_eq!(prev, at(2035, 1, 1, 0, 0, 0));
}

#[test]
fn pattern_test_closest_weekday() -> Result<(), CronError> {
    let cron = CronParser::builder()
        .seconds(Seconds::Optional)
        .build()
        .parse("0 0 0 15W * *")?;
    assert!(day_match(&cron.pattern, 2023, 6, 15)?);
    assert!(day_match(&cron.pattern, 2024, 6, 14)?);
    assert!(day_match(&cron.pattern, 2023, 10, 16)?);
    assert!(!day_match(&cron.pattern, 2023, 6, 16)?);
    Ok(())
}

#[test]
fn test_closest_weekday_with_alternative_weekdays() -> Result<(), CronError> {
    let cron = CronParser::builder()
        .seconds(Seconds::Required)
        .alternative_weekdays(true)
        .build()
        .parse("0 0 0 15W * *")?;
    assert!(day_match(&cron.pattern, 2023, 6, 15)?);
    assert!(day_match(&cron.pattern, 2024, 6, 14)?);
    assert!(day_match(&cron.pattern, 2023, 10, 16)?);
    assert!(!day_match(&cron.pattern, 2023, 6, 16)?);
    Ok(())
}

#[test]
fn test_closest_weekday_month_boundary() -> Result<(), CronError> {
    let cron = CronParser::builder()
        .seconds(Seconds::Optional)
        .build()
        .parse("0 0 0 1W * *")?;
    assert!(!day_match(&cron.pattern, 2025, 10, 31)?, "Should not trigger on previous month");
    assert!(day_match(&cron.pattern, 2025, 11, 3)?, "Should trigger on Mon 3rd for Sat 1st");
    assert!(!day_match(&cron.pattern, 2025, 11, 1)?, "Should not trigger on Sat 1st itself");
    assert!(day_match(&cron.pattern, 2025, 6, 2)?, "Should trigger on Mon 2nd for Sun 1st");
    assert!(!day_match(&cron.pattern, 2025, 6, 3)?, "Should NOT trigger on Tue 3rd for Sun 1st");
    let cron_end = CronParser::builder()
        .seconds(Seconds::Optional)
        .build()
        .parse("0 0 0 31W * *")?;
    assert!(day_match(&cron_end.pattern, 2025, 8, 29)?, "Should trigger on Fri 29th for Sun 31st");
    assert!(!day_match(&cron_end.pattern, 2025, 9, 1)?, "Should not trigger on next month");
    Ok(())
}

#[test]
fn day_match_rejects_dates_that_do_not_exist() -> Result<(), CronError> {
    let cron = CronParser::builder().build().parse("0 0 * * *")?;
    assert!(cron.pattern.day_match(2023, 2, 29, Weekday::Wednesday).is_err());
    assert!(cron.pattern.day_match(2023, 0, 1, Weekday::Sunday).is_err());
    assert!(cron.pattern.day_match(2023, 13, 1, Weekday::Sunday).is_err());
    assert!(cron.pattern.day_match(2023, 1, 0, Weekday::Sunday).is_err());
    assert!(cron.pattern.day_match(2023, 4, 31, Weekday::Sunday).is_err());
    assert!(day_match(&cron.pattern, 2024, 2, 29)?);
    Ok(())
}

#[test]
fn test_5_field_baseline() {
    assert!(Cron::from_str("15 10 1 10 *").is_ok(), "Should parse a 5-field pattern.");
}

#[test]
fn test_special_chars_wildcard_list_range_step() {
    assert!(
        Cron::from_str("*/15 0-4,8-12 * JAN-MAR,DEC MON-FRI").is_ok(),
        "Should handle *, /, -, and , correctly."
    );
}

#[test]
fn test_logical_or_for_date_fields() {
    let cron = Cron::from_str("0 12 1 * MON").unwrap();
    assert!(cron.is_time_matching(&at(2025, 7, 1, 12, 0, 0)).unwrap());
    assert!(cron.is_time_matching(&at(2025, 7, 14, 12, 0, 0)).unwrap());
}

#[test]
fn test_last_day_of_month() {
    let cron = Cron::from_str("0 0 L * *").unwrap();
    assert!(cron.is_time_matching(&at(2025, 7, 31, 0, 0, 0)).unwrap());
    assert!(!cron.is_time_matching(&at(2025, 7, 30, 0, 0, 0)).unwrap());
}

#[test]
fn test_last_weekday_of_month() {
    let cron = Cron::from_str("0 0 * * 5L").unwrap();
    assert!(cron.is_time_matching(&at(2025, 7, 25, 0, 0, 0)).unwrap());
    assert!(!cron.is_time_matching(&at(2025, 7, 18, 0, 0, 0)).unwrap());
}

#[test]
fn test_nth_weekday_of_month() {
    let cron = Cron::from_str("0 0 * * 2#2").unwrap();
    assert!(cron.is_time_matching(&at(2025, 7, 8, 0, 0, 0)).unwrap());
    assert!(!cron.is_time_matching(&at(2025, 7, 1, 0, 0, 0)).unwrap());
}

#[test]
fn ocps_test_closest_weekday() {
    let cron = Cron::from_str("0 0 5W 7 *").unwrap();
    assert!(cron.is_time_matching(&at(2025, 7, 4, 0, 0, 0)).unwrap());
}

#[test]
fn test_31w_only_triggers_if_31st_exists() {
    let cron = Cron::from_str("0 0 31W * *").unwrap();
    assert!(cron.is_time_matching(&at(2025, 1, 31, 0, 0, 0)).unwrap());
    assert!(!cron.is_time_matching(&at(2025, 2, 28, 0, 0, 0)).unwrap());
    assert!(!cron.is_time_matching(&at(2025, 4, 30, 0, 0, 0)).unwrap());
    assert!(cron.is_time_matching(&at(2025, 5, 30, 0, 0, 0)).unwrap());
    assert!(cron.is_time_matching(&at(2025, 8, 29, 0, 0, 0)).unwrap());
}

#[test]
fn test_global_and_mode() {
    let cron = CronParser::builder().dom_and_dow(true).build().parse("0 12 1 * MON").unwrap();
    assert!(cron.is_time_matching(&at(2025, 9, 1, 12, 0, 0)).unwrap());
    assert!(!cron.is_time_matching(&at(2025, 7, 1, 12, 0, 0)).unwrap());
    assert!(!cron.is_time_matching(&at(2025, 7, 14, 12, 0, 0)).unwrap());
}

#[test]
fn test_plus_modifier_invalid_field() {
    let result = CronParser::builder().build().parse("0 0 +1 * *");
    assert!(matches!(result, Err(CronError::IllegalCharacters(_))));
}

#[test]
fn test_valid_step_syntax() {
    assert!(Cron::from_str("*/10 * * * *").is_ok());
    assert!(Cron::from_str("0-30/10 * * * *").is_ok());
    assert!(Cron::from_str("10-50/5 * * * *").is_ok());
}

#[test]
fn job_types_follow_the_time_fields() {
    assert_eq!(Cron::from_str("30 2 * * *").unwrap().determine_job_type(), JobType::FixedTime);
    assert_eq!(
        Cron::from_str("*/5 2 * * *").unwrap().determine_job_type(),
        JobType::IntervalWildcard
    );
    assert_eq!(
        Cron::from_str("0 1,2 * * *").unwrap().determine_job_type(),
        JobType::IntervalWildcard
    );
}

#[test]
fn civil_search_finds_the_first_match_either_way() {
    let cron = Cron::from_str("0 12 * * MON").unwrap();
    let start = at(2024, 5, 1, 0, 0, 0);
    let next = cron.find_civil_occurrence(start, false, Direction::Forward).unwrap();
    assert_eq!(next, at(2024, 5, 6, 12, 0, 0));
    let prev = cron.find_civil_occurrence(next, false, Direction::Backward).unwrap();
    assert_eq!(prev, at(2024, 4, 29, 12, 0, 0));
    assert_eq!(cron.find_civil_occurrence(next, true, Direction::Backward).unwrap(), next);
}

#[test]
fn iterators_step_both_ways() {
    let cron = Cron::from_str("0 */6 * * *").unwrap();
    let forward = collect(cron.iter_after(at(2024, 1, 1, 1, 0, 0)), 3);
    assert_eq!(
        forward,
        vec![at(2024, 1, 1, 6, 0, 0), at(2024, 1, 1, 12, 0, 0), at(2024, 1, 1, 18, 0, 0)]
    );
    let backward = collect(cron.iter_before(at(2024, 1, 1, 1, 0, 0)), 2);
    assert_eq!(backward, vec![at(2024, 1, 1, 0, 0, 0), at(2023, 12, 31, 18, 0, 0)]);
    let mut it = cron.iter_after(at(YEAR_UPPER_LIMIT, 12, 31, 18, 0, 0));
    assert!(it.next().is_none());
    assert_eq!(it.last_error(), Some(&CronError::TimeSearchLimitExceeded));
}

#[test]
fn impossible_dates_exhaust_the_search() {
    let cron = Cron::from_str("0 0 30 2 *").unwrap();
    let result = cron.find_next_occurrence(&at(2024, 1, 1, 0, 0, 0), false);
    assert!(matches!(result, Err(CronError::TimeSearchLimitExceeded)));
}

#[test]
fn cron_text_round_trips() {
    let cron = Cron::from_str("  0 12 * * mon-fri ").unwrap();
    assert_eq!(cron.as_str(), "0 12 * * 1-5");
    assert_eq!(cron.to_string(), "0 12 * * 1-5");
    assert_eq!(cron.pattern.to_string(), "0 12 * * 1-5");
}

#[test]
fn test_nicknames() {
    let custom_parse = |pattern: &str| CronParser::builder().dom_and_dow(false).build().parse(pattern);
    assert_eq!(custom_parse("@yearly").unwrap().pattern.to_string().to_uppercase(), "0 0 1 1 *");
    assert_eq!(custom_parse("@monthly").unwrap().pattern.to_string().to_uppercase(), "0 0 1 * *");
    assert_eq!(custom_parse("@weekly").unwrap().pattern.to_string().to_uppercase(), "0 0 * * 0");
    assert_eq!(custom_parse("@daily").unwrap().pattern.to_string().to_uppercase(), "0 0 * * *");
    assert_eq!(custom_parse("@hourly").unwrap().pattern.to_string().to_uppercase(), "0 * * * *");
}

#[test]
fn test_question_mark_is_alias_for_wildcard() {
    let cron_star = Cron::from_str("0 0 1 * *").unwrap();
    let cron_q = Cron::from_str("0 0 1 * ?").unwrap();
    assert_eq!(cron_star, cron_q);
}

#[test]
fn civil_seconds_stop_at_the_edge_of_the_calendar() {
    let last = CivilDateTime::from_ymd_hms(i32::MAX, 12, 31, 23, 59, 59).unwrap();
    assert!(last.checked_add_seconds(1).is_none());
    assert_eq!(
        last.checked_add_seconds(-1),
        Some(CivilDateTime::from_ymd_hms(i32::MAX, 12, 31, 23, 59, 58).unwrap())
    );
    let first = CivilDateTime::from_ymd_hms(i32::MIN, 1, 1, 0, 0, 0).unwrap();
    assert!(first.checked_add_seconds(-1).is_none());
}

fn custom_parse(pattern: &str, dom_and_dow: bool) -> Result<Cron, CronError> {
    CronParser::builder().dom_and_dow(dom_and_dow).build().parse(pattern)
}

#[test]
fn test_7_field_with_year() {
    let cron = custom_parse("0 0 12 1 1 * 2025", false).unwrap();
    assert!(cron.pattern.years.is_bit_set(2025, 1).unwrap());
}

#[test]
fn test_last_weekday_lw() {
    let cron = Cron::from_str("0 0 LW * *").unwrap();
    assert!(cron.is_time_matching(&at(2025, 2, 28, 0, 0, 0)).unwrap());
    assert!(cron.is_time_matching(&at(2025, 8, 29, 0, 0, 0)).unwrap());
    assert!(!cron.is_time_matching(&at(2025, 8, 31, 0, 0, 0)).unwrap());
    assert!(cron.is_time_matching(&at(2025, 11, 28, 0, 0, 0)).unwrap());
    assert!(!cron.is_time_matching(&at(2025, 11, 30, 0, 0, 0)).unwrap());
}

#[test]
fn test_lw_find_next_occurrences() {
    let cron = Cron::from_str("0 0 LW * *").expect("Failed to parse LW pattern");
    let expected = vec![
        (2025, 1, 31),
        (2025, 2, 28),
        (2025, 3, 31),
        (2025, 4, 30),
        (2025, 5, 30),
        (2025, 6, 30),
        (2025, 7, 31),
        (2025, 8, 29),
        (2025, 9, 30),
        (2025, 10, 31),
        (2025, 11, 28),
        (2025, 12, 31),
    ];
    let mut current = at(2025, 1, 1, 0, 0, 0);
    for (i, (year, month, day)) in expected.iter().enumerate() {
        match cron.find_next_occurrence(&current, false) {
            Ok(next) => {
                assert_eq!(next.year(), *year, "Year mismatch at index {}", i);
                assert_eq!(next.month(), *month, "Month mismatch at index {}", i);
                assert_eq!(next.day(), *day, "Day mismatch at index {}", i);
                current = next;
            }
            Err(e) => panic!("Error finding occurrence at index {}: {:?}", i, e),
        }
    }
}

#[test]
fn test_and_modifier() {
    let cron = custom_parse("0 12 1 * +MON", false).unwrap();
    assert!(cron.is_time_matching(&at(2025, 9, 1, 12, 0, 0)).unwrap());
    assert!(!cron.is_time_matching(&at(2025, 7, 1, 12, 0, 0)).unwrap());
}

#[test]
fn test_invalid_step_syntax_single_number() {
    for pattern in [
        "0/10 * * * *",
        "30/10 * * * *",
        "* 5/15 * * *",
        "* * 15/5 * *",
        "* * * 6/2 *",
        "* * * * 1/2",
        "/10 * * * *",
        "* /5 * * *",
    ] {
        assert!(Cron::from_str(pattern).is_err(), "Pattern '{}' should be rejected", pattern);
    }
}

#[test]
fn sloppy_ranges_step_from_a_single_start_value() {
    let parser = CronParser::builder().sloppy_ranges(true).build();
    let cron = parser.parse("5/5 * * * *").unwrap();
    assert_eq!(cron, Cron::from_str("5-59/5 * * * *").unwrap());
    assert!(parser.parse("/10 * * * *").is_err());
}

#[test]
fn a_plus_outside_the_day_of_week_is_illegal() {
    assert!(matches!(
        Cron::from_str("0 0 +1 * *"),
        Err(CronError::IllegalCharacters(_))
    ));
    assert!(matches!(
        Cron::from_str("0 0 1 * MON+"),
        Err(CronError::IllegalCharacters(_))
    ));
}

#[test]
fn patterns_compare_by_their_schedule() {
    let early = Cron::from_str("5 * * * *").unwrap();
    let late = Cron::from_str("10 * * * *").unwrap();
    assert!(early.partial_cmp(&late).is_some());
    assert_ne!(early.partial_cmp(&late), Some(std::cmp::Ordering::Equal));
    assert_eq!(
        Cron::from_str("0 0 1 * *").unwrap().partial_cmp(&Cron::from_str("0 0 1 * ?").unwrap()),
        Some(std::cmp::Ordering::Equal)
    );
    assert_eq!(early.pattern.partial_cmp(&early.pattern), Some(std::cmp::Ordering::Equal));
}

#[test]
fn a_w_day_on_a_weekend_moves_within_the_month() {
    let cron = Cron::from_str("0 0 15W * *").unwrap();
    // In a month where the 15th is a Saturday, the 14th (Friday) matches.
    assert_eq!(cron.pattern.closest_weekday(30, 14, Weekday::Friday), Ok(true));
    assert_eq!(cron.pattern.closest_weekday(30, 15, Weekday::Saturday), Ok(false));
    assert_eq!(cron.pattern.closest_weekday(30, 16, Weekday::Sunday), Ok(false));
}
