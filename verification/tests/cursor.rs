use chrono::{Datelike, NaiveDate};

use croner::time::cursor::Cursor;
use croner::time::{CivilDateTime, Weekday};

// Builds a cursor straight from parts, with the weekday taken from chrono.
fn cursor(year: i32, month: u32, day: u32, hour: u32, minute: u32, second: u32) -> Cursor {
    let date = NaiveDate::from_ymd_opt(year, month, day).expect("test date must exist");
    Cursor::from_parts(
        CivilDateTime::from_ymd_hms(year, month, day, hour, minute, second).unwrap(),
        Weekday::from_days_from_sunday(date.weekday().num_days_from_sunday()),
    )
}

// Fails if the cursor's carried weekday has drifted from the truth.
fn assert_agrees_with_calendar(actual: Cursor) {
    let expected = cursor(
        actual.year(),
        actual.month(),
        actual.day(),
        actual.hour(),
        actual.minute(),
        actual.second(),
    );
    assert_eq!(actual, expected, "weekday drifted at {:?}", actual);
}

#[test]
fn seconds_carry_into_the_next_and_previous_day() {
    let end_of_year = cursor(2023, 12, 31, 23, 59, 59);
    let new_year = end_of_year.checked_add_seconds(1).unwrap();
    assert_eq!(new_year.civil(), cursor(2024, 1, 1, 0, 0, 0).civil());
    assert_agrees_with_calendar(new_year);
    assert_agrees_with_calendar(new_year.checked_add_seconds(-1).unwrap());
    // An hour step lands on the previous day just as a second step does.
    assert_agrees_with_calendar(new_year.checked_add_seconds(-3600).unwrap());
}

#[test]
fn month_and_year_moves_keep_the_weekday_in_step() {
    // Walk every day of a leap year and a common year, taking each move
    // from every day so that short and long months are all covered.
    for year in [2024, 2025] {
        let mut day = cursor(year, 1, 1, 12, 0, 0);
        while day.year() == year {
            assert_agrees_with_calendar(day);
            assert_agrees_with_calendar(day.start_of_next_month().unwrap());
            assert_agrees_with_calendar(day.end_of_previous_month().unwrap());
            assert_agrees_with_calendar(day.start_of_next_year().unwrap());
            assert_agrees_with_calendar(day.end_of_previous_year().unwrap());
            day = day.checked_add_days(1).unwrap();
        }
    }
}

#[test]
fn moves_land_on_the_expected_dates() {
    let mid_february = cursor(2024, 2, 15, 8, 30, 15);
    assert_eq!(
        mid_february.start_of_next_month().unwrap().civil(),
        cursor(2024, 3, 1, 0, 0, 0).civil()
    );
    assert_eq!(
        mid_february.end_of_previous_month().unwrap().civil(),
        cursor(2024, 1, 31, 23, 59, 59).civil()
    );
    assert_eq!(
        mid_february.start_of_next_year().unwrap().civil(),
        cursor(2025, 1, 1, 0, 0, 0).civil()
    );
    assert_eq!(
        mid_february.end_of_previous_year().unwrap().civil(),
        cursor(2023, 12, 31, 23, 59, 59).civil()
    );
    // The leap day is reached from February, and skipped in a common year.
    assert_eq!(
        cursor(2024, 2, 28, 0, 0, 0)
            .checked_add_days(1)
            .unwrap()
            .civil(),
        cursor(2024, 2, 29, 0, 0, 0).civil()
    );
    assert_eq!(
        cursor(2023, 2, 28, 0, 0, 0)
            .checked_add_days(1)
            .unwrap()
            .civil(),
        cursor(2023, 3, 1, 0, 0, 0).civil()
    );
}

#[test]
fn day_steps_cross_months_and_years() {
    let mut walked = cursor(2023, 11, 1, 0, 0, 0);
    let mut expected = NaiveDate::from_ymd_opt(2023, 11, 1).unwrap();
    // Cross a 30 day month, a 31 day month and a year boundary.
    for _ in 0..120 {
        assert_eq!(
            (walked.year(), walked.month(), walked.day()),
            (expected.year(), expected.month(), expected.day())
        );
        assert_agrees_with_calendar(walked);
        walked = walked.checked_add_days(1).unwrap();
        expected = expected.succ_opt().unwrap();
    }
    // And the same walk backwards.
    for _ in 0..120 {
        walked = walked.checked_add_days(-1).unwrap();
        expected = expected.pred_opt().unwrap();
        assert_eq!(
            (walked.year(), walked.month(), walked.day()),
            (expected.year(), expected.month(), expected.day())
        );
        assert_agrees_with_calendar(walked);
    }
}
