use croner::time::{
    day_of_year, days_in_month, days_in_year, is_leap_year, CivilDate, CivilDateTime, CivilTime,
    Weekday,
};

#[test]
fn shift_moves_in_both_directions_and_wraps() {
    assert_eq!(Weekday::Wednesday.shift(0), Weekday::Wednesday);
    assert_eq!(Weekday::Wednesday.shift(1), Weekday::Thursday);
    assert_eq!(Weekday::Wednesday.shift(-1), Weekday::Tuesday);
    assert_eq!(Weekday::Saturday.shift(1), Weekday::Sunday);
    assert_eq!(Weekday::Sunday.shift(-1), Weekday::Saturday);
    // A whole number of weeks lands back on the same day.
    assert_eq!(Weekday::Monday.shift(70), Weekday::Monday);
    assert_eq!(Weekday::Monday.shift(-70), Weekday::Monday);
    // The longest shift the matcher makes is the length of a month.
    assert_eq!(Weekday::Friday.shift(31), Weekday::Monday);
}

#[test]
fn shift_agrees_with_stepping_one_day_at_a_time() {
    let mut stepped = Weekday::Thursday;
    for days in 0..400 {
        assert_eq!(Weekday::Thursday.shift(days), stepped, "after {days} days");
        assert_eq!(Weekday::Thursday.shift(-days).shift(days), Weekday::Thursday);
        stepped = stepped.shift(1);
    }
}

#[test]
fn days_in_month_handles_leap_years() {
    assert_eq!(days_in_month(2023, 2), 28);
    assert_eq!(days_in_month(2024, 2), 29);
    assert_eq!(days_in_month(2000, 2), 29);
    assert_eq!(days_in_month(1900, 2), 28);
    assert_eq!(days_in_month(2024, 4), 30);
    assert_eq!(days_in_month(2024, 12), 31);
}

#[test]
fn weekday_numbers_round_trip() {
    for n in 0..7 {
        assert_eq!(Weekday::from_days_from_sunday(n).num_days_from_sunday(), n);
    }
    assert_eq!(Weekday::from_days_from_sunday(9), Weekday::Tuesday);
}

#[test]
fn leap_years_and_year_lengths() {
    assert!(is_leap_year(2024));
    assert!(!is_leap_year(2023));
    assert!(!is_leap_year(1900));
    assert!(is_leap_year(2000));
    assert!(is_leap_year(-4));
    assert_eq!(days_in_year(2024), 366);
    assert_eq!(days_in_year(2023), 365);
}

#[test]
fn day_of_year_counts_from_january_first() {
    assert_eq!(day_of_year(2023, 1, 1), 1);
    assert_eq!(day_of_year(2023, 3, 1), 60);
    assert_eq!(day_of_year(2024, 3, 1), 61);
    assert_eq!(day_of_year(2024, 12, 31), 366);
    let date = CivilDate::from_ymd(2023, 12, 31).unwrap();
    assert_eq!(date.day_of_year(), 365);
    assert_eq!(date.days_in_month(), 31);
}

#[test]
fn civil_values_check_their_parts() {
    assert!(CivilDate::from_ymd_opt(2023, 2, 29).is_none());
    assert!(CivilDate::from_ymd_opt(2024, 2, 29).is_some());
    assert!(CivilDate::from_ymd_opt(2024, 13, 1).is_none());
    assert!(CivilDate::from_ymd_opt(2024, 0, 1).is_none());
    assert!(CivilTime::from_hms_opt(24, 0, 0).is_none());
    assert!(CivilTime::from_hms_opt(23, 59, 60).is_none());
    let dt = CivilDateTime::from_ymd_hms(2024, 5, 6, 7, 8, 9).unwrap();
    assert_eq!(
        (dt.year(), dt.month(), dt.day(), dt.hour(), dt.minute(), dt.second()),
        (2024, 5, 6, 7, 8, 9)
    );
    assert!(CivilDateTime::from_ymd_hms(2024, 2, 30, 0, 0, 0).is_err());
    assert!(CivilDateTime::from_ymd_hms(2024, 2, 3, 25, 0, 0).is_err());
}
