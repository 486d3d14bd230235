use std::str::FromStr as _;

use croner::component::ALL_BIT;
use croner::errors::CronError;
use croner::parser::{CronParser, Seconds, Year};
use croner::Cron;

#[test]
fn test_cron_pattern_new() {
    let cron = Cron::from_str("*/5 * * * *").unwrap();
    assert_eq!(cron.pattern.as_str(), "*/5 * * * *");
    assert!(cron.pattern.seconds.is_bit_set(0, ALL_BIT).unwrap());
    assert!(cron.pattern.minutes.is_bit_set(5, ALL_BIT).unwrap());
}

#[test]
fn test_cron_pattern_new_with_seconds_optional() {
    let cron = CronParser::builder()
        .seconds(Seconds::Optional)
        .build()
        .parse("* */5 * * * *")
        .expect("Success");
    assert_eq!(cron.pattern.as_str(), "* */5 * * * *");
    assert!(cron.pattern.seconds.is_bit_set(5, ALL_BIT).unwrap());
}

#[test]
fn test_cron_pattern_new_with_seconds_required() {
    let cron = CronParser::builder()
        .seconds(Seconds::Optional)
        .build()
        .parse("* */5 * * * *")
        .unwrap();
    assert_eq!(cron.pattern.as_str(), "* */5 * * * *");
    assert!(cron.pattern.seconds.is_bit_set(5, ALL_BIT).unwrap());
}

#[test]
fn test_cron_pattern_tostring() {
    let cron = Cron::from_str("*/5 * * * *").unwrap();
    assert_eq!(cron.to_string(), "*/5 * * * *");
}

#[test]
fn test_cron_pattern_short() {
    // A step from a single start value needs sloppy ranges.
    assert!(Cron::from_str("5/5 * * * *").is_err());
    let cron = CronParser::builder().sloppy_ranges(true).build().parse("5/5 * * * *").unwrap();
    assert_eq!(cron.pattern.as_str(), "5/5 * * * *");
    assert!(cron.pattern.seconds.is_bit_set(0, ALL_BIT).unwrap());
    assert!(!cron.pattern.seconds.is_bit_set(5, ALL_BIT).unwrap());
    assert!(cron.pattern.minutes.is_bit_set(5, ALL_BIT).unwrap());
    assert!(!cron.pattern.minutes.is_bit_set(0, ALL_BIT).unwrap());
}

#[test]
fn test_cron_pattern_parse() {
    let cron = Cron::from_str("*/15 1 1,15 1 1-5").unwrap();
    assert!(cron.pattern.minutes.is_bit_set(0, ALL_BIT).unwrap());
    assert!(cron.pattern.hours.is_bit_set(1, ALL_BIT).unwrap());
    assert!(
        cron.pattern.days.is_bit_set(1, ALL_BIT).unwrap()
            && cron.pattern.days.is_bit_set(15, ALL_BIT).unwrap()
    );
    assert!(
        cron.pattern.months.is_bit_set(1, ALL_BIT).unwrap()
            && !cron.pattern.months.is_bit_set(2, ALL_BIT).unwrap()
    );
    assert!(
        cron.pattern.days_of_week.is_bit_set(1, ALL_BIT).unwrap()
            && cron.pattern.days_of_week.is_bit_set(5, ALL_BIT).unwrap()
    );
}

#[test]
fn test_cron_pattern_extra_whitespace() {
    let cron = Cron::from_str("  */15  1 1,15 1    1-5    ").unwrap();
    assert!(cron.pattern.minutes.is_bit_set(0, ALL_BIT).unwrap());
    assert!(cron.pattern.hours.is_bit_set(1, ALL_BIT).unwrap());
    assert!(
        cron.pattern.days.is_bit_set(1, ALL_BIT).unwrap()
            && cron.pattern.days.is_bit_set(15, ALL_BIT).unwrap()
    );
    assert!(
        cron.pattern.months.is_bit_set(1, ALL_BIT).unwrap()
            && !cron.pattern.months.is_bit_set(2, ALL_BIT).unwrap()
    );
    assert!(
        cron.pattern.days_of_week.is_bit_set(1, ALL_BIT).unwrap()
            && cron.pattern.days_of_week.is_bit_set(5, ALL_BIT).unwrap()
    );
}

#[test]
fn test_cron_pattern_leading_zeros() {
    let cron = Cron::from_str("  */15  01 01,15 01    01-05    ").unwrap();
    assert!(cron.pattern.minutes.is_bit_set(0, ALL_BIT).unwrap());
    assert!(cron.pattern.hours.is_bit_set(1, ALL_BIT).unwrap());
    assert!(
        cron.pattern.days.is_bit_set(1, ALL_BIT).unwrap()
            && cron.pattern.days.is_bit_set(15, ALL_BIT).unwrap()
    );
    assert!(
        cron.pattern.months.is_bit_set(1, ALL_BIT).unwrap()
            && !cron.pattern.months.is_bit_set(2, ALL_BIT).unwrap()
    );
    assert!(
        cron.pattern.days_of_week.is_bit_set(1, ALL_BIT).unwrap()
            && cron.pattern.days_of_week.is_bit_set(5, ALL_BIT).unwrap()
    );
}

#[test]
fn test_cron_pattern_handle_nicknames() {
    assert_eq!(CronParser::handle_nicknames("@yearly", false), "0 0 1 1 *");
    assert_eq!(CronParser::handle_nicknames("@monthly", false), "0 0 1 * *");
    assert_eq!(CronParser::handle_nicknames("@weekly", false), "0 0 * * 0");
    assert_eq!(CronParser::handle_nicknames("@daily", false), "0 0 * * *");
    assert_eq!(CronParser::handle_nicknames("@hourly", false), "0 * * * *");
}

#[test]
fn test_cron_pattern_handle_nicknames_with_seconds_required() {
    assert_eq!(CronParser::handle_nicknames("@yearly", true), "0 0 0 1 1 *");
    assert_eq!(CronParser::handle_nicknames("@monthly", true), "0 0 0 1 * *");
    assert_eq!(CronParser::handle_nicknames("@weekly", true), "0 0 0 * * 0");
    assert_eq!(CronParser::handle_nicknames("@daily", true), "0 0 0 * * *");
    assert_eq!(CronParser::handle_nicknames("@hourly", true), "0 0 * * * *");
}

#[test]
fn test_month_nickname_range() {
    let cron = Cron::from_str("0 0 * FEB-MAR *").unwrap();
    assert!(!cron.pattern.months.is_bit_set(1, ALL_BIT).unwrap());
    assert!(cron.pattern.months.is_bit_set(2, ALL_BIT).unwrap()); // February
    assert!(cron.pattern.months.is_bit_set(3, ALL_BIT).unwrap()); // March
    assert!(!cron.pattern.months.is_bit_set(4, ALL_BIT).unwrap());
}

#[test]
fn test_weekday_range_sat_sun() {
    let cron = Cron::from_str("0 0 * * SAT-SUN").unwrap();
    assert!(cron.pattern.days_of_week.is_bit_set(0, ALL_BIT).unwrap()); // Sunday
    assert!(cron.pattern.days_of_week.is_bit_set(6, ALL_BIT).unwrap()); // Saturday
}

#[test]
fn test_with_seconds_false() {
    // Test with a 6-part pattern when seconds are not allowed
    let error = Cron::from_str("* * * * * *").unwrap_err();
    assert!(matches!(error, CronError::InvalidPattern(_)));

    // Test with a 5-part pattern when seconds are not allowed
    let no_seconds_pattern = Cron::from_str("*/10 * * * *").unwrap();

    assert_eq!(no_seconds_pattern.to_string(), "*/10 * * * *");

    // Ensure seconds are defaulted to 0 for a 5-part pattern
    assert!(no_seconds_pattern
        .pattern
        .seconds
        .is_bit_set(0, ALL_BIT)
        .unwrap());
}

#[test]
fn test_with_seconds_required() {
    // Test with a 5-part pattern when seconds are required
    let no_seconds_pattern = CronParser::builder()
        .seconds(Seconds::Required)
        .build()
        .parse("*/10 * * * *")
        .unwrap_err();

    assert!(matches!(no_seconds_pattern, CronError::InvalidPattern(_)));

    // Test with a 6-part pattern when seconds are required
    let cron = CronParser::builder()
        .seconds(Seconds::Required)
        .build()
        .parse("* * * * * *")
        .unwrap();

    // Ensure the 6-part pattern retains seconds information
    assert!(cron.pattern.seconds.is_bit_set(0, ALL_BIT).unwrap());
}

#[test]
fn test_with_alternative_weekdays() {
    let cron = CronParser::builder()
        .alternative_weekdays(true)
        .build()
        .parse("* * * * MON-FRI")
        .unwrap();
    assert!(cron.pattern.days_of_week.is_bit_set(1, ALL_BIT).unwrap()); // Monday
    assert!(cron.pattern.days_of_week.is_bit_set(5, ALL_BIT).unwrap()); // Friday
    assert!(!cron.pattern.days_of_week.is_bit_set(6, ALL_BIT).unwrap()); // Saturday should not be set
}

#[test]
fn test_with_alternative_weekdays_numeric() {
    let cron = CronParser::builder()
        .alternative_weekdays(true)
        .build()
        .parse("* * * * 2-6")
        .unwrap();
    assert!(cron.pattern.days_of_week.is_bit_set(1, ALL_BIT).unwrap()); // Monday
    assert!(cron.pattern.days_of_week.is_bit_set(5, ALL_BIT).unwrap()); // Friday
    assert!(!cron.pattern.days_of_week.is_bit_set(6, ALL_BIT).unwrap()); // Saturday should not be set
}

#[test]
fn test_seven_to_zero() {
    let cron = Cron::from_str("* * * * 7").unwrap();
    assert!(cron.pattern.days_of_week.is_bit_set(0, ALL_BIT).unwrap());
}

#[test]
fn test_one_is_monday_alternative() {
    let cron = CronParser::builder()
        .alternative_weekdays(true)
        .build()
        .parse("* * * * 1")
        .unwrap();
    assert!(cron.pattern.days_of_week.is_bit_set(0, ALL_BIT).unwrap());
}

#[test]
fn test_zero_with_alternative_weekdays_fails() {
    let error = CronParser::builder()
        .alternative_weekdays(true)
        .build()
        .parse("* * * * 0")
        .unwrap_err();
    assert!(matches!(error, CronError::ComponentError(_)));
}

#[test]
fn test_question_mark_allowed_in_day_of_month() {
    let pattern = "* * ? * *";
    assert!(
        Cron::from_str(pattern).is_ok(),
        "Should allow '?' in the day-of-month field."
    );
}

#[test]
fn test_question_mark_allowed_in_day_of_week() {
    let pattern = "* * * * ?";
    assert!(
        Cron::from_str(pattern).is_ok(),
        "Should allow '?' in the day-of-week field."
    );
}

#[test]
fn test_question_mark_disallowed_in_minute() {
    let pattern = "? * * * *";
    let result = Cron::from_str(pattern);
    assert!(
        matches!(result.err(), Some(CronError::IllegalCharacters(_))),
        "Should not allow '?' in the minute field."
    );
}

#[test]
fn test_question_mark_disallowed_in_hour() {
    let pattern = "* ? * * *";
    let result = Cron::from_str(pattern);
    assert!(
        matches!(result.err(), Some(CronError::IllegalCharacters(_))),
        "Should not allow '?' in the hour field."
    );
}

#[test]
fn test_question_mark_disallowed_in_month() {
    let pattern = "* * * ? *";
    let result = Cron::from_str(pattern);
    assert!(
        matches!(result.err(), Some(CronError::IllegalCharacters(_))),
        "Should not allow '?' in the month field."
    );
}

#[test]
fn test_case_sensitivity_lowercase_special_character_ok() {
    let pattern = "* * 15w * *";
    let result = Cron::from_str(pattern);
    assert!(result.is_ok(), "Should allow lowercase special character w.");
}

#[test]
fn test_case_sensitivity_uppercase_special_character_ok() {
    let pattern = "* * 15W * *";
    let result: Result<Cron, CronError> = Cron::from_str(pattern);
    assert!(result.is_ok(), "Should allow uppercase special character W.");
}

#[test]
fn test_cron_parse_invalid_expressions() {
    let invalid_expressions = vec![
        "* * *",
        "invalid",
        "123",
        "0 0 * * * * * *",
        "* * * *",
        "* 60 * * * *",
        "-1 59 * * * *",
        "1- 59 * * * *",
        "0 0 0 5L * *",
        "0 0 0 5#L * *",
    ];
    for expr in invalid_expressions {
        assert!(CronParser::builder()
            .seconds(Seconds::Optional)
            .build()
            .parse(expr)
            .is_err());
    }
}

#[test]
fn test_cron_parse_valid_expressions() {
    let valid_expressions = vec![
        "* * * * *",
        "0 0 * * *",
        "*/10 * * * *",
        "0 0 1 1 *",
        "0 12 * * MON",
        "0 0   * * 1",
        "0 0 1 1,7 * ",
        "00 00 01 * SUN  ",
        "0 0 1-7 * SUN",
        "5-10/2 * * * *",
        "0 0-23/2 * * *",
        "0 12 15-21 * 1-FRI",
        "0 0 29 2 *",
        "0 0 31 * *",
        "*/15 9-17 * * MON-FRI",
        "0 12 * JAN-JUN *",
        "0 0 1,15,L * SUN#L",
        "0 0 2,1 1-6/2 *",
        "0 0 5,L * 5L",
        "0 0 5,L * 7#2",
    ];
    for expr in valid_expressions {
        assert!(Cron::from_str(expr).is_ok());
    }
}

#[test]
fn empty_text_is_an_empty_pattern() {
    assert!(matches!(Cron::from_str("   "), Err(CronError::EmptyPattern)));
    assert!(matches!(Cron::from_str(""), Err(CronError::EmptyPattern)));
}

#[test]
fn field_counts_follow_the_configuration() {
    let error = Cron::from_str("* * * *").unwrap_err();
    assert_eq!(
        error,
        CronError::InvalidPattern("Pattern must have between 5 and 7 fields.".to_string())
    );
    let with_year = CronParser::builder()
        .seconds(Seconds::Optional)
        .year(Year::Optional)
        .build();
    let cron = with_year.parse("0 0 0 1 1 * 2025").unwrap();
    assert!(cron.pattern.years.is_bit_set(2025, ALL_BIT).unwrap());
    assert!(!cron.pattern.years.is_bit_set(2024, ALL_BIT).unwrap());
    // Without a year field every year matches.
    let cron = with_year.parse("0 0 0 1 1 *").unwrap();
    assert!(cron.pattern.years.is_bit_set(2024, ALL_BIT).unwrap());
    // Seven fields carry seconds and a year under the default settings.
    let cron = Cron::from_str("0 0 0 1 1 * 2025").unwrap();
    assert!(cron.pattern.years.is_bit_set(2025, ALL_BIT).unwrap());
    assert!(matches!(
        CronParser::builder()
            .seconds(Seconds::Optional)
            .year(Year::Disallowed)
            .build()
            .parse("0 0 0 1 1 * 2025"),
        Err(CronError::InvalidPattern(_))
    ));
    assert!(matches!(
        CronParser::builder()
            .seconds(Seconds::Required)
            .year(Year::Required)
            .build()
            .parse("0 0 0 1 1 *"),
        Err(CronError::InvalidPattern(_))
    ));
}

#[test]
fn nicknames_parse_like_their_patterns() {
    let daily = Cron::from_str("@daily").unwrap();
    let written = Cron::from_str("0 0 * * *").unwrap();
    assert_eq!(daily.as_str(), "0 0 * * *");
    assert_eq!(daily, written);
    let with_seconds = CronParser::builder()
        .seconds(Seconds::Required)
        .build()
        .parse("@hourly")
        .unwrap();
    assert_eq!(with_seconds.as_str(), "0 0 * * * *");
}

#[test]
fn question_mark_patterns_equal_their_wildcard_form() {
    let star = Cron::from_str("0 0 1 * *").unwrap();
    let question = Cron::from_str("0 0 1 * ?").unwrap();
    assert_eq!(star, question);
    assert_eq!(question.as_str(), "0 0 1 * ?");
}

#[test]
fn illegal_characters_are_named_in_the_error() {
    let error = Cron::from_str("0 0 +1 * *").unwrap_err();
    assert_eq!(
        error,
        CronError::IllegalCharacters(
            "CronPattern contains illegal character '+' in part '+1'".to_string()
        )
    );
}

#[test]
fn lowercase_names_are_read() {
    let cron = Cron::from_str("0 12 * mar mon").unwrap();
    assert_eq!(cron.as_str(), "0 12 * 3 1");
    assert!(cron.pattern.months.is_bit_set(3, ALL_BIT).unwrap());
    assert!(cron.pattern.days_of_week.is_bit_set(1, ALL_BIT).unwrap());
}
