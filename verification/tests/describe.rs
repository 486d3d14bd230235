use std::str::FromStr;
use croner::describe::{describe, English, Language, Swedish};
use croner::parser::{CronParser, Seconds, Year};

fn get_description_lang_config<L: Language + Default>(
    pattern_str: &str,
    lang: L,
    seconds: Seconds,
    year: Year,
    dom_and_dow: bool,
) -> String {
    let cron = CronParser::builder()
        .seconds(seconds)
        .year(year)
        .dom_and_dow(dom_and_dow)
        .build()
        .parse(pattern_str)
        .expect("Failed to parse pattern for test");
    describe(&cron.pattern, &lang)
}

fn get_description(pattern_str: &str) -> String {
    get_description_lang_config(
        pattern_str,
        English,
        Seconds::Optional,
        Year::Optional,
        false,
    )
}

#[test]
fn test_time_descriptions() {
    assert_eq!(get_description("* * * * *"), "Every minute.");
    assert_eq!(get_description("*/15 * * * *"), "At every 15 minutes.");
    assert_eq!(get_description("0 * * * *"), "At minute 0 past every hour.");
    assert_eq!(get_description("0 14 * * *"), "At 14:00.");
    assert_eq!(
        get_description("2,4,6 * * * *"),
        "At minute 2, 4, and 6 past every hour."
    );
    assert_eq!(
        get_description("0 0-6 * * *"),
        "At minute 0, of hour 0-6."
    );
    assert_eq!(
        get_description("0 */2 * * *"),
        "At minute 0, of every 2 hours."
    );
    // Test for issue #35: "* 0 * * *" should describe properly
    assert_eq!(
        get_description("* 0 * * *"),
        "Every minute past hour 0."
    );
    assert_eq!(
        get_description("* 0,12 * * *"),
        "Every minute past hour 0 and 12."
    );
}

#[test]
fn test_seconds_descriptions() {
    assert_eq!(get_description("*/10 * * * * *"), "At every 10 seconds.");
    assert_eq!(get_description("30 0 14 * * *"), "At 14:00:30.");
    assert_eq!(
        get_description("10-20 0 14 * * *"),
        "At 14:00, at second 10-20."
    );
    // Test for similar issue as #35 with seconds
    assert_eq!(
        get_description("* * 0 * * *"),
        "Every second past hour 0."
    );
    assert_eq!(
        get_description("* * 5 * * *"),
        "Every second past hour 5."
    );
}

#[test]
fn test_year_descriptions() {
    assert_eq!(
        get_description("0 0 0 1 1 * 2025"),
        "At 00:00, on day 1, in January, in year 2025."
    );
     assert_eq!(
        get_description("0 0 0 1 1 * 2025-2030"),
        "At 00:00, on day 1, in January, in year 2025-2030."
    );
}

#[test]
fn test_day_descriptions() {
    assert_eq!(get_description("0 12 * * MON"), "At 12:00, on Monday.");
    assert_eq!(
        get_description("0 12 * * 1-5"),
        "At 12:00, on Monday, Tuesday, Wednesday, Thursday, and Friday."
    );
    assert_eq!(get_description("0 12 15 * *"), "At 12:00, on day 15.");
    assert_eq!(
        get_description("0 12 L * *"),
        "At 12:00, on the last day of the month."
    );
    assert_eq!(
        get_description("0 12 1,15 * *"),
        "At 12:00, on day 1 and 15."
    );
}

#[test]
fn test_month_descriptions() {
    assert_eq!(get_description("* * * JAN *"), "Every minute, in January.");
    assert_eq!(
        get_description("* * * 1,3,5 *"),
        "Every minute, in January, March, and May."
    );
}

#[test]
fn test_special_char_descriptions() {
    assert_eq!(
        get_description("* * * * 5L"),
        "Every minute, on the last Friday of the month."
    );
    assert_eq!(
        get_description("* * * * TUE#3"),
        "Every minute, on the 3rd Tuesday of the month."
    );
    assert_eq!(
        get_description("* * 15W * *"),
        "Every minute, on the weekday nearest day 15."
    );
}

#[test]
fn test_dom_and_dow_logic() {
    // Default behavior (OR)
    let or_desc = get_description("0 0 15 * FRI");
    assert_eq!(or_desc, "At 00:00, on day 15 or Friday.");

    // AND behavior
    let and_desc =
        get_description_lang_config("0 0 15 * FRI", English, Seconds::Optional, Year::Optional, true);
    assert_eq!(
        and_desc,
        "At 00:00, on day 15 (if it is also Friday)."
    );
}

#[test]
fn test_complex_combinations() {
    assert_eq!(
        get_description("30 18 15,L MAR *"),
        "At 18:30, on day 15 and the last day of the month, in March."
    );

    let and_desc = get_description_lang_config("30 18 15,L MAR FRI", English, Seconds::Optional, Year::Optional, true);
    assert_eq!(
        and_desc,
        "At 18:30, on day 15 and the last day of the month (if it is also Friday), in March."
    );
}

#[test]
fn test_second_and_minute_steps() {
    assert_eq!(
        get_description("* */2 * * * *"),
        "Every second, every 2 minutes."
    )
}

#[test]
fn test_ranged_steps() {
    assert_eq!(
        get_description("18-28/2 * * * * *"),
        "At second 18, 20, 22, 24, 26, and 28."
    );
}

#[test]
fn test_complex_dom_and_dow() {
     let desc = get_description_lang_config("0 0 1 * FRI#L,MON#1", English, Seconds::Optional, Year::Optional, true);
     assert_eq!(
        desc,
        "At 00:00, on day 1 (if it is also one of: the last Friday of the month and the 1st Monday of the month)."
    );
}

// Issue #35: Incorrect descriptor
// https://github.com/Hexagon/croner-rust/issues/35
// Pattern "* 0 * * *" was producing "At of hour 0." instead of "Every minute past hour 0."

#[test]
fn test_issue_35_wildcard_minutes_specific_hours() {
    // Original bug: "* 0 * * *" produced "At of hour 0."
    assert_eq!(
        get_description("* 0 * * *"),
        "Every minute past hour 0."
    );
    assert_eq!(
        get_description("* 5 * * *"),
        "Every minute past hour 5."
    );
    assert_eq!(
        get_description("* 0-5 * * *"),
        "Every minute past hour 0-5."
    );
}

#[test]
fn test_issue_35_seconds_variant() {
    // Similar issue with seconds: "* * 0 * * *" was producing "Every second, of hour 0."
    assert_eq!(
        get_description("* * 0 * * *"),
        "Every second past hour 0."
    );
    assert_eq!(
        get_description("* * 5 * * *"),
        "Every second past hour 5."
    );
    assert_eq!(
        get_description("* * 0,12 * * *"),
        "Every second past hour 0 and 12."
    );
}

#[test]
fn test_issue_35_with_other_fields() {
    // Test combinations with days, months, weekdays
    assert_eq!(
        get_description("* 0 * 1 *"),
        "Every minute past hour 0, in January."
    );
    assert_eq!(
        get_description("* 0 * * MON"),
        "Every minute past hour 0, on Monday."
    );
}

#[test]
fn test_no_grammatical_errors() {
    // Ensure no grammatical errors like "At of", "At ,", etc.
    let patterns = vec![
        "* 0 * * *",
        "* * 0 * * *",
        "0 * 0 * * *",
        "* 0 * 1 *",
        "* 0 * * MON",
    ];

    for pattern in patterns {
        let desc = get_description(pattern);
        assert!(
            !desc.contains("At of") && !desc.contains("At ,") && !desc.starts_with("At ."),
            "Pattern '{}' produced grammatically incorrect description: '{}'",
            pattern,
            desc
        );
    }
}

#[test]
fn descriptions_in_swedish() {
    assert_eq!(
        get_description_lang_config("0 14 * * *", Swedish, Seconds::Optional, Year::Optional, false),
        "Klockan 14:00."
    );
    assert_eq!(
        get_description_lang_config("* * * * TUE#3", Swedish, Seconds::Optional, Year::Optional, false),
        "Varje minut, på den tredje tisdag i månaden."
    );
}

#[test]
fn descriptions_of_stepped_months_and_years() {
    assert_eq!(get_description("0 0 1 */3 *"), "At 00:00, on day 1, in every 3 months.");
    let sloppy = CronParser::builder()
        .seconds(Seconds::Optional)
        .sloppy_ranges(true)
        .build()
        .parse("0 0 0 1 1 * 2020/5")
        .unwrap();
    assert_eq!(
        describe(&sloppy.pattern, &English),
        "At 00:00, on day 1, in January, in year every 5."
    );
}

#[test]
fn cron_describes_in_english() {
    let cron = croner::Cron::from_str("0 12 * * MON-FRI").unwrap();
    assert_eq!(
        cron.describe(),
        "At 12:00, on Monday, Tuesday, Wednesday, Thursday, and Friday."
    );
    assert_eq!(cron.describe_lang(English), cron.describe());
}
