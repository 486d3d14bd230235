use croner::component::{
    CronComponent, ALL_BIT, CLOSEST_WEEKDAY_BIT, LAST_BIT, NONE_BIT, NTH_1ST_BIT,
};
use croner::errors::CronError;

#[test]
fn test_new_cron_component() {
    let component = CronComponent::new(0, 59, ALL_BIT | LAST_BIT, 0);
    assert_eq!(component.min, 0);
    assert_eq!(component.max, 59);
    // Ensure all bitfields are initialized to NONE_BIT
    assert!(component.bitfields().iter().all(|&b| b == NONE_BIT));
    // Check that ALL_BIT and LAST_BIT are included in features
    assert!(component.features() & (ALL_BIT | LAST_BIT) == (ALL_BIT | LAST_BIT));
}

#[test]
fn test_set_bit() {
    let mut component = CronComponent::new(0, 59, ALL_BIT, 0);
    assert!(component.set_bit(10, ALL_BIT).is_ok());
    assert!(component.is_bit_set(10, ALL_BIT).unwrap());
}

#[test]
fn test_set_bit_out_of_bounds() {
    let mut component = CronComponent::new(0, 59, ALL_BIT, 0);
    assert!(matches!(
        component.set_bit(60, ALL_BIT),
        Err(CronError::ComponentError(_))
    ));
}

#[test]
fn test_unset_bit() {
    let mut component = CronComponent::new(0, 59, ALL_BIT, 0);
    component.set_bit(10, ALL_BIT).unwrap();
    assert!(component.unset_bit(10, ALL_BIT).is_ok());
    assert!(!component.is_bit_set(10, ALL_BIT).unwrap());
}

#[test]
fn test_is_feature_enabled() {
    let mut component = CronComponent::new(0, 59, LAST_BIT, 0);
    assert!(!component.is_feature_enabled(LAST_BIT));
    component.enable_feature(LAST_BIT).unwrap();
    assert!(component.is_feature_enabled(LAST_BIT));
}

#[test]
fn test_enable_feature_unsupported() {
    let mut component = CronComponent::new(0, 59, NONE_BIT, 0);
    assert!(matches!(
        component.enable_feature(NTH_1ST_BIT),
        Err(CronError::ComponentError(_))
    ));
}

#[test]
fn test_parse_asterisk() {
    let mut component = CronComponent::new(0, 59, ALL_BIT, 0);
    component.parse("*").unwrap();
    for i in 0..=59 {
        assert!(component.is_bit_set(i, ALL_BIT).unwrap());
    }
}

#[test]
fn test_parse_range() {
    let mut component = CronComponent::new(0, 59, ALL_BIT, 0);
    component.parse("10-15").unwrap();
    for i in 10..=15 {
        assert!(component.is_bit_set(i, ALL_BIT).unwrap());
    }
}

#[test]
fn test_parse_stepping() {
    let mut component = CronComponent::new(0, 59, ALL_BIT, 0);
    component.parse("*/5").unwrap();
    for i in (0..=59).filter(|n| n % 5 == 0) {
        assert!(component.is_bit_set(i, ALL_BIT).unwrap());
    }
}

#[test]
fn test_parse_list() {
    let mut component = CronComponent::new(0, 59, ALL_BIT, 0);
    component.parse("5,10,15").unwrap();
    for i in [5, 10, 15].iter() {
        assert!(component.is_bit_set(*i, ALL_BIT).unwrap());
    }
}

#[test]
fn test_parse_invalid_syntax() {
    let mut component = CronComponent::new(0, 59, ALL_BIT, 0);
    assert!(component.parse("10-").is_err());
    assert!(component.parse("*/").is_err());
    assert!(component.parse("60").is_err()); // out of bounds for the minute field
}

#[test]
fn test_parse_closest_weekday() {
    let mut component = CronComponent::new(1, 31, CLOSEST_WEEKDAY_BIT, 0);
    component.parse("15W").unwrap();
    assert!(component.is_bit_set(15, CLOSEST_WEEKDAY_BIT).unwrap());
}

#[test]
fn stepping_marks_every_step_from_the_start_of_a_range() {
    let mut component = CronComponent::new(0, 59, ALL_BIT, 0);
    component.handle_stepping("10-20/5").unwrap();
    assert_eq!(component.get_set_values(ALL_BIT), vec![10, 15, 20]);
    assert_eq!(component.step, 5);
    assert!(!component.from_wildcard);
}

#[test]
fn stepping_from_a_single_start_runs_to_the_maximum() {
    let mut component = CronComponent::new(0, 59, ALL_BIT, 0);
    component.handle_stepping("50/4").unwrap();
    assert_eq!(component.get_set_values(ALL_BIT), vec![50, 54, 58]);
}

#[test]
fn stepping_rejects_a_zero_step_and_bad_bounds() {
    let mut component = CronComponent::new(0, 59, ALL_BIT, 0);
    assert!(matches!(component.handle_stepping("*/0"), Err(CronError::ComponentError(_))));
    assert!(matches!(component.handle_stepping("5-70/2"), Err(CronError::ComponentError(_))));
    assert!(matches!(component.handle_stepping("9-3/2"), Err(CronError::ComponentError(_))));
    assert!(matches!(component.handle_stepping("1-2-3/2"), Err(CronError::ComponentError(_))));
}

#[test]
fn stepping_past_the_largest_value_stops() {
    let mut component = CronComponent::new(1, 5000, ALL_BIT, 0);
    assert!(component.handle_stepping("4000-5000/65000").is_ok());
    assert_eq!(component.get_set_values(ALL_BIT), vec![4000]);
    let mut minutes = CronComponent::new(0, 59, NONE_BIT, 0);
    assert!(minutes.handle_stepping("1-59/65535").is_ok());
    assert_eq!(minutes.get_set_values(ALL_BIT), vec![1]);
}

#[test]
fn nth_and_last_bits_are_set_on_the_weekday() {
    let mut component = CronComponent::new(0, 7, LAST_BIT | croner::component::NTH_ALL, 0);
    component.parse("5#2,3L,1-2#L").unwrap();
    assert!(component.is_bit_set(5, croner::component::NTH_2ND_BIT).unwrap());
    assert!(component.is_bit_set(3, LAST_BIT).unwrap());
    assert!(component.is_bit_set(1, LAST_BIT).unwrap());
    assert!(component.is_bit_set(2, LAST_BIT).unwrap());
    assert!(!component.is_bit_set(5, ALL_BIT).unwrap());
    assert!(component.parse("5#6").is_err());
    assert!(component.parse("5#0").is_err());
}

#[test]
fn last_is_rejected_where_not_supported() {
    let mut component = CronComponent::new(0, 59, NONE_BIT, 0);
    assert!(component.parse("5L").is_err());
    assert!(component.parse("5#1").is_err());
    // The last-day feature is always supported.
    assert!(component.parse("L").is_ok());
    assert!(component.is_feature_enabled(LAST_BIT));
}

#[test]
fn offset_shifts_the_values_a_pattern_writes() {
    let mut component = CronComponent::new(0, 7, ALL_BIT, 1);
    component.parse("1-3").unwrap();
    assert_eq!(component.get_set_values(ALL_BIT), vec![0, 1, 2]);
    let mut other = CronComponent::new(0, 7, ALL_BIT, 1);
    assert!(matches!(other.parse("0"), Err(CronError::ComponentError(_))));
}

#[test]
fn is_all_set_needs_every_value() {
    let mut component = CronComponent::new(0, 3, ALL_BIT, 0);
    assert!(!component.is_all_set());
    component.parse("0-2").unwrap();
    assert!(!component.is_all_set());
    component.parse("3").unwrap();
    assert!(component.is_all_set());
}
