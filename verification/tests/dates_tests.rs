use taskboard::dates::{add_days, from_ymd, weekday, MAX_DAY, MAX_YEAR, MIN_DAY, MIN_YEAR};

#[test]
fn day_one_is_january_first_of_year_one() {
    assert_eq!(from_ymd(1, 1, 1), Some(1));
    assert_eq!(from_ymd(1, 12, 31), Some(365));
    assert_eq!(from_ymd(0, 12, 31), Some(0));
}

#[test]
fn day_numbers_follow_the_gregorian_leap_rules() {
    assert!(from_ymd(2024, 2, 29).is_some());
    assert_eq!(from_ymd(2023, 2, 29), None);
    assert_eq!(from_ymd(1900, 2, 29), None);
    assert!(from_ymd(2000, 2, 29).is_some());
    assert_eq!(from_ymd(2024, 3, 1).unwrap() - from_ymd(2024, 2, 28).unwrap(), 2);
    assert_eq!(from_ymd(2023, 3, 1).unwrap() - from_ymd(2023, 2, 28).unwrap(), 1);
}

#[test]
fn out_of_range_components_are_refused() {
    assert_eq!(from_ymd(2026, 0, 1), None);
    assert_eq!(from_ymd(2026, 13, 1), None);
    assert_eq!(from_ymd(2026, 4, 31), None);
    assert_eq!(from_ymd(2026, 1, 0), None);
    assert_eq!(from_ymd(MIN_YEAR - 1, 12, 31), None);
    assert_eq!(from_ymd(MAX_YEAR + 1, 1, 1), None);
}

#[test]
fn the_representable_range_ends_at_the_extreme_days() {
    assert_eq!(from_ymd(MIN_YEAR, 1, 1), Some(MIN_DAY));
    assert_eq!(from_ymd(MAX_YEAR, 12, 31), Some(MAX_DAY));
    assert_eq!(add_days(MAX_DAY, 1), None);
    assert_eq!(add_days(MIN_DAY, -1), None);
    assert_eq!(add_days(from_ymd(2026, 6, 30).unwrap(), 1), from_ymd(2026, 7, 1));
}

#[test]
fn weekdays_count_from_sunday() {
    assert_eq!(weekday(from_ymd(2026, 6, 21).unwrap()), 0);
    assert_eq!(weekday(from_ymd(2026, 6, 22).unwrap()), 1);
    assert_eq!(weekday(from_ymd(1, 1, 1).unwrap()), 1);
    assert_eq!(weekday(from_ymd(-1, 12, 31).unwrap()), weekday(from_ymd(0, 1, 7).unwrap()));
}
