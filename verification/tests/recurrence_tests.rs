use taskboard::dates::from_ymd;
use taskboard::recurrence::{anchor_matches_frequency, occurrence_dates_in_range, resolve_due_rule};
use taskboard::series::{DueRule, RecurrenceFrequency, Series};

fn date(s: &str) -> i32 {
    let parts: Vec<&str> = s.split('-').collect();
    from_ymd(parts[0].parse().unwrap(), parts[1].parse().unwrap(), parts[2].parse().unwrap()).unwrap()
}

fn series_with(frequency: RecurrenceFrequency, anchor_date: &str, end_date: Option<&str>) -> Series {
    let mut series = Series::new(
        frequency,
        anchor_date.to_string(),
        end_date.map(|s| s.to_string()),
        DueRule::Never,
        "Water the plants".to_string(),
        None,
        "medium".to_string(),
        vec![],
        None,
        String::new(),
    );
    series.generated_until = anchor_date.to_string();
    series
}

#[test]
fn daily_produces_every_day_after_the_anchor() {
    let series = series_with(
        RecurrenceFrequency::EveryNDays { interval: 1 },
        "2026-06-15",
        None,
    );

    let dates = occurrence_dates_in_range(&series, date("2026-06-15"), date("2026-06-18"));

    assert_eq!(
        dates,
        vec![date("2026-06-16"), date("2026-06-17"), date("2026-06-18")]
    );
}

#[test]
fn every_other_day_skips_one_day_between_occurrences() {
    let series = series_with(
        RecurrenceFrequency::EveryNDays { interval: 2 },
        "2026-06-15",
        None,
    );

    let dates = occurrence_dates_in_range(&series, date("2026-06-15"), date("2026-06-21"));

    assert_eq!(
        dates,
        vec![date("2026-06-17"), date("2026-06-19"), date("2026-06-21")]
    );
}

#[test]
fn never_produces_a_date_at_or_before_the_anchor() {
    let series = series_with(
        RecurrenceFrequency::EveryNDays { interval: 1 },
        "2026-06-15",
        None,
    );

    // `after` predates the anchor — occurrences still only start from the anchor forward.
    let dates = occurrence_dates_in_range(&series, date("2026-06-10"), date("2026-06-17"));

    assert_eq!(dates, vec![date("2026-06-16"), date("2026-06-17")]);
}

#[test]
fn resuming_from_a_later_watermark_only_returns_newer_dates() {
    let series = series_with(
        RecurrenceFrequency::EveryNDays { interval: 1 },
        "2026-06-15",
        None,
    );

    let dates = occurrence_dates_in_range(&series, date("2026-06-17"), date("2026-06-19"));

    assert_eq!(dates, vec![date("2026-06-18"), date("2026-06-19")]);
}

#[test]
fn clamps_to_the_series_end_date() {
    let series = series_with(
        RecurrenceFrequency::EveryNDays { interval: 1 },
        "2026-06-15",
        Some("2026-06-17"),
    );

    let dates = occurrence_dates_in_range(&series, date("2026-06-15"), date("2026-06-30"));

    assert_eq!(dates, vec![date("2026-06-16"), date("2026-06-17")]);
}

#[test]
fn returns_empty_when_through_is_at_or_before_after() {
    let series = series_with(
        RecurrenceFrequency::EveryNDays { interval: 1 },
        "2026-06-15",
        None,
    );

    let dates = occurrence_dates_in_range(&series, date("2026-06-18"), date("2026-06-18"));

    assert!(dates.is_empty());
}

#[test]
fn single_weekday_every_week_produces_that_weekday_each_week() {
    // 2026-06-15 is a Monday.
    let series = series_with(
        RecurrenceFrequency::Weekly {
            weekdays: vec![1],
            interval_weeks: 1,
        },
        "2026-06-15",
        None,
    );

    let dates = occurrence_dates_in_range(&series, date("2026-06-15"), date("2026-06-29"));

    assert_eq!(dates, vec![date("2026-06-22"), date("2026-06-29")]);
}

#[test]
fn multiple_weekdays_produce_each_one_within_the_same_week() {
    // Mon/Wed/Fri starting Monday 2026-06-15.
    let series = series_with(
        RecurrenceFrequency::Weekly {
            weekdays: vec![1, 3, 5],
            interval_weeks: 1,
        },
        "2026-06-15",
        None,
    );

    let dates = occurrence_dates_in_range(&series, date("2026-06-15"), date("2026-06-19"));

    assert_eq!(dates, vec![date("2026-06-17"), date("2026-06-19")]);
}

#[test]
fn every_other_weekday_skips_alternating_weeks() {
    // Every other Saturday, starting Saturday 2026-06-13.
    let series = series_with(
        RecurrenceFrequency::Weekly {
            weekdays: vec![6],
            interval_weeks: 2,
        },
        "2026-06-13",
        None,
    );

    let dates = occurrence_dates_in_range(&series, date("2026-06-13"), date("2026-07-25"));

    assert_eq!(
        dates,
        vec![date("2026-06-27"), date("2026-07-11"), date("2026-07-25")]
    );
}

#[test]
fn every_weekday_shortcut_excludes_the_weekend() {
    // Mon-Fri starting Monday 2026-06-15.
    let series = series_with(
        RecurrenceFrequency::Weekly {
            weekdays: vec![1, 2, 3, 4, 5],
            interval_weeks: 1,
        },
        "2026-06-15",
        None,
    );

    let dates = occurrence_dates_in_range(&series, date("2026-06-15"), date("2026-06-21"));

    assert_eq!(
        dates,
        vec![
            date("2026-06-16"),
            date("2026-06-17"),
            date("2026-06-18"),
            date("2026-06-19"),
        ]
    );
}

#[test]
fn does_not_produce_a_weekday_occurrence_before_the_anchor_in_the_anchors_own_week() {
    // Anchor is Wednesday 2026-06-17, rule is Mon/Wed/Fri — Monday the
    // 15th is in the same week but predates the anchor and must not appear.
    let series = series_with(
        RecurrenceFrequency::Weekly {
            weekdays: vec![1, 3, 5],
            interval_weeks: 1,
        },
        "2026-06-17",
        None,
    );

    let dates = occurrence_dates_in_range(&series, date("2026-06-17"), date("2026-06-19"));

    assert_eq!(dates, vec![date("2026-06-19")]);
}

#[test]
fn produces_the_given_day_in_each_month() {
    let series = series_with(
        RecurrenceFrequency::MonthlyByDay { day: 4 },
        "2026-06-04",
        None,
    );

    let dates = occurrence_dates_in_range(&series, date("2026-06-04"), date("2026-09-04"));

    assert_eq!(
        dates,
        vec![date("2026-07-04"), date("2026-08-04"), date("2026-09-04")]
    );
}

#[test]
fn skips_a_month_that_does_not_have_that_day() {
    // The 31st: April and June don't have one; May and July do.
    let series = series_with(
        RecurrenceFrequency::MonthlyByDay { day: 31 },
        "2026-03-31",
        None,
    );

    let dates = occurrence_dates_in_range(&series, date("2026-03-31"), date("2026-07-31"));

    assert_eq!(dates, vec![date("2026-05-31"), date("2026-07-31")]);
}

#[test]
fn skips_february_for_the_31st() {
    let series = series_with(
        RecurrenceFrequency::MonthlyByDay { day: 31 },
        "2026-01-31",
        None,
    );

    let dates = occurrence_dates_in_range(&series, date("2026-01-31"), date("2026-03-31"));

    // No February 31st — only March's.
    assert_eq!(dates, vec![date("2026-03-31")]);
}

#[test]
fn returns_empty_when_the_anchor_date_is_unparseable() {
    let mut series = series_with(
        RecurrenceFrequency::EveryNDays { interval: 1 },
        "2026-06-15",
        None,
    );
    series.anchor_date = "not-a-date".to_string();

    let dates = occurrence_dates_in_range(&series, date("2026-06-15"), date("2026-06-20"));

    assert!(dates.is_empty());
}

#[test]
fn ignores_an_unparseable_end_date_rather_than_failing() {
    let mut series = series_with(
        RecurrenceFrequency::EveryNDays { interval: 1 },
        "2026-06-15",
        None,
    );
    series.end_date = Some("not-a-date".to_string());

    let dates = occurrence_dates_in_range(&series, date("2026-06-15"), date("2026-06-17"));

    assert_eq!(dates, vec![date("2026-06-16"), date("2026-06-17")]);
}

#[test]
fn after_scheduled_zero_days_is_the_same_day() {
    let resolved =
        resolve_due_rule(&DueRule::AfterScheduled { days: 0 }, date("2026-06-15"));

    assert_eq!(resolved, Some(date("2026-06-15")));
}

#[test]
fn after_scheduled_positive_days_is_later() {
    let resolved =
        resolve_due_rule(&DueRule::AfterScheduled { days: 5 }, date("2026-06-15"));

    assert_eq!(resolved, Some(date("2026-06-20")));
}

#[test]
fn after_scheduled_negative_days_is_earlier() {
    let resolved =
        resolve_due_rule(&DueRule::AfterScheduled { days: -3 }, date("2026-06-15"));

    assert_eq!(resolved, Some(date("2026-06-12")));
}

#[test]
fn weekday_rule_resolves_to_the_same_day_when_scheduled_is_already_that_weekday() {
    // 2026-06-15 is a Monday.
    let resolved = resolve_due_rule(
        &DueRule::Weekday {
            weekday: 1,
            interval_weeks: 1,
        },
        date("2026-06-15"),
    );

    assert_eq!(resolved, Some(date("2026-06-15")));
}

#[test]
fn weekday_rule_resolves_to_the_next_occurrence_of_that_weekday() {
    // 2026-06-15 is a Monday; the next Friday is 2026-06-19.
    let resolved = resolve_due_rule(
        &DueRule::Weekday {
            weekday: 5,
            interval_weeks: 1,
        },
        date("2026-06-15"),
    );

    assert_eq!(resolved, Some(date("2026-06-19")));
}

#[test]
fn weekday_rule_wraps_around_to_next_week_when_the_weekday_already_passed() {
    // 2026-06-19 is a Friday; the next Monday is 2026-06-22, not earlier.
    let resolved = resolve_due_rule(
        &DueRule::Weekday {
            weekday: 1,
            interval_weeks: 1,
        },
        date("2026-06-19"),
    );

    assert_eq!(resolved, Some(date("2026-06-22")));
}

#[test]
fn weekday_rule_with_interval_two_skips_the_next_occurrence() {
    // 2026-06-15 is a Monday; the next Friday is 2026-06-19, the one after is 2026-06-26.
    let resolved = resolve_due_rule(
        &DueRule::Weekday {
            weekday: 5,
            interval_weeks: 2,
        },
        date("2026-06-15"),
    );

    assert_eq!(resolved, Some(date("2026-06-26")));
}

#[test]
fn never_resolves_to_no_due_date() {
    let resolved = resolve_due_rule(&DueRule::Never, date("2026-06-15"));

    assert_eq!(resolved, None);
}

#[test]
fn default_code_resolves_via_the_settings_relative_date_resolver() {
    let resolved = resolve_due_rule(
        &DueRule::DefaultCode {
            code: "next_day".to_string(),
        },
        date("2026-06-15"),
    );

    assert_eq!(resolved, Some(date("2026-06-16")));
}

#[test]
fn default_code_none_sentinel_resolves_to_never_due() {
    let resolved = resolve_due_rule(
        &DueRule::DefaultCode {
            code: "none".to_string(),
        },
        date("2026-06-15"),
    );

    assert_eq!(resolved, None);
}

#[test]
fn default_code_unrecognized_resolves_to_none_rather_than_panicking() {
    let resolved = resolve_due_rule(
        &DueRule::DefaultCode {
            code: "not_a_real_code".to_string(),
        },
        date("2026-06-15"),
    );

    assert_eq!(resolved, None);
}

#[test]
fn every_n_days_always_matches_the_anchor() {
    // 2026-06-20 is a Saturday — irrelevant for this frequency, the
    // anchor always trivially defines "day 0" of an N-day pattern.
    let frequency = RecurrenceFrequency::EveryNDays { interval: 3 };

    assert!(anchor_matches_frequency(&frequency, date("2026-06-20")));
}

#[test]
fn weekly_matches_when_the_anchor_weekday_is_in_the_list() {
    // 2026-06-15 is a Monday.
    let frequency = RecurrenceFrequency::Weekly {
        weekdays: vec![1, 2, 3],
        interval_weeks: 1,
    };

    assert!(anchor_matches_frequency(&frequency, date("2026-06-15")));
}

#[test]
fn weekly_does_not_match_when_the_anchor_weekday_is_not_in_the_list() {
    // 2026-06-20 is a Saturday, not in [Mon, Tue, Wed].
    let frequency = RecurrenceFrequency::Weekly {
        weekdays: vec![1, 2, 3],
        interval_weeks: 1,
    };

    assert!(!anchor_matches_frequency(&frequency, date("2026-06-20")));
}

#[test]
fn weekly_does_not_match_regardless_of_interval_weeks() {
    // The interval only affects which *future* weeks count, not
    // whether the anchor's own weekday is in the list at all.
    let frequency = RecurrenceFrequency::Weekly {
        weekdays: vec![1, 2, 3],
        interval_weeks: 2,
    };

    assert!(!anchor_matches_frequency(&frequency, date("2026-06-20")));
}

#[test]
fn monthly_by_day_matches_when_the_anchor_day_of_month_equals_day() {
    let frequency = RecurrenceFrequency::MonthlyByDay { day: 20 };

    assert!(anchor_matches_frequency(&frequency, date("2026-06-20")));
}

#[test]
fn monthly_by_day_does_not_match_when_the_anchor_day_of_month_differs() {
    let frequency = RecurrenceFrequency::MonthlyByDay { day: 5 };

    assert!(!anchor_matches_frequency(&frequency, date("2026-06-20")));
}

#[test]
fn a_wider_window_is_the_narrower_one_followed_by_the_rest() {
    let series = series_with(RecurrenceFrequency::Weekly { weekdays: vec![1, 4], interval_weeks: 2 }, "2026-06-15", None);
    let whole = occurrence_dates_in_range(&series, date("2026-06-15"), date("2026-08-31"));
    let mut split = occurrence_dates_in_range(&series, date("2026-06-15"), date("2026-07-10"));
    split.extend(occurrence_dates_in_range(&series, date("2026-07-10"), date("2026-08-31")));
    assert_eq!(whole, split);
    assert!(whole.iter().all(|d| *d > date("2026-06-15") && *d <= date("2026-08-31")));
}

#[test]
fn monthly_on_the_29th_keeps_february_only_in_leap_years() {
    let series = series_with(RecurrenceFrequency::MonthlyByDay { day: 29 }, "2027-12-29", None);
    let dates = occurrence_dates_in_range(&series, date("2027-12-29"), date("2028-03-29"));
    assert_eq!(dates, vec![date("2028-01-29"), date("2028-02-29"), date("2028-03-29")]);
}
