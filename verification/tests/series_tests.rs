use taskboard::series::{validate_due_rule, validate_recurrence_frequency, validate_series, DueRule, RecurrenceFrequency, Series};

fn weekly(weekdays: Vec<u8>, interval_weeks: u32) -> RecurrenceFrequency {
    RecurrenceFrequency::Weekly { weekdays, interval_weeks }
}

fn new_series(frequency: RecurrenceFrequency) -> Series {
    Series::new(
        frequency,
        "2026-06-15".to_string(),
        None,
        DueRule::Never,
        "Water the plants".to_string(),
        None,
        "medium".to_string(),
        vec![],
        None,
        String::new(),
    )
}

#[test]
fn new_series_has_generated_id_and_created_timestamp() {
    let series = new_series(RecurrenceFrequency::EveryNDays { interval: 1 });
    assert!(!series.id.is_empty());
    assert!(!series.created.is_empty());
}

#[test]
fn new_series_is_active_with_generated_until_at_the_anchor_date() {
    let series = new_series(RecurrenceFrequency::EveryNDays { interval: 1 });
    assert!(series.active);
    assert_eq!(series.generated_until, "2026-06-15");
}

#[test]
fn new_series_has_no_end_date_and_a_never_due_rule_by_default() {
    let series = new_series(RecurrenceFrequency::EveryNDays { interval: 1 });
    assert_eq!(series.end_date, None);
    assert_eq!(series.due_rule, DueRule::Never);
}

#[test]
fn validate_recurrence_frequency_accepts_every_n_days_with_a_positive_interval() {
    assert!(validate_recurrence_frequency(&RecurrenceFrequency::EveryNDays { interval: 1 }).is_ok());
    assert!(validate_recurrence_frequency(&RecurrenceFrequency::EveryNDays { interval: 5 }).is_ok());
}

#[test]
fn validate_recurrence_frequency_rejects_every_n_days_with_a_zero_interval() {
    let result = validate_recurrence_frequency(&RecurrenceFrequency::EveryNDays { interval: 0 });
    assert!(result.is_err());
}

#[test]
fn validate_recurrence_frequency_accepts_a_well_formed_weekly_rule() {
    assert!(validate_recurrence_frequency(&weekly(vec![1, 3, 5], 1)).is_ok());
}

#[test]
fn validate_recurrence_frequency_rejects_an_empty_weekday_list() {
    let result = validate_recurrence_frequency(&weekly(vec![], 1));
    assert!(result.is_err());
}

#[test]
fn validate_recurrence_frequency_rejects_an_out_of_range_weekday() {
    let result = validate_recurrence_frequency(&weekly(vec![7], 1));
    assert!(result.is_err());
}

#[test]
fn validate_recurrence_frequency_rejects_a_zero_week_interval() {
    let result = validate_recurrence_frequency(&weekly(vec![1], 0));
    assert!(result.is_err());
}

#[test]
fn validate_recurrence_frequency_accepts_in_range_day_of_month() {
    assert!(validate_recurrence_frequency(&RecurrenceFrequency::MonthlyByDay { day: 1 }).is_ok());
    assert!(validate_recurrence_frequency(&RecurrenceFrequency::MonthlyByDay { day: 31 }).is_ok());
}

#[test]
fn validate_recurrence_frequency_rejects_day_of_month_zero() {
    let result = validate_recurrence_frequency(&RecurrenceFrequency::MonthlyByDay { day: 0 });
    assert!(result.is_err());
}

#[test]
fn validate_recurrence_frequency_rejects_day_of_month_above_31() {
    let result = validate_recurrence_frequency(&RecurrenceFrequency::MonthlyByDay { day: 32 });
    assert!(result.is_err());
}

#[test]
fn validate_series_rejects_an_invalid_frequency() {
    let mut series = new_series(RecurrenceFrequency::EveryNDays { interval: 0 });
    series.due_rule = DueRule::Never;
    let result = validate_series(&series);
    assert!(result.is_err());
}

#[test]
fn validate_series_rejects_an_invalid_due_rule() {
    let mut series = new_series(RecurrenceFrequency::EveryNDays { interval: 1 });
    series.due_rule = DueRule::Weekday { weekday: 7, interval_weeks: 1 };
    let result = validate_series(&series);
    assert!(result.is_err());
}

#[test]
fn validate_series_accepts_a_well_formed_due_rule() {
    let mut series = new_series(RecurrenceFrequency::EveryNDays { interval: 1 });
    series.due_rule = DueRule::AfterScheduled { days: 1 };
    assert!(validate_series(&series).is_ok());
}

#[test]
fn validate_series_accepts_the_never_due_rule() {
    let series = new_series(RecurrenceFrequency::EveryNDays { interval: 1 });
    assert!(validate_series(&series).is_ok());
}

#[test]
fn validate_due_rule_accepts_never() {
    assert!(validate_due_rule(&DueRule::Never).is_ok());
}

#[test]
fn validate_due_rule_accepts_any_after_scheduled_offset_including_negative() {
    assert!(validate_due_rule(&DueRule::AfterScheduled { days: 0 }).is_ok());
    assert!(validate_due_rule(&DueRule::AfterScheduled { days: 30 }).is_ok());
    assert!(validate_due_rule(&DueRule::AfterScheduled { days: -1 }).is_ok());
}

#[test]
fn validate_due_rule_accepts_a_well_formed_weekday_rule() {
    assert!(validate_due_rule(&DueRule::Weekday { weekday: 1, interval_weeks: 1 }).is_ok());
    assert!(validate_due_rule(&DueRule::Weekday { weekday: 6, interval_weeks: 2 }).is_ok());
}

#[test]
fn validate_due_rule_rejects_an_out_of_range_weekday() {
    let result = validate_due_rule(&DueRule::Weekday { weekday: 7, interval_weeks: 1 });
    assert!(result.is_err());
}

#[test]
fn validate_due_rule_rejects_a_zero_week_interval() {
    let result = validate_due_rule(&DueRule::Weekday { weekday: 1, interval_weeks: 0 });
    assert!(result.is_err());
}

#[test]
fn validate_due_rule_accepts_a_recognized_default_code() {
    assert!(validate_due_rule(&DueRule::DefaultCode { code: "in_1_month".to_string() }).is_ok());
}

#[test]
fn validate_due_rule_rejects_an_unrecognized_default_code() {
    let result = validate_due_rule(&DueRule::DefaultCode { code: "not_a_real_code".to_string() });
    assert!(result.is_err());
}
