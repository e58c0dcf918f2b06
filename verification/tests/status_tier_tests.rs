use taskboard::dates::from_ymd;
use taskboard::settings::{PriorityLevel, Settings, StatusTierRule};
use taskboard::status_tier::{
    effective_status_tier_rules, evaluate_status_tier, find_priority_rank, validate_status_tier_rule_overrides,
    StatusTier,
};
use taskboard::task::Task;

fn today() -> i32 {
    from_ymd(2026, 6, 24).unwrap()
}

fn task_due(due: &str) -> Task {
    let mut task = Task::new("Demo".to_string());
    task.due = Some(due.to_string());
    task
}

fn task_with_priority(priority: &str) -> Task {
    let mut task = Task::new("Demo".to_string());
    task.priority = priority.to_string();
    task
}

fn priorities() -> Vec<PriorityLevel> {
    vec![
        PriorityLevel { id: "high".to_string(), label: "High".to_string(), color: "#bc267f".to_string(), rank: 1 },
        PriorityLevel { id: "medium".to_string(), label: "Medium".to_string(), color: "#aa6a00".to_string(), rank: 2 },
        PriorityLevel { id: "low".to_string(), label: "Low".to_string(), color: "#0e9254".to_string(), rank: 3 },
    ]
}

fn settings_with_priorities() -> Settings {
    Settings { priorities: priorities(), ..Settings::default() }
}

fn global() -> Vec<StatusTierRule> {
    vec![
        StatusTierRule { due_within_days: Some(0), ..Default::default() },
        StatusTierRule { due_within_days: Some(1), ..Default::default() },
        StatusTierRule { due_within_days: Some(3), ..Default::default() },
        StatusTierRule { due_within_days: Some(7), ..Default::default() },
    ]
}

#[test]
fn returns_every_global_rule_when_no_overrides_exist() {
    let global = global();
    let effective = effective_status_tier_rules(&global, None);
    assert_eq!(effective.len(), 4);
    for (i, rule) in effective.iter().enumerate() {
        assert_eq!(rule.due_within_days, global[i].due_within_days);
    }
}

#[test]
fn a_set_override_slot_wins_over_the_global_rule_for_that_slot_only() {
    let global = global();
    let overrides = vec![
        None,
        Some(StatusTierRule {
            due_within_days: Some(2),
            min_priority: Some("high".to_string()),
            estimated_time_left_exceeds_minutes: None,
        }),
        None,
        None,
    ];
    let effective = effective_status_tier_rules(&global, Some(&overrides));
    assert_eq!(effective[0].due_within_days, Some(0));
    assert_eq!(effective[1].due_within_days, Some(2));
    assert_eq!(effective[2].due_within_days, Some(3));
    assert_eq!(effective[3].due_within_days, Some(7));
}

#[test]
fn every_slot_can_be_overridden_independently() {
    let global = global();
    let overrides = vec![
        Some(StatusTierRule { due_within_days: Some(-1), ..Default::default() }),
        Some(StatusTierRule { due_within_days: Some(2), ..Default::default() }),
        Some(StatusTierRule { due_within_days: Some(5), ..Default::default() }),
        Some(StatusTierRule { due_within_days: Some(14), ..Default::default() }),
    ];
    let effective = effective_status_tier_rules(&global, Some(&overrides));
    assert_eq!(effective[0].due_within_days, Some(-1));
    assert_eq!(effective[1].due_within_days, Some(2));
    assert_eq!(effective[2].due_within_days, Some(5));
    assert_eq!(effective[3].due_within_days, Some(14));
}

#[test]
fn a_too_short_overrides_list_falls_back_to_global_for_missing_slots() {
    let global = global();
    let overrides = vec![Some(StatusTierRule { due_within_days: Some(-1), ..Default::default() })];
    let effective = effective_status_tier_rules(&global, Some(&overrides));
    assert_eq!(effective[0].due_within_days, Some(-1));
    assert_eq!(effective[1].due_within_days, Some(1));
    assert_eq!(effective[2].due_within_days, Some(3));
    assert_eq!(effective[3].due_within_days, Some(7));
}

#[test]
fn accepts_exactly_four_entries() {
    let overrides = vec![None, None, None, None];
    assert!(validate_status_tier_rule_overrides(&overrides).is_ok());
}

#[test]
fn accepts_four_entries_with_some_set() {
    let overrides = vec![Some(StatusTierRule { due_within_days: Some(0), ..Default::default() }), None, None, None];
    assert!(validate_status_tier_rule_overrides(&overrides).is_ok());
}

#[test]
fn rejects_fewer_than_four_entries() {
    let overrides = vec![None, None, None];
    let err = validate_status_tier_rule_overrides(&overrides).unwrap_err();
    assert!(err.contains('3'));
}

#[test]
fn rejects_more_than_four_entries() {
    let overrides = vec![None, None, None, None, None];
    let err = validate_status_tier_rule_overrides(&overrides).unwrap_err();
    assert!(err.contains('5'));
}

#[test]
fn rejects_an_empty_list() {
    let overrides: Vec<Option<StatusTierRule>> = vec![];
    assert!(validate_status_tier_rule_overrides(&overrides).is_err());
}

fn rules_all_unset() -> Vec<StatusTierRule> {
    vec![StatusTierRule::default(); 4]
}

#[test]
fn a_tier_with_every_condition_unset_never_matches_even_with_overdue_tasks() {
    let rules = rules_all_unset();
    let very_overdue = task_due("2020-01-01");
    let settings = Settings::default();
    let tier = evaluate_status_tier(&rules, &[very_overdue], &settings, 9999, today());
    assert_eq!(tier, StatusTier::Great);
}

#[test]
fn falls_back_to_great_when_no_tasks_and_no_rules_match() {
    let rules = rules_all_unset();
    let settings = Settings::default();
    let tier = evaluate_status_tier(&rules, &[], &settings, 0, today());
    assert_eq!(tier, StatusTier::Great);
}

#[test]
fn matches_severe_when_a_task_is_overdue() {
    let mut rules = rules_all_unset();
    rules[0].due_within_days = Some(0);
    let overdue = task_due("2026-06-20");
    let settings = Settings::default();
    let tier = evaluate_status_tier(&rules, &[overdue], &settings, 0, today());
    assert_eq!(tier, StatusTier::Severe);
}

#[test]
fn due_within_days_zero_matches_a_task_due_exactly_today() {
    let mut rules = rules_all_unset();
    rules[0].due_within_days = Some(0);
    let due_today = task_due("2026-06-24");
    let settings = Settings::default();
    let tier = evaluate_status_tier(&rules, &[due_today], &settings, 0, today());
    assert_eq!(tier, StatusTier::Severe);
}

#[test]
fn due_within_days_does_not_match_a_task_due_one_day_after_the_threshold() {
    let mut rules = rules_all_unset();
    rules[0].due_within_days = Some(0);
    let due_tomorrow = task_due("2026-06-25");
    let settings = Settings::default();
    let tier = evaluate_status_tier(&rules, &[due_tomorrow], &settings, 0, today());
    assert_eq!(tier, StatusTier::Great);
}

#[test]
fn most_severe_tier_wins_when_multiple_tiers_would_match() {
    let mut rules = rules_all_unset();
    rules[0].due_within_days = Some(7);
    rules[1].due_within_days = Some(7);
    let due_soon = task_due("2026-06-26");
    let settings = Settings::default();
    let tier = evaluate_status_tier(&rules, &[due_soon], &settings, 0, today());
    assert_eq!(tier, StatusTier::Severe);
}

#[test]
fn a_tier_with_multiple_conditions_requires_all_of_them_to_match() {
    let mut rules = rules_all_unset();
    rules[1].due_within_days = Some(1);
    rules[1].min_priority = Some("high".to_string());
    let mut due_soon_low_priority = task_with_priority("low");
    due_soon_low_priority.due = Some("2026-06-24".to_string());
    let settings = settings_with_priorities();
    let tier = evaluate_status_tier(&rules, &[due_soon_low_priority], &settings, 0, today());
    assert_eq!(tier, StatusTier::Great);
}

#[test]
fn a_tier_with_multiple_conditions_matches_when_both_are_satisfied_by_different_tasks() {
    let mut rules = rules_all_unset();
    rules[1].due_within_days = Some(1);
    rules[1].min_priority = Some("high".to_string());
    let due_soon = task_due("2026-06-24");
    let high_priority = task_with_priority("high");
    let settings = settings_with_priorities();
    let tier = evaluate_status_tier(&rules, &[due_soon, high_priority], &settings, 0, today());
    assert_eq!(tier, StatusTier::Critical);
}

#[test]
fn min_priority_matches_an_exactly_equal_rank() {
    let mut rules = rules_all_unset();
    rules[1].min_priority = Some("high".to_string());
    let high_priority_task = task_with_priority("high");
    let settings = settings_with_priorities();
    let tier = evaluate_status_tier(&rules, &[high_priority_task], &settings, 0, today());
    assert_eq!(tier, StatusTier::Critical);
}

#[test]
fn min_priority_matches_a_more_severe_custom_level_with_a_lower_rank() {
    let mut rules = rules_all_unset();
    rules[1].min_priority = Some("high".to_string());
    let mut settings = settings_with_priorities();
    settings.priorities.push(PriorityLevel {
        id: "urgent".to_string(),
        label: "Urgent".to_string(),
        color: "#ff0000".to_string(),
        rank: 0,
    });
    let urgent_task = task_with_priority("urgent");
    let tier = evaluate_status_tier(&rules, &[urgent_task], &settings, 0, today());
    assert_eq!(tier, StatusTier::Critical);
}

#[test]
fn min_priority_does_not_match_a_less_severe_level() {
    let mut rules = rules_all_unset();
    rules[1].min_priority = Some("high".to_string());
    let low_priority_task = task_with_priority("low");
    let settings = settings_with_priorities();
    let tier = evaluate_status_tier(&rules, &[low_priority_task], &settings, 0, today());
    assert_eq!(tier, StatusTier::Great);
}

#[test]
fn min_priority_referencing_an_unknown_id_never_matches() {
    let mut rules = rules_all_unset();
    rules[1].min_priority = Some("does-not-exist".to_string());
    let any_task = task_with_priority("high");
    let settings = settings_with_priorities();
    let tier = evaluate_status_tier(&rules, &[any_task], &settings, 0, today());
    assert_eq!(tier, StatusTier::Great);
}

#[test]
fn estimated_time_left_exceeds_minutes_matches_when_strictly_greater() {
    let mut rules = rules_all_unset();
    rules[0].estimated_time_left_exceeds_minutes = Some(100);
    let settings = Settings::default();
    let tier = evaluate_status_tier(&rules, &[], &settings, 101, today());
    assert_eq!(tier, StatusTier::Severe);
}

#[test]
fn estimated_time_left_exceeds_minutes_does_not_match_when_exactly_equal() {
    let mut rules = rules_all_unset();
    rules[0].estimated_time_left_exceeds_minutes = Some(100);
    let settings = Settings::default();
    let tier = evaluate_status_tier(&rules, &[], &settings, 100, today());
    assert_eq!(tier, StatusTier::Great);
}

#[test]
fn estimated_time_left_exceeds_minutes_does_not_match_when_lower() {
    let mut rules = rules_all_unset();
    rules[0].estimated_time_left_exceeds_minutes = Some(100);
    let settings = Settings::default();
    let tier = evaluate_status_tier(&rules, &[], &settings, 50, today());
    assert_eq!(tier, StatusTier::Great);
}

#[test]
fn an_unparsable_due_date_is_skipped_rather_than_matching() {
    let mut rules = rules_all_unset();
    rules[0].due_within_days = Some(7);
    let malformed = task_due("not-a-date");
    let settings = Settings::default();
    let tier = evaluate_status_tier(&rules, &[malformed], &settings, 0, today());
    assert_eq!(tier, StatusTier::Great);
}

#[test]
fn a_task_with_no_due_date_never_matches_due_within_days() {
    let mut rules = rules_all_unset();
    rules[0].due_within_days = Some(7);
    let no_due_date = Task::new("Demo".to_string());
    let settings = Settings::default();
    let tier = evaluate_status_tier(&rules, &[no_due_date], &settings, 0, today());
    assert_eq!(tier, StatusTier::Great);
}

#[test]
fn empty_task_list_never_matches_due_within_days_or_min_priority() {
    let mut rules = rules_all_unset();
    rules[0].due_within_days = Some(7);
    rules[1].min_priority = Some("high".to_string());
    let settings = settings_with_priorities();
    let tier = evaluate_status_tier(&rules, &[], &settings, 0, today());
    assert_eq!(tier, StatusTier::Great);
}

#[test]
fn negative_due_within_days_only_matches_already_overdue_tasks() {
    let mut rules = rules_all_unset();
    rules[0].due_within_days = Some(-1);
    let due_today = task_due("2026-06-24");
    let due_yesterday = task_due("2026-06-23");
    let settings = Settings::default();
    let tier_today = evaluate_status_tier(&rules, &[due_today], &settings, 0, today());
    let tier_yesterday = evaluate_status_tier(&rules, &[due_yesterday], &settings, 0, today());
    assert_eq!(tier_today, StatusTier::Great);
    assert_eq!(tier_yesterday, StatusTier::Severe);
}

#[test]
fn on_track_is_the_least_severe_real_tier_and_matches_last() {
    let mut rules = rules_all_unset();
    rules[3].due_within_days = Some(7);
    let due_in_a_week = task_due("2026-07-01");
    let settings = Settings::default();
    let tier = evaluate_status_tier(&rules, &[due_in_a_week], &settings, 0, today());
    assert_eq!(tier, StatusTier::OnTrack);
}

#[test]
fn the_needs_attention_slot_matches_when_only_it_holds() {
    let mut rules = rules_all_unset();
    rules[2].estimated_time_left_exceeds_minutes = Some(10);
    let settings = Settings::default();
    assert_eq!(evaluate_status_tier(&rules, &[], &settings, 11, today()), StatusTier::NeedsAttention);
}

#[test]
fn find_priority_rank_finds_the_level_or_none() {
    let levels = priorities();
    assert_eq!(find_priority_rank(&levels, "medium"), Some(2));
    assert_eq!(find_priority_rank(&levels, "missing"), None);
}
