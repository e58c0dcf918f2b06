use taskboard::settings::Settings;
use taskboard::status_history::{history_entry, seed_entries, seed_task, SeedTransition, StatusHistoryEntry};
use taskboard::task::Task;

fn make_task(id: &str, status: &str, created: &str) -> Task {
    let mut t = Task::new("T".to_string());
    t.id = id.to_string();
    t.status = status.to_string();
    t.created = created.to_string();
    t
}

fn step(to: &str, at: &str) -> SeedTransition {
    SeedTransition { to_status: to.to_string(), changed_at: at.to_string() }
}

#[test]
fn seeding_a_backlog_task_records_only_its_creation() {
    let settings = Settings::default();
    let t = make_task("t1", "backlog", "2026-01-01T00:00:00Z");
    assert_eq!(seed_task(&t, &settings), vec![step("backlog", "2026-01-01T00:00:00Z")]);
}

#[test]
fn seeding_a_done_task_records_creation_into_backlog_then_completion() {
    let settings = Settings::default();
    let mut t = make_task("t1", &settings.done_status, "2026-01-01T00:00:00Z");
    t.completed_at = Some("2026-01-05T15:30:00Z".to_string());
    assert_eq!(
        seed_task(&t, &settings),
        vec![step("backlog", "2026-01-01T00:00:00Z"), step("done", "2026-01-05T15:30:00Z")]
    );
}

#[test]
fn seeding_a_cancelled_task_records_its_cancellation() {
    let mut settings = Settings::default();
    settings.cancelled_status = Some("cancelled".to_string());
    let mut t = make_task("t1", "cancelled", "2026-01-01T00:00:00Z");
    t.cancelled_at = Some("2026-01-03T12:00:00Z".to_string());
    let plan = seed_task(&t, &settings);
    assert_eq!(plan.len(), 2);
    assert_eq!(plan[1], step("cancelled", "2026-01-03T12:00:00Z"));
}

#[test]
fn seeding_a_done_task_without_a_completion_time_records_creation_only() {
    let settings = Settings::default();
    let t = make_task("archived-1", &settings.done_status, "2026-01-02T00:00:00Z");
    assert_eq!(seed_task(&t, &settings), vec![step("backlog", "2026-01-02T00:00:00Z")]);
}

#[test]
fn seeding_an_active_task_uses_its_current_status() {
    let settings = Settings::default();
    let t = make_task("t1", "in-progress", "2026-01-01T00:00:00Z");
    assert_eq!(seed_task(&t, &settings)[0].to_status, "in-progress");
}

#[test]
fn history_entries_carry_the_transition() {
    let e = history_entry("t1", Some("do"), "done", "2026-01-05T15:30:00Z", "user");
    assert!(!e.id.is_empty());
    assert_eq!(e.task_id, "t1");
    assert_eq!(e.from_status, Some("do".to_string()));
    assert_eq!(e.to_status, "done");
    assert_eq!(e.changed_at, "2026-01-05T15:30:00Z");
    assert_eq!(e.source, "user");
}

fn rows_for(entries: &[StatusHistoryEntry], task_id: &str) -> Vec<StatusHistoryEntry> {
    entries.iter().filter(|e| e.task_id == task_id).cloned().collect()
}

#[test]
fn seed_if_empty_inserts_creation_event_for_each_task() {
    let settings = Settings::default();
    let tasks = vec![
        make_task("t1", "backlog", "2026-01-01T00:00:00Z"),
        make_task("t2", "in-progress", "2026-01-02T00:00:00Z"),
    ];

    let rows = seed_entries(&tasks, &vec![], &settings, 0);

    let t1_history = rows_for(&rows, "t1");
    assert_eq!(t1_history.len(), 1);
    assert_eq!(t1_history[0].from_status, None);
    assert_eq!(t1_history[0].to_status, "backlog");
    assert_eq!(t1_history[0].changed_at, "2026-01-01T00:00:00Z");
    assert_eq!(t1_history[0].source, "seed");
    assert_eq!(rows_for(&rows, "t2").len(), 1);
}

#[test]
fn seed_if_empty_seeds_completed_at_event_for_done_task() {
    let settings = Settings::default();
    let mut task = make_task("t1", &settings.done_status, "2026-01-01T00:00:00Z");
    task.completed_at = Some("2026-01-05T15:30:00Z".to_string());

    let rows = seed_entries(&vec![task], &vec![], &settings, 0);

    let history = rows_for(&rows, "t1");
    assert_eq!(history.len(), 2);
    assert_eq!(history[0].to_status, "backlog");
    assert_eq!(history[0].source, "seed");
    assert_eq!(history[1].to_status, settings.done_status);
    assert_eq!(history[1].changed_at, "2026-01-05T15:30:00Z");
    assert_eq!(history[1].source, "seed");
}

#[test]
fn seed_if_empty_seeds_cancelled_at_event_for_cancelled_task() {
    let mut settings = Settings::default();
    settings.cancelled_status = Some("cancelled".to_string());

    let mut task = make_task("t1", "cancelled", "2026-01-01T00:00:00Z");
    task.cancelled_at = Some("2026-01-03T12:00:00Z".to_string());

    let rows = seed_entries(&vec![task], &vec![], &settings, 0);

    let history = rows_for(&rows, "t1");
    assert_eq!(history.len(), 2);
    assert_eq!(history[1].to_status, "cancelled");
    assert_eq!(history[1].changed_at, "2026-01-03T12:00:00Z");
}

#[test]
fn seed_if_empty_is_noop_when_rows_already_exist() {
    let settings = Settings::default();
    let tasks = vec![make_task("t1", "backlog", "2026-01-01T00:00:00Z")];

    let mut table = seed_entries(&tasks, &vec![], &settings, 0);
    let again = seed_entries(&tasks, &vec![], &settings, table.len() as i64);
    table.extend(again);

    assert_eq!(rows_for(&table, "t1").len(), 1, "seeding twice should not duplicate rows");
}

#[test]
fn seed_if_empty_includes_archived_tasks() {
    let settings = Settings::default();
    let live = vec![make_task("live-1", "backlog", "2026-01-01T00:00:00Z")];
    let archived = vec![make_task("archived-1", &settings.done_status, "2026-01-02T00:00:00Z")];

    let rows = seed_entries(&live, &archived, &settings, 0);

    assert_eq!(rows_for(&rows, "live-1").len(), 1);
    assert_eq!(rows_for(&rows, "archived-1").len(), 1);
}

#[test]
fn seed_if_empty_uses_current_status_for_active_non_backlog_task() {
    let settings = Settings::default();
    let tasks = vec![make_task("t1", "in-progress", "2026-01-01T00:00:00Z")];

    let rows = seed_entries(&tasks, &vec![], &settings, 0);

    let history = rows_for(&rows, "t1");
    assert_eq!(history[0].to_status, "in-progress");
}

#[test]
fn seeded_entries_come_task_by_task_live_before_archived() {
    let settings = Settings::default();
    let mut done = make_task("a", &settings.done_status, "2026-01-01T00:00:00Z");
    done.completed_at = Some("2026-01-04T00:00:00Z".to_string());
    let live = vec![done, make_task("b", "todo", "2026-01-02T00:00:00Z")];
    let archived = vec![make_task("c", "backlog", "2026-01-03T00:00:00Z")];
    let rows = seed_entries(&live, &archived, &settings, 0);
    let order: Vec<(&str, &str)> = rows.iter().map(|e| (e.task_id.as_str(), e.to_status.as_str())).collect();
    assert_eq!(order, vec![("a", "backlog"), ("a", "done"), ("b", "todo"), ("c", "backlog")]);
    assert!(rows.iter().all(|e| !e.id.is_empty() && e.from_status.is_none() && e.source == "seed"));
    assert!(seed_entries(&live, &archived, &settings, 3).is_empty());
}

#[test]
fn seeding_records_a_completion_time_whatever_the_current_status() {
    let mut settings = Settings::default();
    settings.cancelled_status = Some("cancelled".to_string());
    let mut t = make_task("t1", "in-progress", "2026-01-01T00:00:00Z");
    t.completed_at = Some("2026-01-05T15:30:00Z".to_string());
    t.cancelled_at = Some("2026-01-06T09:00:00Z".to_string());
    assert_eq!(
        seed_task(&t, &settings),
        vec![
            step("in-progress", "2026-01-01T00:00:00Z"),
            step("done", "2026-01-05T15:30:00Z"),
            step("cancelled", "2026-01-06T09:00:00Z"),
        ]
    );
    let mut no_cancel_status = t.clone();
    no_cancel_status.completed_at = None;
    assert_eq!(seed_task(&no_cancel_status, &Settings::default()), vec![step("in-progress", "2026-01-01T00:00:00Z")]);
}
