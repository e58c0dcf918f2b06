use taskboard::commands::{
    ensure_default_project, next_order, plan_new_project, plan_new_task, plan_occurrence_delete, plan_project_delete,
    plan_occurrence_update, plan_recurring_task, plan_task_delete, plan_task_update, status_counts, ProjectTaskStrategy, RECURRENCE_BASELINE_LOOKAHEAD_DAYS,
};
use taskboard::dates::from_ymd;
use taskboard::project::Project;
use taskboard::series::{DueRule, RecurrenceFrequency};
use taskboard::settings::Settings;
use taskboard::task::Task;

fn project_with_id(id: &str, name: &str) -> Project {
    let mut p = Project::new(name.to_string(), "#111111".to_string(), 1);
    p.id = id.to_string();
    p
}

fn settings_with_default(project_id: &str) -> Settings {
    Settings { default_project_id: project_id.to_string(), ..Settings::default() }
}

#[test]
fn a_new_task_takes_the_default_project_priority_status_and_today() {
    let projects = vec![project_with_id("inbox", "Inbox")];
    let settings = settings_with_default("inbox");
    let today = from_ymd(2026, 6, 14).unwrap();
    let task = plan_new_task(&settings, &projects, today, "  Buy milk  ".to_string(), None, None, None, None, None, None, None)
        .unwrap();
    assert_eq!(task.project_id, Some("inbox".to_string()));
    assert_eq!(task.priority, "medium");
    assert_eq!(task.status, "backlog");
    assert_eq!(task.scheduled, Some("2026-06-14".to_string()));
    assert_eq!(task.due, None);
    assert!(!task.id.is_empty());
}

#[test]
fn a_new_task_refuses_an_empty_title_and_unknown_ids() {
    let projects = vec![project_with_id("inbox", "Inbox")];
    let settings = settings_with_default("inbox");
    let today = from_ymd(2026, 6, 14).unwrap();
    assert!(plan_new_task(&settings, &projects, today, "   ".to_string(), None, None, None, None, None, None, None).is_err());
    let err = plan_new_task(&settings, &projects, today, "T".to_string(), None, None, Some("urgent".to_string()), None, None, None, None)
        .unwrap_err();
    assert!(err.contains("urgent"));
    let err = plan_new_task(&settings, &projects, today, "T".to_string(), None, None, None, Some("on-hold".to_string()), None, None, None)
        .unwrap_err();
    assert!(err.contains("on-hold"));
    assert!(plan_new_task(&settings, &projects, today, "T".to_string(), None, None, None, None, Some("soon".to_string()), None, None)
        .is_err());
}

#[test]
fn a_new_task_keeps_explicit_values() {
    let projects = vec![project_with_id("inbox", "Inbox"), project_with_id("work", "Work")];
    let settings = settings_with_default("inbox");
    let today = from_ymd(2026, 6, 14).unwrap();
    let task = plan_new_task(
        &settings,
        &projects,
        today,
        "Report".to_string(),
        Some("work".to_string()),
        Some(vec!["q3".to_string()]),
        Some("high".to_string()),
        Some("do".to_string()),
        Some("2026-07-01".to_string()),
        Some("2026-06-20".to_string()),
        Some(45),
    )
    .unwrap();
    assert_eq!(task.project_id, Some("work".to_string()));
    assert_eq!(task.tags, vec!["q3".to_string()]);
    assert_eq!(task.priority, "high");
    assert_eq!(task.status, "do");
    assert_eq!(task.due, Some("2026-07-01".to_string()));
    assert_eq!(task.scheduled, Some("2026-06-20".to_string()));
    assert_eq!(task.estimated_minutes, Some(45));
}

#[test]
fn a_recurring_task_generates_its_baseline_occurrences() {
    let projects = vec![project_with_id("inbox", "Inbox")];
    let settings = settings_with_default("inbox");
    let today = from_ymd(2026, 6, 15).unwrap();
    let plan = plan_recurring_task(
        &settings,
        &projects,
        today,
        "Water the plants".to_string(),
        None,
        None,
        None,
        None,
        None,
        Some("2026-06-15".to_string()),
        None,
        RecurrenceFrequency::EveryNDays { interval: 1 },
        None,
        Some(DueRule::Never),
    )
    .unwrap();
    assert_eq!(RECURRENCE_BASELINE_LOOKAHEAD_DAYS, 60);
    assert!(plan.series.active);
    assert_eq!(plan.series.anchor_date, "2026-06-15");
    assert_eq!(plan.created[0].scheduled, Some("2026-06-15".to_string()));
    assert!(plan.created.iter().all(|t| t.series_id == Some(plan.series.id.clone())));
    assert_eq!(plan.series.generated_until, "2026-08-14");
}

#[test]
fn a_recurring_task_refuses_an_invalid_rule() {
    let projects = vec![project_with_id("inbox", "Inbox")];
    let settings = settings_with_default("inbox");
    let today = from_ymd(2026, 6, 15).unwrap();
    let result = plan_recurring_task(
        &settings,
        &projects,
        today,
        "Water the plants".to_string(),
        None,
        None,
        None,
        None,
        None,
        None,
        None,
        RecurrenceFrequency::EveryNDays { interval: 0 },
        None,
        None,
    );
    assert!(result.is_err());
}

#[test]
fn a_new_project_gets_the_next_order_and_a_default_color() {
    let mut a = project_with_id("a", "Alpha");
    a.order = 3;
    let projects = vec![a];
    let p = plan_new_project(&projects, "  Beta ".to_string(), None, None).unwrap();
    assert_eq!(p.name, "Beta");
    assert_eq!(p.order, 4);
    assert_eq!(p.color, "#3b82f6");
    assert_eq!(next_order(&projects), 4);
    assert_eq!(next_order(&[]), 1);
}

#[test]
fn a_new_project_refuses_bad_names_colors_and_parents() {
    let projects = vec![project_with_id("a", "Alpha")];
    assert_eq!(plan_new_project(&projects, "  ".to_string(), None, None).unwrap_err(), "project name must not be empty");
    assert_eq!(
        plan_new_project(&projects, "ALPHA".to_string(), None, None).unwrap_err(),
        "a project named 'ALPHA' already exists"
    );
    assert_eq!(
        plan_new_project(&projects, "Beta".to_string(), Some("red".to_string()), None).unwrap_err(),
        "'red' is not a valid hex color (expected #RRGGBB)"
    );
    assert!(plan_new_project(&projects, "Beta".to_string(), None, Some("missing".to_string())).is_err());
    let child = plan_new_project(&projects, "Beta".to_string(), None, Some("a".to_string())).unwrap();
    assert_eq!(child.parent_id, Some("a".to_string()));
}

#[test]
fn deleting_a_project_takes_its_descendants_and_needs_a_strategy_for_tasks() {
    let inbox = project_with_id("inbox", "Inbox");
    let parent = project_with_id("parent", "Parent");
    let mut child = project_with_id("child", "Child");
    child.parent_id = Some("parent".to_string());
    let projects = vec![inbox, parent, child];
    let settings = settings_with_default("inbox");
    let empty = plan_project_delete(&settings, &projects, &[], "parent", None).unwrap();
    assert_eq!(empty.doomed_ids, vec!["parent".to_string(), "child".to_string()]);
    assert_eq!(empty.result.deleted_subprojects, 1);
    assert_eq!(empty.result.affected_tasks, 0);
    assert_eq!(
        plan_project_delete(&settings, &projects, &[], "missing", None).unwrap_err(),
        "project 'missing' not found"
    );
    assert!(plan_project_delete(&settings, &projects, &[], "inbox", None).is_err());
}

#[test]
fn deleting_a_project_with_tasks_applies_the_strategy() {
    let inbox = project_with_id("inbox", "Inbox");
    let parent = project_with_id("parent", "Parent");
    let projects = vec![inbox, parent];
    let settings = settings_with_default("inbox");
    let mut t = Task::new("T".to_string());
    t.project_id = Some("parent".to_string());
    let tasks = vec![t.clone()];
    assert_eq!(
        plan_project_delete(&settings, &projects, &tasks, "parent", None).unwrap_err(),
        "this project still has tasks; choose how to handle them before deleting it"
    );
    let mut by_name = t.clone();
    by_name.project_id = Some("Parent".to_string());
    assert!(plan_project_delete(&settings, &projects, &[by_name], "parent", None).is_ok());
    let plan = plan_project_delete(
        &settings,
        &projects,
        &tasks,
        "parent",
        Some(ProjectTaskStrategy::Reassign { target_project_id: "inbox".to_string() }),
    )
    .unwrap();
    assert_eq!(plan.task_ids, vec![t.id.clone()]);
    assert_eq!(plan.result.affected_tasks, 1);
}

#[test]
fn deleting_this_occurrence_or_the_future() {
    let mut a = Task::new("W".to_string());
    a.id = "a".to_string();
    a.series_id = Some("s".to_string());
    a.scheduled = Some("2026-06-19".to_string());
    let mut b = a.clone();
    b.id = "b".to_string();
    b.scheduled = Some("2026-06-20".to_string());
    let mut c = a.clone();
    c.id = "c".to_string();
    c.scheduled = Some("2026-06-21".to_string());
    let all = vec![a, b.clone(), c];
    let this = plan_occurrence_delete(&b, &all, "this").unwrap();
    assert_eq!(this.delete_ids, vec!["b".to_string()]);
    let future = plan_occurrence_delete(&b, &all, "future").unwrap();
    assert!(future.delete_ids.contains(&"b".to_string()));
    assert!(future.delete_ids.contains(&"c".to_string()));
    assert!(!future.delete_ids.contains(&"a".to_string()));
    assert_eq!(future.series_id, Some("s".to_string()));
    assert_eq!(future.new_end_date, Some("2026-06-19".to_string()));
    assert!(plan_occurrence_delete(&b, &all, "everything").is_err());
}

#[test]
fn deleting_a_task_takes_its_container_and_subtasks() {
    let mut parent = Task::new("Fix".to_string());
    parent.id = "parent".to_string();
    parent.subtask_project_id = Some("container".to_string());
    let mut sub = Task::new("Sub".to_string());
    sub.id = "sub".to_string();
    sub.project_id = Some("container".to_string());
    let mut container = project_with_id("container", "Fix");
    container.parent_id = Some("work".to_string());
    let tasks = vec![parent.clone(), sub];
    let plan = plan_task_delete(&parent, &tasks, &[container], "parent");
    assert_eq!(plan.subtask_ids, vec!["sub".to_string()]);
    assert_eq!(plan.containers_to_remove, vec!["container".to_string()]);
    assert!(plan.owner_update.is_none());
}

#[test]
fn deleting_the_last_subtask_unlinks_the_owner() {
    let mut owner = Task::new("Fix".to_string());
    owner.id = "owner".to_string();
    owner.subtask_project_id = Some("container".to_string());
    let mut sub = Task::new("Sub".to_string());
    sub.id = "sub".to_string();
    sub.project_id = Some("container".to_string());
    let tasks = vec![owner, sub.clone()];
    let plan = plan_task_delete(&sub, &tasks, &[], "sub");
    assert!(plan.subtask_ids.is_empty());
    let updated = plan.owner_update.unwrap();
    assert_eq!(updated.id, "owner");
    assert_eq!(updated.subtask_project_id, None);
    assert_eq!(plan.containers_to_remove, vec!["container".to_string()]);
}

#[test]
fn status_counts_follow_the_settings_order_then_unknown_statuses() {
    let settings = Settings::default();
    let scheduled = |title: &str, status: &str| {
        let mut t = Task::new(title.to_string());
        t.status = status.to_string();
        t.scheduled = Some("2026-06-14".to_string());
        t
    };
    let a = scheduled("a", "done");
    let b = scheduled("b", "backlog");
    let c = scheduled("c", "mystery");
    let d = b.clone();
    let mut hidden = scheduled("h", "backlog");
    hidden.hidden = true;
    let mut unscheduled = Task::new("u".to_string());
    unscheduled.status = "backlog".to_string();
    unscheduled.scheduled = None;
    let counts = status_counts(&settings, &[a, b, c, d, hidden, unscheduled]);
    assert_eq!(
        counts,
        vec![("backlog".to_string(), 3), ("done".to_string(), 1), ("mystery".to_string(), 1)]
    );
}

#[test]
fn ensure_default_project_reuses_an_existing_default() {
    let projects = vec![project_with_id("inbox", "Inbox")];
    assert!(ensure_default_project(projects.clone(), settings_with_default("inbox")).is_none());
    let (projects, settings) = ensure_default_project(projects, settings_with_default("gone")).unwrap();
    assert_eq!(projects.len(), 2);
    assert_eq!(projects[1].name, "General");
    assert_eq!(settings.default_project_id, projects[1].id);
}


#[test]
fn board_project_count_leaves_out_subtask_containers() {
    let projects = vec![project_with_id("a", "A"), project_with_id("container", "Fix"), project_with_id("b", "B")];
    let mut owner = Task::new("Fix".to_string());
    owner.subtask_project_id = Some("container".to_string());
    assert_eq!(taskboard::commands::board_project_count(&projects, &[owner]), 2);
    assert_eq!(taskboard::commands::board_project_count(&projects, &[]), 3);
}

#[test]
fn reordering_sets_the_order_and_checks_new_ids() {
    let settings = Settings::default();
    let task = Task::new("T".to_string());
    let moved = taskboard::commands::plan_reorder(&settings, task.clone(), 7, Some("do".to_string()), None).unwrap();
    assert_eq!(moved.order, 7);
    assert_eq!(moved.status, "do");
    assert_eq!(moved.priority, task.priority);
    assert_eq!(
        taskboard::commands::plan_reorder(&settings, task.clone(), 7, Some("later".to_string()), Some("x".to_string()))
            .unwrap_err(),
        "status 'later' is not a defined status"
    );
    assert_eq!(
        taskboard::commands::plan_reorder(&settings, task, 7, None, Some("x".to_string())).unwrap_err(),
        "priority 'x' is not a defined priority level"
    );
}

#[test]
fn projects_sort_by_order_keeping_ties_in_place() {
    let mut a = project_with_id("a", "A");
    a.order = 2;
    let mut b = project_with_id("b", "B");
    b.order = 1;
    let mut c = project_with_id("c", "C");
    c.order = 2;
    let sorted = taskboard::commands::sort_projects(vec![a, b, c]);
    let ids: Vec<&str> = sorted.iter().map(|p| p.id.as_str()).collect();
    assert_eq!(ids, vec!["b", "a", "c"]);
}

#[test]
fn syncing_a_container_twice_changes_nothing_more() {
    let mut container = project_with_id("container", "Old title");
    container.parent_id = Some("work".to_string());
    let mut projects = vec![project_with_id("work", "Work"), container];
    let first = taskboard::commands::synced_subtask_container(&projects, "container", "New title", "home").unwrap();
    projects[1] = first.clone();
    let second = taskboard::commands::synced_subtask_container(&projects, "container", "New title", "home").unwrap();
    assert_eq!(first, second);
    assert_eq!(second.name, "New title");
    assert_eq!(second.parent_id, Some("home".to_string()));
}

#[test]
fn editing_this_occurrence_cascades_like_any_task_edit_and_leaves_the_series() {
    let settings = settings_with_default("inbox");
    let inbox = project_with_id("inbox", "Inbox");
    let container = project_with_id("container", "Old name");
    let projects = vec![inbox, container];
    let mut occurrence = Task::new("Weekly review".to_string());
    occurrence.id = "occ".to_string();
    occurrence.project_id = Some("inbox".to_string());
    occurrence.series_id = Some("s".to_string());
    occurrence.scheduled = Some("2026-06-19".to_string());
    occurrence.subtask_project_id = Some("container".to_string());
    let mut subtask = Task::new("Step".to_string());
    subtask.id = "sub".to_string();
    subtask.project_id = Some("container".to_string());
    subtask.scheduled = Some("2026-06-19".to_string());
    let tasks = vec![occurrence.clone(), subtask.clone()];
    let mut edit = occurrence.clone();
    edit.title = "Monthly review".to_string();
    edit.tags = vec!["work".to_string()];

    let mut all_series = Vec::new();
    let plan = plan_occurrence_update(&settings, &projects, &tasks, &mut all_series, occurrence.clone(), edit.clone(), "this")
        .unwrap();
    let as_task = plan_task_update(&settings, &projects, &tasks, occurrence, edit).unwrap();

    assert_eq!(plan.updated.len(), 1);
    assert_eq!(plan.updated[0].series_id, None);
    assert_eq!(plan.updated[0].title, "Monthly review");
    assert_eq!(plan.container, as_task.container);
    assert_eq!(plan.container.as_ref().unwrap().name, "Monthly review");
    assert_eq!(plan.subtasks, as_task.subtasks);
    assert_eq!(plan.subtasks.len(), 1);
    assert_eq!(plan.subtasks[0].tags, vec!["work".to_string()]);
    assert!(!plan.finished);
}

fn daily_series(id: &str, anchor: &str) -> taskboard::series::Series {
    let mut s = taskboard::series::Series::new(
        RecurrenceFrequency::EveryNDays { interval: 1 },
        anchor.to_string(),
        None,
        DueRule::Never,
        "Daily".to_string(),
        Some("inbox".to_string()),
        "medium".to_string(),
        vec![],
        None,
        String::new(),
    );
    s.id = id.to_string();
    s.generated_until = anchor.to_string();
    s
}

#[test]
fn a_recurrence_change_that_fails_validation_changes_nothing() {
    let settings = settings_with_default("inbox");
    let projects = vec![project_with_id("inbox", "Inbox")];
    let mut all_series = vec![daily_series("s", "2026-06-01")];
    let before = all_series.clone();
    let r = taskboard::commands::plan_series_recurrence_update(
        &settings, &projects, &[], &mut all_series, "s", "2026-06-10",
        RecurrenceFrequency::EveryNDays { interval: 0 }, DueRule::Never, None,
    );
    assert_eq!(r.unwrap_err(), "recurrence interval must be at least 1 day");
    assert_eq!(all_series, before);
}

#[test]
fn a_recurrence_change_reaches_linked_subtask_series_and_keeps_the_anchor() {
    let settings = settings_with_default("inbox");
    let projects = vec![project_with_id("inbox", "Inbox")];
    let mut parent_occurrence = Task::new("Daily".to_string());
    parent_occurrence.id = "p1".to_string();
    parent_occurrence.series_id = Some("s".to_string());
    parent_occurrence.scheduled = Some("2026-06-12".to_string());
    parent_occurrence.subtask_project_id = Some("box".to_string());
    let mut early = parent_occurrence.clone();
    early.id = "p0".to_string();
    early.scheduled = Some("2026-06-05".to_string());
    early.subtask_project_id = None;
    let mut sub = Task::new("Step".to_string());
    sub.id = "c1".to_string();
    sub.project_id = Some("box".to_string());
    sub.series_id = Some("child".to_string());
    sub.scheduled = Some("2026-06-12".to_string());
    let tasks = vec![early, parent_occurrence, sub];
    let mut all_series = vec![daily_series("s", "2026-06-01"), daily_series("child", "2026-06-01"), daily_series("other", "2026-06-01")];
    let other_before = all_series[2].clone();
    let plan = taskboard::commands::plan_series_recurrence_update(
        &settings, &projects, &tasks, &mut all_series, "s", "2026-06-10",
        RecurrenceFrequency::EveryNDays { interval: 2 }, DueRule::Never, Some("2026-07-31".to_string()),
    )
    .unwrap();
    for i in 0..2 {
        assert_eq!(all_series[i].frequency, RecurrenceFrequency::EveryNDays { interval: 2 });
        assert_eq!(all_series[i].end_date, Some("2026-07-31".to_string()));
        assert_eq!(all_series[i].anchor_date, "2026-06-01");
    }
    assert_eq!(all_series[2], other_before);
    assert_eq!(plan.stale_ids, vec!["p1".to_string(), "c1".to_string()]);
    // every other day from the anchor, 2026-06-11 through the end date 2026-07-31, for each series
    assert_eq!(plan.created.len(), 52);
    assert!(plan.created[..26].iter().all(|t| t.series_id.as_deref() == Some("s")));
    assert!(plan.created[26..].iter().all(|t| t.series_id.as_deref() == Some("child")));
    assert_eq!(plan.created[0].scheduled.as_deref(), Some("2026-06-11"));
    assert_eq!(plan.created[25].scheduled.as_deref(), Some("2026-07-31"));
    assert_eq!(all_series[0].generated_until, "2026-07-31");
    assert_eq!(all_series[1].generated_until, "2026-07-31");
    assert!(plan.created.iter().all(|t| t.scheduled.as_deref().unwrap() >= "2026-06-10"));
    assert!(plan.created.iter().any(|t| t.series_id.as_deref() == Some("child")));
}

#[test]
fn global_status_stats_count_visible_tasks_and_board_projects() {
    let settings = Settings::default();
    let projects = vec![project_with_id("inbox", "Inbox"), project_with_id("box", "Box")];
    let mut owner = Task::new("Owner".to_string());
    owner.status = "done".to_string();
    owner.subtask_project_id = Some("box".to_string());
    let mut hidden = Task::new("Hidden".to_string());
    hidden.status = "done".to_string();
    hidden.hidden = true;
    let stats = taskboard::commands::global_status_stats(&settings, &projects, &[owner, hidden]);
    assert_eq!(stats.tasks_by_status, vec![("done".to_string(), 1)]);
    assert_eq!(stats.total_projects, 1);
}
