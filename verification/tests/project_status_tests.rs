use taskboard::commands::plan_project_status_stats;
use taskboard::dates::from_ymd;
use taskboard::project::Project;
use taskboard::settings::{Settings, StatusTierRule};
use taskboard::status_stats::completion_counts;
use taskboard::status_tier::StatusTier;
use taskboard::task::Task;

fn project_with_id(id: &str) -> Project {
    let mut p = Project::new(id.to_string(), "#111111".to_string(), 1);
    p.id = id.to_string();
    p
}

fn today() -> i32 {
    from_ymd(2026, 6, 24).unwrap()
}

fn settings_with_done(done: &str) -> Settings {
    Settings { done_status: done.to_string(), ..Settings::default() }
}

#[test]
fn errors_when_project_id_does_not_exist() {
    let settings = settings_with_done("done");
    let err = plan_project_status_stats("does-not-exist", &[], vec![], &settings, today()).unwrap_err();
    assert!(err.contains("does-not-exist"));
    assert_eq!(err, "project 'does-not-exist' not found");
}

#[test]
fn an_empty_project_with_no_tasks_is_great_with_zeroed_stats() {
    let project = project_with_id("p1");
    let settings = settings_with_done("done");
    let projects = vec![project];
    let result = plan_project_status_stats("p1", &projects, vec![], &settings, today()).unwrap();
    assert_eq!(result.status_tier, StatusTier::Great);
    assert_eq!(result.estimated_time_left, 0);
    assert_eq!(result.total_time_tracked, 0);
    assert_eq!(completion_counts("p1", &projects, &[], result.include_subprojects, &settings), (0, 0));
}

#[test]
fn an_overdue_task_drives_the_status_tier_to_severe() {
    let project = project_with_id("p1");
    let mut overdue_task = Task::new("Overdue".to_string());
    overdue_task.project_id = Some("p1".to_string());
    overdue_task.due = Some("2026-06-20".to_string());
    let settings = settings_with_done("done");
    let result = plan_project_status_stats("p1", &[project], vec![overdue_task], &settings, today()).unwrap();
    assert_eq!(result.status_tier, StatusTier::Severe);
}

#[test]
fn status_tier_task_scan_never_rolls_up_into_subprojects_even_when_rollup_is_on() {
    let mut parent = project_with_id("parent");
    parent.board.show_subproject_tasks = Some(true);
    let mut child = project_with_id("child");
    child.parent_id = Some("parent".to_string());
    let mut child_overdue = Task::new("Overdue in child".to_string());
    child_overdue.project_id = Some("child".to_string());
    child_overdue.due = Some("2020-01-01".to_string());
    let settings = settings_with_done("done");
    let result = plan_project_status_stats("parent", &[parent, child], vec![child_overdue], &settings, today()).unwrap();
    assert_eq!(result.status_tier, StatusTier::Great);
    assert!(result.include_subprojects);
}

#[test]
fn project_level_status_tier_rule_override_wins_over_the_global_rule() {
    let mut project = project_with_id("p1");
    project.board.status_tier_rule_overrides = Some(vec![
        Some(StatusTierRule { due_within_days: Some(2), min_priority: None, estimated_time_left_exceeds_minutes: None }),
        None,
        None,
        None,
    ]);
    let mut due_soon = Task::new("Due soon".to_string());
    due_soon.project_id = Some("p1".to_string());
    due_soon.due = Some("2026-06-26".to_string());
    let settings = settings_with_done("done");
    let result = plan_project_status_stats("p1", &[project], vec![due_soon], &settings, today()).unwrap();
    assert_eq!(result.status_tier, StatusTier::Severe);
}

#[test]
fn total_time_tracked_rolls_up_subprojects_when_show_subproject_tasks_is_on() {
    let mut parent = project_with_id("parent");
    parent.board.show_subproject_tasks = Some(true);
    let mut child = project_with_id("child");
    child.parent_id = Some("parent".to_string());
    let mut child_task = Task::new("Child task".to_string());
    child_task.project_id = Some("child".to_string());
    child_task.tracked_minutes = 42;
    let settings = settings_with_done("done");
    let result = plan_project_status_stats("parent", &[parent, child], vec![child_task], &settings, today()).unwrap();
    assert_eq!(result.total_time_tracked, 42);
}

#[test]
fn total_time_tracked_excludes_subprojects_when_rollup_is_off() {
    let parent = project_with_id("parent");
    let mut child = project_with_id("child");
    child.parent_id = Some("parent".to_string());
    let mut child_task = Task::new("Child task".to_string());
    child_task.project_id = Some("child".to_string());
    child_task.tracked_minutes = 42;
    let settings = settings_with_done("done");
    let result = plan_project_status_stats("parent", &[parent, child], vec![child_task], &settings, today()).unwrap();
    assert_eq!(result.total_time_tracked, 0);
    assert!(!result.include_subprojects);
}

#[test]
fn completion_pct_reflects_done_vs_total_over_the_projects_own_tasks() {
    let project = project_with_id("p1");
    let mut done_task = Task::new("Done".to_string());
    done_task.project_id = Some("p1".to_string());
    done_task.status = "done".to_string();
    let mut not_done_task = Task::new("Not done".to_string());
    not_done_task.project_id = Some("p1".to_string());
    let settings = settings_with_done("done");
    let projects = vec![project];
    let tasks = vec![done_task, not_done_task];
    let result = plan_project_status_stats("p1", &projects, tasks.clone(), &settings, today()).unwrap();
    let (done, total) = completion_counts("p1", &projects, &tasks, result.include_subprojects, &settings);
    assert_eq!(Some(done as f64 / total as f64), Some(0.5));
}

#[test]
fn estimated_time_left_sums_scheduled_incomplete_tasks_estimate_minus_tracked() {
    let project = project_with_id("p1");
    let mut task = Task::new("Has estimate".to_string());
    task.project_id = Some("p1".to_string());
    task.scheduled = Some("2026-06-24".to_string());
    task.estimated_minutes = Some(100);
    task.tracked_minutes = 30;
    let settings = settings_with_done("done");
    let result = plan_project_status_stats("p1", &[project], vec![task], &settings, today()).unwrap();
    assert_eq!(result.estimated_time_left, 70);
}

#[test]
fn effective_layout_id_uses_the_projects_own_override() {
    let mut project = project_with_id("p1");
    project.board.status_line_layout_id = Some("project-layout".to_string());
    let settings = Settings { default_status_line_layout_id: "global-layout".to_string(), ..settings_with_done("done") };
    let result = plan_project_status_stats("p1", &[project], vec![], &settings, today()).unwrap();
    assert_eq!(result.effective_layout_id, "project-layout");
}

#[test]
fn effective_layout_id_falls_back_to_the_global_default() {
    let project = project_with_id("p1");
    let settings = Settings { default_status_line_layout_id: "global-layout".to_string(), ..settings_with_done("done") };
    let result = plan_project_status_stats("p1", &[project], vec![], &settings, today()).unwrap();
    assert_eq!(result.effective_layout_id, "global-layout");
}

#[test]
fn the_tier_ignores_finished_and_hidden_tasks() {
    let project = project_with_id("p1");
    let mut done = Task::new("Done".to_string());
    done.project_id = Some("p1".to_string());
    done.status = "done".to_string();
    done.due = Some("2020-01-01".to_string());
    let mut hidden = Task::new("Hidden".to_string());
    hidden.project_id = Some("p1".to_string());
    hidden.hidden = true;
    hidden.due = Some("2020-01-01".to_string());
    let settings = settings_with_done("done");
    let result = plan_project_status_stats("p1", &[project], vec![done, hidden], &settings, today()).unwrap();
    assert_eq!(result.status_tier, StatusTier::Great);
}
