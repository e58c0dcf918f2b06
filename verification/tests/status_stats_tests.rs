use taskboard::dates::{from_ymd, weekday};
use taskboard::project::Project;
use taskboard::settings::{Settings, TaskDefaults};
use taskboard::status_stats::{
    avg_time_per_week_task_ids, completion_counts, estimated_time_left, start_of_week, total_time_tracked,
    weighted_completion_counts, complete_weeks_elapsed,
};
use taskboard::task::Task;

fn task_in_project(project_id: &str) -> Task {
    let mut task = Task::new("Demo".to_string());
    task.project_id = Some(project_id.to_string());
    task
}

fn project(id: &str) -> Project {
    let mut p = Project::new(id.to_string(), "#111111".to_string(), 1);
    p.id = id.to_string();
    p
}

fn settings_with_done(done: &str) -> Settings {
    Settings { done_status: done.to_string(), ..Settings::default() }
}

fn completion_pct(project_id: &str, projects: &[Project], tasks: &[Task], rollup: bool, settings: &Settings) -> Option<f64> {
    let (done, total) = completion_counts(project_id, projects, tasks, rollup, settings);
    if total == 0 { None } else { Some(done as f64 / total as f64) }
}

fn weighted_completion_pct(project_id: &str, projects: &[Project], tasks: &[Task], rollup: bool, settings: &Settings) -> Option<f64> {
    let (done, total) = weighted_completion_counts(project_id, projects, tasks, rollup, settings);
    if total == 0 { None } else { Some(done as f64 / total as f64) }
}

#[test]
fn sums_estimate_minus_tracked_floored_at_zero() {
    let mut t1 = task_in_project("p1");
    t1.scheduled = Some("2026-06-24".to_string());
    t1.estimated_minutes = Some(100);
    t1.tracked_minutes = 30;
    let mut t2 = task_in_project("p1");
    t2.scheduled = Some("2026-06-25".to_string());
    t2.estimated_minutes = Some(50);
    t2.tracked_minutes = 80; // over-tracked: floors at 0
    let settings = Settings::default();

    let result = estimated_time_left("p1", &[t1, t2], &settings);

    assert_eq!(result, 70);
}

#[test]
fn skips_tasks_with_no_estimate_rather_than_counting_as_zero() {
    let mut t1 = task_in_project("p1");
    t1.scheduled = Some("2026-06-24".to_string());
    t1.estimated_minutes = None;
    t1.tracked_minutes = 0;
    let mut t2 = task_in_project("p1");
    t2.scheduled = Some("2026-06-24".to_string());
    t2.estimated_minutes = Some(60);
    t2.tracked_minutes = 0;
    let settings = Settings::default();

    let result = estimated_time_left("p1", &[t1, t2], &settings);

    assert_eq!(result, 60);
}

#[test]
fn skips_tasks_with_no_scheduled_date_even_if_estimated() {
    let mut t = task_in_project("p1");
    t.scheduled = None;
    t.estimated_minutes = Some(60);
    let settings = Settings::default();

    let result = estimated_time_left("p1", &[t], &settings);

    assert_eq!(result, 0);
}

#[test]
fn excludes_hidden_tasks() {
    let mut t = task_in_project("p1");
    t.scheduled = Some("2026-06-24".to_string());
    t.estimated_minutes = Some(60);
    t.hidden = true;
    let settings = Settings::default();

    let result = estimated_time_left("p1", &[t], &settings);

    assert_eq!(result, 0);
}

#[test]
fn excludes_completed_tasks() {
    let settings = Settings {
        done_status: "done".to_string(),
        ..Settings::default()
    };
    let mut t = task_in_project("p1");
    t.scheduled = Some("2026-06-24".to_string());
    t.estimated_minutes = Some(60);
    t.status = "done".to_string();

    let result = estimated_time_left("p1", &[t], &settings);

    assert_eq!(result, 0);
}

#[test]
fn excludes_cancelled_tasks() {
    let settings = Settings {
        cancelled_status: Some("cancelled".to_string()),
        ..Settings::default()
    };
    let mut t = task_in_project("p1");
    t.scheduled = Some("2026-06-24".to_string());
    t.estimated_minutes = Some(60);
    t.status = "cancelled".to_string();

    let result = estimated_time_left("p1", &[t], &settings);

    assert_eq!(result, 0);
}

#[test]
fn excludes_tasks_from_other_projects() {
    let mut t = task_in_project("other-project");
    t.scheduled = Some("2026-06-24".to_string());
    t.estimated_minutes = Some(60);
    let settings = Settings::default();

    let result = estimated_time_left("p1", &[t], &settings);

    assert_eq!(result, 0);
}

#[test]
fn returns_zero_for_zero_estimate_exactly_at_boundary() {
    let mut t = task_in_project("p1");
    t.scheduled = Some("2026-06-24".to_string());
    t.estimated_minutes = Some(30);
    t.tracked_minutes = 30; // exactly equal: 0 left
    let settings = Settings::default();

    let result = estimated_time_left("p1", &[t], &settings);

    assert_eq!(result, 0);
}

#[test]
fn empty_task_list_is_zero() {
    let settings = Settings::default();

    let result = estimated_time_left("p1", &[], &settings);

    assert_eq!(result, 0);
}

#[test]
fn excludes_recurring_tasks_even_when_scheduled_and_estimated() {
    let mut t = task_in_project("p1");
    t.scheduled = Some("2026-06-24".to_string());
    t.estimated_minutes = Some(60);
    t.series_id = Some("series-1".to_string());
    let settings = Settings::default();

    let result = estimated_time_left("p1", &[t], &settings);

    assert_eq!(result, 0);
}

#[test]
fn never_rolls_up_into_subprojects() {
    let mut sub_task = task_in_project("sub");
    sub_task.scheduled = Some("2026-06-24".to_string());
    sub_task.estimated_minutes = Some(500);
    let settings = Settings::default();

    // Even if a caller mistakenly passed a subproject's tasks in
    // here, estimated_time_left has no rollup parameter at all —
    // this test documents that calling it with "p1" while only
    // "sub"'s tasks exist correctly yields 0, since there's no
    // mechanism for it to look at any project but its own.
    let result = estimated_time_left("p1", &[sub_task], &settings);

    assert_eq!(result, 0);
}

#[test]
fn includes_subtask_estimates_from_container_project() {
    let mut parent = task_in_project("p1");
    parent.scheduled = Some("2026-06-24".to_string());
    parent.estimated_minutes = Some(30);
    parent.subtask_project_id = Some("container-1".to_string());

    let mut subtask = task_in_project("container-1");
    subtask.scheduled = Some("2026-06-24".to_string());
    subtask.estimated_minutes = Some(40);
    subtask.tracked_minutes = 10;

    let settings = Settings::default();
    let result = estimated_time_left("p1", &[parent, subtask], &settings);

    // 30 (parent, nothing tracked) + (40-10) (subtask) = 60
    assert_eq!(result, 60);
}

#[test]
fn does_not_include_containers_owned_by_tasks_in_other_projects() {
    let mut other_parent = task_in_project("other");
    other_parent.scheduled = Some("2026-06-24".to_string());
    other_parent.subtask_project_id = Some("container-other".to_string());

    let mut subtask = task_in_project("container-other");
    subtask.scheduled = Some("2026-06-24".to_string());
    subtask.estimated_minutes = Some(100);

    let settings = Settings::default();
    let result = estimated_time_left("p1", &[other_parent, subtask], &settings);

    assert_eq!(result, 0);
}

#[test]
fn subtask_without_scheduled_date_is_excluded() {
    let mut parent = task_in_project("p1");
    parent.scheduled = Some("2026-06-24".to_string());
    parent.estimated_minutes = Some(30);
    parent.subtask_project_id = Some("container-1".to_string());

    let mut subtask = task_in_project("container-1");
    subtask.scheduled = None;
    subtask.estimated_minutes = Some(40);

    let settings = Settings::default();
    let result = estimated_time_left("p1", &[parent, subtask], &settings);

    // unscheduled subtask is excluded, only parent counted
    assert_eq!(result, 30);
}

#[test]
fn sums_tracked_minutes_across_own_non_hidden_tasks() {
    let mut t1 = task_in_project("p1");
    t1.tracked_minutes = 30;
    let mut t2 = task_in_project("p1");
    t2.tracked_minutes = 45;
    let projects = vec![project("p1")];

    let result = total_time_tracked("p1", &projects, &[t1, t2], false);

    assert_eq!(result, 75);
}

#[test]
fn status_stats_includes_the_hidden_trackers_own_time() {
    let mut tracker = task_in_project("p1");
    tracker.hidden = true;
    tracker.tracked_minutes = 200;
    let mut p1 = project("p1");
    p1.tracking_task_id = Some(tracker.id.clone());
    let mut normal_task = task_in_project("p1");
    normal_task.tracked_minutes = 10;

    let result = total_time_tracked("p1", &[p1], &[tracker, normal_task], false);

    assert_eq!(result, 210);
}

#[test]
fn excludes_other_hidden_tasks_that_arent_the_tracker() {
    // A hidden task that isn't *this* project's tracking_task_id
    // (e.g. a subtask container's stray hidden task) never counts.
    let mut hidden_other = task_in_project("p1");
    hidden_other.hidden = true;
    hidden_other.tracked_minutes = 999;
    let p1 = project("p1"); // tracking_task_id left None
    let mut normal_task = task_in_project("p1");
    normal_task.tracked_minutes = 10;

    let result = total_time_tracked("p1", &[p1], &[hidden_other, normal_task], false);

    assert_eq!(result, 10);
}

#[test]
fn is_zero_when_there_is_no_tracker_and_no_tasks() {
    let p1 = project("p1");

    let result = total_time_tracked("p1", &[p1], &[], false);

    assert_eq!(result, 0);
}

#[test]
fn excludes_subprojects_when_rollup_is_off() {
    let mut parent = project("parent");
    parent.id = "parent".to_string();
    let mut child = project("child");
    child.id = "child".to_string();
    child.parent_id = Some("parent".to_string());
    let mut parent_task = task_in_project("parent");
    parent_task.tracked_minutes = 10;
    let mut child_task = task_in_project("child");
    child_task.tracked_minutes = 100;

    let result = total_time_tracked(
        "parent",
        &[parent, child],
        &[parent_task, child_task],
        false,
    );

    assert_eq!(result, 10);
}

#[test]
fn includes_subprojects_recursively_when_rollup_is_on() {
    let mut parent = project("parent");
    parent.id = "parent".to_string();
    let mut child = project("child");
    child.id = "child".to_string();
    child.parent_id = Some("parent".to_string());
    let mut grandchild = project("grandchild");
    grandchild.id = "grandchild".to_string();
    grandchild.parent_id = Some("child".to_string());

    let mut parent_task = task_in_project("parent");
    parent_task.tracked_minutes = 10;
    let mut child_task = task_in_project("child");
    child_task.tracked_minutes = 20;
    let mut grandchild_task = task_in_project("grandchild");
    grandchild_task.tracked_minutes = 30;

    let result = total_time_tracked(
        "parent",
        &[parent, child, grandchild],
        &[parent_task, child_task, grandchild_task],
        true,
    );

    assert_eq!(result, 60);
}

#[test]
fn includes_each_subprojects_own_hidden_tracker_when_rolled_up() {
    let mut child_tracker = task_in_project("child");
    child_tracker.hidden = true;
    child_tracker.tracked_minutes = 500;
    let mut parent = project("parent");
    parent.id = "parent".to_string();
    let mut child = project("child");
    child.id = "child".to_string();
    child.parent_id = Some("parent".to_string());
    child.tracking_task_id = Some(child_tracker.id.clone());

    let result = total_time_tracked("parent", &[parent, child], &[child_tracker], true);

    assert_eq!(result, 500);
}

#[test]
fn status_stats_returns_none_for_an_empty_population() {
    let settings = settings_with_done("done");
    let projects = vec![project("p1")];

    let result = completion_pct("p1", &projects, &[], false, &settings);

    assert_eq!(result, None);
}

#[test]
fn computes_the_basic_ratio() {
    let settings = settings_with_done("done");
    let projects = vec![project("p1")];
    let mut done_task = task_in_project("p1");
    done_task.status = "done".to_string();
    let not_done_task = task_in_project("p1");

    let result = completion_pct(
        "p1",
        &projects,
        &[done_task, not_done_task],
        false,
        &settings,
    );

    assert_eq!(result, Some(0.5));
}

#[test]
fn excludes_hidden_tasks_from_both_sides() {
    let settings = settings_with_done("done");
    let projects = vec![project("p1")];
    let mut hidden = task_in_project("p1");
    hidden.hidden = true;
    hidden.status = "done".to_string();
    let mut done_task = task_in_project("p1");
    done_task.status = "done".to_string();

    let result = completion_pct("p1", &projects, &[hidden, done_task], false, &settings);

    assert_eq!(result, Some(1.0));
}

#[test]
fn excludes_every_recurring_occurrence_with_no_exceptions() {
    let settings = settings_with_done("done");
    let projects = vec![project("p1")];
    let mut recurring_done = task_in_project("p1");
    recurring_done.status = "done".to_string();
    recurring_done.series_id = Some("series-1".to_string());
    let mut recurring_not_done = task_in_project("p1");
    recurring_not_done.series_id = Some("series-1".to_string());
    let normal_done = {
        let mut t = task_in_project("p1");
        t.status = "done".to_string();
        t
    };

    let result = completion_pct(
        "p1",
        &projects,
        &[recurring_done, recurring_not_done, normal_done],
        false,
        &settings,
    );

    // Only the one normal, non-recurring done task should survive.
    assert_eq!(result, Some(1.0));
}

#[test]
fn excludes_cancelled_tasks_from_both_sides() {
    let mut settings = settings_with_done("done");
    settings.cancelled_status = Some("cancelled".to_string());
    let projects = vec![project("p1")];
    let mut cancelled = task_in_project("p1");
    cancelled.status = "cancelled".to_string();
    let mut done_task = task_in_project("p1");
    done_task.status = "done".to_string();

    let result = completion_pct("p1", &projects, &[cancelled, done_task], false, &settings);

    assert_eq!(result, Some(1.0));
}

#[test]
fn includes_archived_tasks_in_the_population() {
    // Modeled by simply mixing tasks from both directories into the
    // single all_tasks slice the caller is expected to merge —
    // this function makes no distinction between "still active" and
    // "archived" beyond what's already in the slice it receives.
    let settings = settings_with_done("done");
    let projects = vec![project("p1")];
    let mut archived_done = task_in_project("p1");
    archived_done.status = "done".to_string();
    let active_not_done = task_in_project("p1");

    let result = completion_pct(
        "p1",
        &projects,
        &[archived_done, active_not_done],
        false,
        &settings,
    );

    assert_eq!(result, Some(0.5));
}

#[test]
fn status_stats_rolls_up_subprojects_when_enabled() {
    let settings = settings_with_done("done");
    let mut parent = project("parent");
    parent.id = "parent".to_string();
    let mut child = project("child");
    child.id = "child".to_string();
    child.parent_id = Some("parent".to_string());
    let mut parent_done = task_in_project("parent");
    parent_done.status = "done".to_string();
    let child_not_done = task_in_project("child");

    let result = completion_pct(
        "parent",
        &[parent, child],
        &[parent_done, child_not_done],
        true,
        &settings,
    );

    assert_eq!(result, Some(0.5));
}

#[test]
fn does_not_roll_up_when_disabled() {
    let settings = settings_with_done("done");
    let mut parent = project("parent");
    parent.id = "parent".to_string();
    let mut child = project("child");
    child.id = "child".to_string();
    child.parent_id = Some("parent".to_string());
    let mut parent_done = task_in_project("parent");
    parent_done.status = "done".to_string();
    let child_not_done = task_in_project("child");

    let result = completion_pct(
        "parent",
        &[parent, child],
        &[parent_done, child_not_done],
        false,
        &settings,
    );

    assert_eq!(result, Some(1.0));
}

#[test]
fn excludes_tasks_belonging_to_unrelated_projects() {
    let settings = settings_with_done("done");
    let projects = vec![project("p1"), project("p2")];
    let mut other_done = task_in_project("p2");
    other_done.status = "done".to_string();
    let mine_not_done = task_in_project("p1");

    let result = completion_pct(
        "p1",
        &projects,
        &[other_done, mine_not_done],
        false,
        &settings,
    );

    assert_eq!(result, Some(0.0));
}

#[test]
fn weighted_returns_none_for_an_empty_population() {
    let settings = settings_with_done("done");
    let projects = vec![project("p1")];

    let result = weighted_completion_pct("p1", &projects, &[], false, &settings);

    assert_eq!(result, None);
}

#[test]
fn weights_by_own_estimated_minutes_when_set() {
    let settings = settings_with_done("done");
    let projects = vec![project("p1")];
    let mut done_task = task_in_project("p1");
    done_task.status = "done".to_string();
    done_task.estimated_minutes = Some(30);
    let mut not_done_task = task_in_project("p1");
    not_done_task.estimated_minutes = Some(90);

    let result = weighted_completion_pct(
        "p1",
        &projects,
        &[done_task, not_done_task],
        false,
        &settings,
    );

    assert_eq!(result, Some(30.0 / 120.0));
}

#[test]
fn falls_back_to_the_projects_own_default_estimate_when_unset_on_the_task() {
    let settings = settings_with_done("done");
    let mut p1 = project("p1");
    p1.defaults = TaskDefaults {
        estimated_minutes: Some(45),
        ..TaskDefaults::default()
    };
    let projects = vec![p1];
    let mut done_task = task_in_project("p1");
    done_task.status = "done".to_string();
    done_task.estimated_minutes = None; // falls back to project default (45)

    let result = weighted_completion_pct("p1", &projects, &[done_task], false, &settings);

    assert_eq!(result, Some(1.0)); // sole task, done, weight 45/45
}

#[test]
fn falls_back_to_the_global_default_when_neither_task_nor_project_set_an_estimate() {
    let mut settings = settings_with_done("done");
    settings.defaults.estimated_minutes = Some(20);
    let projects = vec![project("p1")]; // no project-level default
    let mut done_task = task_in_project("p1");
    done_task.status = "done".to_string();
    done_task.estimated_minutes = None;

    let result = weighted_completion_pct("p1", &projects, &[done_task], false, &settings);

    assert_eq!(result, Some(1.0));
}

#[test]
fn drops_a_task_entirely_when_no_estimate_resolves_anywhere() {
    let settings = settings_with_done("done"); // no global default either
    let projects = vec![project("p1")];
    let mut undweighable_done = task_in_project("p1");
    undweighable_done.status = "done".to_string();
    undweighable_done.estimated_minutes = None;
    let mut weighable_not_done = task_in_project("p1");
    weighable_not_done.estimated_minutes = Some(50);

    let result = weighted_completion_pct(
        "p1",
        &projects,
        &[undweighable_done, weighable_not_done],
        false,
        &settings,
    );

    // The undweighable done task is dropped from both sides, so the
    // only surviving task is the un-done one with weight 50: 0/50.
    assert_eq!(result, Some(0.0));
}

#[test]
fn returns_none_when_every_task_is_unweighable() {
    let settings = settings_with_done("done");
    let projects = vec![project("p1")];
    let mut t = task_in_project("p1");
    t.estimated_minutes = None;

    let result = weighted_completion_pct("p1", &projects, &[t], false, &settings);

    assert_eq!(result, None);
}

#[test]
fn excludes_recurring_hidden_and_cancelled_tasks_like_completion_pct() {
    let mut settings = settings_with_done("done");
    settings.cancelled_status = Some("cancelled".to_string());
    let projects = vec![project("p1")];
    let mut recurring = task_in_project("p1");
    recurring.series_id = Some("series-1".to_string());
    recurring.estimated_minutes = Some(1000);
    let mut hidden = task_in_project("p1");
    hidden.hidden = true;
    hidden.estimated_minutes = Some(1000);
    let mut cancelled = task_in_project("p1");
    cancelled.status = "cancelled".to_string();
    cancelled.estimated_minutes = Some(1000);
    let mut surviving_done = task_in_project("p1");
    surviving_done.status = "done".to_string();
    surviving_done.estimated_minutes = Some(10);

    let result = weighted_completion_pct(
        "p1",
        &projects,
        &[recurring, hidden, cancelled, surviving_done],
        false,
        &settings,
    );

    assert_eq!(result, Some(1.0));
}

#[test]
fn weighted_rolls_up_subprojects_when_enabled() {
    let settings = settings_with_done("done");
    let mut parent = project("parent");
    parent.id = "parent".to_string();
    let mut child = project("child");
    child.id = "child".to_string();
    child.parent_id = Some("parent".to_string());
    let mut parent_done = task_in_project("parent");
    parent_done.status = "done".to_string();
    parent_done.estimated_minutes = Some(10);
    let mut child_not_done = task_in_project("child");
    child_not_done.estimated_minutes = Some(30);

    let result = weighted_completion_pct(
        "parent",
        &[parent, child],
        &[parent_done, child_not_done],
        true,
        &settings,
    );

    assert_eq!(result, Some(10.0 / 40.0));
}

#[test]
fn monday_start_returns_the_date_itself_when_already_monday() {
    let monday = from_ymd(2026, 6, 22).unwrap();
    assert_eq!(weekday(monday), 1);

    assert_eq!(start_of_week(monday, "monday"), monday);
}

#[test]
fn monday_start_resolves_a_wednesday_back_to_that_weeks_monday() {
    let wednesday = from_ymd(2026, 6, 24).unwrap();
    let expected_monday = from_ymd(2026, 6, 22).unwrap();

    assert_eq!(start_of_week(wednesday, "monday"), expected_monday);
}

#[test]
fn sunday_start_resolves_a_wednesday_back_to_that_weeks_sunday() {
    let wednesday = from_ymd(2026, 6, 24).unwrap();
    let expected_sunday = from_ymd(2026, 6, 21).unwrap();

    assert_eq!(start_of_week(wednesday, "sunday"), expected_sunday);
}

#[test]
fn an_unrecognized_week_start_falls_back_to_sunday_rather_than_panicking() {
    let wednesday = from_ymd(2026, 6, 24).unwrap();
    let expected_sunday = from_ymd(2026, 6, 21).unwrap();

    assert_eq!(start_of_week(wednesday, "garbage"), expected_sunday);
}


#[test]
fn completion_counts_are_exact_integers() {
    let settings = settings_with_done("done");
    let projects = vec![project("p1")];
    let mut a = task_in_project("p1");
    a.status = "done".to_string();
    let b = task_in_project("p1");
    let c = task_in_project("p1");
    assert_eq!(completion_counts("p1", &projects, &[a, b, c], false, &settings), (1, 3));
}

#[test]
fn average_task_ids_list_own_visible_tasks_then_trackers() {
    let mut parent = project("parent");
    parent.tracking_task_id = Some("tracker-p".to_string());
    let mut child = project("child");
    child.parent_id = Some("parent".to_string());
    child.tracking_task_id = Some("tracker-c".to_string());
    let mut t1 = task_in_project("parent");
    t1.id = "t1".to_string();
    let mut t2 = task_in_project("child");
    t2.id = "t2".to_string();
    let mut hidden = task_in_project("parent");
    hidden.id = "h".to_string();
    hidden.hidden = true;
    let mut other = task_in_project("elsewhere");
    other.id = "o".to_string();
    let projects = vec![parent, child];
    let tasks = vec![t1, t2, hidden, other];
    assert_eq!(avg_time_per_week_task_ids("parent", &projects, &tasks, false), vec!["t1", "tracker-p"]);
    assert_eq!(
        avg_time_per_week_task_ids("parent", &projects, &tasks, true),
        vec!["t1", "t2", "tracker-p", "tracker-c"]
    );
}

#[test]
fn complete_weeks_elapsed_is_clamped_to_the_window() {
    let current = from_ymd(2026, 6, 22).unwrap();
    assert_eq!(complete_weeks_elapsed(current, current, 4), 1);
    assert_eq!(complete_weeks_elapsed(current, current - 14, 4), 2);
    assert_eq!(complete_weeks_elapsed(current, current - 70, 4), 4);
}
