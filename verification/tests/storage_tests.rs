use taskboard::project::Project;
use taskboard::storage::{
    front_matter_of, plan_scheduled_backfill, read_legacy_project_name, resolve_legacy_project, scheduled_backfill,
    task_listed_before, validate_task_id, StorageError,
};
use taskboard::dates::from_ymd;
use taskboard::task::Task;

#[test]
fn read_legacy_project_name_extracts_the_project_key() {
    let content = "---\nid: abc\ntitle: Demo\nproject: Homework\ncreated: 2026-06-11T10:00:00+00:00\n---\n\nNotes.";
    assert_eq!(read_legacy_project_name(content), Some("Homework".to_string()));
}

#[test]
fn read_legacy_project_name_returns_none_when_absent() {
    let content = "---\nid: abc\ntitle: Demo\ncreated: 2026-06-11T10:00:00+00:00\n---\n\nNotes.";
    assert_eq!(read_legacy_project_name(content), None);
}

#[test]
fn read_legacy_project_name_returns_none_for_already_migrated_content() {
    let content = "---\nid: abc\ntitle: Demo\nproject_id: some-id\ncreated: 2026-06-11T10:00:00+00:00\n---\n\nNotes.";
    assert_eq!(read_legacy_project_name(content), None);
}

#[test]
fn read_legacy_project_name_returns_none_for_content_with_no_frontmatter() {
    assert_eq!(read_legacy_project_name("Just plain markdown, no frontmatter."), None);
}

#[test]
fn front_matter_is_the_text_between_the_fences() {
    let content = "---\nid: abc\n---\n\nNotes.";
    assert_eq!(front_matter_of(content), Some("id: abc".to_string()));
    assert_eq!(front_matter_of("no fences"), None);
}

#[test]
fn validate_task_id_accepts_letters_digits_and_dashes_only() {
    assert!(validate_task_id("abc-123-DEF").is_ok());
    assert_eq!(validate_task_id("../etc"), Err(StorageError::InvalidId("../etc".to_string())));
    assert!(validate_task_id("a/b").is_err());
    assert!(validate_task_id("").is_err());
}

#[test]
fn storage_errors_have_readable_messages() {
    assert_eq!(StorageError::NotFound("x1".to_string()).message(), "task with id 'x1' not found");
    assert_eq!(StorageError::InvalidId("a/b".to_string()).message(), "'a/b' is not a valid task id");
}

fn task(order: i64, created: &str) -> Task {
    let mut t = Task::new("T".to_string());
    t.order = order;
    t.created = created.to_string();
    t
}

#[test]
fn tasks_are_listed_by_order_then_created() {
    let a = task(1, "2026-06-11T10:00:00+00:00");
    let b = task(2, "2026-06-10T10:00:00+00:00");
    let c = task(1, "2026-06-12T10:00:00+00:00");
    assert!(task_listed_before(&a, &b));
    assert!(!task_listed_before(&b, &a));
    assert!(task_listed_before(&a, &c));
    assert!(!task_listed_before(&a, &a));
}

#[test]
fn scheduled_backfill_takes_the_creation_day() {
    let mut t = Task::new("T".to_string());
    t.created = "2026-06-11T10:00:00+00:00".to_string();
    let day = from_ymd(2026, 6, 11).unwrap();
    let filled = plan_scheduled_backfill(&t, Some(day)).unwrap();
    assert_eq!(filled.scheduled, Some("2026-06-11".to_string()));
    assert_eq!(plan_scheduled_backfill(&t, None), None);
    let mut already = t.clone();
    already.scheduled = Some("2026-07-01".to_string());
    assert_eq!(plan_scheduled_backfill(&already, Some(day)), None);
    assert!(scheduled_backfill(&t).unwrap().scheduled.is_some());
    let mut broken = t.clone();
    broken.created = "yesterday".to_string();
    assert_eq!(scheduled_backfill(&broken), None);
}

#[test]
fn legacy_project_names_resolve_case_insensitively_to_the_first_match() {
    let mut p1 = Project::new("Homework".to_string(), "#111111".to_string(), 1);
    p1.id = "p1".to_string();
    let mut p2 = Project::new("HOMEWORK".to_string(), "#222222".to_string(), 2);
    p2.id = "p2".to_string();
    let projects = vec![p1, p2];
    let t = Task::new("T".to_string());
    let resolved = resolve_legacy_project(t.clone(), "homework", &projects);
    assert_eq!(resolved.project_id, Some("p1".to_string()));
    let unresolved = resolve_legacy_project(t.clone(), "chores", &projects);
    assert_eq!(unresolved, t);
}

#[test]
fn tasks_sort_by_order_then_created() {
    let a = task(2, "2026-06-10T10:00:00+00:00");
    let b = task(1, "2026-06-12T10:00:00+00:00");
    let c = task(1, "2026-06-11T10:00:00+00:00");
    let d = task(0, "2026-06-13T10:00:00+00:00");
    let sorted = taskboard::storage::sort_tasks(vec![a.clone(), b.clone(), c.clone(), d.clone()]);
    assert_eq!(sorted, vec![d, c, b, a]);
}

fn migrate_legacy_content(content: &str, task: Task, projects: &[Project]) -> Task {
    match read_legacy_project_name(content) {
        Some(name) => resolve_legacy_project(task, &name, projects),
        None => task,
    }
}

#[test]
fn migrate_task_project_names_to_ids_resolves_a_matching_project() {
    let mut task = Task::new("Read chapter 1".to_string());
    let task_id = task.id.clone();
    let legacy_content = format!(
        "---\nid: {task_id}\ntitle: Read chapter 1\nproject: Homework\ncreated: {}\n---\n\n",
        task.created
    );
    task.project_id = None;

    let homework = Project::new("Homework".to_string(), "#111111".to_string(), 1);
    let homework_id = homework.id.clone();
    let projects = vec![homework];

    let migrated = migrate_legacy_content(&legacy_content, task, &projects);
    assert_eq!(migrated.project_id, Some(homework_id));
    assert_eq!(migrated.id, task_id);
}

#[test]
fn migrate_task_project_names_to_ids_matches_case_insensitively() {
    let task_id = "task-1".to_string();
    let legacy_content = format!(
        "---\nid: {task_id}\ntitle: Demo\nproject: HOMEWORK\ncreated: 2026-06-11T10:00:00+00:00\n---\n\n"
    );
    let mut task = Task::new("Demo".to_string());
    task.id = task_id.clone();
    task.project_id = None;

    let homework = Project::new("Homework".to_string(), "#111111".to_string(), 1);
    let homework_id = homework.id.clone();
    let projects = vec![homework];

    let migrated = migrate_legacy_content(&legacy_content, task, &projects);
    assert_eq!(migrated.project_id, Some(homework_id));
}

#[test]
fn migrate_task_project_names_to_ids_leaves_unmatched_tasks_unset_without_failing() {
    let task_id = "task-1".to_string();
    let legacy_content = format!(
        "---\nid: {task_id}\ntitle: Demo\nproject: DoesNotExist\ncreated: 2026-06-11T10:00:00+00:00\n---\n\n"
    );
    let mut task = Task::new("Demo".to_string());
    task.id = task_id.clone();
    task.project_id = None;
    let projects: Vec<Project> = Vec::new();

    assert_eq!(read_legacy_project_name(&legacy_content), Some("DoesNotExist".to_string()));
    let migrated = migrate_legacy_content(&legacy_content, task, &projects);
    assert_eq!(migrated.project_id, None);
}

#[test]
fn migrate_task_project_names_to_ids_is_idempotent() {
    let mut task = Task::new("Already migrated".to_string());
    task.project_id = Some("existing-id".to_string());
    let saved = format!(
        "---\nid: {}\ntitle: Already migrated\nproject_id: existing-id\ncreated: {}\n---\n\n",
        task.id, task.created
    );
    let projects = vec![Project::new("Unrelated".to_string(), "#222222".to_string(), 1)];

    assert_eq!(read_legacy_project_name(&saved), None);
    let unchanged = migrate_legacy_content(&saved, task.clone(), &projects);
    assert_eq!(unchanged.project_id, Some("existing-id".to_string()));
    assert_eq!(unchanged, task);
}

#[test]
fn migrate_scheduled_dates_backfills_scheduled_from_created_for_tasks_missing_it() {
    let mut task = Task::new("Needs scheduled".to_string());
    task.scheduled = None;
    task.created = "2026-06-10T12:00:00+00:00".to_string();

    let migrated = scheduled_backfill(&task).unwrap();

    let expected = chrono::DateTime::parse_from_rfc3339(&task.created)
        .unwrap()
        .with_timezone(&chrono::Local)
        .date_naive()
        .format("%Y-%m-%d")
        .to_string();
    assert_eq!(migrated.scheduled, Some(expected));
    assert_eq!(migrated.title, task.title);
}

#[test]
fn migrate_scheduled_dates_does_not_overwrite_an_existing_scheduled_date() {
    let mut task = Task::new("Already scheduled".to_string());
    task.scheduled = Some("2026-01-01".to_string());
    task.created = "2026-06-10T12:00:00+00:00".to_string();

    assert_eq!(scheduled_backfill(&task), None);
    assert_eq!(scheduled_backfill(&task), None);
    assert_eq!(task.scheduled, Some("2026-01-01".to_string()));
}

#[test]
fn migrate_scheduled_dates_skips_unparseable_files_and_continues() {
    let mut broken = Task::new("Broken".to_string());
    broken.scheduled = None;
    broken.created = "not valid".to_string();
    let mut task = Task::new("Valid task".to_string());
    task.scheduled = None;

    let results: Vec<Option<Task>> = vec![broken, task].iter().map(scheduled_backfill).collect();

    assert_eq!(results[0], None);
    assert!(results[1].as_ref().unwrap().scheduled.is_some());
}

#[test]
fn list_tasks_ignores_non_markdown_files_and_falls_back_to_created_when_order_ties() {
    let mut older = Task::new("First".to_string());
    older.order = 0;
    older.created = "2026-01-01T00:00:00+00:00".to_string();
    let mut newer = Task::new("Second".to_string());
    newer.order = 0;
    newer.created = "2026-02-01T00:00:00+00:00".to_string();

    let tasks = taskboard::storage::sort_tasks(vec![newer, older]);

    assert_eq!(tasks.len(), 2);
    assert_eq!(tasks[0].title, "First");
    assert_eq!(tasks[1].title, "Second");
}

#[test]
fn list_tasks_sorts_by_order_then_created() {
    let mut higher_order = Task::new("Second by order".to_string());
    higher_order.order = 2000;
    let mut lower_order = Task::new("First by order".to_string());
    lower_order.order = 1000;

    let tasks = taskboard::storage::sort_tasks(vec![higher_order, lower_order]);

    assert_eq!(tasks.len(), 2);
    assert_eq!(tasks[0].title, "First by order");
    assert_eq!(tasks[1].title, "Second by order");
}
