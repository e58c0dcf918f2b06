use taskboard::project::Project;
use taskboard::settings::TaskDefaults;

#[test]
fn new_project_has_generated_id_and_created_timestamp() {
    let project = Project::new("Homework".to_string(), "#ff0000".to_string(), 1);
    assert_eq!(project.name, "Homework");
    assert_eq!(project.color, "#ff0000");
    assert_eq!(project.order, 1);
    assert!(!project.id.is_empty());
    assert!(!project.created.is_empty());
}

#[test]
fn new_project_has_empty_board_and_defaults() {
    let project = Project::new("Homework".to_string(), "#ff0000".to_string(), 1);
    assert!(project.board.statuses.is_empty());
    assert_eq!(project.board.default_status, None);
    assert_eq!(project.defaults, TaskDefaults::default());
}

#[test]
fn new_project_has_no_ink_mode_override() {
    let project = Project::new("Homework".to_string(), "#ff0000".to_string(), 1);
    assert_eq!(project.board.ink_mode, None);
}

#[test]
fn new_project_has_no_parent() {
    let project = Project::new("Homework".to_string(), "#ff0000".to_string(), 1);
    assert_eq!(project.parent_id, None);
}

#[test]
fn new_project_has_no_tracking_task() {
    let project = Project::new("Homework".to_string(), "#ff0000".to_string(), 1);
    assert_eq!(project.tracking_task_id, None);
}

#[test]
fn new_project_has_no_status_tier_rule_overrides_or_layout_override() {
    let project = Project::new("Homework".to_string(), "#ff0000".to_string(), 1);
    assert_eq!(project.board.status_tier_rule_overrides, None);
    assert_eq!(project.board.status_line_layout_id, None);
}

#[test]
fn two_new_projects_get_distinct_ids() {
    let a = Project::new("A".to_string(), "#ff0000".to_string(), 1);
    let b = Project::new("B".to_string(), "#ff0000".to_string(), 2);
    assert_ne!(a.id, b.id);
    assert_eq!(a.id.len(), 36);
}
