//! Projects: their board configuration and per-project task defaults.
//!
//! A board's two OKLCH lightness overrides are floating-point values and
//! live with the application layer.

use vstd::prelude::*;
use crate::ids::{new_id, now_rfc3339};
use crate::settings::{StatusTierRule, TaskDefaults};

verus! {

/// Accent color of projects created without one of their own.
pub open spec fn default_project_color() -> Seq<char> {
    "#3b82f6"@
}

/// A project's Kanban board configuration and its overrides of the global
/// display settings (`None` inherits).
#[derive(Debug, Clone, Default, PartialEq)]
pub struct ProjectBoard {
    pub statuses: Vec<String>,
    pub default_status: Option<String>,
    pub show_previous_weeks: Option<bool>,
    pub ink_mode: Option<String>,
    pub show_subproject_tasks: Option<bool>,
    pub status_tier_rule_overrides: Option<Vec<Option<StatusTierRule>>>,
    pub status_line_layout_id: Option<String>,
}

/// A project; `parent_id` nests it under another.
#[derive(Debug, Clone, PartialEq)]
pub struct Project {
    pub id: String,
    pub name: String,
    pub color: String,
    pub parent_id: Option<String>,
    pub order: i64,
    pub created: String,
    pub board: ProjectBoard,
    pub defaults: TaskDefaults,
    pub tracking_task_id: Option<String>,
}

/// An uncustomized board.
pub open spec fn is_empty_board(b: ProjectBoard) -> bool {
    &&& b.statuses@.len() == 0
    &&& b.default_status is None
    &&& b.show_previous_weeks is None
    &&& b.ink_mode is None
    &&& b.show_subproject_tasks is None
    &&& b.status_tier_rule_overrides is None
    &&& b.status_line_layout_id is None
}

/// No per-project default overrides.
pub open spec fn is_empty_defaults(d: TaskDefaults) -> bool {
    &&& d.tags@.len() == 0
    &&& d.priority is None
    &&& d.status is None
    &&& d.due is None
    &&& d.scheduled is None
    &&& d.estimated_minutes is None
}

pub fn empty_board() -> (r: ProjectBoard)
    ensures
        is_empty_board(r),
{
    ProjectBoard {
        statuses: Vec::new(),
        default_status: None,
        show_previous_weeks: None,
        ink_mode: None,
        show_subproject_tasks: None,
        status_tier_rule_overrides: None,
        status_line_layout_id: None,
    }
}

pub fn empty_defaults() -> (r: TaskDefaults)
    ensures
        is_empty_defaults(r),
{
    TaskDefaults {
        tags: Vec::new(),
        priority: None,
        status: None,
        due: None,
        scheduled: None,
        estimated_minutes: None,
    }
}

impl Project {
    /// A new top-level project with a fresh id and creation time, an
    /// uncustomized board and no default overrides.
    pub fn new(name: String, color: String, order: i64) -> (r: Project)
        ensures
            r.id@.len() > 0,
            r.created@.len() > 0,
            r.name == name,
            r.color == color,
            r.order == order,
            r.parent_id is None,
            is_empty_board(r.board),
            is_empty_defaults(r.defaults),
            r.tracking_task_id is None,
    {
        Project {
            id: new_id(),
            name,
            color,
            parent_id: None,
            order,
            created: now_rfc3339(),
            board: empty_board(),
            defaults: empty_defaults(),
            tracking_task_id: None,
        }
    }
}

} // verus!
