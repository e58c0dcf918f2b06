//! A task record on the board.

use vstd::prelude::*;
use crate::ids::{new_id, now_rfc3339};
use crate::text::owned;

verus! {

/// A task on the board.
#[derive(Debug, Clone, PartialEq)]
pub struct Task {
    pub id: String,
    pub title: String,
    pub project_id: Option<String>,
    pub tags: Vec<String>,
    pub priority: String,
    pub status: String,
    pub due: Option<String>,
    pub scheduled: Option<String>,
    pub estimated_minutes: Option<u32>,
    pub tracked_minutes: u32,
    pub notes: String,
    pub created: String,
    pub depends_on: Vec<String>,
    pub order: i64,
    pub series_id: Option<String>,
    pub subtask_project_id: Option<String>,
    pub hidden: bool,
    pub completed_at: Option<String>,
    pub cancelled_at: Option<String>,
}

/// Whether two tasks hold the same values, lists compared by contents.
pub open spec fn same_task(a: Task, b: Task) -> bool {
    &&& a.id == b.id
    &&& a.title == b.title
    &&& a.project_id == b.project_id
    &&& a.tags@ == b.tags@
    &&& a.priority == b.priority
    &&& a.status == b.status
    &&& a.due == b.due
    &&& a.scheduled == b.scheduled
    &&& a.estimated_minutes == b.estimated_minutes
    &&& a.tracked_minutes == b.tracked_minutes
    &&& a.notes == b.notes
    &&& a.created == b.created
    &&& a.depends_on@ == b.depends_on@
    &&& a.order == b.order
    &&& a.series_id == b.series_id
    &&& a.subtask_project_id == b.subtask_project_id
    &&& a.hidden == b.hidden
    &&& a.completed_at == b.completed_at
    &&& a.cancelled_at == b.cancelled_at
}

/// The values every new task starts with, apart from its title, project
/// and visibility: a fresh id and creation time, medium priority, the
/// backlog status, and no tags, dates, estimate, tracked time, notes,
/// dependencies, order, series, container or finish times.
pub open spec fn is_fresh_task(r: Task) -> bool {
    &&& r.id@.len() > 0
    &&& r.created@.len() > 0
    &&& r.tags@.len() == 0
    &&& r.priority@ == "medium"@
    &&& r.status@ == "backlog"@
    &&& r.due is None
    &&& r.scheduled is None
    &&& r.estimated_minutes is None
    &&& r.tracked_minutes == 0
    &&& r.notes@.len() == 0
    &&& r.depends_on@.len() == 0
    &&& r.order == 0
    &&& r.series_id is None
    &&& r.subtask_project_id is None
    &&& r.completed_at is None
    &&& r.cancelled_at is None
}

impl Task {
    /// A new task with a fresh id and creation time: medium priority, the
    /// backlog status, no project, tags, dates, estimate or notes.
    pub fn new(title: String) -> (r: Task)
        ensures
            r.title == title,
            r.project_id is None,
            !r.hidden,
            is_fresh_task(r),
    {
        proof {
            reveal_strlit("");
        }
        Task {
            id: new_id(),
            title,
            project_id: None,
            tags: Vec::new(),
            priority: owned("medium"),
            status: owned("backlog"),
            due: None,
            scheduled: None,
            estimated_minutes: None,
            tracked_minutes: 0,
            notes: owned(""),
            created: now_rfc3339(),
            depends_on: Vec::new(),
            order: 0,
            series_id: None,
            subtask_project_id: None,
            hidden: false,
            completed_at: None,
            cancelled_at: None,
        }
    }
}

} // verus!
