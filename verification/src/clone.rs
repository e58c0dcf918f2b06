//! Copies of owned values whose contents verified code must keep track of.

use vstd::prelude::*;

verus! {

/// A copy of `s`.
pub fn copy_string(s: &String) -> (r: String)
    ensures
        r == *s,
{
    s.clone()
}

/// A copy of an optional string.
pub fn copy_opt_string(s: &Option<String>) -> (r: Option<String>)
    ensures
        r == *s,
{
    match s {
        Some(x) => Some(x.clone()),
        None => None,
    }
}

/// A copy of a list of strings.
pub fn copy_strings(v: &Vec<String>) -> (r: Vec<String>)
    ensures
        r@ == v@,
{
    let mut out: Vec<String> = Vec::new();
    let mut i: usize = 0;
    while i < v.len()
        invariant
            i <= v@.len(),
            out@ == v@.subrange(0, i as int),
        decreases v.len() - i,
    {
        out.push(v[i].clone());
        i += 1;
    }
    assert(out@ == v@.subrange(0, v@.len() as int));
    out
}

} // verus!

verus! {

/// A copy of a task.
pub fn copy_task(t: &crate::task::Task) -> (r: crate::task::Task)
    ensures
        crate::task::same_task(r, *t),
{
    crate::task::Task {
        id: copy_string(&t.id),
        title: copy_string(&t.title),
        project_id: copy_opt_string(&t.project_id),
        tags: copy_strings(&t.tags),
        priority: copy_string(&t.priority),
        status: copy_string(&t.status),
        due: copy_opt_string(&t.due),
        scheduled: copy_opt_string(&t.scheduled),
        estimated_minutes: t.estimated_minutes,
        tracked_minutes: t.tracked_minutes,
        notes: copy_string(&t.notes),
        created: copy_string(&t.created),
        depends_on: copy_strings(&t.depends_on),
        order: t.order,
        series_id: copy_opt_string(&t.series_id),
        subtask_project_id: copy_opt_string(&t.subtask_project_id),
        hidden: t.hidden,
        completed_at: copy_opt_string(&t.completed_at),
        cancelled_at: copy_opt_string(&t.cancelled_at),
    }
}

/// A copy of a status-tier rule.
pub fn copy_rule(r: &crate::settings::StatusTierRule) -> (c: crate::settings::StatusTierRule)
    ensures
        c == *r,
{
    crate::settings::StatusTierRule {
        due_within_days: r.due_within_days,
        min_priority: copy_opt_string(&r.min_priority),
        estimated_time_left_exceeds_minutes: r.estimated_time_left_exceeds_minutes,
    }
}

} // verus!
