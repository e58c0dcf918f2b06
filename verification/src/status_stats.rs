//! The integer statistics of a project's status line: estimated time
//! left, total time tracked, the completion population and its done and
//! weighted counts, and the week arithmetic of the weekly average. The
//! ratios themselves are floating-point values formed by the application
//! layer from these counts.

use vstd::prelude::*;
use crate::commands::{chain_default_estimate, chain_of, effective_default_estimated_minutes};
use crate::dates::{is_valid_day, weekday_from_sunday};
use crate::project::Project;
use crate::project_tree::{descendants_upto, refs_view};
use crate::settings::{opt_view, string_views, Settings};
use crate::task::Task;
use crate::text::{str_eq, vec_contains_str};
use crate::clone::copy_string;

verus! {

/// Whether task `t` is filed under project `p`.
pub open spec fn in_project(t: Task, p: Seq<char>) -> bool {
    opt_view(t.project_id) == Some(p)
}

/// Whether the task is neither done nor cancelled.
pub open spec fn incomplete(t: Task, s: Settings) -> bool {
    t.status@ != s.done_status@ && !(s.cancelled_status is Some && t.status@ == s.cancelled_status->0@)
}

/// Whether the task is filed under `project_id`.
pub fn belongs_to_project(task: &Task, project_id: &str) -> (r: bool)
    ensures
        r == in_project(*task, project_id@),
{
    match &task.project_id {
        Some(p) => str_eq(p.as_str(), project_id),
        None => false,
    }
}

/// Whether the task is neither done nor cancelled.
pub fn is_incomplete(task: &Task, settings: &Settings) -> (r: bool)
    ensures
        r == incomplete(*task, *settings),
{
    !str_eq(task.status.as_str(), settings.done_status.as_str()) && match &settings.cancelled_status {
        Some(c) => !str_eq(task.status.as_str(), c.as_str()),
        None => true,
    }
}

/// The project itself, then (when rolling up) its descendants' ids.
pub open spec fn scope_ids(ps: Seq<Project>, project_id: Seq<char>, include_subprojects: bool) -> Seq<Seq<char>> {
    if include_subprojects {
        seq![project_id] + descendants_upto(ps, project_id, ps.len() as int).map_values(|p: Project| p.id@)
    } else {
        seq![project_id]
    }
}

/// The project's id followed, when rolling up, by its descendants' ids.
pub fn project_and_descendant_ids(projects: &[Project], project_id: &str, include_subprojects: bool) -> (r: Vec<String>)
    ensures
        string_views(r@) == scope_ids(projects@, project_id@, include_subprojects),
{
    let mut ids: Vec<String> = Vec::new();
    ids.push(crate::text::owned(project_id));
    if include_subprojects {
        let desc = crate::project_tree::descendants_of(projects, project_id);
        let ghost d = refs_view(desc@);
        let mut j: usize = 0;
        while j < desc.len()
            invariant
                d == refs_view(desc@),
                d == descendants_upto(projects@, project_id@, projects@.len() as int),
                j <= desc@.len(),
                string_views(ids@) == seq![project_id@] + d.subrange(0, j as int).map_values(|p: Project| p.id@),
            decreases desc.len() - j,
        {
            let ghost before = ids@;
            ids.push(copy_string(&desc[j].id));
            proof {
                assert(d[j as int] == *desc@[j as int]);
                assert(string_views(ids@) =~= string_views(before).push(d[j as int].id@));
                assert(d.subrange(0, j + 1).map_values(|p: Project| p.id@)
                    =~= d.subrange(0, j as int).map_values(|p: Project| p.id@).push(d[j as int].id@));
                assert(string_views(ids@) =~= seq![project_id@] + d.subrange(0, j + 1).map_values(|p: Project| p.id@));
            }
            j += 1;
        }
        assert(d.subrange(0, j as int) == d);
    } else {
        assert(string_views(ids@) =~= seq![project_id@]);
    }
    ids
}

/// Whether some visible task of project `p` owns container `c`.
pub open spec fn owned_container(tasks: Seq<Task>, p: Seq<char>, c: Seq<char>) -> bool {
    exists|i: int| 0 <= i < tasks.len() && in_project(#[trigger] tasks[i], p) && !tasks[i].hidden
        && opt_view(tasks[i].subtask_project_id) == Some(c)
}

/// Whether a task counts toward the estimated time left of project `p`:
/// filed under `p` or in a container owned by one of `p`'s visible tasks,
/// visible, not recurring, incomplete, scheduled and estimated.
pub open spec fn counts_toward_estimate(tasks: Seq<Task>, t: Task, p: Seq<char>, s: Settings) -> bool {
    &&& (in_project(t, p) || (t.project_id is Some && owned_container(tasks, p, t.project_id->0@)))
    &&& !t.hidden
    &&& t.series_id is None
    &&& incomplete(t, s)
    &&& t.scheduled is Some
    &&& t.estimated_minutes is Some
}

/// The estimate left on a task: its estimate less its tracked time, never
/// below zero.
pub open spec fn remaining(t: Task) -> int {
    let e = t.estimated_minutes->0 as int;
    if e > t.tracked_minutes { e - t.tracked_minutes } else { 0 }
}

/// The estimate left over the counted tasks among `tasks[0..upto]`.
pub open spec fn estimate_left_upto(tasks: Seq<Task>, p: Seq<char>, s: Settings, upto: int) -> int
    decreases upto,
{
    if upto <= 0 {
        0
    } else {
        estimate_left_upto(tasks, p, s, upto - 1)
            + if counts_toward_estimate(tasks, tasks[upto - 1], p, s) { remaining(tasks[upto - 1]) } else { 0 }
    }
}

proof fn lemma_estimate_left_monotone(tasks: Seq<Task>, p: Seq<char>, s: Settings, a: int, b: int)
    requires
        0 <= a <= b,
    ensures
        estimate_left_upto(tasks, p, s, a) <= estimate_left_upto(tasks, p, s, b),
    decreases b - a,
{
    if a < b {
        lemma_estimate_left_monotone(tasks, p, s, a, b - 1);
    }
}

fn has_owned_container(tasks: &[Task], project_id: &str, c: &str) -> (r: bool)
    ensures
        r == owned_container(tasks@, project_id@, c@),
{
    let mut i: usize = 0;
    while i < tasks.len()
        invariant
            i <= tasks@.len(),
            forall|k: int| 0 <= k < i ==> !(in_project(#[trigger] tasks@[k], project_id@) && !tasks@[k].hidden
                && opt_view(tasks@[k].subtask_project_id) == Some(c@)),
        decreases tasks.len() - i,
    {
        let t = &tasks[i];
        let owns = match &t.subtask_project_id {
            Some(x) => str_eq(x.as_str(), c),
            None => false,
        };
        if belongs_to_project(t, project_id) && !t.hidden && owns {
            return true;
        }
        i += 1;
    }
    false
}

/// The project's estimated time left: the sum, over its counted tasks (see
/// [`counts_toward_estimate`]), of what remains of each estimate. Never
/// rolls up into subprojects.
pub fn estimated_time_left(project_id: &str, tasks: &[Task], settings: &Settings) -> (r: u32)
    requires
        estimate_left_upto(tasks@, project_id@, *settings, tasks@.len() as int) <= u32::MAX,
    ensures
        r == estimate_left_upto(tasks@, project_id@, *settings, tasks@.len() as int),
{
    let mut total: u32 = 0;
    let mut j: usize = 0;
    while j < tasks.len()
        invariant
            j <= tasks@.len(),
            total == estimate_left_upto(tasks@, project_id@, *settings, j as int),
            estimate_left_upto(tasks@, project_id@, *settings, tasks@.len() as int) <= u32::MAX,
        decreases tasks.len() - j,
    {
        let t = &tasks[j];
        let in_scope = belongs_to_project(t, project_id) || match &t.project_id {
            Some(p) => has_owned_container(tasks, project_id, p.as_str()),
            None => false,
        };
        proof {
            lemma_estimate_left_monotone(tasks@, project_id@, *settings, j + 1, tasks@.len() as int);
        }
        if in_scope && !t.hidden && t.series_id.is_none() && is_incomplete(t, settings) && t.scheduled.is_some() {
            if let Some(e) = t.estimated_minutes {
                let left: u32 = if e > t.tracked_minutes { e - t.tracked_minutes } else { 0 };
                total = total + left;
            }
        }
        j += 1;
    }
    total
}

} // verus!

verus! {

/// Tracked minutes of the visible tasks of project `p` among `tasks[0..upto]`.
pub open spec fn own_tracked_upto(tasks: Seq<Task>, p: Seq<char>, upto: int) -> int
    decreases upto,
{
    if upto <= 0 {
        0
    } else {
        own_tracked_upto(tasks, p, upto - 1)
            + if in_project(tasks[upto - 1], p) && !tasks[upto - 1].hidden { tasks[upto - 1].tracked_minutes as int } else { 0 }
    }
}

/// Tracked minutes of project `p`'s own tracker task, when it has one.
pub open spec fn tracker_minutes(ps: Seq<Project>, tasks: Seq<Task>, p: Seq<char>) -> int {
    match crate::project_tree::find_project(ps, p) {
        Some(i) => match ps[i].tracking_task_id {
            Some(tid) => match crate::commands::find_task(tasks, tid@) {
                Some(k) => tasks[k].tracked_minutes as int,
                None => 0,
            },
            None => 0,
        },
        None => 0,
    }
}

/// Time tracked in project `p` alone: its visible tasks and its tracker.
pub open spec fn single_project_tracked(ps: Seq<Project>, tasks: Seq<Task>, p: Seq<char>) -> int {
    own_tracked_upto(tasks, p, tasks.len() as int) + tracker_minutes(ps, tasks, p)
}

/// Time tracked over the projects `ids[0..upto]`.
pub open spec fn tracked_over(ps: Seq<Project>, tasks: Seq<Task>, ids: Seq<Seq<char>>, upto: int) -> int
    decreases upto,
{
    if upto <= 0 {
        0
    } else {
        tracked_over(ps, tasks, ids, upto - 1) + single_project_tracked(ps, tasks, ids[upto - 1])
    }
}

proof fn lemma_own_tracked_monotone(tasks: Seq<Task>, p: Seq<char>, a: int, b: int)
    requires
        0 <= a <= b,
    ensures
        0 <= own_tracked_upto(tasks, p, a) <= own_tracked_upto(tasks, p, b),
    decreases b,
{
    if b > 0 {
        if a < b {
            lemma_own_tracked_monotone(tasks, p, a, b - 1);
        } else {
            lemma_own_tracked_monotone(tasks, p, 0, b - 1);
        }
    }
}

proof fn lemma_tracked_over_monotone(ps: Seq<Project>, tasks: Seq<Task>, ids: Seq<Seq<char>>, a: int, b: int)
    requires
        0 <= a <= b,
    ensures
        0 <= tracked_over(ps, tasks, ids, a) <= tracked_over(ps, tasks, ids, b),
    decreases b,
{
    if b > 0 {
        lemma_own_tracked_monotone(tasks, ids[b - 1], 0, tasks.len() as int);
        if a < b {
            lemma_tracked_over_monotone(ps, tasks, ids, a, b - 1);
        } else {
            lemma_tracked_over_monotone(ps, tasks, ids, 0, b - 1);
        }
    }
}

fn total_time_tracked_for_single_project(project_id: &str, projects: &[Project], tasks: &[Task]) -> (r: u64)
    requires
        tasks@.len() <= u32::MAX,
    ensures
        r == single_project_tracked(projects@, tasks@, project_id@),
{
    let mut own: u64 = 0;
    let mut i: usize = 0;
    while i < tasks.len()
        invariant
            i <= tasks@.len(),
            tasks@.len() <= u32::MAX,
            own == own_tracked_upto(tasks@, project_id@, i as int),
            own <= i * (u32::MAX as int),
        decreases tasks.len() - i,
    {
        let t = &tasks[i];
        if belongs_to_project(t, project_id) && !t.hidden {
            own = own + t.tracked_minutes as u64;
        }
        proof {
            lemma_own_tracked_monotone(tasks@, project_id@, 0, i as int);
        }
        i += 1;
    }
    let tracker: u64 = match crate::project_tree::find_project_index(projects, project_id) {
        Some(pi) => match &projects[pi].tracking_task_id {
            Some(tid) => match crate::commands::find_task_index(tasks, tid.as_str()) {
                Some(k) => tasks[k].tracked_minutes as u64,
                None => 0,
            },
            None => 0,
        },
        None => 0,
    };
    own + tracker
}

/// Total time tracked in a project: its visible tasks and tracker, and
/// (when rolling up) those of each descendant.
pub fn total_time_tracked(project_id: &str, projects: &[Project], tasks: &[Task], include_subprojects: bool) -> (r: u32)
    requires
        tasks@.len() <= u32::MAX,
        tracked_over(projects@, tasks@, scope_ids(projects@, project_id@, include_subprojects),
            scope_ids(projects@, project_id@, include_subprojects).len() as int) <= u32::MAX,
    ensures
        r == tracked_over(projects@, tasks@, scope_ids(projects@, project_id@, include_subprojects),
            scope_ids(projects@, project_id@, include_subprojects).len() as int),
{
    let ids = project_and_descendant_ids(projects, project_id, include_subprojects);
    let ghost sv = string_views(ids@);
    let mut total: u32 = 0;
    let mut i: usize = 0;
    while i < ids.len()
        invariant
            sv == string_views(ids@),
            sv == scope_ids(projects@, project_id@, include_subprojects),
            tasks@.len() <= u32::MAX,
            i <= ids@.len(),
            total == tracked_over(projects@, tasks@, sv, i as int),
            tracked_over(projects@, tasks@, sv, sv.len() as int) <= u32::MAX,
        decreases ids.len() - i,
    {
        proof {
            lemma_tracked_over_monotone(projects@, tasks@, sv, i + 1, sv.len() as int);
            lemma_own_tracked_monotone(tasks@, sv[i as int], 0, tasks@.len() as int);
            assert(sv[i as int] == ids@[i as int]@);
        }
        let single = total_time_tracked_for_single_project(ids[i].as_str(), projects, tasks);
        total = total + single as u32;
        i += 1;
    }
    total
}

/// Whether a task stays out of the completion population: hidden,
/// recurring, or cancelled.
pub open spec fn excluded_from_completion(t: Task, s: Settings) -> bool {
    t.hidden || t.series_id is Some || (s.cancelled_status is Some && t.status@ == s.cancelled_status->0@)
}

/// Whether a task is hidden, recurring or cancelled.
pub fn excluded_from_completion_population(task: &Task, settings: &Settings) -> (r: bool)
    ensures
        r == excluded_from_completion(*task, *settings),
{
    task.hidden || task.series_id.is_some() || match &settings.cancelled_status {
        Some(c) => str_eq(task.status.as_str(), c.as_str()),
        None => false,
    }
}

/// Whether a task is in the completion population of the projects `ids`.
pub open spec fn in_population(t: Task, ids: Seq<Seq<char>>, s: Settings) -> bool {
    t.project_id is Some && ids.contains(t.project_id->0@) && !excluded_from_completion(t, s)
}

/// The completion population among `tasks[0..upto]`, in order.
pub open spec fn population_upto(tasks: Seq<Task>, ids: Seq<Seq<char>>, s: Settings, upto: int) -> Seq<Task>
    decreases upto,
{
    if upto <= 0 {
        Seq::empty()
    } else {
        let rest = population_upto(tasks, ids, s, upto - 1);
        if in_population(tasks[upto - 1], ids, s) { rest.push(tasks[upto - 1]) } else { rest }
    }
}

pub open spec fn task_refs(v: Seq<&Task>) -> Seq<Task> {
    v.map_values(|t: &Task| *t)
}

/// The tasks a project's completion counts over: those filed under it
/// (or, rolling up, under a descendant) that are not hidden, recurring or
/// cancelled, in order.
pub fn completion_population<'a>(
    project_id: &str,
    projects: &[Project],
    all_tasks: &'a [Task],
    include_subprojects: bool,
    settings: &Settings,
) -> (r: Vec<&'a Task>)
    ensures
        task_refs(r@) == population_upto(all_tasks@, scope_ids(projects@, project_id@, include_subprojects),
            *settings, all_tasks@.len() as int),
{
    let ids = project_and_descendant_ids(projects, project_id, include_subprojects);
    let ghost sv = string_views(ids@);
    let mut out: Vec<&'a Task> = Vec::new();
    let mut i: usize = 0;
    while i < all_tasks.len()
        invariant
            sv == string_views(ids@),
            sv == scope_ids(projects@, project_id@, include_subprojects),
            i <= all_tasks@.len(),
            task_refs(out@) == population_upto(all_tasks@, sv, *settings, i as int),
        decreases all_tasks.len() - i,
    {
        let t = &all_tasks[i];
        let in_scope = match &t.project_id {
            Some(p) => {
                let found = vec_contains_str(&ids, p.as_str());
                proof {
                    if found {
                        let k = choose|k: int| 0 <= k < ids@.len() && (#[trigger] ids@[k])@ == p@;
                        assert(sv[k] == p@);
                    } else {
                        assert forall|k: int| 0 <= k < sv.len() implies sv[k] != p@ by {
                            assert(sv[k] == ids@[k]@);
                        }
                    }
                }
                found
            },
            None => false,
        };
        if in_scope && !excluded_from_completion_population(t, settings) {
            out.push(t);
        }
        proof {
            assert(task_refs(out@) =~= population_upto(all_tasks@, sv, *settings, i + 1));
        }
        i += 1;
    }
    out
}

/// How many of `pop` are at the done status.
pub open spec fn done_count(pop: Seq<Task>, s: Settings, upto: int) -> nat
    decreases upto,
{
    if upto <= 0 {
        0
    } else {
        done_count(pop, s, upto - 1) + if pop[upto - 1].status@ == s.done_status@ { 1nat } else { 0nat }
    }
}

/// The completion population's done count and size: the ratio of the two
/// is the project's completion percentage (none for an empty population).
pub fn completion_counts(
    project_id: &str,
    projects: &[Project],
    all_tasks: &[Task],
    include_subprojects: bool,
    settings: &Settings,
) -> (r: (usize, usize))
    ensures
        ({
            let pop = population_upto(all_tasks@, scope_ids(projects@, project_id@, include_subprojects),
                *settings, all_tasks@.len() as int);
            r.0 == done_count(pop, *settings, pop.len() as int) && r.1 == pop.len()
        }),
{
    let pop = completion_population(project_id, projects, all_tasks, include_subprojects, settings);
    let ghost p = task_refs(pop@);
    let mut done: usize = 0;
    let mut i: usize = 0;
    while i < pop.len()
        invariant
            p == task_refs(pop@),
            i <= pop@.len(),
            done == done_count(p, *settings, i as int),
            done <= i,
        decreases pop.len() - i,
    {
        assert(p[i as int] == *pop@[i as int]);
        if str_eq(pop[i].status.as_str(), settings.done_status.as_str()) {
            done += 1;
        }
        i += 1;
    }
    (done, pop.len())
}

/// The weight of a task in the weighted completion: its own estimate, else
/// the default estimate along its project chain, else none.
pub open spec fn completion_weight(t: Task, ps: Seq<Project>, s: Settings) -> Option<u32> {
    match t.estimated_minutes {
        Some(e) => Some(e),
        None => {
            let chain = match t.project_id {
                Some(p) => chain_of(ps, p@),
                None => Seq::empty(),
            };
            match chain_default_estimate(chain, 0) {
                Some(m) => Some(m),
                None => s.defaults.estimated_minutes,
            }
        },
    }
}

/// A task's completion weight (see [`completion_weight`]).
pub fn resolve_completion_weight(task: &Task, projects: &[Project], settings: &Settings) -> (r: Option<u32>)
    ensures
        r == completion_weight(*task, projects@, *settings),
{
    if let Some(e) = task.estimated_minutes {
        return Some(e);
    }
    let chain: Vec<&Project> = match &task.project_id {
        Some(p) => crate::project_tree::self_and_ancestors(projects, p.as_str()),
        None => Vec::new(),
    };
    proof {
        assert(refs_view(chain@) =~= (match task.project_id {
            Some(p) => chain_of(projects@, p@),
            None => Seq::empty(),
        }));
    }
    effective_default_estimated_minutes(&settings.defaults, chain.as_slice())
}

/// The summed weights over `pop[0..upto]`: of all weighable tasks, and of
/// those at the done status.
pub open spec fn weights_upto(pop: Seq<Task>, ps: Seq<Project>, s: Settings, upto: int) -> (int, int)
    decreases upto,
{
    if upto <= 0 {
        (0, 0)
    } else {
        let (num, den) = weights_upto(pop, ps, s, upto - 1);
        match completion_weight(pop[upto - 1], ps, s) {
            None => (num, den),
            Some(w) => (
                if pop[upto - 1].status@ == s.done_status@ { num + w } else { num },
                den + w,
            ),
        }
    }
}

proof fn lemma_weights_bounded(pop: Seq<Task>, ps: Seq<Project>, s: Settings, upto: int)
    requires
        0 <= upto,
    ensures
        0 <= weights_upto(pop, ps, s, upto).0 <= weights_upto(pop, ps, s, upto).1 <= upto * (u32::MAX as int),
    decreases upto,
{
    if upto > 0 {
        lemma_weights_bounded(pop, ps, s, upto - 1);
    }
}

/// The weighted completion's done weight and total weight: the ratio of
/// the two is the weighted completion percentage (none for a zero total).
pub fn weighted_completion_counts(
    project_id: &str,
    projects: &[Project],
    all_tasks: &[Task],
    include_subprojects: bool,
    settings: &Settings,
) -> (r: (u64, u64))
    requires
        all_tasks@.len() <= u32::MAX,
    ensures
        ({
            let pop = population_upto(all_tasks@, scope_ids(projects@, project_id@, include_subprojects),
                *settings, all_tasks@.len() as int);
            (r.0 as int, r.1 as int) == weights_upto(pop, projects@, *settings, pop.len() as int)
        }),
{
    let pop = completion_population(project_id, projects, all_tasks, include_subprojects, settings);
    let ghost p = task_refs(pop@);
    proof {
        lemma_population_len(all_tasks@, scope_ids(projects@, project_id@, include_subprojects), *settings, all_tasks@.len() as int);
    }
    let mut num: u64 = 0;
    let mut den: u64 = 0;
    let mut i: usize = 0;
    while i < pop.len()
        invariant
            p == task_refs(pop@),
            pop@.len() <= u32::MAX,
            i <= pop@.len(),
            (num as int, den as int) == weights_upto(p, projects@, *settings, i as int),
        decreases pop.len() - i,
    {
        assert(p[i as int] == *pop@[i as int]);
        proof {
            lemma_weights_bounded(p, projects@, *settings, i as int);
            assert(i * (u32::MAX as int) + u32::MAX <= (u32::MAX as int) * (u32::MAX as int) + u32::MAX) by (nonlinear_arith)
                requires i < u32::MAX;
        }
        if let Some(w) = resolve_completion_weight(pop[i], projects, settings) {
            den = den + w as u64;
            if str_eq(pop[i].status.as_str(), settings.done_status.as_str()) {
                num = num + w as u64;
            }
        }
        i += 1;
    }
    (num, den)
}

proof fn lemma_population_len(tasks: Seq<Task>, ids: Seq<Seq<char>>, s: Settings, upto: int)
    requires
        0 <= upto,
    ensures
        population_upto(tasks, ids, s, upto).len() <= upto,
    decreases upto,
{
    if upto > 0 {
        lemma_population_len(tasks, ids, s, upto - 1);
    }
}

/// The first day of the week containing `date`: the Monday for
/// `"monday"`, else the Sunday.
pub open spec fn week_start_of(date: int, week_start: Seq<char>) -> int {
    let from_monday = (weekday_from_sunday(date) + 6) % 7;
    let start = if week_start == "monday"@ { 0int } else { 6int };
    date - (from_monday - start) % 7
}

/// The first day of the week containing `date` (Monday-based weeks for
/// `"monday"`, Sunday-based for anything else).
pub fn start_of_week(date: i32, week_start: &str) -> (r: i32)
    requires
        is_valid_day(date as int - 6),
        is_valid_day(date as int),
    ensures
        r == week_start_of(date as int, week_start@),
{
    let from_monday: i64 = ((crate::dates::weekday(date) as i64) + 6) % 7;
    let start: i64 = if str_eq(week_start, "monday") { 0 } else { 6 };
    let back = (from_monday - start + 7) % 7;
    assert(back == (from_monday - start) % 7) by {
        assert((from_monday - start + 7) % 7 == (from_monday - start) % 7);
    }
    (date as i64 - back) as i32
}

/// How many complete weeks a weekly average divides by: the weeks from the
/// start of the earliest active week to the current week's start, between
/// one and the window.
pub open spec fn averaging_weeks(current_week_start: int, earliest_week_start: int, window: int) -> int {
    let weeks = (current_week_start - earliest_week_start) / 7;
    if weeks < 1 { 1 } else if weeks > window { window } else { weeks }
}

/// The number of complete weeks the weekly average divides by (see
/// [`averaging_weeks`]).
pub fn complete_weeks_elapsed(current_week_start: i32, earliest_week_start: i32, window: u32) -> (r: i64)
    requires
        window >= 1,
    ensures
        r == averaging_weeks(current_week_start as int, earliest_week_start as int, window as int),
{
    let diff: i64 = current_week_start as i64 - earliest_week_start as i64;
    let weeks: i64 = if diff >= 0 { diff / 7 } else { -((-diff + 6) / 7) };
    assert(weeks == diff / 7) by (nonlinear_arith)
        requires
            weeks == (if diff >= 0 { diff / 7 } else { -((-diff + 6) / 7) }),
            -0x1_0000_0000 <= diff <= 0x1_0000_0000;
    if weeks < 1 {
        1
    } else if weeks > window as i64 {
        window as i64
    } else {
        weeks
    }
}


/// Whether a task enters the weekly average of the projects `ids`: it is
/// visible and filed under one of them.
pub open spec fn in_average_scope(t: Task, ids: Seq<Seq<char>>) -> bool {
    t.project_id is Some && ids.contains(t.project_id->0@) && !t.hidden
}

/// The ids of the tasks among `tasks[0..upto]` that enter the average.
pub open spec fn scope_task_ids_upto(tasks: Seq<Task>, ids: Seq<Seq<char>>, upto: int) -> Seq<Seq<char>>
    decreases upto,
{
    if upto <= 0 {
        Seq::empty()
    } else {
        let rest = scope_task_ids_upto(tasks, ids, upto - 1);
        if in_average_scope(tasks[upto - 1], ids) { rest.push(tasks[upto - 1].id@) } else { rest }
    }
}

/// The tracker task ids of the projects `ids[0..upto]` that have one, in
/// order.
pub open spec fn tracker_ids_upto(ps: Seq<Project>, ids: Seq<Seq<char>>, upto: int) -> Seq<Seq<char>>
    decreases upto,
{
    if upto <= 0 {
        Seq::empty()
    } else {
        let rest = tracker_ids_upto(ps, ids, upto - 1);
        match crate::project_tree::find_project(ps, ids[upto - 1]) {
            Some(i) => match ps[i].tracking_task_id {
                Some(tid) => rest.push(tid@),
                None => rest,
            },
            None => rest,
        }
    }
}

/// The task ids the weekly average of a project sums over: those of the
/// visible tasks filed under the project (and, when rolling up, under its
/// descendants), in task order, followed by the tracker task of each of
/// those projects that has one, in project order.
pub open spec fn average_task_ids(ps: Seq<Project>, tasks: Seq<Task>, project_id: Seq<char>, include_subprojects: bool) -> Seq<Seq<char>> {
    let ids = scope_ids(ps, project_id, include_subprojects);
    scope_task_ids_upto(tasks, ids, tasks.len() as int) + tracker_ids_upto(ps, ids, ids.len() as int)
}

/// The task ids whose tracked sessions make up the weekly average of a
/// project (see [`average_task_ids`]).
pub fn avg_time_per_week_task_ids(
    project_id: &str,
    projects: &[Project],
    tasks: &[Task],
    include_subprojects: bool,
) -> (r: Vec<String>)
    ensures
        string_views(r@) == average_task_ids(projects@, tasks@, project_id@, include_subprojects),
{
    let project_ids = project_and_descendant_ids(projects, project_id, include_subprojects);
    let ghost sv = string_views(project_ids@);
    let mut out: Vec<String> = Vec::new();
    let mut i: usize = 0;
    while i < tasks.len()
        invariant
            sv == string_views(project_ids@),
            i <= tasks@.len(),
            string_views(out@) == scope_task_ids_upto(tasks@, sv, i as int),
        decreases tasks.len() - i,
    {
        let t = &tasks[i];
        let listed = match &t.project_id {
            Some(p) => vec_contains_str(&project_ids, p.as_str()),
            None => false,
        };
        proof {
            if t.project_id is Some {
                let p = t.project_id->0@;
                if listed {
                    let k = choose|k: int| 0 <= k < project_ids@.len() && (#[trigger] project_ids@[k])@ == p;
                    assert(sv[k] == p);
                } else {
                    assert forall|k: int| 0 <= k < sv.len() implies sv[k] != p by {
                        assert(sv[k] == project_ids@[k]@);
                    }
                }
            }
        }
        if listed && !t.hidden {
            let ghost before = out@;
            out.push(copy_string(&t.id));
            proof {
                assert(string_views(out@) =~= string_views(before).push(t.id@));
            }
        }
        i += 1;
    }
    let ghost own = string_views(out@);
    let mut j: usize = 0;
    while j < project_ids.len()
        invariant
            sv == string_views(project_ids@),
            sv == scope_ids(projects@, project_id@, include_subprojects),
            own == scope_task_ids_upto(tasks@, sv, tasks@.len() as int),
            j <= project_ids@.len(),
            string_views(out@) == own + tracker_ids_upto(projects@, sv, j as int),
        decreases project_ids.len() - j,
    {
        proof {
            assert(sv[j as int] == project_ids@[j as int]@);
        }
        if let Some(pi) = crate::project_tree::find_project_index(projects, project_ids[j].as_str()) {
            if let Some(tid) = &projects[pi].tracking_task_id {
                let ghost before = out@;
                out.push(copy_string(tid));
                proof {
                    assert(string_views(out@) =~= string_views(before).push(tid@));
                }
            }
        }
        j += 1;
    }
    out
}

} // verus!
