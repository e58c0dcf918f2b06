//! Status-change history of tasks: the entry recorded for a transition,
//! and the transitions seeded for tasks that predate the history.

use vstd::prelude::*;
use crate::clone::copy_string;
use crate::ids::new_id;
use crate::settings::{opt_view, Settings};
use crate::task::Task;
use crate::text::{owned, str_eq};

verus! {

/// One recorded status change of a task.
#[derive(Debug, Clone, PartialEq)]
pub struct StatusHistoryEntry {
    pub id: String,
    pub task_id: String,
    pub from_status: Option<String>,
    pub to_status: String,
    pub changed_at: String,
    pub source: String,
}

/// The entry recording a transition, with a fresh id.
pub fn history_entry(
    task_id: &str,
    from_status: Option<&str>,
    to_status: &str,
    changed_at: &str,
    source: &str,
) -> (r: StatusHistoryEntry)
    ensures
        r.id@.len() > 0,
        r.task_id@ == task_id@,
        opt_view(r.from_status) == crate::project_tree::opt_str_view(from_status),
        r.to_status@ == to_status@,
        r.changed_at@ == changed_at@,
        r.source@ == source@,
{
    StatusHistoryEntry {
        id: new_id(),
        task_id: owned(task_id),
        from_status: match from_status {
            Some(s) => Some(owned(s)),
            None => None,
        },
        to_status: owned(to_status),
        changed_at: owned(changed_at),
        source: owned(source),
    }
}

/// A transition to seed: the status reached and when.
#[derive(Debug, Clone, PartialEq)]
pub struct SeedTransition {
    pub to_status: String,
    pub changed_at: String,
}

/// The transitions seeded for a task: its creation (into its status, or
/// into `"backlog"` for a done or cancelled task, whose first status is
/// unknown), then its completion into the done status whenever it has a
/// completion time, then its cancellation into the cancelled status
/// whenever it has a cancellation time and a cancelled status is
/// configured.
pub open spec fn seed_plan(t: Task, s: Settings) -> Seq<(Seq<char>, Seq<char>)> {
    let is_done = t.status@ == s.done_status@;
    let is_cancelled = s.cancelled_status is Some && t.status@ == s.cancelled_status->0@;
    let creation = (if is_done || is_cancelled { "backlog"@ } else { t.status@ }, t.created@);
    let done_step: Seq<(Seq<char>, Seq<char>)> = if t.completed_at is Some {
        seq![(s.done_status@, t.completed_at->0@)]
    } else {
        Seq::empty()
    };
    let cancel_step: Seq<(Seq<char>, Seq<char>)> = if t.cancelled_at is Some && s.cancelled_status is Some {
        seq![(s.cancelled_status->0@, t.cancelled_at->0@)]
    } else {
        Seq::empty()
    };
    seq![creation] + done_step + cancel_step
}

pub open spec fn seed_view(v: Seq<SeedTransition>) -> Seq<(Seq<char>, Seq<char>)> {
    v.map_values(|x: SeedTransition| (x.to_status@, x.changed_at@))
}

/// The transitions to seed for a task (see [`seed_plan`]).
pub fn seed_task(task: &Task, settings: &Settings) -> (r: Vec<SeedTransition>)
    ensures
        seed_view(r@) == seed_plan(*task, *settings),
{
    let is_done = str_eq(task.status.as_str(), settings.done_status.as_str());
    let is_cancelled = match &settings.cancelled_status {
        Some(c) => str_eq(task.status.as_str(), c.as_str()),
        None => false,
    };
    let mut out: Vec<SeedTransition> = Vec::new();
    let first_status = if is_done || is_cancelled { owned("backlog") } else { copy_string(&task.status) };
    out.push(SeedTransition { to_status: first_status, changed_at: copy_string(&task.created) });
    if let Some(at) = &task.completed_at {
        out.push(SeedTransition { to_status: copy_string(&settings.done_status), changed_at: copy_string(at) });
    }
    if let Some(at) = &task.cancelled_at {
        if let Some(c) = &settings.cancelled_status {
            out.push(SeedTransition { to_status: copy_string(c), changed_at: copy_string(at) });
        }
    }
    assert(seed_view(out@) =~= seed_plan(*task, *settings));
    out
}


/// A seeded transition as it is recorded: the task, the status reached, when.
pub open spec fn tagged_seed(t: Task, s: Settings) -> Seq<(Seq<char>, Seq<char>, Seq<char>)> {
    seed_plan(t, s).map_values(|p: (Seq<char>, Seq<char>)| (t.id@, p.0, p.1))
}

/// The transitions seeded for a list of tasks, task by task in order.
pub open spec fn seeds_of(ts: Seq<Task>, s: Settings) -> Seq<(Seq<char>, Seq<char>, Seq<char>)>
    decreases ts.len(),
{
    if ts.len() == 0 {
        Seq::empty()
    } else {
        seeds_of(ts.drop_last(), s) + tagged_seed(ts.last(), s)
    }
}

pub open spec fn entry_view(e: StatusHistoryEntry) -> (Seq<char>, Seq<char>, Seq<char>) {
    (e.task_id@, e.to_status@, e.changed_at@)
}

/// What a seeded entry always carries: a fresh id, no previous status
/// and the source `"seed"`.
pub open spec fn is_seed_entry(e: StatusHistoryEntry) -> bool {
    &&& e.id@.len() > 0
    &&& e.from_status is None
    &&& e.source@ == "seed"@
}

fn push_seed_entries(out: &mut Vec<StatusHistoryEntry>, task: &Task, settings: &Settings)
    requires
        forall|i: int| 0 <= i < old(out)@.len() ==> is_seed_entry(#[trigger] old(out)@[i]),
    ensures
        final(out)@.map_values(|e: StatusHistoryEntry| entry_view(e))
            == old(out)@.map_values(|e: StatusHistoryEntry| entry_view(e)) + tagged_seed(*task, *settings),
        forall|i: int| 0 <= i < final(out)@.len() ==> is_seed_entry(#[trigger] final(out)@[i]),
{
    let steps = seed_task(task, settings);
    let ghost before = out@.map_values(|e: StatusHistoryEntry| entry_view(e));
    let ghost tagged = tagged_seed(*task, *settings);
    let mut k: usize = 0;
    while k < steps.len()
        invariant
            k <= steps.len(),
            seed_view(steps@) == seed_plan(*task, *settings),
            tagged == tagged_seed(*task, *settings),
            out@.map_values(|e: StatusHistoryEntry| entry_view(e)) == before + tagged.take(k as int),
            forall|i: int| 0 <= i < out@.len() ==> is_seed_entry(#[trigger] out@[i]),
        decreases steps.len() - k,
    {
        let e = history_entry(task.id.as_str(), None, steps[k].to_status.as_str(), steps[k].changed_at.as_str(), "seed");
        let ghost prev = out@;
        out.push(e);
        proof {
            assert(tagged.take(k + 1) =~= tagged.take(k as int).push(tagged[k as int]));
            assert(out@.map_values(|e: StatusHistoryEntry| entry_view(e))
                =~= prev.map_values(|e: StatusHistoryEntry| entry_view(e)).push(entry_view(e)));
        }
        k = k + 1;
    }
    proof {
        assert(tagged.take(k as int) =~= tagged);
    }
}

/// The entries that seed the history of the live tasks, then the archived
/// ones ([`seeds_of`]), each with source `"seed"` and no previous status.
/// The history is seeded only while it is empty: with rows already there,
/// nothing is seeded.
pub fn seed_entries(
    live_tasks: &Vec<Task>,
    archived_tasks: &Vec<Task>,
    settings: &Settings,
    existing_rows: i64,
) -> (r: Vec<StatusHistoryEntry>)
    ensures
        existing_rows > 0 ==> r@.len() == 0,
        existing_rows <= 0 ==> r@.map_values(|e: StatusHistoryEntry| entry_view(e))
            == seeds_of(live_tasks@ + archived_tasks@, *settings),
        forall|i: int| 0 <= i < r@.len() ==> is_seed_entry(#[trigger] r@[i]),
{
    let mut out: Vec<StatusHistoryEntry> = Vec::new();
    if existing_rows > 0 {
        return out;
    }
    let ghost all = live_tasks@ + archived_tasks@;
    let mut i: usize = 0;
    while i < live_tasks.len()
        invariant
            i <= live_tasks.len(),
            all == live_tasks@ + archived_tasks@,
            out@.map_values(|e: StatusHistoryEntry| entry_view(e)) == seeds_of(all.take(i as int), *settings),
            forall|j: int| 0 <= j < out@.len() ==> is_seed_entry(#[trigger] out@[j]),
        decreases live_tasks.len() - i,
    {
        push_seed_entries(&mut out, &live_tasks[i], settings);
        proof {
            assert(all.take(i + 1).drop_last() =~= all.take(i as int));
            assert(all.take(i + 1).last() == live_tasks@[i as int]);
        }
        i = i + 1;
    }
    let mut j: usize = 0;
    while j < archived_tasks.len()
        invariant
            j <= archived_tasks.len(),
            all == live_tasks@ + archived_tasks@,
            out@.map_values(|e: StatusHistoryEntry| entry_view(e))
                == seeds_of(all.take(live_tasks@.len() + j), *settings),
            forall|k: int| 0 <= k < out@.len() ==> is_seed_entry(#[trigger] out@[k]),
        decreases archived_tasks.len() - j,
    {
        push_seed_entries(&mut out, &archived_tasks[j], settings);
        proof {
            let n = live_tasks@.len() + j;
            assert(all.take(n + 1).drop_last() =~= all.take(n));
            assert(all.take(n + 1).last() == archived_tasks@[j as int]);
        }
        j = j + 1;
    }
    proof {
        assert(all.take(live_tasks@.len() + j) =~= all);
    }
    out
}

} // verus!
