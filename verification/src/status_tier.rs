//! Status-line health tiers: which of the four tier rules (most severe
//! first) a project's open tasks match.

use vstd::prelude::*;
use crate::clone::copy_rule;
use crate::dates::{add_days, add_days_spec, is_valid_day, parse_iso_date, parsed_iso_date};
use crate::settings::{PriorityLevel, Settings, StatusTierRule};
use crate::task::Task;
use crate::text::{owned, str_eq, u64_to_decimal, decimal};

verus! {

/// A project's status-line health tier, most severe first; `Great` is the
/// fallback when no rule matches.
#[derive(Debug, Clone, Copy, PartialEq, Eq)]
pub enum StatusTier {
    Severe,
    Critical,
    NeedsAttention,
    OnTrack,
    Great,
}

/// The rule in effect for slot `i`: the override when one is set there,
/// else the global rule.
pub open spec fn effective_rule(
    global: Seq<StatusTierRule>,
    overrides: Option<Seq<Option<StatusTierRule>>>,
    i: int,
) -> StatusTierRule {
    match overrides {
        Some(slots) => if 0 <= i < slots.len() && slots[i] is Some { slots[i]->0 } else { global[i] },
        None => global[i],
    }
}

pub open spec fn slice_opt_view(o: Option<&[Option<StatusTierRule>]>) -> Option<Seq<Option<StatusTierRule>>> {
    match o {
        Some(s) => Some(s@),
        None => None,
    }
}

/// The effective rule of each global slot: a set override slot wins over
/// the global rule; missing or unset override slots fall back to it.
pub fn effective_status_tier_rules(
    global: &[StatusTierRule],
    overrides: Option<&[Option<StatusTierRule>]>,
) -> (r: Vec<StatusTierRule>)
    ensures
        r@.len() == global@.len(),
        forall|i: int| 0 <= i < global@.len() ==> #[trigger] r@[i] == effective_rule(global@, slice_opt_view(overrides), i),
{
    let mut out: Vec<StatusTierRule> = Vec::new();
    let mut i: usize = 0;
    while i < global.len()
        invariant
            i <= global@.len(),
            out@.len() == i,
            forall|k: int| 0 <= k < i ==> #[trigger] out@[k] == effective_rule(global@, slice_opt_view(overrides), k),
        decreases global.len() - i,
    {
        let rule = match overrides {
            Some(slots) => if i < slots.len() {
                match &slots[i] {
                    Some(o) => copy_rule(o),
                    None => copy_rule(&global[i]),
                }
            } else {
                copy_rule(&global[i])
            },
            None => copy_rule(&global[i]),
        };
        out.push(rule);
        i += 1;
    }
    out
}

pub open spec fn overrides_count_error(n: nat) -> Seq<char> {
    "status_tier_rule_overrides must have exactly 4 entries (one per tier), got "@ + decimal(n)
}

/// `Ok` exactly when there is one override slot per tier (four).
pub fn validate_status_tier_rule_overrides(overrides: &[Option<StatusTierRule>]) -> (r: Result<(), String>)
    ensures
        r is Ok <==> overrides@.len() == 4,
        r matches Err(e) ==> e@ == overrides_count_error(overrides@.len()),
{
    if overrides.len() != 4 {
        let mut m = owned("status_tier_rule_overrides must have exactly 4 entries (one per tier), got ");
        let n = u64_to_decimal(overrides.len() as u64);
        m.append(n.as_str());
        return Err(m);
    }
    Ok(())
}

/// Whether `i` is the first level of `levels` with id `id`.
pub open spec fn is_first_level(levels: Seq<PriorityLevel>, id: Seq<char>, i: int) -> bool {
    &&& 0 <= i < levels.len()
    &&& levels[i].id@ == id
    &&& forall|k: int| 0 <= k < i ==> (#[trigger] levels[k]).id@ != id
}

/// The rank of the first level with id `id`, if any.
pub open spec fn priority_rank(levels: Seq<PriorityLevel>, id: Seq<char>) -> Option<i64> {
    if exists|i: int| is_first_level(levels, id, i) {
        Some(levels[choose|i: int| is_first_level(levels, id, i)].rank)
    } else {
        None
    }
}

/// The rank of the first level with id `id`, if any.
pub fn find_priority_rank(levels: &[PriorityLevel], id: &str) -> (r: Option<i64>)
    ensures
        r == priority_rank(levels@, id@),
{
    let mut i: usize = 0;
    while i < levels.len()
        invariant
            i <= levels@.len(),
            forall|k: int| 0 <= k < i ==> (#[trigger] levels@[k]).id@ != id@,
        decreases levels.len() - i,
    {
        if str_eq(levels[i].id.as_str(), id) {
            proof {
                assert(is_first_level(levels@, id@, i as int));
                let c = choose|j: int| is_first_level(levels@, id@, j);
                if c < i {
                    assert(levels@[c].id@ != id@);
                }
                if c > i {
                    assert(levels@[i as int].id@ != id@);
                }
            }
            return Some(levels[i].rank);
        }
        i += 1;
    }
    proof {
        if exists|j: int| is_first_level(levels@, id@, j) {
            let c = choose|j: int| is_first_level(levels@, id@, j);
            assert(levels@[c].id@ != id@);
        }
    }
    None
}

/// Whether some task has a due date that parses and is on or before
/// `threshold`.
pub open spec fn some_task_due_by(tasks: Seq<Task>, threshold: int) -> bool {
    exists|i: int| 0 <= i < tasks.len() && (#[trigger] tasks[i]).due is Some && {
        let parsed = parsed_iso_date(tasks[i].due->0@);
        parsed is Some && parsed->0 <= threshold
    }
}

/// The due-within-days condition: unset, or some task due on or before
/// `today + due_within_days`.
pub open spec fn due_within_days_holds(rule: StatusTierRule, tasks: Seq<Task>, today: int) -> bool {
    match rule.due_within_days {
        None => true,
        Some(days) => match add_days_spec(today, days as int) {
            None => false,
            Some(threshold) => some_task_due_by(tasks, threshold),
        },
    }
}

/// Whether some task's priority is at least as severe as `threshold` (its
/// rank no larger).
pub open spec fn some_task_at_least(tasks: Seq<Task>, levels: Seq<PriorityLevel>, threshold: i64) -> bool {
    exists|i: int| 0 <= i < tasks.len() && {
        let rank = priority_rank(levels, (#[trigger] tasks[i]).priority@);
        rank is Some && rank->0 <= threshold
    }
}

/// The minimum-priority condition: unset, or the named level exists and
/// some task is at least that severe.
pub open spec fn min_priority_holds(rule: StatusTierRule, tasks: Seq<Task>, levels: Seq<PriorityLevel>) -> bool {
    match rule.min_priority {
        None => true,
        Some(id) => match priority_rank(levels, id@) {
            None => false,
            Some(threshold) => some_task_at_least(tasks, levels, threshold),
        },
    }
}

/// The estimated-time-left condition: unset, or strictly exceeded.
pub open spec fn estimate_holds(rule: StatusTierRule, estimated_time_left: u32) -> bool {
    match rule.estimated_time_left_exceeds_minutes {
        None => true,
        Some(threshold) => estimated_time_left > threshold,
    }
}

/// Whether the rule sets none of its conditions.
pub open spec fn no_conditions(rule: StatusTierRule) -> bool {
    rule.due_within_days is None && rule.min_priority is None
        && rule.estimated_time_left_exceeds_minutes is None
}

/// A rule matches when it sets at least one condition and every set
/// condition holds.
pub open spec fn rule_holds(
    rule: StatusTierRule,
    tasks: Seq<Task>,
    levels: Seq<PriorityLevel>,
    estimated_time_left: u32,
    today: int,
) -> bool {
    !no_conditions(rule) && due_within_days_holds(rule, tasks, today)
        && min_priority_holds(rule, tasks, levels) && estimate_holds(rule, estimated_time_left)
}

/// Whether some task is due on or before `today + rule.due_within_days`
/// (or the rule does not set that condition).
pub fn matches_due_within_days(rule: &StatusTierRule, tasks: &[Task], today: i32) -> (r: bool)
    requires
        is_valid_day(today as int),
    ensures
        r == due_within_days_holds(*rule, tasks@, today as int),
{
    let days = match rule.due_within_days {
        None => return true,
        Some(d) => d,
    };
    let threshold = match add_days(today, days as i64) {
        None => return false,
        Some(t) => t,
    };
    let mut i: usize = 0;
    while i < tasks.len()
        invariant
            i <= tasks@.len(),
            rule.due_within_days == Some(days),
            add_days_spec(today as int, days as int) == Some(threshold as int),
            forall|k: int| 0 <= k < i ==> !((#[trigger] tasks@[k]).due is Some && {
                let parsed = parsed_iso_date(tasks@[k].due->0@);
                parsed is Some && parsed->0 <= threshold
            }),
        decreases tasks.len() - i,
    {
        if let Some(due) = &tasks[i].due {
            if let Some(d) = parse_iso_date(due.as_str()) {
                if d <= threshold {
                    assert(tasks@[i as int].due is Some);
                    return true;
                }
            }
        }
        i += 1;
    }
    false
}

/// Whether some task is at least as severe as the rule's minimum priority
/// level (or the rule does not set one). An unknown level never matches.
pub fn matches_min_priority(rule: &StatusTierRule, tasks: &[Task], priorities: &[PriorityLevel]) -> (r: bool)
    ensures
        r == min_priority_holds(*rule, tasks@, priorities@),
{
    let id = match &rule.min_priority {
        None => return true,
        Some(id) => id,
    };
    let threshold = match find_priority_rank(priorities, id.as_str()) {
        None => return false,
        Some(t) => t,
    };
    let mut i: usize = 0;
    while i < tasks.len()
        invariant
            i <= tasks@.len(),
            priority_rank(priorities@, id@) == Some(threshold),
            rule.min_priority matches Some(x) && x@ == id@,
            forall|k: int| 0 <= k < i ==> {
                let rank = priority_rank(priorities@, (#[trigger] tasks@[k]).priority@);
                !(rank is Some && rank->0 <= threshold)
            },
        decreases tasks.len() - i,
    {
        if let Some(rank) = find_priority_rank(priorities, tasks[i].priority.as_str()) {
            if rank <= threshold {
                assert(priority_rank(priorities@, tasks@[i as int].priority@) == Some(rank));
                return true;
            }
        }
        i += 1;
    }
    false
}

/// Whether `estimated_time_left` strictly exceeds the rule's threshold (or
/// the rule does not set one).
pub fn matches_estimated_time_left_exceeds(rule: &StatusTierRule, estimated_time_left: u32) -> (r: bool)
    ensures
        r == estimate_holds(*rule, estimated_time_left),
{
    match rule.estimated_time_left_exceeds_minutes {
        None => true,
        Some(threshold) => estimated_time_left > threshold,
    }
}

/// Whether the rule sets none of its three conditions.
pub fn has_no_conditions_set(rule: &StatusTierRule) -> (r: bool)
    ensures
        r == no_conditions(*rule),
{
    rule.due_within_days.is_none() && rule.min_priority.is_none()
        && rule.estimated_time_left_exceeds_minutes.is_none()
}

/// Whether the rule sets a condition and all its set conditions hold.
pub fn rule_matches(
    rule: &StatusTierRule,
    tasks: &[Task],
    priorities: &[PriorityLevel],
    estimated_time_left: u32,
    today: i32,
) -> (r: bool)
    requires
        is_valid_day(today as int),
    ensures
        r == rule_holds(*rule, tasks@, priorities@, estimated_time_left, today as int),
{
    if has_no_conditions_set(rule) {
        return false;
    }
    matches_due_within_days(rule, tasks, today) && matches_min_priority(rule, tasks, priorities)
        && matches_estimated_time_left_exceeds(rule, estimated_time_left)
}

/// The tier of slot `i` (`0` = severe .. `3` = on track).
pub open spec fn tier_of_slot(i: int) -> StatusTier {
    if i == 0 {
        StatusTier::Severe
    } else if i == 1 {
        StatusTier::Critical
    } else if i == 2 {
        StatusTier::NeedsAttention
    } else {
        StatusTier::OnTrack
    }
}

/// The tier of the first of the (at most four) rules that matches, else
/// `Great`.
pub open spec fn first_matching_tier(
    rules: Seq<StatusTierRule>,
    tasks: Seq<Task>,
    levels: Seq<PriorityLevel>,
    estimated_time_left: u32,
    today: int,
) -> StatusTier {
    let n = if rules.len() < 4 { rules.len() as int } else { 4 };
    if exists|i: int| 0 <= i < n && rule_holds(#[trigger] rules[i], tasks, levels, estimated_time_left, today) {
        tier_of_slot(choose|i: int| 0 <= i < n && rule_holds(#[trigger] rules[i], tasks, levels, estimated_time_left, today)
            && forall|k: int| 0 <= k < i ==> !rule_holds(#[trigger] rules[k], tasks, levels, estimated_time_left, today))
    } else {
        StatusTier::Great
    }
}

fn tier_for_slot(i: usize) -> (t: StatusTier)
    requires
        i < 4,
    ensures
        t == tier_of_slot(i as int),
{
    if i == 0 {
        StatusTier::Severe
    } else if i == 1 {
        StatusTier::Critical
    } else if i == 2 {
        StatusTier::NeedsAttention
    } else {
        StatusTier::OnTrack
    }
}

/// A project's status-line tier: the first of the (at most four)
/// effective rules, most severe first, that the project's open tasks
/// match; `Great` when none does.
pub fn evaluate_status_tier(
    effective_rules: &[StatusTierRule],
    tasks: &[Task],
    settings: &Settings,
    estimated_time_left: u32,
    today: i32,
) -> (r: StatusTier)
    requires
        is_valid_day(today as int),
    ensures
        r == first_matching_tier(effective_rules@, tasks@, settings.priorities@, estimated_time_left, today as int),
{
    let n: usize = if effective_rules.len() < 4 { effective_rules.len() } else { 4 };
    let ghost levels = settings.priorities@;
    let mut i: usize = 0;
    while i < n
        invariant
            n <= 4,
            n as int == (if effective_rules@.len() < 4 { effective_rules@.len() as int } else { 4 }),
            i <= n,
            is_valid_day(today as int),
            levels == settings.priorities@,
            forall|k: int| 0 <= k < i ==> !rule_holds(#[trigger] effective_rules@[k], tasks@, levels, estimated_time_left, today as int),
        decreases n - i,
    {
        if rule_matches(&effective_rules[i], tasks, settings.priorities.as_slice(), estimated_time_left, today) {
            proof {
                let rules = effective_rules@;
                let c = choose|j: int| 0 <= j < n && rule_holds(#[trigger] rules[j], tasks@, levels, estimated_time_left, today as int)
                    && forall|k: int| 0 <= k < j ==> !rule_holds(#[trigger] rules[k], tasks@, levels, estimated_time_left, today as int);
                assert(rule_holds(rules[i as int], tasks@, levels, estimated_time_left, today as int));
                if c < i {
                    assert(!rule_holds(rules[c], tasks@, levels, estimated_time_left, today as int));
                }
                if c > i {
                    assert(!rule_holds(rules[i as int], tasks@, levels, estimated_time_left, today as int));
                }
            }
            return tier_for_slot(i);
        }
        i += 1;
    }
    StatusTier::Great
}

} // verus!
