//! The decisions behind the application's commands: default resolution
//! for new tasks, validation of requests, and the edits a command applies
//! to tasks, projects and series. Reading and writing the stores is the
//! application layer's part; everything here works on loaded values.

use vstd::prelude::*;
use crate::clone::{copy_opt_string, copy_string, copy_strings, copy_task};
use crate::dates::{
    format_iso_date, formatted_iso_date, is_valid_day, parse_iso_date, parsed_iso_date,
};
use crate::project::{default_project_color, Project};
use crate::project_tree::{opt_str_view, refs_view};
use crate::settings::{
    due_relative_date_spec, has_priority, has_status, opt_view, resolve_due_relative_date,
    resolve_scheduled_relative_date, scheduled_relative_date_spec, string_views,
    validate_priority_id, validate_status_id, PriorityLevel, Settings, StatusDefinition,
    TaskDefaults,
};
use crate::task::{same_task, Task};
use crate::status_tier::StatusTier;
use crate::layout::StatLayout;
use crate::text::{concat3, owned, str_eq, vec_contains_str};
use crate::storage::{parse_rfc3339_utc, rfc3339_instant, rfc3339_parses};

verus! {

// ----- default resolution for new tasks -----

/// Index of the first priority level with the lowest rank.
pub open spec fn first_min_rank(levels: Seq<PriorityLevel>) -> int
    decreases levels.len(),
{
    if levels.len() <= 1 {
        0
    } else {
        let k = first_min_rank(levels.drop_last());
        if levels.last().rank < levels[k].rank { levels.len() - 1 } else { k }
    }
}

proof fn lemma_first_min_rank_in_range(levels: Seq<PriorityLevel>)
    requires
        levels.len() > 0,
    ensures
        0 <= first_min_rank(levels) < levels.len(),
    decreases levels.len(),
{
    if levels.len() > 1 {
        lemma_first_min_rank_in_range(levels.drop_last());
    }
}

/// Index of the first status with the lowest order.
pub open spec fn first_min_order(statuses: Seq<StatusDefinition>) -> int
    decreases statuses.len(),
{
    if statuses.len() <= 1 {
        0
    } else {
        let k = first_min_order(statuses.drop_last());
        if statuses.last().order < statuses[k].order { statuses.len() - 1 } else { k }
    }
}

proof fn lemma_first_min_order_in_range(statuses: Seq<StatusDefinition>)
    requires
        statuses.len() > 0,
    ensures
        0 <= first_min_order(statuses) < statuses.len(),
    decreases statuses.len(),
{
    if statuses.len() > 1 {
        lemma_first_min_order_in_range(statuses.drop_last());
    }
}

/// The priority a new task gets when none is requested: the default
/// priority when it names a level, else the first level of lowest rank,
/// else `"medium"`.
pub open spec fn default_priority_spec(s: Settings) -> Seq<char> {
    if s.defaults.priority is Some && has_priority(s, s.defaults.priority->0@) {
        s.defaults.priority->0@
    } else if s.priorities@.len() > 0 {
        s.priorities@[first_min_rank(s.priorities@)].id@
    } else {
        "medium"@
    }
}

fn first_min_rank_index(levels: &Vec<PriorityLevel>) -> (r: usize)
    requires
        levels@.len() > 0,
    ensures
        r as int == first_min_rank(levels@),
        r < levels@.len(),
{
    let mut best: usize = 0;
    let mut i: usize = 1;
    while i < levels.len()
        invariant
            1 <= i <= levels@.len(),
            best as int == first_min_rank(levels@.subrange(0, i as int)),
            best < i,
        decreases levels.len() - i,
    {
        proof {
            assert(levels@.subrange(0, i + 1).drop_last() == levels@.subrange(0, i as int));
            lemma_first_min_rank_in_range(levels@.subrange(0, i as int));
        }
        if levels[i].rank < levels[best].rank {
            best = i;
        }
        i += 1;
    }
    assert(levels@.subrange(0, i as int) == levels@);
    best
}

fn first_min_order_index(statuses: &Vec<StatusDefinition>) -> (r: usize)
    requires
        statuses@.len() > 0,
    ensures
        r as int == first_min_order(statuses@),
        r < statuses@.len(),
{
    let mut best: usize = 0;
    let mut i: usize = 1;
    while i < statuses.len()
        invariant
            1 <= i <= statuses@.len(),
            best as int == first_min_order(statuses@.subrange(0, i as int)),
            best < i,
        decreases statuses.len() - i,
    {
        proof {
            assert(statuses@.subrange(0, i + 1).drop_last() == statuses@.subrange(0, i as int));
            lemma_first_min_order_in_range(statuses@.subrange(0, i as int));
        }
        if statuses[i].order < statuses[best].order {
            best = i;
        }
        i += 1;
    }
    assert(statuses@.subrange(0, i as int) == statuses@);
    best
}

/// The priority a new task gets when none was requested (see
/// [`default_priority_spec`]).
pub fn resolve_default_priority(settings: &Settings) -> (r: String)
    ensures
        r@ == default_priority_spec(*settings),
{
    if let Some(default_id) = &settings.defaults.priority {
        if validate_priority_id(settings, default_id.as_str()).is_ok() {
            return copy_string(default_id);
        }
    }
    if settings.priorities.len() > 0 {
        let k = first_min_rank_index(&settings.priorities);
        copy_string(&settings.priorities[k].id)
    } else {
        owned("medium")
    }
}

/// The first project of the chain, from position `i`, whose board default
/// status names a defined status.
pub open spec fn chain_default_status(chain: Seq<Project>, s: Settings, i: int) -> Option<Seq<char>>
    decreases chain.len() - i,
{
    if i < 0 || i >= chain.len() {
        None
    } else if chain[i].board.default_status is Some && has_status(s, chain[i].board.default_status->0@) {
        Some(chain[i].board.default_status->0@)
    } else {
        chain_default_status(chain, s, i + 1)
    }
}

/// The status a new task gets when none is requested: the nearest
/// project's board default that names a status, else the global default
/// when it names one, else the first status of lowest order, else
/// `"backlog"`.
pub open spec fn default_status_spec(s: Settings, chain: Seq<Project>) -> Seq<char> {
    if chain_default_status(chain, s, 0) is Some {
        chain_default_status(chain, s, 0)->0
    } else if s.defaults.status is Some && has_status(s, s.defaults.status->0@) {
        s.defaults.status->0@
    } else if s.statuses@.len() > 0 {
        s.statuses@[first_min_order(s.statuses@)].id@
    } else {
        "backlog"@
    }
}

/// The status a new task gets when none was requested, checking the
/// project chain (the task's project, then its ancestors) first (see
/// [`default_status_spec`]).
pub fn resolve_default_status(settings: &Settings, project_chain: &[&Project]) -> (r: String)
    ensures
        r@ == default_status_spec(*settings, refs_view(project_chain@)),
{
    let ghost chain = refs_view(project_chain@);
    let mut i: usize = 0;
    while i < project_chain.len()
        invariant
            chain == refs_view(project_chain@),
            i <= project_chain@.len(),
            chain_default_status(chain, *settings, 0) == chain_default_status(chain, *settings, i as int),
        decreases project_chain.len() - i,
    {
        let p: &Project = project_chain[i];
        assert(chain[i as int] == *p);
        if let Some(default_id) = &p.board.default_status {
            if validate_status_id(settings, default_id.as_str()).is_ok() {
                return copy_string(default_id);
            }
        }
        i += 1;
    }
    if let Some(default_id) = &settings.defaults.status {
        if validate_status_id(settings, default_id.as_str()).is_ok() {
            return copy_string(default_id);
        }
    }
    if settings.statuses.len() > 0 {
        let k = first_min_order_index(&settings.statuses);
        copy_string(&settings.statuses[k].id)
    } else {
        owned("backlog")
    }
}

/// The project with id `project_id`, if any (the first such).
pub fn find_project<'a>(projects: &'a [Project], project_id: &str) -> (r: Option<&'a Project>)
    ensures
        match r {
            Some(p) => crate::project_tree::find_project(projects@, project_id@) matches Some(i) && *p == projects@[i],
            None => crate::project_tree::find_project(projects@, project_id@) is None,
        },
{
    match crate::project_tree::find_project_index(projects, project_id) {
        Some(i) => Some(&projects[i]),
        None => None,
    }
}

/// The project a task is saved under: the given one, else the default
/// project.
pub fn resolve_project_id(project_id: Option<String>, settings: &Settings) -> (r: String)
    ensures
        r == (match project_id {
            Some(p) => p,
            None => settings.default_project_id,
        }),
{
    match project_id {
        Some(p) => p,
        None => copy_string(&settings.default_project_id),
    }
}

/// `explicit` followed by each default tag not already present, in order.
pub open spec fn merged_tags(explicit: Seq<Seq<char>>, defaults: Seq<Seq<char>>) -> Seq<Seq<char>>
    decreases defaults.len(),
{
    if defaults.len() == 0 {
        explicit
    } else {
        let m = merged_tags(explicit, defaults.drop_last());
        if m.contains(defaults.last()) { m } else { m.push(defaults.last()) }
    }
}

/// Appends each default tag not already present to the explicit tags, so
/// explicit tags come first and no default is added twice.
pub fn merge_tags(explicit: Vec<String>, defaults: Vec<String>) -> (r: Vec<String>)
    ensures
        string_views(r@) == merged_tags(string_views(explicit@), string_views(defaults@)),
{
    let mut merged = explicit;
    let mut i: usize = 0;
    while i < defaults.len()
        invariant
            i <= defaults@.len(),
            string_views(merged@) == merged_tags(string_views(explicit@), string_views(defaults@).subrange(0, i as int)),
        decreases defaults.len() - i,
    {
        let ghost m = string_views(merged@);
        let ghost d = string_views(defaults@).subrange(0, i + 1);
        proof {
            assert(d.drop_last() == string_views(defaults@).subrange(0, i as int));
            assert(d.last() == defaults@[i as int]@);
        }
        let present = vec_contains_str(&merged, defaults[i].as_str());
        proof {
            if present {
                let k = choose|k: int| 0 <= k < merged@.len() && (#[trigger] merged@[k])@ == defaults@[i as int]@;
                assert(m[k] == d.last());
            } else {
                assert forall|k: int| 0 <= k < m.len() implies m[k] != d.last() by {
                    assert(m[k] == merged@[k]@);
                }
            }
        }
        if !present {
            let ghost before = merged@;
            merged.push(copy_string(&defaults[i]));
            proof {
                assert(string_views(merged@) =~= string_views(before).push(defaults@[i as int]@));
            }
        }
        i += 1;
    }
    assert(string_views(defaults@).subrange(0, i as int) == string_views(defaults@));
    merged
}

/// Merging tags keeps every explicit tag first and in order, adds every
/// default tag, adds nothing else, and adds no tag twice: where the explicit
/// tags hold no duplicate, neither does the result.
pub proof fn lemma_merged_tags_properties(explicit: Seq<Seq<char>>, defaults: Seq<Seq<char>>)
    ensures
        merged_tags(explicit, defaults).len() >= explicit.len(),
        merged_tags(explicit, defaults).subrange(0, explicit.len() as int) == explicit,
        forall|j: int| 0 <= j < defaults.len() ==> merged_tags(explicit, defaults).contains(#[trigger] defaults[j]),
        forall|t: Seq<char>| #[trigger] merged_tags(explicit, defaults).contains(t) ==> explicit.contains(t) || defaults.contains(t),
        explicit.no_duplicates() ==> merged_tags(explicit, defaults).no_duplicates(),
    decreases defaults.len(),
{
    if defaults.len() > 0 {
        let rest = defaults.drop_last();
        lemma_merged_tags_properties(explicit, rest);
        let m = merged_tags(explicit, rest);
        let t = defaults.last();
        assert forall|j: int| 0 <= j < defaults.len() implies merged_tags(explicit, defaults).contains(#[trigger] defaults[j]) by {
            if j < defaults.len() - 1 {
                assert(rest[j] == defaults[j]);
                let k = choose|k: int| 0 <= k < m.len() && m[k] == rest[j];
                if !m.contains(t) {
                    assert(m.push(t)[k] == defaults[j]);
                }
            } else if !m.contains(t) {
                assert(m.push(t)[m.len() as int] == defaults[j]);
            }
        }
        assert forall|x: Seq<char>| #[trigger] merged_tags(explicit, defaults).contains(x) implies explicit.contains(x) || defaults.contains(x) by {
            if m.contains(x) {
                if rest.contains(x) {
                    let k = choose|k: int| 0 <= k < rest.len() && rest[k] == x;
                    assert(defaults[k] == x);
                }
            } else {
                assert(x == t);
                assert(defaults[defaults.len() - 1] == x);
            }
        }
        if !m.contains(t) {
            assert(m.push(t).subrange(0, explicit.len() as int) == m.subrange(0, explicit.len() as int));
        }
    }
}

/// The first project of the chain, from position `i`, with non-empty
/// default tags.
pub open spec fn chain_default_tags(chain: Seq<Project>, i: int) -> Option<Seq<String>>
    decreases chain.len() - i,
{
    if i < 0 || i >= chain.len() {
        None
    } else if chain[i].defaults.tags@.len() > 0 {
        Some(chain[i].defaults.tags@)
    } else {
        chain_default_tags(chain, i + 1)
    }
}

/// The default tags merged into a new task: the nearest project's
/// non-empty default tags, else the global ones.
pub fn effective_default_tags(global: &TaskDefaults, project_chain: &[&Project]) -> (r: Vec<String>)
    ensures
        r@ == (match chain_default_tags(refs_view(project_chain@), 0) {
            Some(t) => t,
            None => global.tags@,
        }),
{
    let ghost chain = refs_view(project_chain@);
    let mut i: usize = 0;
    while i < project_chain.len()
        invariant
            chain == refs_view(project_chain@),
            i <= project_chain@.len(),
            chain_default_tags(chain, 0) == chain_default_tags(chain, i as int),
        decreases project_chain.len() - i,
    {
        let p: &Project = project_chain[i];
        assert(chain[i as int] == *p);
        if p.defaults.tags.len() > 0 {
            return copy_strings(&p.defaults.tags);
        }
        i += 1;
    }
    copy_strings(&global.tags)
}

/// The first project of the chain, from position `i`, with a default
/// estimate.
pub open spec fn chain_default_estimate(chain: Seq<Project>, i: int) -> Option<u32>
    decreases chain.len() - i,
{
    if i < 0 || i >= chain.len() {
        None
    } else if chain[i].defaults.estimated_minutes is Some {
        chain[i].defaults.estimated_minutes
    } else {
        chain_default_estimate(chain, i + 1)
    }
}

/// The default estimate of a new task: the nearest project's override,
/// else the global default, else none.
pub fn effective_default_estimated_minutes(global: &TaskDefaults, project_chain: &[&Project]) -> (r: Option<u32>)
    ensures
        r == (match chain_default_estimate(refs_view(project_chain@), 0) {
            Some(m) => Some(m),
            None => global.estimated_minutes,
        }),
{
    let ghost chain = refs_view(project_chain@);
    let mut i: usize = 0;
    while i < project_chain.len()
        invariant
            chain == refs_view(project_chain@),
            i <= project_chain@.len(),
            chain_default_estimate(chain, 0) == chain_default_estimate(chain, i as int),
        decreases project_chain.len() - i,
    {
        let p: &Project = project_chain[i];
        assert(chain[i as int] == *p);
        if let Some(m) = p.defaults.estimated_minutes {
            return Some(m);
        }
        i += 1;
    }
    global.estimated_minutes
}

pub open spec fn opt_ref_view(o: Option<&String>) -> Option<Seq<char>> {
    match o {
        Some(s) => Some(s@),
        None => None,
    }
}

/// A scheduled-date code resolved against `today`, as `YYYY-MM-DD` text.
pub open spec fn default_scheduled_date_spec(code: Option<Seq<char>>, today: int) -> Option<Seq<char>> {
    match code {
        None => None,
        Some(c) => match scheduled_relative_date_spec(c, today) {
            None => None,
            Some(d) => Some(formatted_iso_date(d)),
        },
    }
}

/// A due-date code resolved against `scheduled`, as `YYYY-MM-DD` text.
pub open spec fn default_due_date_spec(code: Option<Seq<char>>, scheduled: int) -> Option<Seq<char>> {
    match code {
        None => None,
        Some(c) => match due_relative_date_spec(c, scheduled) {
            None => None,
            Some(d) => Some(formatted_iso_date(d)),
        },
    }
}

/// Resolves a scheduled-date code to `YYYY-MM-DD` text relative to `today`;
/// `None` for no code or an unknown one.
pub fn resolve_default_scheduled_date(code: Option<&String>, today: i32) -> (r: Option<String>)
    requires
        is_valid_day(today as int),
    ensures
        opt_view(r) == default_scheduled_date_spec(opt_ref_view(code), today as int),
{
    match code {
        None => None,
        Some(c) => match resolve_scheduled_relative_date(c.as_str(), today) {
            None => None,
            Some(d) => Some(format_iso_date(d)),
        },
    }
}

/// Resolves a due-date code to `YYYY-MM-DD` text relative to `scheduled`;
/// `None` for no code, `"none"`, or an unknown code.
pub fn resolve_default_due_date(code: Option<&String>, scheduled: i32) -> (r: Option<String>)
    requires
        is_valid_day(scheduled as int),
    ensures
        opt_view(r) == default_due_date_spec(opt_ref_view(code), scheduled as int),
{
    match code {
        None => None,
        Some(c) => match resolve_due_relative_date(c.as_str(), scheduled) {
            None => None,
            Some(d) => Some(format_iso_date(d)),
        },
    }
}

/// The first project of the chain, from position `i`, with a default due
/// code.
pub open spec fn chain_due_code(chain: Seq<Project>, i: int) -> Option<Seq<char>>
    decreases chain.len() - i,
{
    if i < 0 || i >= chain.len() {
        None
    } else if chain[i].defaults.due is Some {
        Some(chain[i].defaults.due->0@)
    } else {
        chain_due_code(chain, i + 1)
    }
}

/// The first project of the chain, from position `i`, with a default
/// scheduled code.
pub open spec fn chain_scheduled_code(chain: Seq<Project>, i: int) -> Option<Seq<char>>
    decreases chain.len() - i,
{
    if i < 0 || i >= chain.len() {
        None
    } else if chain[i].defaults.scheduled is Some {
        Some(chain[i].defaults.scheduled->0@)
    } else {
        chain_scheduled_code(chain, i + 1)
    }
}

/// The due code in effect: the nearest project's, else the global one.
pub open spec fn due_code_in_effect(s: Settings, chain: Seq<Project>) -> Option<Seq<char>> {
    if chain_due_code(chain, 0) is Some { chain_due_code(chain, 0) } else { opt_view(s.defaults.due) }
}

/// The scheduled code in effect: the nearest project's, else the global one.
pub open spec fn scheduled_code_in_effect(s: Settings, chain: Seq<Project>) -> Option<Seq<char>> {
    if chain_scheduled_code(chain, 0) is Some { chain_scheduled_code(chain, 0) } else { opt_view(s.defaults.scheduled) }
}

fn due_code_of<'a>(settings: &'a Settings, project_chain: &[&'a Project]) -> (r: Option<&'a String>)
    ensures
        opt_ref_view(r) == due_code_in_effect(*settings, refs_view(project_chain@)),
{
    let ghost chain = refs_view(project_chain@);
    let mut i: usize = 0;
    while i < project_chain.len()
        invariant
            chain == refs_view(project_chain@),
            i <= project_chain@.len(),
            chain_due_code(chain, 0) == chain_due_code(chain, i as int),
        decreases project_chain.len() - i,
    {
        let p: &'a Project = project_chain[i];
        assert(chain[i as int] == *p);
        if let Some(c) = &p.defaults.due {
            return Some(c);
        }
        i += 1;
    }
    match &settings.defaults.due {
        Some(c) => Some(c),
        None => None,
    }
}

fn scheduled_code_of<'a>(settings: &'a Settings, project_chain: &[&'a Project]) -> (r: Option<&'a String>)
    ensures
        opt_ref_view(r) == scheduled_code_in_effect(*settings, refs_view(project_chain@)),
{
    let ghost chain = refs_view(project_chain@);
    let mut i: usize = 0;
    while i < project_chain.len()
        invariant
            chain == refs_view(project_chain@),
            i <= project_chain@.len(),
            chain_scheduled_code(chain, 0) == chain_scheduled_code(chain, i as int),
        decreases project_chain.len() - i,
    {
        let p: &'a Project = project_chain[i];
        assert(chain[i as int] == *p);
        if let Some(c) = &p.defaults.scheduled {
            return Some(c);
        }
        i += 1;
    }
    match &settings.defaults.scheduled {
        Some(c) => Some(c),
        None => None,
    }
}

/// The scheduled date of a new task: the explicit one, else the scheduled
/// code in effect resolved against `today`, else `today`.
pub open spec fn creation_scheduled(s: Settings, chain: Seq<Project>, today: int, scheduled: Option<Seq<char>>) -> Seq<char> {
    match scheduled {
        Some(x) => x,
        None => match default_scheduled_date_spec(scheduled_code_in_effect(s, chain), today) {
            Some(x) => x,
            None => formatted_iso_date(today),
        },
    }
}

/// The due date of a new task: none for the explicit `"none"`, the
/// explicit date otherwise, else the due code in effect resolved against
/// the scheduled date (when that parses).
pub open spec fn creation_due(s: Settings, chain: Seq<Project>, due: Option<Seq<char>>, scheduled: Seq<char>) -> Option<Seq<char>> {
    match due {
        Some(x) => if x == "none"@ { None } else { Some(x) },
        None => match parsed_iso_date(scheduled) {
            None => None,
            Some(d) => default_due_date_spec(due_code_in_effect(s, chain), d),
        },
    }
}

/// The tags of a new task: the explicit ones followed by the default tags
/// in effect not already present.
pub open spec fn creation_tags(s: Settings, chain: Seq<Project>, tags: Option<Seq<Seq<char>>>) -> Seq<Seq<char>> {
    let explicit = match tags { Some(t) => t, None => Seq::empty() };
    let defaults = match chain_default_tags(chain, 0) {
        Some(t) => string_views(t),
        None => string_views(s.defaults.tags@),
    };
    merged_tags(explicit, defaults)
}

pub open spec fn opt_strings_view(o: Option<Vec<String>>) -> Option<Seq<Seq<char>>> {
    match o {
        Some(v) => Some(string_views(v@)),
        None => None,
    }
}

/// Resolves the tags, due date and scheduled date of a new task from the
/// explicit values and the project and global defaults (see
/// [`creation_tags`], [`creation_due`], [`creation_scheduled`]).
pub fn resolve_creation_defaults(
    settings: &Settings,
    project_chain: &[&Project],
    today: i32,
    tags: Option<Vec<String>>,
    due: Option<String>,
    scheduled: Option<String>,
) -> (r: (Vec<String>, Option<String>, String))
    requires
        is_valid_day(today as int),
    ensures
        string_views(r.0@) == creation_tags(*settings, refs_view(project_chain@), opt_strings_view(tags)),
        r.2@ == creation_scheduled(*settings, refs_view(project_chain@), today as int, opt_view(scheduled)),
        opt_view(r.1) == creation_due(*settings, refs_view(project_chain@), opt_view(due), r.2@),
{
    let due_code = due_code_of(settings, project_chain);
    let scheduled_code = scheduled_code_of(settings, project_chain);
    let resolved_scheduled = match scheduled {
        Some(x) => x,
        None => match resolve_default_scheduled_date(scheduled_code, today) {
            Some(x) => x,
            None => format_iso_date(today),
        },
    };
    let resolved_due = match due {
        Some(x) => if str_eq(x.as_str(), "none") { None } else { Some(x) },
        None => match parse_iso_date(resolved_scheduled.as_str()) {
            None => None,
            Some(d) => resolve_default_due_date(due_code, d),
        },
    };
    let default_tags = effective_default_tags(&settings.defaults, project_chain);
    let explicit = match tags {
        Some(t) => t,
        None => Vec::new(),
    };
    assert(string_views(explicit@) =~= (match opt_strings_view(tags) { Some(t) => t, None => Seq::empty() }));
    let final_tags = merge_tags(explicit, default_tags);
    (final_tags, resolved_due, resolved_scheduled)
}

} // verus!

verus! {

// ----- applying requests to tasks -----

/// Applies quick-add overrides to a fresh task: each given value replaces
/// the task's; `scheduled` is always set.
pub fn apply_create_overrides(
    task: &mut Task,
    project_id: Option<String>,
    tags: Option<Vec<String>>,
    priority: Option<String>,
    due: Option<String>,
    scheduled: String,
    estimated_minutes: Option<u32>,
)
    ensures
        final(task).project_id == (if project_id is Some { project_id } else { old(task).project_id }),
        final(task).tags == (match tags { Some(t) => t, None => old(task).tags }),
        final(task).priority == (match priority { Some(p) => p, None => old(task).priority }),
        final(task).due == (if due is Some { due } else { old(task).due }),
        final(task).scheduled == Some(scheduled),
        final(task).estimated_minutes == (if estimated_minutes is Some { estimated_minutes } else { old(task).estimated_minutes }),
        final(task).id == old(task).id,
        final(task).title == old(task).title,
        final(task).status == old(task).status,
        final(task).tracked_minutes == old(task).tracked_minutes,
        final(task).notes == old(task).notes,
        final(task).created == old(task).created,
        final(task).depends_on == old(task).depends_on,
        final(task).order == old(task).order,
        final(task).series_id == old(task).series_id,
        final(task).subtask_project_id == old(task).subtask_project_id,
        final(task).hidden == old(task).hidden,
        final(task).completed_at == old(task).completed_at,
        final(task).cancelled_at == old(task).cancelled_at,
{
    if let Some(p) = project_id {
        task.project_id = Some(p);
    }
    if let Some(t) = tags {
        task.tags = t;
    }
    if let Some(p) = priority {
        task.priority = p;
    }
    if let Some(d) = due {
        task.due = Some(d);
    }
    task.scheduled = Some(scheduled);
    if let Some(m) = estimated_minutes {
        task.estimated_minutes = Some(m);
    }
}

pub open spec fn date_field_error(field: Seq<char>) -> Seq<char> {
    field + " must be a valid date in YYYY-MM-DD format"@
}

/// `Err` exactly for a present value that is not a `YYYY-MM-DD` date.
pub fn validate_date_field(value: &Option<String>, field: &str) -> (r: Result<(), String>)
    ensures
        r is Err <==> (value matches Some(d) && parsed_iso_date(d@) is None),
        r matches Err(e) ==> e@ == date_field_error(field@),
{
    match value {
        Some(date) => {
            if parse_iso_date(date.as_str()).is_none() {
                let mut m = owned(field);
                m.append(" must be a valid date in YYYY-MM-DD format");
                return Err(m);
            }
            Ok(())
        },
        None => Ok(()),
    }
}

pub open spec fn due_field_error() -> Seq<char> {
    "due must be a valid date in YYYY-MM-DD format, or 'none'"@
}

/// `Err` exactly for a present due value that is neither `"none"` nor a
/// `YYYY-MM-DD` date.
pub fn validate_due_creation_field(value: &Option<String>) -> (r: Result<(), String>)
    ensures
        r is Err <==> (value matches Some(d) && d@ != "none"@ && parsed_iso_date(d@) is None),
        r matches Err(e) ==> e@ == due_field_error(),
{
    match value {
        None => Ok(()),
        Some(d) => {
            if str_eq(d.as_str(), "none") {
                Ok(())
            } else if parse_iso_date(d.as_str()).is_none() {
                Err(owned("due must be a valid date in YYYY-MM-DD format, or 'none'"))
            } else {
                Ok(())
            }
        },
    }
}

/// Applies an edit's editable fields onto the stored task, keeping its
/// id, creation time, dependencies, tracked time and the rest.
pub fn apply_task_update(existing: &mut Task, title: String, project_id: String, task: Task)
    ensures
        final(existing).title == title,
        final(existing).project_id == Some(project_id),
        final(existing).tags == task.tags,
        final(existing).priority == task.priority,
        final(existing).status == task.status,
        final(existing).due == task.due,
        final(existing).scheduled == task.scheduled,
        final(existing).estimated_minutes == task.estimated_minutes,
        final(existing).notes == task.notes,
        final(existing).id == old(existing).id,
        final(existing).created == old(existing).created,
        final(existing).depends_on == old(existing).depends_on,
        final(existing).tracked_minutes == old(existing).tracked_minutes,
        final(existing).order == old(existing).order,
        final(existing).series_id == old(existing).series_id,
        final(existing).subtask_project_id == old(existing).subtask_project_id,
        final(existing).hidden == old(existing).hidden,
        final(existing).completed_at == old(existing).completed_at,
        final(existing).cancelled_at == old(existing).cancelled_at,
{
    existing.title = title;
    existing.project_id = Some(project_id);
    existing.tags = task.tags;
    existing.priority = task.priority;
    existing.status = task.status;
    existing.due = task.due;
    existing.scheduled = task.scheduled;
    existing.estimated_minutes = task.estimated_minutes;
    existing.notes = task.notes;
}

/// Whether two projects hold the same values, lists compared by contents.
pub open spec fn same_project(r: Project, p: Project) -> bool {
    &&& r.id == p.id
    &&& r.name == p.name
    &&& r.color == p.color
    &&& r.parent_id == p.parent_id
    &&& r.order == p.order
    &&& r.created == p.created
    &&& r.board.statuses@ == p.board.statuses@
    &&& r.board.default_status == p.board.default_status
    &&& r.board.show_previous_weeks == p.board.show_previous_weeks
    &&& r.board.ink_mode == p.board.ink_mode
    &&& r.board.show_subproject_tasks == p.board.show_subproject_tasks
    &&& r.board.status_line_layout_id == p.board.status_line_layout_id
    &&& (r.board.status_tier_rule_overrides matches Some(o) ==> p.board.status_tier_rule_overrides matches Some(q) && o@ == q@)
    &&& (r.board.status_tier_rule_overrides is None <==> p.board.status_tier_rule_overrides is None)
    &&& r.defaults.tags@ == p.defaults.tags@
    &&& r.defaults.priority == p.defaults.priority
    &&& r.defaults.status == p.defaults.status
    &&& r.defaults.due == p.defaults.due
    &&& r.defaults.scheduled == p.defaults.scheduled
    &&& r.defaults.estimated_minutes == p.defaults.estimated_minutes
    &&& r.tracking_task_id == p.tracking_task_id
}

/// A copy of a project.
pub fn copy_project(p: &Project) -> (r: Project)
    ensures
        same_project(r, *p),
{
    let overrides = match &p.board.status_tier_rule_overrides {
        None => None,
        Some(o) => {
            let mut v: Vec<Option<crate::settings::StatusTierRule>> = Vec::new();
            let mut i: usize = 0;
            while i < o.len()
                invariant
                    i <= o@.len(),
                    v@ == o@.subrange(0, i as int),
                decreases o.len() - i,
            {
                let slot = match &o[i] {
                    None => None,
                    Some(rule) => Some(crate::clone::copy_rule(rule)),
                };
                v.push(slot);
                proof {
                    assert(v@ =~= o@.subrange(0, i + 1));
                }
                i += 1;
            }
            assert(o@.subrange(0, i as int) == o@);
            Some(v)
        },
    };
    Project {
        id: copy_string(&p.id),
        name: copy_string(&p.name),
        color: copy_string(&p.color),
        parent_id: copy_opt_string(&p.parent_id),
        order: p.order,
        created: copy_string(&p.created),
        board: crate::project::ProjectBoard {
            statuses: copy_strings(&p.board.statuses),
            default_status: copy_opt_string(&p.board.default_status),
            show_previous_weeks: p.board.show_previous_weeks,
            ink_mode: copy_opt_string(&p.board.ink_mode),
            show_subproject_tasks: p.board.show_subproject_tasks,
            status_tier_rule_overrides: overrides,
            status_line_layout_id: copy_opt_string(&p.board.status_line_layout_id),
        },
        defaults: TaskDefaults {
            tags: copy_strings(&p.defaults.tags),
            priority: copy_opt_string(&p.defaults.priority),
            status: copy_opt_string(&p.defaults.status),
            due: copy_opt_string(&p.defaults.due),
            scheduled: copy_opt_string(&p.defaults.scheduled),
            estimated_minutes: p.defaults.estimated_minutes,
        },
        tracking_task_id: copy_opt_string(&p.tracking_task_id),
    }
}

/// The subtask container `container_id` (when it still exists) with its
/// name and parent synced to its task's title and project; everything else
/// is kept.
pub fn synced_subtask_container(
    projects: &[Project],
    container_id: &str,
    task_title: &str,
    task_project_id: &str,
) -> (r: Option<Project>)
    ensures
        match crate::project_tree::find_project(projects@, container_id@) {
            None => r is None,
            Some(i) => r matches Some(p) && {
                &&& p.name@ == task_title@
                &&& opt_view(p.parent_id) == Some(task_project_id@)
                &&& same_project(p, Project { name: p.name, parent_id: p.parent_id, ..projects@[i] })
            },
        },
{
    let container = match find_project(projects, container_id) {
        None => return None,
        Some(c) => c,
    };
    let mut updated = copy_project(container);
    updated.name = owned(task_title);
    updated.parent_id = Some(owned(task_project_id));
    Some(updated)
}

/// Whether two string lists hold the same strings in the same order.
fn strings_equal(a: &Vec<String>, b: &Vec<String>) -> (r: bool)
    ensures
        r == (string_views(a@) == string_views(b@)),
{
    if a.len() != b.len() {
        return false;
    }
    let mut i: usize = 0;
    while i < a.len()
        invariant
            a@.len() == b@.len(),
            i <= a@.len(),
            forall|k: int| 0 <= k < i ==> a@[k]@ == b@[k]@,
        decreases a.len() - i,
    {
        if !str_eq(a[i].as_str(), b[i].as_str()) {
            assert(string_views(a@)[i as int] != string_views(b@)[i as int]);
            return false;
        }
        i += 1;
    }
    assert(string_views(a@) =~= string_views(b@));
    true
}

/// `t` adopting `parent`'s tags, and its due and scheduled dates unless
/// `t` is recurring.
pub open spec fn inherits_from(t: Task, parent: Task, u: Task) -> bool {
    &&& u.tags@ == parent.tags@
    &&& u.due == (if t.series_id is Some { t.due } else { parent.due })
    &&& u.scheduled == (if t.series_id is Some { t.scheduled } else { parent.scheduled })
    &&& u.id == t.id && u.title == t.title && u.project_id == t.project_id
    &&& u.priority == t.priority && u.status == t.status
    &&& u.estimated_minutes == t.estimated_minutes && u.tracked_minutes == t.tracked_minutes
    &&& u.notes == t.notes && u.created == t.created && u.depends_on@ == t.depends_on@
    &&& u.order == t.order && u.series_id == t.series_id
    &&& u.subtask_project_id == t.subtask_project_id && u.hidden == t.hidden
    &&& u.completed_at == t.completed_at && u.cancelled_at == t.cancelled_at
}

/// Whether inheriting from `parent` would change subtask `t`.
pub open spec fn inheritance_changes(t: Task, parent: Task) -> bool {
    string_views(t.tags@) != string_views(parent.tags@) || (t.series_id is None
        && (opt_view(t.due) != opt_view(parent.due) || opt_view(t.scheduled) != opt_view(parent.scheduled)))
}

fn opt_str_eq(a: &Option<String>, b: &Option<String>) -> (r: bool)
    ensures
        r == (opt_view(*a) == opt_view(*b)),
{
    match (a, b) {
        (Some(x), Some(y)) => str_eq(x.as_str(), y.as_str()),
        (None, None) => true,
        _ => false,
    }
}

/// Whether `t` is a subtask in container `c`.
pub open spec fn in_container(t: Task, c: Seq<char>) -> bool {
    opt_view(t.project_id) == Some(c)
}

/// The subtasks among `tasks[0..upto]` that inheriting changes, in order.
pub open spec fn changed_subtasks(tasks: Seq<Task>, c: Seq<char>, parent: Task, upto: int) -> Seq<Task>
    decreases upto,
{
    if upto <= 0 {
        Seq::empty()
    } else {
        let rest = changed_subtasks(tasks, c, parent, upto - 1);
        let t = tasks[upto - 1];
        if in_container(t, c) && inheritance_changes(t, parent) { rest.push(t) } else { rest }
    }
}

/// Every subtask in `container_id` that inheriting `parent`'s tags (and,
/// when not recurring, its due and scheduled dates) changes, so updated.
pub fn subtasks_with_inherited_attributes(tasks: &[Task], container_id: &str, parent: &Task) -> (r: Vec<Task>)
    ensures
        r@.len() == changed_subtasks(tasks@, container_id@, *parent, tasks@.len() as int).len(),
        forall|k: int| 0 <= k < r@.len() ==> inherits_from(
            changed_subtasks(tasks@, container_id@, *parent, tasks@.len() as int)[k], *parent, #[trigger] r@[k]),
{
    let mut out: Vec<Task> = Vec::new();
    let mut i: usize = 0;
    while i < tasks.len()
        invariant
            i <= tasks@.len(),
            out@.len() == changed_subtasks(tasks@, container_id@, *parent, i as int).len(),
            forall|k: int| 0 <= k < out@.len() ==> inherits_from(
                changed_subtasks(tasks@, container_id@, *parent, i as int)[k], *parent, #[trigger] out@[k]),
        decreases tasks.len() - i,
    {
        let t = &tasks[i];
        let in_c = match &t.project_id {
            Some(p) => str_eq(p.as_str(), container_id),
            None => false,
        };
        if in_c {
            let changes = !strings_equal(&t.tags, &parent.tags)
                || (t.series_id.is_none() && (!opt_str_eq(&t.due, &parent.due) || !opt_str_eq(&t.scheduled, &parent.scheduled)));
            if changes {
                let mut u = copy_task(t);
                u.tags = copy_strings(&parent.tags);
                if t.series_id.is_none() {
                    u.due = copy_opt_string(&parent.due);
                    u.scheduled = copy_opt_string(&parent.scheduled);
                }
                out.push(u);
            }
        }
        i += 1;
    }
    out
}

/// The first task with id `id`, if any.
pub open spec fn is_first_task(tasks: Seq<Task>, id: Seq<char>, i: int) -> bool {
    &&& 0 <= i < tasks.len()
    &&& tasks[i].id@ == id
    &&& forall|k: int| 0 <= k < i ==> (#[trigger] tasks[k]).id@ != id
}

pub open spec fn find_task(tasks: Seq<Task>, id: Seq<char>) -> Option<int> {
    if exists|i: int| is_first_task(tasks, id, i) {
        Some(choose|i: int| is_first_task(tasks, id, i))
    } else {
        None
    }
}

/// The position of the first task with id `id`, if any.
pub fn find_task_index(tasks: &[Task], id: &str) -> (r: Option<usize>)
    ensures
        match r {
            Some(i) => find_task(tasks@, id@) == Some(i as int) && is_first_task(tasks@, id@, i as int),
            None => find_task(tasks@, id@) is None,
        },
{
    let mut i: usize = 0;
    while i < tasks.len()
        invariant
            i <= tasks@.len(),
            forall|k: int| 0 <= k < i ==> (#[trigger] tasks@[k]).id@ != id@,
        decreases tasks.len() - i,
    {
        if str_eq(tasks[i].id.as_str(), id) {
            proof {
                assert(is_first_task(tasks@, id@, i as int));
                let c = choose|j: int| is_first_task(tasks@, id@, j);
                if c < i {
                    assert(tasks@[c].id@ != id@);
                }
                if c > i {
                    assert(tasks@[i as int].id@ != id@);
                }
            }
            return Some(i);
        }
        i += 1;
    }
    proof {
        if exists|j: int| is_first_task(tasks@, id@, j) {
            let c = choose|j: int| is_first_task(tasks@, id@, j);
            assert(tasks@[c].id@ != id@);
        }
    }
    None
}

/// The subtasks in container `c` among `tasks[0..upto]`, in order.
pub open spec fn subtasks_in(tasks: Seq<Task>, c: Seq<char>, upto: int) -> Seq<Task>
    decreases upto,
{
    if upto <= 0 {
        Seq::empty()
    } else {
        let rest = subtasks_in(tasks, c, upto - 1);
        if in_container(tasks[upto - 1], c) { rest.push(tasks[upto - 1]) } else { rest }
    }
}

/// The container of the task `task_id`, when that task exists and has one.
pub open spec fn container_of(tasks: Seq<Task>, task_id: Seq<char>) -> Option<Seq<char>> {
    match find_task(tasks, task_id) {
        None => None,
        Some(i) => opt_view(tasks[i].subtask_project_id),
    }
}

fn subtasks_of(tasks: &[Task], container_id: &String) -> (r: Vec<Task>)
    ensures
        r@.len() == subtasks_in(tasks@, container_id@, tasks@.len() as int).len(),
        forall|k: int| 0 <= k < r@.len() ==> same_task(#[trigger] r@[k], subtasks_in(tasks@, container_id@, tasks@.len() as int)[k]),
{
    let mut out: Vec<Task> = Vec::new();
    let mut i: usize = 0;
    while i < tasks.len()
        invariant
            i <= tasks@.len(),
            out@.len() == subtasks_in(tasks@, container_id@, i as int).len(),
            forall|k: int| 0 <= k < out@.len() ==> same_task(#[trigger] out@[k], subtasks_in(tasks@, container_id@, i as int)[k]),
        decreases tasks.len() - i,
    {
        let in_c = match &tasks[i].project_id {
            Some(p) => *p == *container_id,
            None => false,
        };
        if in_c {
            out.push(copy_task(&tasks[i]));
        }
        i += 1;
    }
    out
}

/// The subtasks of `task_id`'s container, each moved to
/// `target_project_id`, and the container's id; nothing when the task is
/// missing or has no container.
pub fn subtasks_to_reassign_and_container_to_remove(
    tasks: &[Task],
    task_id: &str,
    target_project_id: &str,
) -> (r: (Vec<Task>, Option<String>))
    ensures
        opt_view(r.1) == container_of(tasks@, task_id@),
        match container_of(tasks@, task_id@) {
            None => r.0@.len() == 0,
            Some(c) => {
                let subs = subtasks_in(tasks@, c, tasks@.len() as int);
                &&& r.0@.len() == subs.len()
                &&& forall|k: int| 0 <= k < subs.len() ==> {
                    let (u, t) = (#[trigger] r.0@[k], subs[k]);
                    opt_view(u.project_id) == Some(target_project_id@)
                        && same_task(u, Task { project_id: u.project_id, ..t })
                }
            },
        },
{
    let i = match find_task_index(tasks, task_id) {
        None => return (Vec::new(), None),
        Some(i) => i,
    };
    let container_id = match &tasks[i].subtask_project_id {
        None => return (Vec::new(), None),
        Some(c) => c,
    };
    let subs = subtasks_of(tasks, container_id);
    let mut out: Vec<Task> = Vec::new();
    let mut j: usize = 0;
    while j < subs.len()
        invariant
            j <= subs@.len(),
            out@.len() == j,
            forall|k: int| 0 <= k < j ==> {
                let (u, t) = (#[trigger] out@[k], subs@[k]);
                opt_view(u.project_id) == Some(target_project_id@)
                    && same_task(u, Task { project_id: u.project_id, ..t })
            },
        decreases subs.len() - j,
    {
        let mut u = copy_task(&subs[j]);
        u.project_id = Some(owned(target_project_id));
        out.push(u);
        j += 1;
    }
    (out, Some(copy_string(container_id)))
}

/// The subtasks of `task_id`'s container and the container project itself
/// (when it exists): what deleting the task also deletes.
pub fn subtasks_and_container_to_delete(
    tasks: &[Task],
    projects: &[Project],
    task_id: &str,
) -> (r: (Vec<Task>, Option<Project>))
    ensures
        match container_of(tasks@, task_id@) {
            None => r.0@.len() == 0 && r.1 is None,
            Some(c) => {
                let subs = subtasks_in(tasks@, c, tasks@.len() as int);
                &&& r.0@.len() == subs.len()
                &&& forall|k: int| 0 <= k < subs.len() ==> same_task(#[trigger] r.0@[k], subs[k])
                &&& match crate::project_tree::find_project(projects@, c) {
                    None => r.1 is None,
                    Some(j) => r.1 matches Some(p) && p.id == projects@[j].id,
                }
            },
        },
{
    let i = match find_task_index(tasks, task_id) {
        None => return (Vec::new(), None),
        Some(i) => i,
    };
    let container_id = match &tasks[i].subtask_project_id {
        None => return (Vec::new(), None),
        Some(c) => c,
    };
    let subs = subtasks_of(tasks, container_id);
    let container = match find_project(projects, container_id.as_str()) {
        None => None,
        Some(p) => Some(copy_project(p)),
    };
    (subs, container)
}

/// Whether some task other than `deleted_id` is in container `c`.
pub open spec fn others_remain(tasks: Seq<Task>, c: Seq<char>, deleted_id: Seq<char>) -> bool {
    exists|i: int| 0 <= i < tasks.len() && (#[trigger] tasks[i]).id@ != deleted_id && in_container(tasks[i], c)
}

/// The first task owning container `c`, if any.
pub open spec fn is_first_owner(tasks: Seq<Task>, c: Seq<char>, i: int) -> bool {
    &&& 0 <= i < tasks.len()
    &&& opt_view(tasks[i].subtask_project_id) == Some(c)
    &&& forall|k: int| 0 <= k < i ==> opt_view((#[trigger] tasks[k]).subtask_project_id) != Some(c)
}

fn first_owner_index(tasks: &[Task], c: &str) -> (r: Option<usize>)
    ensures
        match r {
            Some(j) => is_first_owner(tasks@, c@, j as int),
            None => forall|k: int| 0 <= k < tasks@.len() ==> opt_view((#[trigger] tasks@[k]).subtask_project_id) != Some(c@),
        },
{
    let mut i: usize = 0;
    while i < tasks.len()
        invariant
            i <= tasks@.len(),
            forall|k: int| 0 <= k < i ==> opt_view((#[trigger] tasks@[k]).subtask_project_id) != Some(c@),
        decreases tasks.len() - i,
    {
        let owns = match &tasks[i].subtask_project_id {
            Some(x) => str_eq(x.as_str(), c),
            None => false,
        };
        if owns {
            return Some(i);
        }
        i += 1;
    }
    None
}

/// The owner of a container that deleting `deleted_task_id` leaves
/// empty: the first task owning `deleted_task_project_id`, when no other
/// task remains in it.
pub fn owning_task_if_container_now_empty<'a>(
    tasks: &'a [Task],
    deleted_task_project_id: &str,
    deleted_task_id: &str,
) -> (r: Option<&'a Task>)
    ensures
        match r {
            Some(t) => exists|i: int| is_first_owner(tasks@, deleted_task_project_id@, i) && *t == tasks@[i]
                && !others_remain(tasks@, deleted_task_project_id@, deleted_task_id@),
            None => !(exists|i: int| is_first_owner(tasks@, deleted_task_project_id@, i))
                || others_remain(tasks@, deleted_task_project_id@, deleted_task_id@),
        },
{
    let owner = first_owner_index(tasks, deleted_task_project_id);
    let j = match owner {
        None => return None,
        Some(j) => j,
    };
    let mut k: usize = 0;
    while k < tasks.len()
        invariant
            k <= tasks@.len(),
            forall|q: int| 0 <= q < k ==> !((#[trigger] tasks@[q]).id@ != deleted_task_id@ && in_container(tasks@[q], deleted_task_project_id@)),
        decreases tasks.len() - k,
    {
        let in_c = match &tasks[k].project_id {
            Some(p) => str_eq(p.as_str(), deleted_task_project_id),
            None => false,
        };
        if in_c && !str_eq(tasks[k].id.as_str(), deleted_task_id) {
            return None;
        }
        k += 1;
    }
    Some(&tasks[j])
}

/// Every task set to the done status, except those at the cancelled
/// status, which are kept as they are.
pub fn force_done_except_cancelled(tasks: Vec<Task>, done_status: &str, cancelled_status: Option<&str>) -> (r: Vec<Task>)
    ensures
        r@.len() == tasks@.len(),
        forall|k: int| 0 <= k < tasks@.len() ==> {
            let (u, t) = (#[trigger] r@[k], tasks@[k]);
            if opt_str_view(cancelled_status) == Some(t.status@) {
                u == t
            } else {
                u.status@ == done_status@ && u == Task { status: u.status, ..t }
            }
        },
{
    let mut out: Vec<Task> = Vec::new();
    let mut rest = tasks;
    let ghost initial = rest@;
    let n = rest.len();
    while rest.len() > 0
        invariant
            n == initial.len(),
            out@.len() + rest@.len() == n,
            rest@ == initial.subrange(out@.len() as int, n as int),
            forall|k: int| 0 <= k < out@.len() ==> {
                let (u, t) = (#[trigger] out@[k], initial[k]);
                if opt_str_view(cancelled_status) == Some(t.status@) {
                    u == t
                } else {
                    u.status@ == done_status@ && u == Task { status: u.status, ..t }
                }
            },
        decreases rest.len(),
    {
        let ghost before = rest@;
        let mut t = rest.remove(0);
        proof {
            assert(rest@ =~= initial.subrange(out@.len() as int + 1, n as int));
        }
        let keep = match cancelled_status {
            Some(c) => str_eq(t.status.as_str(), c),
            None => false,
        };
        if !keep {
            t.status = owned(done_status);
        }
        out.push(t);
    }
    out
}

} // verus!

verus! {

// ----- series templates and occurrences -----

/// Copies a task's template fields (title, project, priority, tags,
/// estimate, notes) onto its series.
pub fn apply_series_template_update(series: &mut crate::series::Series, task: &Task)
    ensures
        final(series).title == task.title,
        final(series).project_id == task.project_id,
        final(series).priority == task.priority,
        final(series).tags@ == task.tags@,
        final(series).estimated_minutes == task.estimated_minutes,
        final(series).notes == task.notes,
        final(series).id == old(series).id,
        final(series).frequency == old(series).frequency,
        final(series).anchor_date == old(series).anchor_date,
        final(series).end_date == old(series).end_date,
        final(series).due_rule == old(series).due_rule,
        final(series).generated_until == old(series).generated_until,
        final(series).active == old(series).active,
        final(series).created == old(series).created,
{
    series.title = copy_string(&task.title);
    series.project_id = copy_opt_string(&task.project_id);
    series.priority = copy_string(&task.priority);
    series.tags = copy_strings(&task.tags);
    series.estimated_minutes = task.estimated_minutes;
    series.notes = copy_string(&task.notes);
}

/// Copies a task's template fields onto another occurrence, leaving the
/// occurrence's status and dates alone.
pub fn apply_template_to_occurrence(occurrence: &mut Task, task: &Task)
    ensures
        final(occurrence).title == task.title,
        final(occurrence).project_id == task.project_id,
        final(occurrence).priority == task.priority,
        final(occurrence).tags@ == task.tags@,
        final(occurrence).estimated_minutes == task.estimated_minutes,
        final(occurrence).notes == task.notes,
        final(occurrence).id == old(occurrence).id,
        final(occurrence).status == old(occurrence).status,
        final(occurrence).due == old(occurrence).due,
        final(occurrence).scheduled == old(occurrence).scheduled,
        final(occurrence).series_id == old(occurrence).series_id,
        final(occurrence).created == old(occurrence).created,
        final(occurrence).tracked_minutes == old(occurrence).tracked_minutes,
        final(occurrence).depends_on == old(occurrence).depends_on,
        final(occurrence).order == old(occurrence).order,
        final(occurrence).subtask_project_id == old(occurrence).subtask_project_id,
        final(occurrence).hidden == old(occurrence).hidden,
        final(occurrence).completed_at == old(occurrence).completed_at,
        final(occurrence).cancelled_at == old(occurrence).cancelled_at,
{
    occurrence.title = copy_string(&task.title);
    occurrence.project_id = copy_opt_string(&task.project_id);
    occurrence.priority = copy_string(&task.priority);
    occurrence.tags = copy_strings(&task.tags);
    occurrence.estimated_minutes = task.estimated_minutes;
    occurrence.notes = copy_string(&task.notes);
}

/// Whether `a` sorts before `b`, comparing characters from position `i` on
/// (string order: by code point, a proper prefix first).
pub open spec fn lex_less_from(a: Seq<char>, b: Seq<char>, i: int) -> bool
    decreases a.len() - i,
{
    if i < 0 {
        false
    } else if i >= a.len() {
        i < b.len()
    } else if i >= b.len() {
        false
    } else if a[i] != b[i] {
        (a[i] as u32) < (b[i] as u32)
    } else {
        lex_less_from(a, b, i + 1)
    }
}

/// Whether `a` sorts before `b` in string order.
pub open spec fn lex_less(a: Seq<char>, b: Seq<char>) -> bool {
    lex_less_from(a, b, 0)
}

/// Whether `a` sorts before `b` in string order (as `str`'s `<`).
pub fn str_less(a: &str, b: &str) -> (r: bool)
    ensures
        r == lex_less(a@, b@),
{
    let n = a.unicode_len();
    let m = b.unicode_len();
    let mut i: usize = 0;
    while i < n && i < m
        invariant
            n == a@.len(),
            m == b@.len(),
            i <= n,
            i <= m,
            lex_less(a@, b@) == lex_less_from(a@, b@, i as int),
        decreases n - i,
    {
        let x = a.get_char(i);
        let y = b.get_char(i);
        if x != y {
            return (x as u32) < (y as u32);
        }
        i += 1;
    }
    i < m && i >= n
}

/// Whether task `t` is an occurrence of `series_id` (other than
/// `exclude`) scheduled on or after `cutoff`.
pub open spec fn is_future_occurrence(t: Task, series_id: Seq<char>, exclude: Option<Seq<char>>, cutoff: Seq<char>) -> bool {
    &&& (exclude matches Some(x) ==> t.id@ != x)
    &&& opt_view(t.series_id) == Some(series_id)
    &&& t.scheduled is Some && !lex_less(t.scheduled->0@, cutoff)
}

/// The future occurrences among `tasks[0..upto]`, in order.
pub open spec fn future_occurrences_upto(tasks: Seq<Task>, series_id: Seq<char>, exclude: Option<Seq<char>>, cutoff: Seq<char>, upto: int) -> Seq<Task>
    decreases upto,
{
    if upto <= 0 {
        Seq::empty()
    } else {
        let rest = future_occurrences_upto(tasks, series_id, exclude, cutoff, upto - 1);
        if is_future_occurrence(tasks[upto - 1], series_id, exclude, cutoff) { rest.push(tasks[upto - 1]) } else { rest }
    }
}

pub open spec fn task_refs_view(v: Seq<&Task>) -> Seq<Task> {
    v.map_values(|t: &Task| *t)
}

/// The occurrences of `series_id` (other than `exclude_id`) whose
/// scheduled date is on or after `cutoff` in string order, in order; a task
/// without a scheduled date never qualifies.
pub fn future_occurrences<'a>(
    all_tasks: &'a [Task],
    series_id: &str,
    exclude_id: Option<&str>,
    cutoff: &str,
) -> (r: Vec<&'a Task>)
    ensures
        task_refs_view(r@) == future_occurrences_upto(all_tasks@, series_id@, opt_str_view(exclude_id), cutoff@, all_tasks@.len() as int),
{
    let mut out: Vec<&'a Task> = Vec::new();
    let mut i: usize = 0;
    while i < all_tasks.len()
        invariant
            i <= all_tasks@.len(),
            task_refs_view(out@) == future_occurrences_upto(all_tasks@, series_id@, opt_str_view(exclude_id), cutoff@, i as int),
        decreases all_tasks.len() - i,
    {
        let t = &all_tasks[i];
        let not_excluded = match exclude_id {
            Some(x) => !str_eq(t.id.as_str(), x),
            None => true,
        };
        let in_series = match &t.series_id {
            Some(s) => str_eq(s.as_str(), series_id),
            None => false,
        };
        let on_or_after = match &t.scheduled {
            Some(s) => !str_less(s.as_str(), cutoff),
            None => false,
        };
        if not_excluded && in_series && on_or_after {
            out.push(t);
        }
        proof {
            assert(task_refs_view(out@) =~= future_occurrences_upto(all_tasks@, series_id@, opt_str_view(exclude_id), cutoff@, i + 1));
        }
        i += 1;
    }
    out
}

/// `acc` with `x` appended unless already present.
pub open spec fn push_unique(acc: Seq<Seq<char>>, x: Seq<char>) -> Seq<Seq<char>> {
    if acc.contains(x) { acc } else { acc.push(x) }
}

/// `acc` extended, in task order, with the series ids of the recurring
/// subtasks in container `c` among `tasks[0..upto]`.
pub open spec fn subtask_series_ids(acc: Seq<Seq<char>>, tasks: Seq<Task>, c: Seq<char>, upto: int) -> Seq<Seq<char>>
    decreases upto,
{
    if upto <= 0 {
        acc
    } else {
        let a = subtask_series_ids(acc, tasks, c, upto - 1);
        let t = tasks[upto - 1];
        if in_container(t, c) && t.series_id is Some { push_unique(a, t.series_id->0@) } else { a }
    }
}

/// The series ids of recurring subtasks of every occurrence (among
/// `tasks[0..upto]`) of `parent`, each once, in discovery order.
pub open spec fn linked_ids_upto(tasks: Seq<Task>, parent: Seq<char>, upto: int) -> Seq<Seq<char>>
    decreases upto,
{
    if upto <= 0 {
        Seq::empty()
    } else {
        let a = linked_ids_upto(tasks, parent, upto - 1);
        let o = tasks[upto - 1];
        if opt_view(o.series_id) == Some(parent) && o.subtask_project_id is Some {
            subtask_series_ids(a, tasks, o.subtask_project_id->0@, tasks.len() as int)
        } else {
            a
        }
    }
}

/// Every series id of a recurring subtask of any occurrence of
/// `parent_series_id`, each once, in discovery order.
pub fn linked_subtask_series_ids(tasks: &[Task], parent_series_id: &str) -> (r: Vec<String>)
    ensures
        string_views(r@) == linked_ids_upto(tasks@, parent_series_id@, tasks@.len() as int),
{
    let mut ids: Vec<String> = Vec::new();
    let mut i: usize = 0;
    while i < tasks.len()
        invariant
            i <= tasks@.len(),
            string_views(ids@) == linked_ids_upto(tasks@, parent_series_id@, i as int),
        decreases tasks.len() - i,
    {
        let o = &tasks[i];
        let is_occurrence = match &o.series_id {
            Some(s) => str_eq(s.as_str(), parent_series_id),
            None => false,
        };
        if is_occurrence {
            if let Some(container_id) = &o.subtask_project_id {
                let ghost start = string_views(ids@);
                let mut j: usize = 0;
                while j < tasks.len()
                    invariant
                        j <= tasks@.len(),
                        string_views(ids@) == subtask_series_ids(start, tasks@, container_id@, j as int),
                    decreases tasks.len() - j,
                {
                    let t = &tasks[j];
                    let in_c = match &t.project_id {
                        Some(p) => *p == *container_id,
                        None => false,
                    };
                    if in_c {
                        if let Some(sid) = &t.series_id {
                            let ghost before = string_views(ids@);
                            let present = vec_contains_str(&ids, sid.as_str());
                            proof {
                                if present {
                                    let k = choose|k: int| 0 <= k < ids@.len() && (#[trigger] ids@[k])@ == sid@;
                                    assert(before[k] == sid@);
                                } else {
                                    assert forall|k: int| 0 <= k < before.len() implies before[k] != sid@ by {
                                        assert(before[k] == ids@[k]@);
                                    }
                                }
                            }
                            if !present {
                                let ghost raw = ids@;
                                ids.push(copy_string(sid));
                                proof {
                                    assert(string_views(ids@) =~= string_views(raw).push(sid@));
                                }
                            }
                        }
                    }
                    j += 1;
                }
            }
        }
        i += 1;
    }
    ids
}

} // verus!

verus! {

// ----- projects -----

/// The largest `order` among the projects, if any.
pub open spec fn max_order(ps: Seq<Project>) -> Option<i64>
    decreases ps.len(),
{
    if ps.len() == 0 {
        None
    } else {
        match max_order(ps.drop_last()) {
            None => Some(ps.last().order),
            Some(m) => if ps.last().order > m { Some(ps.last().order) } else { Some(m) },
        }
    }
}

/// Whether every project's order has a successor in `i64`.
pub open spec fn orders_below_max(ps: Seq<Project>) -> bool {
    forall|i: int| 0 <= i < ps.len() ==> (#[trigger] ps[i]).order < i64::MAX
}

proof fn lemma_max_order_member(ps: Seq<Project>)
    ensures
        max_order(ps) matches Some(m) ==> exists|i: int| 0 <= i < ps.len() && (#[trigger] ps[i]).order == m,
    decreases ps.len(),
{
    if ps.len() > 0 {
        lemma_max_order_member(ps.drop_last());
        if let Some(m) = max_order(ps.drop_last()) {
            if ps.last().order <= m {
                let i = choose|i: int| 0 <= i < ps.drop_last().len() && (#[trigger] ps.drop_last()[i]).order == m;
                assert(ps[i] == ps.drop_last()[i]);
            }
        }
    }
}

/// One past the largest project order, or `1` when there are none.
pub open spec fn next_order_spec(ps: Seq<Project>) -> int {
    match max_order(ps) {
        None => 1,
        Some(m) => m + 1,
    }
}

/// The order for a new project: one past the largest, or `1`.
pub fn next_order(projects: &[Project]) -> (r: i64)
    requires
        orders_below_max(projects@),
    ensures
        r == next_order_spec(projects@),
{
    let mut best: Option<i64> = None;
    let mut i: usize = 0;
    while i < projects.len()
        invariant
            i <= projects@.len(),
            best == max_order(projects@.subrange(0, i as int)),
        decreases projects.len() - i,
    {
        proof {
            assert(projects@.subrange(0, i + 1).drop_last() == projects@.subrange(0, i as int));
        }
        let o = projects[i].order;
        best = match best {
            None => Some(o),
            Some(m) => if o > m { Some(o) } else { Some(m) },
        };
        i += 1;
    }
    assert(projects@.subrange(0, i as int) == projects@);
    proof {
        lemma_max_order_member(projects@);
    }
    match best {
        None => 1,
        Some(m) => m + 1,
    }
}

/// Whether some project has id `id`.
pub open spec fn has_project(ps: Seq<Project>, id: Seq<char>) -> bool {
    exists|i: int| 0 <= i < ps.len() && (#[trigger] ps[i]).id@ == id
}

fn any_project_with_id(projects: &[Project], id: &str) -> (r: bool)
    ensures
        r == has_project(projects@, id@),
{
    let mut i: usize = 0;
    while i < projects.len()
        invariant
            i <= projects@.len(),
            forall|k: int| 0 <= k < i ==> (#[trigger] projects@[k]).id@ != id@,
        decreases projects.len() - i,
    {
        if str_eq(projects[i].id.as_str(), id) {
            return true;
        }
        i += 1;
    }
    false
}

/// Makes sure the default project exists: when `settings.default_project_id`
/// names no project, adds a top-level "General" project (default color,
/// next order) and points the settings at it; `None` when nothing changed.
pub fn ensure_default_project(projects: Vec<Project>, settings: Settings) -> (r: Option<(Vec<Project>, Settings)>)
    requires
        orders_below_max(projects@),
    ensures
        has_project(projects@, settings.default_project_id@) <==> r is None,
        r matches Some((ps, s)) ==> {
            &&& ps@.len() == projects@.len() + 1
            &&& ps@.subrange(0, projects@.len() as int) == projects@
            &&& {
                let p = ps@[projects@.len() as int];
                &&& p.name@ == "General"@
                &&& p.color@ == default_project_color()
                &&& p.order == next_order_spec(projects@)
                &&& p.parent_id is None
                &&& p.id@.len() > 0 && p.created@.len() > 0
                &&& crate::project::is_empty_board(p.board)
                &&& crate::project::is_empty_defaults(p.defaults)
                &&& p.tracking_task_id is None
                &&& s.default_project_id == p.id
            }
            &&& s == Settings { default_project_id: s.default_project_id, ..settings }
        },
{
    if any_project_with_id(projects.as_slice(), settings.default_project_id.as_str()) {
        return None;
    }
    let mut projects = projects;
    let mut settings = settings;
    let order = next_order(projects.as_slice());
    let project = Project::new(owned("General"), owned("#3b82f6"), order);
    settings.default_project_id = copy_string(&project.id);
    projects.push(project);
    Some((projects, settings))
}

/// Whether `c` is an ASCII hexadecimal digit.
pub open spec fn is_hex_digit(c: char) -> bool {
    ('0' <= c <= '9') || ('a' <= c <= 'f') || ('A' <= c <= 'F')
}

/// Whether `s` is `#` followed by exactly six hexadecimal digits.
pub open spec fn is_hex_color(s: Seq<char>) -> bool {
    s.len() == 7 && s[0] == '#' && forall|i: int| 1 <= i < 7 ==> is_hex_digit(#[trigger] s[i])
}

pub open spec fn hex_color_error(s: Seq<char>) -> Seq<char> {
    "'"@ + s + "' is not a valid hex color (expected #RRGGBB)"@
}

/// `Ok` exactly for a `#RRGGBB` color (hex digits in either case).
pub fn validate_hex_color(color: &str) -> (r: Result<(), String>)
    ensures
        r is Ok <==> is_hex_color(color@),
        r matches Err(e) ==> e@ == hex_color_error(color@),
{
    let n = color.unicode_len();
    let mut ok = n == 7 && color.get_char(0) == '#';
    if ok {
        let mut i: usize = 1;
        while i < 7
            invariant
                n == color@.len(),
                n == 7,
                1 <= i <= 7,
                ok == forall|k: int| 1 <= k < i ==> is_hex_digit(#[trigger] color@[k]),
            decreases 7 - i,
        {
            let c = color.get_char(i);
            let hex = ('0' <= c && c <= '9') || ('a' <= c && c <= 'f') || ('A' <= c && c <= 'F');
            ok = ok && hex;
            i += 1;
        }
    }
    if ok {
        Ok(())
    } else {
        Err(concat3("'", color, "' is not a valid hex color (expected #RRGGBB)"))
    }
}

/// The color of a new project: the given one when it is a hex color (an
/// error otherwise), else the default color.
pub fn resolve_project_color(color: Option<String>) -> (r: Result<String, String>)
    ensures
        match color {
            None => r matches Ok(c) && c@ == default_project_color(),
            Some(c) => if is_hex_color(c@) {
                r == Ok::<String, String>(c)
            } else {
                r matches Err(e) && e@ == hex_color_error(c@)
            },
        },
{
    match color {
        Some(c) => {
            match validate_hex_color(c.as_str()) {
                Ok(()) => Ok(c),
                Err(e) => Err(e),
            }
        },
        None => Ok(owned("#3b82f6")),
    }
}

/// The problem with nesting a project under `parent`: a parent that names
/// no project, or (for an existing project `moving`) a parent that is the
/// project itself or one of its descendants.
pub open spec fn parent_problem(ps: Seq<Project>, parent: Option<Seq<char>>, moving: Option<Seq<char>>) -> Option<Seq<char>> {
    match parent {
        None => None,
        Some(p) => if !has_project(ps, p) {
            Some("parent project '"@ + p + "' not found"@)
        } else if moving matches Some(m) && (m == p || crate::project_tree::has_descendant_with_id(ps, m, p)) {
            Some("cannot move a project under itself or one of its own subprojects"@)
        } else {
            None
        },
    }
}

/// Checks a requested parent (see [`parent_problem`]).
pub fn validate_parent_id(projects: &[Project], parent_id: Option<&str>, moving_id: Option<&str>) -> (r: Result<(), String>)
    ensures
        err_text(r) == parent_problem(projects@, opt_str_view(parent_id), opt_str_view(moving_id)),
{
    let parent_id = match parent_id {
        None => return Ok(()),
        Some(p) => p,
    };
    if !any_project_with_id(projects, parent_id) {
        return Err(concat3("parent project '", parent_id, "' not found"));
    }
    if let Some(moving_id) = moving_id {
        if crate::project_tree::would_create_cycle(projects, moving_id, parent_id) {
            return Err(owned("cannot move a project under itself or one of its own subprojects"));
        }
    }
    Ok(())
}

pub open spec fn err_text<T>(r: Result<T, String>) -> Option<Seq<char>> {
    match r {
        Ok(_) => None,
        Err(e) => Some(e@),
    }
}

/// Returns the task's subtask container, creating it when the task has
/// none (or its container no longer exists): a project named after the
/// task, nested under and colored like the task's project (default color
/// when that project is missing), with the next order, appended to
/// `projects`, and recorded on the task.
pub fn get_or_create_subtask_container(task: &mut Task, projects: &mut Vec<Project>) -> (r: Project)
    requires
        orders_below_max(old(projects)@),
    ensures
        match old(task).subtask_project_id {
            Some(c) if has_project(old(projects)@, c@) => {
                &&& final(projects)@ == old(projects)@
                &&& *final(task) == *old(task)
                &&& r.id@ == c@
                &&& same_project(r, old(projects)@[crate::project_tree::find_project(old(projects)@, c@)->0])
            },
            _ => {
                &&& final(projects)@.len() == old(projects)@.len() + 1
                &&& final(projects)@.subrange(0, old(projects)@.len() as int) == old(projects)@
                &&& same_project(final(projects)@.last(), r)
                &&& r.id@.len() > 0 && r.created@.len() > 0
                &&& crate::project::is_empty_board(r.board)
                &&& crate::project::is_empty_defaults(r.defaults)
                &&& r.tracking_task_id is None
                &&& r.name == old(task).title
                &&& r.parent_id == old(task).project_id
                &&& r.order == next_order_spec(old(projects)@)
                &&& r.color@ == (match old(task).project_id {
                    Some(pid) => match crate::project_tree::find_project(old(projects)@, pid@) {
                        Some(i) => old(projects)@[i].color@,
                        None => default_project_color(),
                    },
                    None => default_project_color(),
                })
                &&& final(task).subtask_project_id == Some(r.id)
                &&& *final(task) == Task { subtask_project_id: final(task).subtask_project_id, ..*old(task) }
            },
        },
{
    if let Some(container_id) = &task.subtask_project_id {
        if let Some(i) = crate::project_tree::find_project_index(projects.as_slice(), container_id.as_str()) {
            let existing = copy_project(&projects[i]);
            return existing;
        }
    }
    let parent_color = match &task.project_id {
        Some(pid) => match find_project(projects.as_slice(), pid.as_str()) {
            Some(p) => Some(copy_string(&p.color)),
            None => None,
        },
        None => None,
    };
    let color = match parent_color {
        Some(c) => c,
        None => owned("#3b82f6"),
    };
    let order = next_order(projects.as_slice());
    let mut container = Project::new(copy_string(&task.title), color, order);
    container.parent_id = copy_opt_string(&task.project_id);
    let result = copy_project(&container);
    task.subtask_project_id = Some(copy_string(&container.id));
    projects.push(container);
    result
}

} // verus!

verus! {

/// The first id of `ids[i..]` that names no status.
pub open spec fn first_unknown_status(s: Settings, ids: Seq<String>, i: int) -> Option<Seq<char>>
    decreases ids.len() - i,
{
    if i < 0 || i >= ids.len() {
        None
    } else if !has_status(s, ids[i]@) {
        Some(ids[i]@)
    } else {
        first_unknown_status(s, ids, i + 1)
    }
}

/// Whether another project than `index` already has `name` (ignoring
/// ASCII case).
pub open spec fn name_taken(ps: Seq<Project>, index: int, name: Seq<char>) -> bool {
    exists|i: int| 0 <= i < ps.len() && i != index
        && crate::text::eq_ignore_ascii_case_spec((#[trigger] ps[i]).name@, name)
}

pub open spec fn name_taken_error(name: Seq<char>) -> Seq<char> {
    "a project named '"@ + name + "' already exists"@
}

/// The first problem with applying `u` to project `index`, in the order
/// the checks run; `lightness` is the outcome of checking the board's two
/// lightness overrides.
pub open spec fn project_update_problem(
    ps: Seq<Project>,
    index: int,
    u: Project,
    s: Settings,
    lightness: Option<Seq<char>>,
) -> Option<Seq<char>> {
    let name = crate::text::trimmed(u.name@);
    if name.len() == 0 {
        Some("project name must not be empty"@)
    } else if name_taken(ps, index, name) {
        Some(name_taken_error(name))
    } else if first_unknown_status(s, u.board.statuses@, 0) is Some {
        Some(crate::settings::status_error(first_unknown_status(s, u.board.statuses@, 0)->0))
    } else if u.board.default_status is Some && !has_status(s, u.board.default_status->0@) {
        Some(crate::settings::status_error(u.board.default_status->0@))
    } else if u.defaults.status is Some && !has_status(s, u.defaults.status->0@) {
        Some(crate::settings::status_error(u.defaults.status->0@))
    } else if u.defaults.priority is Some && !has_priority(s, u.defaults.priority->0@) {
        Some(crate::settings::priority_error(u.defaults.priority->0@))
    } else if u.defaults.due is Some && !crate::settings::due_relative_date_codes().contains(u.defaults.due->0@) {
        Some(crate::settings::due_code_error(u.defaults.due->0@))
    } else if u.defaults.scheduled is Some
        && !crate::settings::scheduled_relative_date_codes().contains(u.defaults.scheduled->0@) {
        Some(crate::settings::scheduled_code_error(u.defaults.scheduled->0@))
    } else if lightness is Some {
        lightness
    } else if u.board.ink_mode is Some && !crate::settings::ink_modes().contains(u.board.ink_mode->0@) {
        Some(crate::settings::ink_mode_error(u.board.ink_mode->0@))
    } else if u.board.status_tier_rule_overrides is Some && u.board.status_tier_rule_overrides->0@.len() != 4 {
        Some(crate::status_tier::overrides_count_error(u.board.status_tier_rule_overrides->0@.len()))
    } else if u.color@ != ps[index].color@ && !is_hex_color(u.color@) {
        Some(hex_color_error(u.color@))
    } else {
        parent_problem(ps, opt_view(u.parent_id), Some(ps[index].id@))
    }
}

fn name_taken_by_other(projects: &[Project], index: usize, name: &str) -> (r: bool)
    ensures
        r == name_taken(projects@, index as int, name@),
{
    let mut i: usize = 0;
    while i < projects.len()
        invariant
            i <= projects@.len(),
            forall|k: int| 0 <= k < i && k != index ==> !crate::text::eq_ignore_ascii_case_spec((#[trigger] projects@[k]).name@, name@),
        decreases projects.len() - i,
    {
        if i != index && crate::text::eq_ignore_ascii_case(projects[i].name.as_str(), name) {
            return true;
        }
        i += 1;
    }
    false
}

fn check_statuses(settings: &Settings, ids: &Vec<String>) -> (r: Result<(), String>)
    ensures
        err_text(r) == (match first_unknown_status(*settings, ids@, 0) {
            Some(id) => Some(crate::settings::status_error(id)),
            None => None,
        }),
{
    let mut i: usize = 0;
    while i < ids.len()
        invariant
            i <= ids@.len(),
            first_unknown_status(*settings, ids@, 0) == first_unknown_status(*settings, ids@, i as int),
        decreases ids.len() - i,
    {
        validate_status_id(settings, ids[i].as_str())?;
        i += 1;
    }
    Ok(())
}

/// Applies an edit to the project at `index`, keeping its id, creation
/// time and tracking task: a trimmed, non-empty name unique among the other
/// projects (ignoring ASCII case), defined status and priority ids,
/// recognized date codes and ink mode, one tier-override slot per tier, a
/// hex color when the color changes, and a valid parent (see
/// [`project_update_problem`]). `lightness_check` is the outcome of
/// checking the two lightness overrides. On error nothing changes.
pub fn apply_project_update(
    projects: &mut Vec<Project>,
    index: usize,
    update: Project,
    settings: &Settings,
    lightness_check: Result<(), String>,
) -> (r: Result<Project, String>)
    requires
        index < old(projects)@.len(),
    ensures
        err_text(r) == project_update_problem(old(projects)@, index as int, update, *settings, err_text(lightness_check)),
        r is Err ==> final(projects)@ == old(projects)@,
        r matches Ok(p) ==> {
            let before = old(projects)@[index as int];
            &&& final(projects)@.len() == old(projects)@.len()
            &&& forall|i: int| 0 <= i < old(projects)@.len() && i != index ==> final(projects)@[i] == old(projects)@[i]
            &&& same_project(final(projects)@[index as int], p)
            &&& p.id == before.id && p.created == before.created && p.tracking_task_id == before.tracking_task_id
            &&& p.name@ == crate::text::trimmed(update.name@)
            &&& p.color == update.color && p.parent_id == update.parent_id && p.order == update.order
            &&& p.board == update.board
            &&& p.defaults == update.defaults
        },
{
    let name = crate::text::trim(update.name.as_str());
    if name.as_str().unicode_len() == 0 {
        return Err(owned("project name must not be empty"));
    }
    if name_taken_by_other(projects.as_slice(), index, name.as_str()) {
        return Err(concat3("a project named '", name.as_str(), "' already exists"));
    }
    check_statuses(settings, &update.board.statuses)?;
    if let Some(id) = &update.board.default_status {
        validate_status_id(settings, id.as_str())?;
    }
    if let Some(id) = &update.defaults.status {
        validate_status_id(settings, id.as_str())?;
    }
    if let Some(id) = &update.defaults.priority {
        validate_priority_id(settings, id.as_str())?;
    }
    if let Some(code) = &update.defaults.due {
        crate::settings::validate_due_relative_date_code(code.as_str())?;
    }
    if let Some(code) = &update.defaults.scheduled {
        crate::settings::validate_scheduled_relative_date_code(code.as_str())?;
    }
    lightness_check?;
    if let Some(mode) = &update.board.ink_mode {
        crate::settings::validate_ink_mode(mode.as_str())?;
    }
    if let Some(overrides) = &update.board.status_tier_rule_overrides {
        crate::status_tier::validate_status_tier_rule_overrides(overrides.as_slice())?;
    }
    if !str_eq(update.color.as_str(), projects[index].color.as_str()) {
        validate_hex_color(update.color.as_str())?;
    }
    let existing_id = copy_string(&projects[index].id);
    validate_parent_id(projects.as_slice(), opt_as_str(&update.parent_id), Some(existing_id.as_str()))?;
    let updated = Project {
        id: existing_id,
        name,
        color: update.color,
        parent_id: update.parent_id,
        order: update.order,
        created: copy_string(&projects[index].created),
        board: update.board,
        defaults: update.defaults,
        tracking_task_id: copy_opt_string(&projects[index].tracking_task_id),
    };
    let stored = copy_project(&updated);
    projects.set(index, stored);
    Ok(updated)
}

fn opt_as_str(o: &Option<String>) -> (r: Option<&str>)
    ensures
        opt_str_view(r) == opt_view(*o),
{
    match o {
        Some(s) => Some(s.as_str()),
        None => None,
    }
}

pub open spec fn default_project_error(name: Seq<char>) -> Seq<char> {
    "'"@ + name + "' is the default project and cannot be deleted"@
}

/// `Err` exactly when `project` is the default project.
pub fn ensure_not_default_project(project: &Project, settings: &Settings) -> (r: Result<(), String>)
    ensures
        r is Err <==> project.id@ == settings.default_project_id@,
        r matches Err(e) ==> e@ == default_project_error(project.name@),
{
    if str_eq(project.id.as_str(), settings.default_project_id.as_str()) {
        Err(concat3("'", project.name.as_str(), "' is the default project and cannot be deleted"))
    } else {
        Ok(())
    }
}

/// Whether `t` is filed under one of `ids`.
pub open spec fn filed_under(t: Task, ids: Seq<Seq<char>>) -> bool {
    t.project_id is Some && ids.contains(t.project_id->0@)
}

/// The tasks among `tasks[0..upto]` filed under one of `ids`, in order.
pub open spec fn tasks_filed_under(tasks: Seq<Task>, ids: Seq<Seq<char>>, upto: int) -> Seq<Task>
    decreases upto,
{
    if upto <= 0 {
        Seq::empty()
    } else {
        let rest = tasks_filed_under(tasks, ids, upto - 1);
        if filed_under(tasks[upto - 1], ids) { rest.push(tasks[upto - 1]) } else { rest }
    }
}

/// The tasks filed under any of `project_ids`, in order.
pub fn tasks_for_projects<'a>(tasks: &'a [Task], project_ids: &Vec<String>) -> (r: Vec<&'a Task>)
    ensures
        task_refs_view(r@) == tasks_filed_under(tasks@, string_views(project_ids@), tasks@.len() as int),
{
    let ghost ids = string_views(project_ids@);
    let mut out: Vec<&'a Task> = Vec::new();
    let mut i: usize = 0;
    while i < tasks.len()
        invariant
            ids == string_views(project_ids@),
            i <= tasks@.len(),
            task_refs_view(out@) == tasks_filed_under(tasks@, ids, i as int),
        decreases tasks.len() - i,
    {
        let filed = match &tasks[i].project_id {
            Some(p) => vec_contains_str(project_ids, p.as_str()),
            None => false,
        };
        proof {
            if let Some(p) = tasks@[i as int].project_id {
                if filed {
                    let k = choose|k: int| 0 <= k < project_ids@.len() && (#[trigger] project_ids@[k])@ == p@;
                    assert(ids[k] == p@);
                } else {
                    assert forall|k: int| 0 <= k < ids.len() implies ids[k] != p@ by {
                        assert(ids[k] == project_ids@[k]@);
                    }
                }
            }
        }
        if filed {
            out.push(&tasks[i]);
        }
        proof {
            assert(task_refs_view(out@) =~= tasks_filed_under(tasks@, ids, i + 1));
        }
        i += 1;
    }
    out
}

/// What to do with a deleted project's tasks.
#[derive(Debug, Clone, PartialEq)]
pub enum ProjectTaskStrategy {
    /// Move each task to the project `target_project_id`.
    Reassign { target_project_id: String },
    /// Move each task to the archive.
    Archive,
    /// Delete each task.
    Delete,
}

/// The outcome of deleting a project: how many tasks were handled and how
/// many subprojects went with it.
#[derive(Debug, Clone, PartialEq)]
pub struct DeleteProjectResult {
    pub affected_tasks: usize,
    pub deleted_subprojects: usize,
}

/// The problem with a strategy: reassigning to a project being deleted or
/// to one that does not exist.
pub open spec fn strategy_problem(ps: Seq<Project>, deleted: Seq<Seq<char>>, strategy: ProjectTaskStrategy) -> Option<Seq<char>> {
    match strategy {
        ProjectTaskStrategy::Reassign { target_project_id } => if deleted.contains(target_project_id@) {
            Some("cannot reassign tasks to a project being deleted"@)
        } else if !has_project(ps, target_project_id@) {
            Some("target project '"@ + target_project_id@ + "' not found"@)
        } else {
            None
        },
        _ => None,
    }
}

/// Checks a strategy for the tasks of projects being deleted (see
/// [`strategy_problem`]); for a reassignment, returns the tasks moved to
/// the target project, in order.
pub fn plan_task_strategy(
    projects: &[Project],
    deleted_project_ids: &Vec<String>,
    tasks: &[&Task],
    strategy: &ProjectTaskStrategy,
) -> (r: Result<Vec<Task>, String>)
    ensures
        err_text(r) == strategy_problem(projects@, string_views(deleted_project_ids@), *strategy),
        r matches Ok(moved) ==> match *strategy {
            ProjectTaskStrategy::Reassign { target_project_id } => {
                &&& moved@.len() == tasks@.len()
                &&& forall|k: int| 0 <= k < tasks@.len() ==> {
                    let u = #[trigger] moved@[k];
                    u.project_id == Some(target_project_id) && same_task(u, Task { project_id: u.project_id, ..*tasks@[k] })
                }
            },
            _ => moved@.len() == 0,
        },
{
    match strategy {
        ProjectTaskStrategy::Reassign { target_project_id } => {
            let deleted = vec_contains_str(deleted_project_ids, target_project_id.as_str());
            proof {
                let ids = string_views(deleted_project_ids@);
                if deleted {
                    let k = choose|k: int| 0 <= k < deleted_project_ids@.len() && (#[trigger] deleted_project_ids@[k])@ == target_project_id@;
                    assert(ids[k] == target_project_id@);
                } else {
                    assert forall|k: int| 0 <= k < ids.len() implies ids[k] != target_project_id@ by {
                        assert(ids[k] == deleted_project_ids@[k]@);
                    }
                }
            }
            if deleted {
                return Err(owned("cannot reassign tasks to a project being deleted"));
            }
            if !any_project_with_id(projects, target_project_id.as_str()) {
                return Err(concat3("target project '", target_project_id.as_str(), "' not found"));
            }
            let mut moved: Vec<Task> = Vec::new();
            let mut i: usize = 0;
            while i < tasks.len()
                invariant
                    i <= tasks@.len(),
                    moved@.len() == i,
                    forall|k: int| 0 <= k < i ==> {
                        let u = #[trigger] moved@[k];
                        u.project_id == Some(*target_project_id) && same_task(u, Task { project_id: u.project_id, ..*tasks@[k] })
                    },
                decreases tasks.len() - i,
            {
                let mut u = copy_task(tasks[i]);
                u.project_id = Some(copy_string(target_project_id));
                moved.push(u);
                i += 1;
            }
            Ok(moved)
        },
        _ => Ok(Vec::new()),
    }
}

/// The project `project_id` followed by its descendants; empty when it
/// does not exist.
pub fn projects_to_delete<'a>(projects: &'a [Project], project_id: &str) -> (r: Vec<&'a Project>)
    ensures
        refs_view(r@) == (match crate::project_tree::find_project(projects@, project_id@) {
            None => Seq::empty(),
            Some(i) => seq![projects@[i]]
                + crate::project_tree::descendants_upto(projects@, project_id@, projects@.len() as int),
        }),
{
    let mut out: Vec<&'a Project> = Vec::new();
    let i = match crate::project_tree::find_project_index(projects, project_id) {
        None => return out,
        Some(i) => i,
    };
    out.push(&projects[i]);
    let desc = crate::project_tree::descendants_of(projects, project_id);
    let ghost head = refs_view(out@);
    let mut j: usize = 0;
    while j < desc.len()
        invariant
            j <= desc@.len(),
            refs_view(out@) == head + refs_view(desc@).subrange(0, j as int),
        decreases desc.len() - j,
    {
        let ghost before = out@;
        out.push(desc[j]);
        proof {
            assert(out@ == before.push(desc@[j as int]));
            assert(refs_view(out@) =~= refs_view(before).push(refs_view(desc@)[j as int]));
            assert(refs_view(desc@).subrange(0, j + 1) =~= refs_view(desc@).subrange(0, j as int).push(refs_view(desc@)[j as int]));
        }
        j += 1;
    }
    assert(refs_view(desc@).subrange(0, j as int) == refs_view(desc@));
    out
}

} // verus!

verus! {

// ----- settings against projects, tallies, finishing the day -----

pub open spec fn board_status_in_use_error(id: Seq<char>, project: Seq<char>) -> Seq<char> {
    "cannot remove status '"@ + id + "': still used on project '"@ + project + "' board"@
}

pub open spec fn default_status_in_use_error(id: Seq<char>, project: Seq<char>) -> Seq<char> {
    "cannot remove status '"@ + id + "': still used as the default status for project '"@ + project + "'"@
}

pub open spec fn status_override_in_use_error(id: Seq<char>, project: Seq<char>) -> Seq<char> {
    "cannot remove status '"@ + id + "': still used as a default-status override for project '"@ + project + "'"@
}

pub open spec fn priority_override_in_use_error(id: Seq<char>, project: Seq<char>) -> Seq<char> {
    "cannot remove priority '"@ + id + "': still used as a default-priority override for project '"@ + project + "'"@
}

/// The first reference of project `p` to a status or priority `s` does not
/// define.
pub open spec fn project_reference_problem(s: Settings, p: Project) -> Option<Seq<char>> {
    if first_unknown_status(s, p.board.statuses@, 0) is Some {
        Some(board_status_in_use_error(first_unknown_status(s, p.board.statuses@, 0)->0, p.name@))
    } else if p.board.default_status is Some && !has_status(s, p.board.default_status->0@) {
        Some(default_status_in_use_error(p.board.default_status->0@, p.name@))
    } else if p.defaults.status is Some && !has_status(s, p.defaults.status->0@) {
        Some(status_override_in_use_error(p.defaults.status->0@, p.name@))
    } else if p.defaults.priority is Some && !has_priority(s, p.defaults.priority->0@) {
        Some(priority_override_in_use_error(p.defaults.priority->0@, p.name@))
    } else {
        None
    }
}

/// The first problem among `ps[i..]`.
pub open spec fn projects_reference_problem(s: Settings, ps: Seq<Project>, i: int) -> Option<Seq<char>>
    decreases ps.len() - i,
{
    if i < 0 || i >= ps.len() {
        None
    } else if project_reference_problem(s, ps[i]) is Some {
        project_reference_problem(s, ps[i])
    } else {
        projects_reference_problem(s, ps, i + 1)
    }
}

/// Whether settings about to be saved still fit the projects: the default
/// project exists and no project refers to a status or priority the
/// settings no longer define.
pub open spec fn settings_projects_problem(s: Settings, ps: Seq<Project>) -> Option<Seq<char>> {
    if !has_project(ps, s.default_project_id@) {
        Some("default project '"@ + s.default_project_id@ + "' does not exist"@)
    } else {
        projects_reference_problem(s, ps, 0)
    }
}

fn project_reference_check(settings: &Settings, p: &Project) -> (r: Result<(), String>)
    ensures
        err_text(r) == project_reference_problem(*settings, *p),
{
    let mut i: usize = 0;
    while i < p.board.statuses.len()
        invariant
            i <= p.board.statuses@.len(),
            first_unknown_status(*settings, p.board.statuses@, 0) == first_unknown_status(*settings, p.board.statuses@, i as int),
        decreases p.board.statuses.len() - i,
    {
        let id = &p.board.statuses[i];
        if validate_status_id(settings, id.as_str()).is_err() {
            let mut m = concat3("cannot remove status '", id.as_str(), "': still used on project '");
            m.append(p.name.as_str());
            m.append("' board");
            return Err(m);
        }
        i += 1;
    }
    if let Some(id) = &p.board.default_status {
        if validate_status_id(settings, id.as_str()).is_err() {
            let mut m = concat3("cannot remove status '", id.as_str(), "': still used as the default status for project '");
            m.append(p.name.as_str());
            m.append("'");
            return Err(m);
        }
    }
    if let Some(id) = &p.defaults.status {
        if validate_status_id(settings, id.as_str()).is_err() {
            let mut m = concat3("cannot remove status '", id.as_str(), "': still used as a default-status override for project '");
            m.append(p.name.as_str());
            m.append("'");
            return Err(m);
        }
    }
    if let Some(id) = &p.defaults.priority {
        if validate_priority_id(settings, id.as_str()).is_err() {
            let mut m = concat3("cannot remove priority '", id.as_str(), "': still used as a default-priority override for project '");
            m.append(p.name.as_str());
            m.append("'");
            return Err(m);
        }
    }
    Ok(())
}

/// Checks settings about to be saved against the projects (see
/// [`settings_projects_problem`]).
pub fn validate_settings_against_projects(settings: &Settings, projects: &[Project]) -> (r: Result<(), String>)
    ensures
        err_text(r) == settings_projects_problem(*settings, projects@),
{
    if !any_project_with_id(projects, settings.default_project_id.as_str()) {
        return Err(concat3("default project '", settings.default_project_id.as_str(), "' does not exist"));
    }
    let mut i: usize = 0;
    while i < projects.len()
        invariant
            i <= projects@.len(),
            has_project(projects@, settings.default_project_id@),
            projects_reference_problem(*settings, projects@, 0) == projects_reference_problem(*settings, projects@, i as int),
        decreases projects.len() - i,
    {
        project_reference_check(settings, &projects[i])?;
        i += 1;
    }
    Ok(())
}

/// How many of `vals[0..upto]` equal `v`.
pub open spec fn count_of(vals: Seq<Seq<char>>, v: Seq<char>, upto: int) -> nat
    decreases upto,
{
    if upto <= 0 {
        0
    } else {
        count_of(vals, v, upto - 1) + if vals[upto - 1] == v { 1nat } else { 0nat }
    }
}

/// A tally of `vals`: each distinct value once, with how often it occurs.
pub open spec fn is_tally(t: Seq<(String, usize)>, vals: Seq<Seq<char>>) -> bool {
    &&& forall|a: int, b: int| 0 <= a < b < t.len() ==> (#[trigger] t[a]).0@ != (#[trigger] t[b]).0@
    &&& forall|k: int| 0 <= k < t.len() ==> (#[trigger] t[k]).1 as nat == count_of(vals, t[k].0@, vals.len() as int)
    &&& forall|j: int| 0 <= j < vals.len() ==> exists|k: int| 0 <= k < t.len() && (#[trigger] t[k]).0@ == #[trigger] vals[j]
}

proof fn lemma_count_bounded(vals: Seq<Seq<char>>, v: Seq<char>, upto: int)
    requires
        0 <= upto <= vals.len(),
    ensures
        count_of(vals, v, upto) <= upto,
    decreases upto,
{
    if upto > 0 {
        lemma_count_bounded(vals, v, upto - 1);
    }
}

fn tally(vals: &Vec<String>) -> (r: Vec<(String, usize)>)
    ensures
        is_tally(r@, string_views(vals@)),
{
    let ghost sv = string_views(vals@);
    let mut out: Vec<(String, usize)> = Vec::new();
    let mut i: usize = 0;
    while i < vals.len()
        invariant
            sv == string_views(vals@),
            i <= vals@.len(),
            forall|a: int, b: int| 0 <= a < b < out@.len() ==> (#[trigger] out@[a]).0@ != (#[trigger] out@[b]).0@,
            forall|k: int| 0 <= k < out@.len() ==> (#[trigger] out@[k]).1 as nat == count_of(sv, out@[k].0@, i as int),
            forall|j: int| 0 <= j < i ==> exists|k: int| 0 <= k < out@.len() && (#[trigger] out@[k]).0@ == #[trigger] sv[j],
            forall|v: Seq<char>| #[trigger] count_of(sv, v, i as int) > 0 ==> exists|k: int| 0 <= k < out@.len() && (#[trigger] out@[k]).0@ == v,
        decreases vals.len() - i,
    {
        let v = &vals[i];
        let mut found: Option<usize> = None;
        let mut k: usize = 0;
        while k < out.len()
            invariant
                k <= out@.len(),
                found matches Some(f) ==> f < out@.len() && out@[f as int].0@ == v@,
                found is None ==> forall|q: int| 0 <= q < k ==> (#[trigger] out@[q]).0@ != v@,
            decreases out.len() - k,
        {
            if found.is_none() && str_eq(out[k].0.as_str(), v.as_str()) {
                found = Some(k);
            }
            k += 1;
        }
        proof {
            lemma_count_bounded(sv, v@, i as int);
            assert(sv[i as int] == v@);
        }
        match found {
            Some(f) => {
                let c = out[f].1;
                let key = copy_string(&out[f].0);
                let ghost before = out@;
                out.set(f, (key, c + 1));
                proof {
                    assert forall|a: int, b: int| 0 <= a < b < out@.len() implies (#[trigger] out@[a]).0@ != (#[trigger] out@[b]).0@ by {
                        assert(before[a].0@ == out@[a].0@ && before[b].0@ == out@[b].0@);
                    }
                    assert forall|q: int| 0 <= q < out@.len() implies (#[trigger] out@[q]).1 as nat == count_of(sv, out@[q].0@, i + 1) by {
                        if q != f {
                            assert(before[q] == out@[q]);
                            assert(before[q].0@ != v@);
                        }
                    }
                    assert forall|j: int| 0 <= j < i + 1 implies exists|q: int| 0 <= q < out@.len() && (#[trigger] out@[q]).0@ == #[trigger] sv[j] by {
                        if j < i {
                            let q = choose|q: int| 0 <= q < before.len() && (#[trigger] before[q]).0@ == sv[j];
                            assert(out@[q].0@ == before[q].0@);
                        } else {
                            assert(out@[f as int].0@ == sv[j]);
                        }
                    }
                    assert forall|w: Seq<char>| #[trigger] count_of(sv, w, i + 1) > 0 implies exists|q: int| 0 <= q < out@.len() && (#[trigger] out@[q]).0@ == w by {
                        if w == v@ {
                            assert(out@[f as int].0@ == w);
                        } else {
                            assert(count_of(sv, w, i as int) > 0);
                            let q = choose|q: int| 0 <= q < before.len() && (#[trigger] before[q]).0@ == w;
                            assert(out@[q].0@ == before[q].0@);
                        }
                    }
                }
            },
            None => {
                let ghost before = out@;
                proof {
                    if count_of(sv, v@, i as int) > 0 {
                        let q = choose|q: int| 0 <= q < before.len() && (#[trigger] before[q]).0@ == v@;
                        assert(before[q].0@ != v@);
                    }
                }
                out.push((copy_string(v), 1));
                proof {
                    assert forall|a: int, b: int| 0 <= a < b < out@.len() implies (#[trigger] out@[a]).0@ != (#[trigger] out@[b]).0@ by {
                        if b == before.len() {
                            assert(out@[a] == before[a]);
                        } else {
                            assert(out@[a] == before[a] && out@[b] == before[b]);
                        }
                    }
                    assert forall|q: int| 0 <= q < out@.len() implies (#[trigger] out@[q]).1 as nat == count_of(sv, out@[q].0@, i + 1) by {
                        if q < before.len() {
                            assert(out@[q] == before[q]);
                            assert(before[q].0@ != v@);
                        }
                    }
                    assert forall|j: int| 0 <= j < i + 1 implies exists|q: int| 0 <= q < out@.len() && (#[trigger] out@[q]).0@ == #[trigger] sv[j] by {
                        if j < i {
                            let q = choose|q: int| 0 <= q < before.len() && (#[trigger] before[q]).0@ == sv[j];
                            assert(out@[q] == before[q]);
                        } else {
                            assert(out@[before.len() as int].0@ == sv[j]);
                        }
                    }
                    assert forall|w: Seq<char>| #[trigger] count_of(sv, w, i + 1) > 0 implies exists|q: int| 0 <= q < out@.len() && (#[trigger] out@[q]).0@ == w by {
                        if w == v@ {
                            assert(out@[before.len() as int].0@ == w);
                        } else {
                            assert(count_of(sv, w, i as int) > 0);
                            let q = choose|q: int| 0 <= q < before.len() && (#[trigger] before[q]).0@ == w;
                            assert(out@[q] == before[q]);
                        }
                    }
                }
            },
        }
        i += 1;
    }
    out
}

pub open spec fn task_priorities(tasks: Seq<Task>) -> Seq<Seq<char>> {
    tasks.map_values(|t: Task| t.priority@)
}

pub open spec fn task_statuses(tasks: Seq<Task>) -> Seq<Seq<char>> {
    tasks.map_values(|t: Task| t.status@)
}

/// How many tasks have each priority: each priority once, with its count
/// (in order of first appearance).
pub fn tally_priorities(tasks: &[Task]) -> (r: Vec<(String, usize)>)
    ensures
        is_tally(r@, task_priorities(tasks@)),
{
    let mut vals: Vec<String> = Vec::new();
    let mut i: usize = 0;
    while i < tasks.len()
        invariant
            i <= tasks@.len(),
            vals@.len() == i,
            forall|k: int| 0 <= k < i ==> (#[trigger] vals@[k])@ == tasks@[k].priority@,
        decreases tasks.len() - i,
    {
        vals.push(copy_string(&tasks[i].priority));
        i += 1;
    }
    assert(string_views(vals@) =~= task_priorities(tasks@));
    tally(&vals)
}

/// How many tasks have each status: each status once, with its count (in
/// order of first appearance).
pub fn tally_statuses(tasks: &[Task]) -> (r: Vec<(String, usize)>)
    ensures
        is_tally(r@, task_statuses(tasks@)),
{
    let mut vals: Vec<String> = Vec::new();
    let mut i: usize = 0;
    while i < tasks.len()
        invariant
            i <= tasks@.len(),
            vals@.len() == i,
            forall|k: int| 0 <= k < i ==> (#[trigger] vals@[k])@ == tasks@[k].status@,
        decreases tasks.len() - i,
    {
        vals.push(copy_string(&tasks[i].status));
        i += 1;
    }
    assert(string_views(vals@) =~= task_statuses(tasks@));
    tally(&vals)
}

} // verus!

verus! {

/// Whether a task is at the done status or at the cancelled status.
pub open spec fn finished(t: Task, s: Settings) -> bool {
    t.status@ == s.done_status@ || (s.cancelled_status is Some && t.status@ == s.cancelled_status->0@)
}

/// Whether the task is done or cancelled.
pub fn is_finished(task: &Task, settings: &Settings) -> (r: bool)
    ensures
        r == finished(*task, *settings),
{
    str_eq(task.status.as_str(), settings.done_status.as_str()) || match &settings.cancelled_status {
        Some(c) => str_eq(task.status.as_str(), c.as_str()),
        None => false,
    }
}

/// The outcome of finishing the day: how many tasks were archived.
#[derive(Debug, Clone, PartialEq)]
pub struct FinishDayResult {
    pub archived_count: usize,
}

/// `ids` with the ids of the tasks in container `c` among `tasks[0..upto]`
/// added, in order, each once.
pub open spec fn with_subtask_ids(ids: Seq<Seq<char>>, tasks: Seq<Task>, c: Seq<char>, upto: int) -> Seq<Seq<char>>
    decreases upto,
{
    if upto <= 0 {
        ids
    } else {
        let a = with_subtask_ids(ids, tasks, c, upto - 1);
        if in_container(tasks[upto - 1], c) { push_unique(a, tasks[upto - 1].id@) } else { a }
    }
}

/// The ids of the tasks finishing the day archives and the containers it
/// removes, after the first `upto` tasks: each finished task's id (once),
/// and for one owning a container, that container and its subtasks' ids.
pub open spec fn finish_plan(tasks: Seq<Task>, s: Settings, upto: int) -> (Seq<Seq<char>>, Seq<Seq<char>>)
    decreases upto,
{
    if upto <= 0 {
        (Seq::empty(), Seq::empty())
    } else {
        let (ids, containers) = finish_plan(tasks, s, upto - 1);
        let t = tasks[upto - 1];
        if !finished(t, s) {
            (ids, containers)
        } else {
            let ids2 = push_unique(ids, t.id@);
            match t.subtask_project_id {
                None => (ids2, containers),
                Some(c) => (with_subtask_ids(ids2, tasks, c@, tasks.len() as int), containers.push(c@)),
            }
        }
    }
}

fn push_unique_string(v: &mut Vec<String>, s: &String)
    ensures
        string_views(final(v)@) == push_unique(string_views(old(v)@), s@),
{
    let present = vec_contains_str(v, s.as_str());
    proof {
        let sv = string_views(v@);
        if present {
            let k = choose|k: int| 0 <= k < v@.len() && (#[trigger] v@[k])@ == s@;
            assert(sv[k] == s@);
        } else {
            assert forall|k: int| 0 <= k < sv.len() implies sv[k] != s@ by {
                assert(sv[k] == v@[k]@);
            }
        }
    }
    if !present {
        let ghost before = v@;
        v.push(copy_string(s));
        proof {
            assert(string_views(v@) =~= string_views(before).push(s@));
        }
    }
}

/// The ids of the tasks to archive and of the containers to remove when
/// finishing the day (see [`finish_plan`]).
pub fn tasks_and_containers_to_finish(tasks: &[Task], settings: &Settings) -> (r: (Vec<String>, Vec<String>))
    ensures
        (string_views(r.0@), string_views(r.1@)) == finish_plan(tasks@, *settings, tasks@.len() as int),
{
    let mut task_ids: Vec<String> = Vec::new();
    let mut container_ids: Vec<String> = Vec::new();
    let mut i: usize = 0;
    while i < tasks.len()
        invariant
            i <= tasks@.len(),
            (string_views(task_ids@), string_views(container_ids@)) == finish_plan(tasks@, *settings, i as int),
        decreases tasks.len() - i,
    {
        let t = &tasks[i];
        if is_finished(t, settings) {
            push_unique_string(&mut task_ids, &t.id);
            if let Some(c) = &t.subtask_project_id {
                let ghost start = string_views(task_ids@);
                let ghost before_c = container_ids@;
                container_ids.push(copy_string(c));
                proof {
                    assert(string_views(container_ids@) =~= string_views(before_c).push(c@));
                }
                let mut j: usize = 0;
                while j < tasks.len()
                    invariant
                        j <= tasks@.len(),
                        string_views(task_ids@) == with_subtask_ids(start, tasks@, c@, j as int),
                    decreases tasks.len() - j,
                {
                    let in_c = match &tasks[j].project_id {
                        Some(p) => *p == *c,
                        None => false,
                    };
                    if in_c {
                        push_unique_string(&mut task_ids, &tasks[j].id);
                    }
                    j += 1;
                }
            }
        }
        i += 1;
    }
    (task_ids, container_ids)
}

pub open spec fn session_action_error(action: Seq<char>) -> Seq<char> {
    "invalid action: '"@ + action + "'"@
}

/// `Ok` exactly for `"resume"` and `"discard"`.
pub fn validate_orphaned_session_action(action: &str) -> (r: Result<(), String>)
    ensures
        r is Ok <==> (action@ == "resume"@ || action@ == "discard"@),
        r matches Err(e) ==> e@ == session_action_error(action@),
{
    if str_eq(action, "resume") || str_eq(action, "discard") {
        Ok(())
    } else {
        Err(concat3("invalid action: '", action, "'"))
    }
}

/// Whether instant `a` (seconds, nanoseconds) comes strictly before `b`.
pub open spec fn instant_before(a: (i64, u32), b: (i64, u32)) -> bool {
    a.0 < b.0 || (a.0 == b.0 && a.1 < b.1)
}

/// `Err` exactly when an end instant is given and is not after the start.
pub fn validate_time_range(started: (i64, u32), ended: Option<(i64, u32)>) -> (r: Result<(), String>)
    ensures
        r is Err <==> (ended matches Some(e) && !instant_before(started, e)),
        r matches Err(e) ==> e@ == "end time must be after start time"@,
{
    if let Some(e) = ended {
        if !(started.0 < e.0 || (started.0 == e.0 && started.1 < e.1)) {
            return Err(owned("end time must be after start time"));
        }
    }
    Ok(())
}

/// Parses a stored RFC 3339 timestamp to its UTC instant; a failure names
/// the field and the stored value, followed by the parser's description.
pub fn parse_rfc3339_field(value: &str, field: &str) -> (r: Result<(i64, u32), String>)
    ensures
        r is Ok <==> rfc3339_parses(value@),
        match r {
            Ok(t) => rfc3339_instant(value@) == Some((t.0 as int, t.1 as int)),
            Err(e) => exists|d: Seq<char>| e@ == "stored "@ + field@ + " '"@ + value@ + "' is not valid RFC3339: "@ + d,
        },
{
    match parse_rfc3339_utc(value) {
        Ok(t) => Ok(t),
        Err(d) => {
            let head = concat3("stored ", field, " '");
            let msg = concat3(head.as_str(), value, "' is not valid RFC3339: ");
            let full = concat3(msg.as_str(), d.as_str(), "");
            proof {
                reveal_strlit("");
                assert(full@ =~= "stored "@ + field@ + " '"@ + value@ + "' is not valid RFC3339: "@ + d@);
            }
            Err(full)
        },
    }
}

/// Parses a client-supplied RFC 3339 timestamp to its UTC instant; a
/// failure names the field, followed by the parser's description.
pub fn parse_rfc3339_input(value: &str, field: &str) -> (r: Result<(i64, u32), String>)
    ensures
        r is Ok <==> rfc3339_parses(value@),
        match r {
            Ok(t) => rfc3339_instant(value@) == Some((t.0 as int, t.1 as int)),
            Err(e) => exists|d: Seq<char>| e@ == field@ + " is not a valid RFC3339 timestamp: "@ + d,
        },
{
    match parse_rfc3339_utc(value) {
        Ok(t) => Ok(t),
        Err(d) => {
            let full = concat3(field, " is not a valid RFC3339 timestamp: ", d.as_str());
            Err(full)
        },
    }
}

/// The first project of the chain, from position `i`, with a subproject
/// roll-up override.
pub open spec fn chain_show_subprojects(chain: Seq<Project>, i: int) -> Option<bool>
    decreases chain.len() - i,
{
    if i < 0 || i >= chain.len() {
        None
    } else if chain[i].board.show_subproject_tasks is Some {
        chain[i].board.show_subproject_tasks
    } else {
        chain_show_subprojects(chain, i + 1)
    }
}

/// Whether a project's views roll up its subprojects' tasks: the nearest
/// override along the project and its ancestors, else the global default.
pub fn resolve_show_subproject_tasks(projects: &[Project], project_id: &str, settings: &Settings) -> (r: bool)
    ensures
        r == (match chain_show_subprojects(crate::project_tree::self_and_ancestors_spec(projects@, project_id@), 0) {
            Some(b) => b,
            None => settings.show_subproject_tasks_default,
        }),
{
    let chain = crate::project_tree::self_and_ancestors(projects, project_id);
    let ghost c = refs_view(chain@);
    let mut i: usize = 0;
    while i < chain.len()
        invariant
            c == refs_view(chain@),
            c == crate::project_tree::self_and_ancestors_spec(projects@, project_id@),
            i <= chain@.len(),
            chain_show_subprojects(c, 0) == chain_show_subprojects(c, i as int),
        decreases chain.len() - i,
    {
        let p: &Project = chain[i];
        assert(c[i as int] == *p);
        if let Some(b) = p.board.show_subproject_tasks {
            return b;
        }
        i += 1;
    }
    settings.show_subproject_tasks_default
}

/// The status-line layout of a project: its override, else the global
/// default.
pub fn resolve_status_line_layout_id(project: &Project, settings: &Settings) -> (r: String)
    ensures
        r == (match project.board.status_line_layout_id {
            Some(l) => l,
            None => settings.default_status_line_layout_id,
        }),
{
    match &project.board.status_line_layout_id {
        Some(l) => copy_string(l),
        None => copy_string(&settings.default_status_line_layout_id),
    }
}

/// How many projects use layout `id` for their status line.
pub open spec fn layout_users(ps: Seq<Project>, id: Seq<char>, upto: int) -> nat
    decreases upto,
{
    if upto <= 0 {
        0
    } else {
        layout_users(ps, id, upto - 1)
            + if opt_view(ps[upto - 1].board.status_line_layout_id) == Some(id) { 1nat } else { 0nat }
    }
}

/// The refusal to delete a layout still in use.
pub open spec fn layout_in_use_error(n: nat, global: bool) -> Seq<char> {
    "layout still in use by "@ + crate::text::decimal(n) + " project(s)"@
        + if global { " and the global default"@ } else { ""@ }
}

/// `Err` exactly when some project or the global default still uses the
/// layout.
pub fn ensure_layout_not_in_use(layout_id: &str, projects: &[Project], settings: &Settings) -> (r: Result<(), String>)
    ensures
        r is Ok <==> (layout_users(projects@, layout_id@, projects@.len() as int) == 0
            && settings.default_status_line_layout_id@ != layout_id@),
        r matches Err(e) ==> e@ == layout_in_use_error(layout_users(projects@, layout_id@, projects@.len() as int),
            settings.default_status_line_layout_id@ == layout_id@),
{
    let mut count: u64 = 0;
    let mut i: usize = 0;
    while i < projects.len()
        invariant
            i <= projects@.len(),
            count as nat == layout_users(projects@, layout_id@, i as int),
            count <= i,
        decreases projects.len() - i,
    {
        let uses = match &projects[i].board.status_line_layout_id {
            Some(l) => str_eq(l.as_str(), layout_id),
            None => false,
        };
        if uses {
            count += 1;
        }
        i += 1;
    }
    let is_global = str_eq(settings.default_status_line_layout_id.as_str(), layout_id);
    if count == 0 && !is_global {
        return Ok(());
    }
    let mut m = owned("layout still in use by ");
    let n = crate::text::u64_to_decimal(count);
    m.append(n.as_str());
    m.append(" project(s)");
    if is_global {
        m.append(" and the global default");
    } else {
        proof {
            reveal_strlit("");
        }
    }
    Err(m)
}

} // verus!

verus! {

// ----- recurring tasks -----

/// How many days ahead a new or re-patterned series generates at once.
pub const RECURRENCE_BASELINE_LOOKAHEAD_DAYS: i64 = 60;

pub open spec fn opt_day_text(d: Option<int>) -> Option<Seq<char>> {
    match d {
        Some(x) => Some(formatted_iso_date(x)),
        None => None,
    }
}

/// Whether `t` is the occurrence of `series` on `date`, with status
/// `status`: the template fields copied, scheduled on the date, due by the
/// series' due rule, linked to the series, and otherwise a fresh task.
pub open spec fn is_occurrence_task(t: Task, series: crate::series::Series, status: Seq<char>, date: int) -> bool {
    &&& t.title == series.title
    &&& t.project_id == series.project_id
    &&& t.tags@ == series.tags@
    &&& t.priority == series.priority
    &&& t.estimated_minutes == series.estimated_minutes
    &&& t.status@ == status
    &&& opt_view(t.scheduled) == Some(formatted_iso_date(date))
    &&& opt_view(t.due) == opt_day_text(crate::recurrence::due_rule_date(series.due_rule, date))
    &&& opt_view(t.series_id) == Some(series.id@)
    &&& t.id@.len() > 0
    &&& t.notes@.len() == 0
    &&& t.tracked_minutes == 0
    &&& !t.hidden
    &&& t.subtask_project_id is None
    &&& t.created@.len() > 0
    &&& t.depends_on@.len() == 0
    &&& t.order == 0
    &&& t.completed_at is None
    &&& t.cancelled_at is None
}

/// The occurrence task of `series` on `date` (see [`is_occurrence_task`]),
/// with the default status for the series' project chain.
pub fn build_series_occurrence(
    series: &crate::series::Series,
    settings: &Settings,
    project_chain: &[&Project],
    date: i32,
) -> (r: Task)
    requires
        is_valid_day(date as int),
    ensures
        is_occurrence_task(r, *series, default_status_spec(*settings, refs_view(project_chain@)), date as int),
{
    let mut task = Task::new(copy_string(&series.title));
    task.status = resolve_default_status(settings, project_chain);
    task.project_id = copy_opt_string(&series.project_id);
    task.tags = copy_strings(&series.tags);
    task.priority = copy_string(&series.priority);
    task.estimated_minutes = series.estimated_minutes;
    task.scheduled = Some(format_iso_date(date));
    task.due = match crate::recurrence::resolve_due_rule(&series.due_rule, date) {
        Some(d) => Some(format_iso_date(d)),
        None => None,
    };
    task.series_id = Some(copy_string(&series.id));
    task
}

/// The day generation should stop at: `through`, clamped to the series'
/// end date when that parses.
pub open spec fn effective_horizon(series: crate::series::Series, through: int) -> int {
    match series.end_date {
        Some(e) => match parsed_iso_date(e@) {
            Some(end) => if end < through { end } else { through },
            None => through,
        },
        None => through,
    }
}

/// The watermark after generating: the last generated date, else the
/// effective horizon, never before the previous watermark.
pub open spec fn next_watermark(dates: Seq<i32>, horizon: int, previous: int) -> int {
    let reached = if dates.len() > 0 { dates.last() as int } else { horizon };
    if reached >= previous { reached } else { previous }
}

/// What generating a series' occurrences through `through` does: with a
/// readable watermark, one occurrence task per date the series has after
/// the watermark and through `through` (within its end), the watermark
/// moved on and nothing else of the series changed; else the watermark
/// error with the series unchanged.
pub open spec fn occurrences_generated(
    before: crate::series::Series,
    after: crate::series::Series,
    r: Result<Vec<Task>, String>,
    settings: Settings,
    chain: Seq<Project>,
    through: int,
) -> bool {
    match parsed_iso_date(before.generated_until@) {
        None => r matches Err(e) && e@ == "series has an invalid generated_until date"@ && after == before,
        Some(previous) => r matches Ok(created) && {
            let dates = crate::recurrence::series_dates(before, previous, through);
            &&& created@.len() == dates.len()
            &&& forall|k: int| 0 <= k < dates.len() ==> is_occurrence_task(#[trigger] created@[k], before,
                default_status_spec(settings, chain), dates[k] as int)
            &&& after.generated_until@ == formatted_iso_date(
                next_watermark(dates, effective_horizon(before, through), previous))
            &&& parsed_iso_date(after.generated_until@)
                == Some(next_watermark(dates, effective_horizon(before, through), previous))
            &&& after == crate::series::Series { generated_until: after.generated_until, ..before }
        },
    }
}

/// Generates the occurrences of `series` after its watermark through
/// `through` (clamped to its end date), one task per occurrence date in
/// order, and moves the watermark forward (see [`next_watermark`]). Fails
/// when the watermark does not parse.
pub fn generate_series_occurrences(
    settings: &Settings,
    project_chain: &[&Project],
    series: &mut crate::series::Series,
    through: i32,
) -> (r: Result<Vec<Task>, String>)
    requires
        is_valid_day(through as int),
    ensures
        occurrences_generated(*old(series), *final(series), r, *settings, refs_view(project_chain@), through as int),
{
    let previous = match parse_iso_date(series.generated_until.as_str()) {
        None => return Err(owned("series has an invalid generated_until date")),
        Some(p) => p,
    };
    let dates = crate::recurrence::occurrence_dates_in_range(series, previous, through);
    proof {
        crate::recurrence::lemma_series_dates_valid(*series, previous as int, through as int);
    }
    let mut created: Vec<Task> = Vec::new();
    let mut k: usize = 0;
    while k < dates.len()
        invariant
            k <= dates@.len(),
            dates@ == crate::recurrence::series_dates(*series, previous as int, through as int),
            forall|q: int| 0 <= q < dates@.len() ==> is_valid_day(#[trigger] dates@[q] as int),
            created@.len() == k,
            forall|q: int| 0 <= q < k ==> is_occurrence_task(#[trigger] created@[q], *series,
                default_status_spec(*settings, refs_view(project_chain@)), dates@[q] as int),
        decreases dates.len() - k,
    {
        created.push(build_series_occurrence(series, settings, project_chain, dates[k]));
        k += 1;
    }
    let horizon: i32 = match &series.end_date {
        Some(e) => match parse_iso_date(e.as_str()) {
            Some(end) => if end < through { end } else { through },
            None => through,
        },
        None => through,
    };
    let reached: i32 = if dates.len() > 0 { dates[dates.len() - 1] } else { horizon };
    let watermark: i32 = if reached >= previous { reached } else { previous };
    series.generated_until = format_iso_date(watermark);
    Ok(created)
}

} // verus!

verus! {

/// The project chain of a new task: its project (when it exists) and that
/// project's ancestors.
pub open spec fn chain_of(projects: Seq<Project>, project_id: Seq<char>) -> Seq<Project> {
    crate::project_tree::self_and_ancestors_spec(projects, project_id)
}

/// The due rule of a new series: the requested one, else the due code in
/// effect (as a code rule), else never due.
pub open spec fn is_new_series_due_rule(
    rule: crate::series::DueRule,
    requested: Option<crate::series::DueRule>,
    s: Settings,
    chain: Seq<Project>,
) -> bool {
    match requested {
        Some(r) => rule == r,
        None => match due_code_in_effect(s, chain) {
            Some(c) => rule matches crate::series::DueRule::DefaultCode { code } && code@ == c,
            None => rule == crate::series::DueRule::Never,
        },
    }
}

/// The checks on a new task's fields that run before anything is resolved:
/// a non-empty trimmed title, a due value that is `"none"` or a date, and
/// date-shaped scheduled and end dates.
pub open spec fn new_task_field_problem(
    title: Seq<char>,
    due: Option<Seq<char>>,
    scheduled: Option<Seq<char>>,
    end_date: Option<Seq<char>>,
) -> Option<Seq<char>> {
    if crate::text::trimmed(title).len() == 0 {
        Some("task title must not be empty"@)
    } else if due matches Some(d) && d != "none"@ && parsed_iso_date(d) is None {
        Some(due_field_error())
    } else if scheduled matches Some(d) && parsed_iso_date(d) is None {
        Some(date_field_error("scheduled"@))
    } else if end_date matches Some(d) && parsed_iso_date(d) is None {
        Some(date_field_error("end date"@))
    } else {
        None
    }
}

/// The priority of a new task: the requested one (which must be defined),
/// else the default priority.
pub open spec fn new_task_priority(s: Settings, priority: Option<Seq<char>>) -> Result<Seq<char>, Seq<char>> {
    match priority {
        Some(p) => if has_priority(s, p) { Ok(p) } else { Err(crate::settings::priority_error(p)) },
        None => Ok(default_priority_spec(s)),
    }
}

/// The status of a new task: the requested one (which must be defined),
/// else the default status for its project chain.
pub open spec fn new_task_status(s: Settings, chain: Seq<Project>, status: Option<Seq<char>>) -> Result<Seq<char>, Seq<char>> {
    match status {
        Some(x) => if has_status(s, x) { Ok(x) } else { Err(crate::settings::status_error(x)) },
        None => Ok(default_status_spec(s, chain)),
    }
}

fn choose_priority(settings: &Settings, priority: Option<String>) -> (r: Result<String, String>)
    ensures
        match new_task_priority(*settings, opt_view(priority)) {
            Ok(p) => r matches Ok(x) && x@ == p,
            Err(e) => r matches Err(x) && x@ == e,
        },
{
    match priority {
        Some(id) => {
            validate_priority_id(settings, id.as_str())?;
            Ok(id)
        },
        None => Ok(resolve_default_priority(settings)),
    }
}

fn choose_status(settings: &Settings, project_chain: &[&Project], status: Option<String>) -> (r: Result<String, String>)
    ensures
        match new_task_status(*settings, refs_view(project_chain@), opt_view(status)) {
            Ok(p) => r matches Ok(x) && x@ == p,
            Err(e) => r matches Err(x) && x@ == e,
        },
{
    match status {
        Some(id) => {
            validate_status_id(settings, id.as_str())?;
            Ok(id)
        },
        None => Ok(resolve_default_status(settings, project_chain)),
    }
}

fn check_new_task_fields(
    title: &str,
    due: &Option<String>,
    scheduled: &Option<String>,
    end_date: &Option<String>,
) -> (r: Result<String, String>)
    ensures
        match new_task_field_problem(title@, opt_view(*due), opt_view(*scheduled), opt_view(*end_date)) {
            Some(e) => r matches Err(x) && x@ == e,
            None => r matches Ok(t) && t@ == crate::text::trimmed(title@),
        },
{
    let t = crate::text::trim(title);
    if t.as_str().unicode_len() == 0 {
        return Err(owned("task title must not be empty"));
    }
    validate_due_creation_field(due)?;
    proof {
        reveal_strlit("scheduled");
        reveal_strlit("end date");
    }
    validate_date_field(scheduled, "scheduled")?;
    validate_date_field(end_date, "end date")?;
    Ok(t)
}

/// A new recurring task ready to be stored: its series, and the tasks
/// created for it in date order.
#[derive(Debug, Clone, PartialEq)]
pub struct RecurringTaskPlan {
    pub series: crate::series::Series,
    pub created: Vec<Task>,
}

/// The problem with the due rule of a new series (see
/// [`is_new_series_due_rule`]).
pub open spec fn new_series_due_rule_problem(
    requested: Option<crate::series::DueRule>,
    s: Settings,
    chain: Seq<Project>,
) -> Option<Seq<char>> {
    match requested {
        Some(r) => crate::series::due_rule_problem(r),
        None => match due_code_in_effect(s, chain) {
            Some(c) => if crate::settings::due_relative_date_codes().contains(c) {
                None
            } else {
                Some(crate::settings::due_code_error(c))
            },
            None => None,
        },
    }
}

/// The first problem with a recurring-task request, in the order the
/// checks run: `None` when the request is acceptable; `Some(None)` when the
/// resolved scheduled date does not parse (the message is chrono's);
/// `Some(Some(m))` for a refusal with message `m`.
pub open spec fn recurring_request_problem(
    s: Settings,
    projects: Seq<Project>,
    today: int,
    title: Seq<char>,
    project_id: Option<Seq<char>>,
    priority: Option<Seq<char>>,
    status: Option<Seq<char>>,
    due: Option<Seq<char>>,
    scheduled: Option<Seq<char>>,
    frequency: crate::series::RecurrenceFrequency,
    end_date: Option<Seq<char>>,
    due_rule: Option<crate::series::DueRule>,
) -> Option<Option<Seq<char>>> {
    let pid = match project_id { Some(p) => p, None => s.default_project_id@ };
    let chain = chain_of(projects, pid);
    let sched = creation_scheduled(s, chain, today, scheduled);
    if new_task_field_problem(title, due, scheduled, end_date) is Some {
        Some(new_task_field_problem(title, due, scheduled, end_date))
    } else if new_task_priority(s, priority) is Err {
        Some(Some(new_task_priority(s, priority)->Err_0))
    } else if new_task_status(s, chain, status) is Err {
        Some(Some(new_task_status(s, chain, status)->Err_0))
    } else if parsed_iso_date(sched) is None {
        Some(None)
    } else if end_date matches Some(e) && parsed_iso_date(e)->0 < parsed_iso_date(sched)->0 {
        Some(Some("end date must be on or after the scheduled date"@))
    } else if crate::series::frequency_problem(frequency) is Some {
        Some(crate::series::frequency_problem(frequency))
    } else if new_series_due_rule_problem(due_rule, s, chain) is Some {
        Some(new_series_due_rule_problem(due_rule, s, chain))
    } else if !is_valid_day(parsed_iso_date(sched)->0 + RECURRENCE_BASELINE_LOOKAHEAD_DAYS) {
        Some(Some("scheduled date is out of range"@))
    } else {
        None
    }
}

/// Plans a new recurring task: checks the request (see
/// [`recurring_request_problem`]), builds the series (anchored at the
/// resolved scheduled date, with the requested or default due rule), the
/// task on the anchor date itself when the anchor satisfies the rule, and
/// the occurrences of the next sixty days; the series' watermark moves to
/// the last date generated. The application stores the tasks and the
/// series.
pub fn plan_recurring_task(
    settings: &Settings,
    projects: &[Project],
    today: i32,
    title: String,
    project_id: Option<String>,
    tags: Option<Vec<String>>,
    priority: Option<String>,
    status: Option<String>,
    due: Option<String>,
    scheduled: Option<String>,
    estimated_minutes: Option<u32>,
    frequency: crate::series::RecurrenceFrequency,
    end_date: Option<String>,
    due_rule: Option<crate::series::DueRule>,
) -> (r: Result<RecurringTaskPlan, String>)
    requires
        is_valid_day(today as int),
    ensures
        ({
            let pid = match project_id { Some(p) => p@, None => settings.default_project_id@ };
            let chain = chain_of(projects@, pid);
            let sched = creation_scheduled(*settings, chain, today as int, opt_view(scheduled));
            let problem = recurring_request_problem(*settings, projects@, today as int, title@, opt_view(project_id),
                opt_view(priority), opt_view(status), opt_view(due), opt_view(scheduled), frequency,
                opt_view(end_date), due_rule);
            &&& (r is Err <==> problem is Some)
            &&& (r matches Err(e) ==> (problem matches Some(Some(m)) ==> e@ == m))
            &&& (r matches Ok(plan) ==> {
                let series = plan.series;
                let anchor = parsed_iso_date(sched)->0;
                let status_v = new_task_status(*settings, chain, opt_view(status))->Ok_0;
                let first = crate::recurrence::anchor_matches(frequency, anchor);
                let off: int = if first { 1 } else { 0 };
                let dates = crate::recurrence::series_dates(
                    crate::series::Series { generated_until: series.anchor_date, ..series },
                    anchor, anchor + RECURRENCE_BASELINE_LOOKAHEAD_DAYS);
                &&& series.frequency == frequency
                &&& series.anchor_date@ == sched
                &&& series.end_date == end_date
                &&& is_new_series_due_rule(series.due_rule, due_rule, *settings, chain)
                &&& series.title@ == crate::text::trimmed(title@)
                &&& opt_view(series.project_id) == Some(pid)
                &&& series.priority@ == new_task_priority(*settings, opt_view(priority))->Ok_0
                &&& string_views(series.tags@) == creation_tags(*settings, chain, opt_strings_view(tags))
                &&& series.estimated_minutes == (match estimated_minutes {
                    Some(m) => Some(m),
                    None => match chain_default_estimate(chain, 0) {
                        Some(m) => Some(m),
                        None => settings.defaults.estimated_minutes,
                    },
                })
                &&& series.notes@.len() == 0
                &&& series.active
                &&& series.generated_until@ == formatted_iso_date(next_watermark(dates,
                    effective_horizon(series, anchor + RECURRENCE_BASELINE_LOOKAHEAD_DAYS), anchor))
                &&& plan.created@.len() == dates.len() + off
                &&& first ==> {
                    let t = plan.created@[0];
                    &&& t.title == series.title && t.project_id == series.project_id
                    &&& t.tags@ == series.tags@ && t.priority == series.priority
                    &&& t.estimated_minutes == series.estimated_minutes
                    &&& t.status@ == status_v
                    &&& opt_view(t.scheduled) == Some(sched)
                    &&& opt_view(t.due) == opt_day_text(crate::recurrence::due_rule_date(series.due_rule, anchor))
                    &&& opt_view(t.series_id) == Some(series.id@)
                }
                &&& forall|k: int| 0 <= k < dates.len() ==> is_occurrence_task(
                    plan.created@[k + off],
                    crate::series::Series { generated_until: series.anchor_date, ..series },
                    default_status_spec(*settings, chain), #[trigger] dates[k] as int)
            })
        }),
{
    let title_t = check_new_task_fields(title.as_str(), &due, &scheduled, &end_date)?;
    let priority_v = choose_priority(settings, priority)?;
    let resolved_project_id = resolve_project_id(project_id, settings);
    let chain = crate::project_tree::self_and_ancestors(projects, resolved_project_id.as_str());
    let status_v = choose_status(settings, chain.as_slice(), status)?;
    let (final_tags, _unused_due, resolved_scheduled) =
        resolve_creation_defaults(settings, chain.as_slice(), today, tags, due, scheduled);
    let resolved_estimate = match estimated_minutes {
        Some(m) => Some(m),
        None => effective_default_estimated_minutes(&settings.defaults, chain.as_slice()),
    };
    let series_due_rule = match due_rule {
        Some(r) => r,
        None => match due_code_of(settings, chain.as_slice()) {
            Some(c) => crate::series::DueRule::DefaultCode { code: copy_string(c) },
            None => crate::series::DueRule::Never,
        },
    };
    let anchor = match crate::dates::parse_iso_date_described(resolved_scheduled.as_str()) {
        Ok(a) => a,
        Err(e) => return Err(e),
    };
    if let Some(end) = &end_date {
        match parse_iso_date(end.as_str()) {
            None => return Err(owned("end date must be a valid date in YYYY-MM-DD format")),
            Some(end_day) => {
                if end_day < anchor {
                    return Err(owned("end date must be on or after the scheduled date"));
                }
            },
        }
    }
    let resolved_due = match crate::recurrence::resolve_due_rule(&series_due_rule, anchor) {
        Some(d) => Some(format_iso_date(d)),
        None => None,
    };
    let first_matches = crate::recurrence::anchor_matches_frequency(&frequency, anchor);
    let mut series = crate::series::Series::new(
        frequency,
        copy_string(&resolved_scheduled),
        end_date,
        series_due_rule,
        copy_string(&title_t),
        Some(copy_string(&resolved_project_id)),
        copy_string(&priority_v),
        copy_strings(&final_tags),
        resolved_estimate,
        String::new(),
    );
    crate::series::validate_series(&series)?;
    let horizon = match crate::dates::add_days(anchor, RECURRENCE_BASELINE_LOOKAHEAD_DAYS) {
        Some(h) => h,
        None => return Err(owned("scheduled date is out of range")),
    };
    let mut created: Vec<Task> = Vec::new();
    if first_matches {
        let mut first = Task::new(title_t);
        first.status = status_v;
        apply_create_overrides(
            &mut first,
            Some(resolved_project_id),
            Some(final_tags),
            Some(priority_v),
            resolved_due,
            resolved_scheduled,
            resolved_estimate,
        );
        first.series_id = Some(copy_string(&series.id));
        created.push(first);
    }
    let mut generated = generate_series_occurrences(settings, chain.as_slice(), &mut series, horizon)?;
    created.append(&mut generated);
    Ok(RecurringTaskPlan { series, created })
}

} // verus!

verus! {

// ----- plain tasks -----

/// Plans a new task: checks the request (a non-empty trimmed title, a due
/// value that is `"none"` or a date, a date-shaped scheduled date, defined
/// priority and status ids) and resolves everything not given from the
/// project chain and the global defaults. The application stores it.
pub fn plan_new_task(
    settings: &Settings,
    projects: &[Project],
    today: i32,
    title: String,
    project_id: Option<String>,
    tags: Option<Vec<String>>,
    priority: Option<String>,
    status: Option<String>,
    due: Option<String>,
    scheduled: Option<String>,
    estimated_minutes: Option<u32>,
) -> (r: Result<Task, String>)
    requires
        is_valid_day(today as int),
    ensures
        ({
            let pid = match project_id { Some(p) => p@, None => settings.default_project_id@ };
            let chain = chain_of(projects@, pid);
            let field = new_task_field_problem(title@, opt_view(due), opt_view(scheduled), None);
            let prio = new_task_priority(*settings, opt_view(priority));
            let stat = new_task_status(*settings, chain, opt_view(status));
            &&& (field matches Some(e) ==> r matches Err(x) && x@ == e)
            &&& (field is None ==> (prio matches Err(e) ==> r matches Err(x) && x@ == e))
            &&& (field is None && prio is Ok ==> (stat matches Err(e) ==> r matches Err(x) && x@ == e))
            &&& (field is None && prio is Ok && stat is Ok ==> (r matches Ok(t) && {
                let sched = creation_scheduled(*settings, chain, today as int, opt_view(scheduled));
                &&& t.title@ == crate::text::trimmed(title@)
                &&& opt_view(t.project_id) == Some(pid)
                &&& string_views(t.tags@) == creation_tags(*settings, chain, opt_strings_view(tags))
                &&& t.priority@ == prio->Ok_0
                &&& t.status@ == stat->Ok_0
                &&& opt_view(t.scheduled) == Some(sched)
                &&& opt_view(t.due) == creation_due(*settings, chain, opt_view(due), sched)
                &&& t.estimated_minutes == (match estimated_minutes {
                    Some(m) => Some(m),
                    None => match chain_default_estimate(chain, 0) {
                        Some(m) => Some(m),
                        None => settings.defaults.estimated_minutes,
                    },
                })
                &&& t.id@.len() > 0
                &&& t.series_id is None && t.subtask_project_id is None && !t.hidden
                &&& t.notes@.len() == 0 && t.tracked_minutes == 0
                &&& t.created@.len() > 0 && t.depends_on@.len() == 0 && t.order == 0
                &&& t.completed_at is None && t.cancelled_at is None
            }))
        }),
{
    let none_end: Option<String> = None;
    let title_t = check_new_task_fields(title.as_str(), &due, &scheduled, &none_end)?;
    let priority_v = choose_priority(settings, priority)?;
    let resolved_project_id = resolve_project_id(project_id, settings);
    let chain = crate::project_tree::self_and_ancestors(projects, resolved_project_id.as_str());
    let status_v = choose_status(settings, chain.as_slice(), status)?;
    let (final_tags, resolved_due, resolved_scheduled) =
        resolve_creation_defaults(settings, chain.as_slice(), today, tags, due, scheduled);
    let resolved_estimate = match estimated_minutes {
        Some(m) => Some(m),
        None => effective_default_estimated_minutes(&settings.defaults, chain.as_slice()),
    };
    let mut task = Task::new(title_t);
    task.status = status_v;
    apply_create_overrides(
        &mut task,
        Some(resolved_project_id),
        Some(final_tags),
        Some(priority_v),
        resolved_due,
        resolved_scheduled,
        resolved_estimate,
    );
    Ok(task)
}

/// The checks on an edited task: a non-empty trimmed title, date-shaped
/// due and scheduled dates, a scheduled date present, defined priority and
/// status ids.
pub open spec fn task_edit_problem(s: Settings, t: Task) -> Option<Seq<char>> {
    if crate::text::trimmed(t.title@).len() == 0 {
        Some("task title must not be empty"@)
    } else if t.due matches Some(d) && parsed_iso_date(d@) is None {
        Some(date_field_error("due"@))
    } else if t.scheduled matches Some(d) && parsed_iso_date(d@) is None {
        Some(date_field_error("scheduled"@))
    } else if t.scheduled is None {
        Some("scheduled date must not be empty"@)
    } else if !has_priority(s, t.priority@) {
        Some(crate::settings::priority_error(t.priority@))
    } else if !has_status(s, t.status@) {
        Some(crate::settings::status_error(t.status@))
    } else {
        None
    }
}

fn check_task_edit(settings: &Settings, task: &Task) -> (r: Result<String, String>)
    ensures
        match task_edit_problem(*settings, *task) {
            Some(e) => r matches Err(x) && x@ == e,
            None => r matches Ok(t) && t@ == crate::text::trimmed(task.title@),
        },
{
    let t = crate::text::trim(task.title.as_str());
    if t.as_str().unicode_len() == 0 {
        return Err(owned("task title must not be empty"));
    }
    proof {
        reveal_strlit("due");
        reveal_strlit("scheduled");
    }
    validate_date_field(&task.due, "due")?;
    validate_date_field(&task.scheduled, "scheduled")?;
    if task.scheduled.is_none() {
        return Err(owned("scheduled date must not be empty"));
    }
    validate_priority_id(settings, task.priority.as_str())?;
    validate_status_id(settings, task.status.as_str())?;
    Ok(t)
}

/// The stored task after an edit: the edit's editable fields (title
/// trimmed, project resolved) over the stored task.
pub open spec fn is_edited_task(u: Task, existing: Task, edit: Task, project_id: Seq<char>) -> bool {
    &&& u.title@ == crate::text::trimmed(edit.title@)
    &&& opt_view(u.project_id) == Some(project_id)
    &&& u.tags@ == edit.tags@ && u.priority == edit.priority && u.status == edit.status
    &&& u.due == edit.due && u.scheduled == edit.scheduled
    &&& u.estimated_minutes == edit.estimated_minutes && u.notes == edit.notes
    &&& u.id == existing.id && u.created == existing.created && u.depends_on@ == existing.depends_on@
    &&& u.tracked_minutes == existing.tracked_minutes && u.order == existing.order
    &&& u.series_id == existing.series_id && u.subtask_project_id == existing.subtask_project_id
    &&& u.hidden == existing.hidden && u.completed_at == existing.completed_at
    &&& u.cancelled_at == existing.cancelled_at
}

/// An edited task ready to be stored, with what the edit cascades to: the
/// task's subtask container synced to its title and project, and the
/// subtasks that inherit its attributes.
#[derive(Debug, Clone, PartialEq)]
pub struct TaskEditPlan {
    pub task: Task,
    pub container: Option<Project>,
    pub subtasks: Vec<Task>,
    pub finished: bool,
}

/// Plans an edit of a stored task: checks it (see [`task_edit_problem`]),
/// applies its editable fields to `existing` (see [`is_edited_task`]), and
/// when the task owns a subtask container, syncs that container and
/// cascades the task's tags (and dates, to non-recurring subtasks) to its
/// subtasks. `finished` says whether the task is now done or cancelled.
pub fn plan_task_update(
    settings: &Settings,
    projects: &[Project],
    tasks: &[Task],
    existing: Task,
    task: Task,
) -> (r: Result<TaskEditPlan, String>)
    ensures
        match task_edit_problem(*settings, task) {
            Some(e) => r matches Err(x) && x@ == e,
            None => r matches Ok(plan) && {
                let pid = match task.project_id { Some(p) => p@, None => settings.default_project_id@ };
                &&& is_edited_task(plan.task, existing, task, pid)
                &&& plan.finished == finished(plan.task, *settings)
                &&& is_edit_cascade(projects@, tasks@, plan.task, plan.container, plan.subtasks@)
            },
        },
{
    let title = check_task_edit(settings, &task)?;
    let project_id = resolve_project_id(copy_opt_string(&task.project_id), settings);
    let mut updated = existing;
    apply_task_update(&mut updated, title, project_id, task);
    let (container, subtasks) = edit_cascade(projects, tasks, &updated);
    let finished = is_finished(&updated, settings);
    Ok(TaskEditPlan { task: updated, container, subtasks, finished })
}

/// The project a task's subtask container sits under: the task's own
/// project (empty when it has none).
pub open spec fn container_parent(t: Task) -> Seq<char> {
    match t.project_id {
        Some(p) => p@,
        None => Seq::empty(),
    }
}

/// What an edit of task `t` cascades to when it owns a subtask container:
/// the container, renamed to the task's title and moved under the task's
/// project with its other fields kept (none when no project has its id),
/// and the subtasks that change by inheriting the task's attributes, in
/// order; nothing for a task without a container.
pub open spec fn is_edit_cascade(projects: Seq<Project>, tasks: Seq<Task>, t: Task, container: Option<Project>, subtasks: Seq<Task>) -> bool {
    match t.subtask_project_id {
        None => container is None && subtasks.len() == 0,
        Some(c) => {
            &&& match crate::project_tree::find_project(projects, c@) {
                None => container is None,
                Some(i) => container matches Some(p) && {
                    &&& p.name@ == t.title@
                    &&& opt_view(p.parent_id) == Some(container_parent(t))
                    &&& same_project(p, Project { name: p.name, parent_id: p.parent_id, ..projects[i] })
                },
            }
            &&& subtasks.len() == changed_subtasks(tasks, c@, t, tasks.len() as int).len()
            &&& forall|k: int| 0 <= k < subtasks.len() ==> inherits_from(
                changed_subtasks(tasks, c@, t, tasks.len() as int)[k], t, #[trigger] subtasks[k])
        },
    }
}

/// The container sync and subtask cascade of an edit of `updated` (see
/// [`is_edit_cascade`]).
fn edit_cascade(projects: &[Project], tasks: &[Task], updated: &Task) -> (r: (Option<Project>, Vec<Task>))
    ensures
        is_edit_cascade(projects@, tasks@, *updated, r.0, r.1@),
{
    let mut container: Option<Project> = None;
    let mut subtasks: Vec<Task> = Vec::new();
    if let Some(container_id) = &updated.subtask_project_id {
        let pid = match &updated.project_id {
            Some(p) => copy_string(p),
            None => String::new(),
        };
        container = synced_subtask_container(projects, container_id.as_str(), updated.title.as_str(), pid.as_str());
        subtasks = subtasks_with_inherited_attributes(tasks, container_id.as_str(), updated);
    }
    (container, subtasks)
}

} // verus!

verus! {

// ----- editing and deleting occurrences of a series -----

pub open spec fn scope_error() -> Seq<char> {
    "scope must be 'this' or 'future'"@
}

pub open spec fn valid_scope(scope: Seq<char>) -> bool {
    scope == "this"@ || scope == "future"@
}

/// The checks on an edit of an occurrence: those of any task edit, with the
/// scope checked before the priority and status.
pub open spec fn occurrence_edit_problem(s: Settings, t: Task, scope: Seq<char>) -> Option<Seq<char>> {
    if crate::text::trimmed(t.title@).len() == 0 {
        Some("task title must not be empty"@)
    } else if t.due matches Some(d) && parsed_iso_date(d@) is None {
        Some(date_field_error("due"@))
    } else if t.scheduled matches Some(d) && parsed_iso_date(d@) is None {
        Some(date_field_error("scheduled"@))
    } else if t.scheduled is None {
        Some("scheduled date must not be empty"@)
    } else if !valid_scope(scope) {
        Some(scope_error())
    } else if !has_priority(s, t.priority@) {
        Some(crate::settings::priority_error(t.priority@))
    } else if !has_status(s, t.status@) {
        Some(crate::settings::status_error(t.status@))
    } else {
        None
    }
}

fn check_scope(scope: &str) -> (r: Result<(), String>)
    ensures
        r is Ok <==> valid_scope(scope@),
        r matches Err(e) ==> e@ == scope_error(),
{
    if str_eq(scope, "this") || str_eq(scope, "future") {
        Ok(())
    } else {
        Err(owned("scope must be 'this' or 'future'"))
    }
}

/// Whether position `k` holds the first series with id `id`.
pub open spec fn is_first_series(list: Seq<crate::series::Series>, id: Seq<char>, k: int) -> bool {
    &&& 0 <= k < list.len()
    &&& list[k].id@ == id
    &&& forall|q: int| 0 <= q < k ==> (#[trigger] list[q]).id@ != id
}

fn find_series_index(list: &Vec<crate::series::Series>, id: &str) -> (r: Option<usize>)
    ensures
        match r {
            Some(k) => is_first_series(list@, id@, k as int),
            None => forall|q: int| 0 <= q < list@.len() ==> (#[trigger] list@[q]).id@ != id@,
        },
{
    let mut i: usize = 0;
    while i < list.len()
        invariant
            i <= list@.len(),
            forall|q: int| 0 <= q < i ==> (#[trigger] list@[q]).id@ != id@,
        decreases list.len() - i,
    {
        if str_eq(list[i].id.as_str(), id) {
            return Some(i);
        }
        i += 1;
    }
    None
}

pub open spec fn series_not_found_error(id: Seq<char>) -> Seq<char> {
    "series '"@ + id + "' not found"@
}

/// An edited occurrence ready to be stored, with the other occurrences it
/// reaches; for the `"future"` scope the series list holds the updated
/// template. For the `"this"` scope, `container` and `subtasks` are the
/// edit's cascade as for any task edit, and `finished` says whether the
/// task is now done or cancelled; the `"future"` scope cascades nothing.
#[derive(Debug, Clone, PartialEq)]
pub struct OccurrenceEditPlan {
    pub updated: Vec<Task>,
    pub container: Option<Project>,
    pub subtasks: Vec<Task>,
    pub finished: bool,
}

/// Plans an edit of an occurrence (see [`occurrence_edit_problem`]): with
/// scope `"this"` it is an ordinary task edit (see [`plan_task_update`]:
/// container sync and subtask cascade included) after which the task
/// leaves its series; with `"future"` the series template takes the edit's
/// template fields, and so does every other occurrence scheduled on or
/// after this one's date. Fails for `"future"` when the task belongs to no
/// series or its series is missing.
pub fn plan_occurrence_update(
    settings: &Settings,
    projects: &[Project],
    all_tasks: &[Task],
    all_series: &mut Vec<crate::series::Series>,
    existing: Task,
    task: Task,
    scope: &str,
) -> (r: Result<OccurrenceEditPlan, String>)
    ensures
        match occurrence_edit_problem(*settings, task, scope@) {
            Some(e) => r matches Err(x) && x@ == e && final(all_series)@ == old(all_series)@,
            None => {
                let pid = match task.project_id { Some(p) => p@, None => settings.default_project_id@ };
                if scope@ == "this"@ {
                    &&& r matches Ok(plan) && plan.updated@.len() == 1 && {
                        let edited = plan.updated@[0];
                        &&& is_edited_task(Task { series_id: existing.series_id, ..edited }, existing, task, pid)
                        &&& edited.series_id is None
                        &&& plan.finished == finished(edited, *settings)
                        &&& is_edit_cascade(projects@, all_tasks@, edited, plan.container, plan.subtasks@)
                    }
                    &&& final(all_series)@ == old(all_series)@
                } else {
                    match existing.series_id {
                        None => r matches Err(x) && x@ == "task is not part of a recurring series"@
                            && final(all_series)@ == old(all_series)@,
                        Some(sid) => if forall|q: int| 0 <= q < old(all_series)@.len() ==> (#[trigger] old(all_series)@[q]).id@ != sid@ {
                            r matches Err(x) && x@ == series_not_found_error(sid@) && final(all_series)@ == old(all_series)@
                        } else {
                            r matches Ok(plan) && {
                                let edited = plan.updated@[0];
                                let others = future_occurrences_upto(all_tasks@, sid@, Some(existing.id@),
                                    edited.scheduled->0@, all_tasks@.len() as int);
                                &&& is_edited_task(edited, existing, task, pid)
                                &&& plan.container is None && plan.subtasks@.len() == 0 && !plan.finished
                                &&& plan.updated@.len() == others.len() + 1
                                &&& forall|k: int| 0 <= k < others.len() ==> {
                                    let (u, o) = (#[trigger] plan.updated@[k + 1], others[k]);
                                    &&& u.title == edited.title && u.project_id == edited.project_id
                                    &&& u.priority == edited.priority && u.tags@ == edited.tags@
                                    &&& u.estimated_minutes == edited.estimated_minutes && u.notes == edited.notes
                                    &&& u.id == o.id && u.status == o.status && u.due == o.due
                                    &&& u.scheduled == o.scheduled && u.series_id == o.series_id
                                }
                                &&& final(all_series)@.len() == old(all_series)@.len()
                                &&& exists|k: int| is_first_series(old(all_series)@, sid@, k) && {
                                    let (n, o) = (final(all_series)@[k], old(all_series)@[k]);
                                    &&& n.title == edited.title && n.project_id == edited.project_id
                                    &&& n.priority == edited.priority && n.tags@ == edited.tags@
                                    &&& n.estimated_minutes == edited.estimated_minutes && n.notes == edited.notes
                                    &&& n.id == o.id && n.frequency == o.frequency && n.anchor_date == o.anchor_date
                                    &&& n.end_date == o.end_date && n.due_rule == o.due_rule
                                    &&& n.generated_until == o.generated_until && n.active == o.active
                                    &&& forall|q: int| 0 <= q < old(all_series)@.len() && q != k
                                        ==> final(all_series)@[q] == old(all_series)@[q]
                                }
                            }
                        },
                    }
                }
            },
        },
{
    let title = {
        let t = crate::text::trim(task.title.as_str());
        if t.as_str().unicode_len() == 0 {
            return Err(owned("task title must not be empty"));
        }
        proof {
            reveal_strlit("due");
            reveal_strlit("scheduled");
        }
        validate_date_field(&task.due, "due")?;
        validate_date_field(&task.scheduled, "scheduled")?;
        if task.scheduled.is_none() {
            return Err(owned("scheduled date must not be empty"));
        }
        check_scope(scope)?;
        validate_priority_id(settings, task.priority.as_str())?;
        validate_status_id(settings, task.status.as_str())?;
        t
    };
    let project_id = resolve_project_id(copy_opt_string(&task.project_id), settings);
    let series_id = copy_opt_string(&existing.series_id);
    let mut edited = existing;
    apply_task_update(&mut edited, title, project_id, task);
    if str_eq(scope, "this") {
        edited.series_id = None;
        let (container, subtasks) = edit_cascade(projects, all_tasks, &edited);
        let finished = is_finished(&edited, settings);
        let mut updated: Vec<Task> = Vec::new();
        updated.push(edited);
        return Ok(OccurrenceEditPlan { updated, container, subtasks, finished });
    }
    let sid = match series_id {
        None => return Err(owned("task is not part of a recurring series")),
        Some(s) => s,
    };
    let scheduled = match &edited.scheduled {
        Some(s) => copy_string(s),
        None => String::new(),
    };
    let k = match find_series_index(all_series, sid.as_str()) {
        None => return Err(concat3("series '", sid.as_str(), "' not found")),
        Some(k) => k,
    };
    let ghost before = all_series@;
    let mut series = all_series.remove(k);
    apply_series_template_update(&mut series, &edited);
    all_series.insert(k, series);
    proof {
        assert(all_series@ =~= before.update(k as int, series));
    }
    let others = future_occurrences(all_tasks, sid.as_str(), Some(edited.id.as_str()), scheduled.as_str());
    let mut updated: Vec<Task> = Vec::new();
    updated.push(copy_task(&edited));
    let mut j: usize = 0;
    while j < others.len()
        invariant
            j <= others@.len(),
            updated@.len() == j + 1,
            same_task(updated@[0], edited),
            forall|q: int| 0 <= q < j ==> {
                let (u, o) = (#[trigger] updated@[q + 1], *others@[q]);
                &&& u.title == edited.title && u.project_id == edited.project_id
                &&& u.priority == edited.priority && u.tags@ == edited.tags@
                &&& u.estimated_minutes == edited.estimated_minutes && u.notes == edited.notes
                &&& u.id == o.id && u.status == o.status && u.due == o.due
                &&& u.scheduled == o.scheduled && u.series_id == o.series_id
            },
        decreases others.len() - j,
    {
        let mut o = copy_task(others[j]);
        apply_template_to_occurrence(&mut o, &edited);
        updated.push(o);
        j += 1;
    }
    Ok(OccurrenceEditPlan { updated, container: None, subtasks: Vec::new(), finished: false })
}

/// What deleting an occurrence removes: the ids of the tasks to delete
/// and, for a `"future"` deletion, the new end date of the series (the day
/// before the occurrence's date, when that parses).
#[derive(Debug, Clone, PartialEq)]
pub struct OccurrenceDeletePlan {
    pub delete_ids: Vec<String>,
    pub series_id: Option<String>,
    pub new_end_date: Option<String>,
}

/// Plans deleting an occurrence: `"this"` deletes just it; `"future"`
/// deletes it and every occurrence of its series scheduled on or after its
/// date, and caps the series the day before (a task outside a series, or
/// without a scheduled date, is just deleted).
pub fn plan_occurrence_delete(task: &Task, all_tasks: &[Task], scope: &str) -> (r: Result<OccurrenceDeletePlan, String>)
    ensures
        !valid_scope(scope@) ==> (r matches Err(e) && e@ == scope_error()),
        valid_scope(scope@) ==> (r matches Ok(plan) && {
            if scope@ == "this"@ || task.series_id is None || task.scheduled is None {
                string_views(plan.delete_ids@) == seq![task.id@] && plan.series_id is None
            } else {
                let sid = task.series_id->0@;
                let cutoff = task.scheduled->0@;
                let doomed = future_occurrences_upto(all_tasks@, sid, None, cutoff, all_tasks@.len() as int);
                &&& plan.delete_ids@.len() == doomed.len()
                &&& forall|k: int| 0 <= k < doomed.len() ==> (#[trigger] plan.delete_ids@[k]) == doomed[k].id
                &&& opt_view(plan.series_id) == Some(sid)
                &&& opt_view(plan.new_end_date) == (match parsed_iso_date(cutoff) {
                    Some(d) => if is_valid_day(d - 1) { Some(formatted_iso_date(d - 1)) } else { None },
                    None => None,
                })
            }
        }),
{
    check_scope(scope)?;
    let single = str_eq(scope, "this") || task.series_id.is_none() || task.scheduled.is_none();
    if single {
        let mut ids: Vec<String> = Vec::new();
        ids.push(copy_string(&task.id));
        assert(string_views(ids@) =~= seq![task.id@]);
        return Ok(OccurrenceDeletePlan { delete_ids: ids, series_id: None, new_end_date: None });
    }
    let sid = match &task.series_id {
        Some(s) => s,
        None => return Err(owned("task is not part of a recurring series")),
    };
    let cutoff = match &task.scheduled {
        Some(s) => s,
        None => return Err(owned("scheduled date must not be empty")),
    };
    let doomed = future_occurrences(all_tasks, sid.as_str(), None, cutoff.as_str());
    let mut ids: Vec<String> = Vec::new();
    let mut k: usize = 0;
    while k < doomed.len()
        invariant
            k <= doomed@.len(),
            ids@.len() == k,
            forall|q: int| 0 <= q < k ==> (#[trigger] ids@[q]) == doomed@[q].id,
        decreases doomed.len() - k,
    {
        ids.push(copy_string(&doomed[k].id));
        k += 1;
    }
    let new_end = match parse_iso_date(cutoff.as_str()) {
        Some(d) => match crate::dates::add_days(d, -1) {
            Some(p) => Some(format_iso_date(p)),
            None => None,
        },
        None => None,
    };
    Ok(OccurrenceDeletePlan { delete_ids: ids, series_id: Some(copy_string(sid)), new_end_date: new_end })
}

} // verus!

verus! {

// ----- changing or removing a series' recurrence -----

/// Whether position `k` holds the first series named by one of `ids`.
pub open spec fn first_of_some(list: Seq<crate::series::Series>, ids: Seq<Seq<char>>, k: int) -> bool {
    exists|j: int| 0 <= j < ids.len() && is_first_series(list, #[trigger] ids[j], k)
}

fn deactivate_series(all_series: &mut Vec<crate::series::Series>, id: &str)
    ensures
        final(all_series)@.len() == old(all_series)@.len(),
        forall|k: int| 0 <= k < old(all_series)@.len() ==> {
            let (n, o) = (#[trigger] final(all_series)@[k], old(all_series)@[k]);
            n == crate::series::Series { active: n.active, ..o }
                && n.active == (o.active && !is_first_series(old(all_series)@, id@, k))
        },
{
    if let Some(k) = find_series_index(all_series, id) {
        let ghost before = all_series@;
        let mut s = all_series.remove(k);
        s.active = false;
        all_series.insert(k, s);
        proof {
            assert(all_series@ =~= before.update(k as int, s));
            assert forall|q: int| 0 <= q < before.len() && q != k implies !is_first_series(before, id@, q) by {
                if q > k {
                    assert(before[k as int].id@ == id@);
                }
            }
        }
    }
}

/// Stops a series and every subtask series linked to it (see
/// [`linked_subtask_series_ids`]) from generating further occurrences.
/// Fails when the task belongs to no series or its series is missing; on
/// success exactly the first series of each of those ids becomes inactive.
pub fn plan_remove_recurrence(
    task: &Task,
    all_tasks: &[Task],
    all_series: &mut Vec<crate::series::Series>,
) -> (r: Result<(), String>)
    ensures
        match task.series_id {
            None => r matches Err(e) && e@ == "task is not part of a recurring series"@ && final(all_series)@ == old(all_series)@,
            Some(sid) => if forall|q: int| 0 <= q < old(all_series)@.len() ==> (#[trigger] old(all_series)@[q]).id@ != sid@ {
                r matches Err(e) && e@ == series_not_found_error(sid@) && final(all_series)@ == old(all_series)@
            } else {
                let stop = seq![sid@] + linked_ids_upto(all_tasks@, sid@, all_tasks@.len() as int);
                &&& r is Ok
                &&& final(all_series)@.len() == old(all_series)@.len()
                &&& forall|k: int| 0 <= k < old(all_series)@.len() ==> {
                    let (n, o) = (#[trigger] final(all_series)@[k], old(all_series)@[k]);
                    n == crate::series::Series { active: n.active, ..o }
                        && n.active == (o.active && !first_of_some(old(all_series)@, stop, k))
                }
            },
        },
{
    let sid = match &task.series_id {
        None => return Err(owned("task is not part of a recurring series")),
        Some(s) => s,
    };
    if find_series_index(all_series, sid.as_str()).is_none() {
        return Err(concat3("series '", sid.as_str(), "' not found"));
    }
    let linked = linked_subtask_series_ids(all_tasks, sid.as_str());
    let ghost initial = all_series@;
    let ghost stop = seq![sid@] + string_views(linked@);
    deactivate_series(all_series, sid.as_str());
    proof {
        assert forall|k: int| 0 <= k < initial.len() implies
            first_of_some(initial, stop.subrange(0, 1), k) == is_first_series(initial, sid@, k) by {
            let sub = stop.subrange(0, 1);
            assert(sub[0] == sid@);
            if first_of_some(initial, sub, k) {
                let w = choose|w: int| 0 <= w < sub.len() && is_first_series(initial, #[trigger] sub[w], k);
                assert(w == 0);
            }
        }
    }
    let mut j: usize = 0;
    while j < linked.len()
        invariant
            j <= linked@.len(),
            stop == seq![sid@] + string_views(linked@),
            all_series@.len() == initial.len(),
            forall|k: int| 0 <= k < initial.len() ==> {
                let (n, o) = (#[trigger] all_series@[k], initial[k]);
                n == crate::series::Series { active: n.active, ..o }
                    && n.active == (o.active && !first_of_some(initial, stop.subrange(0, j + 1), k))
            },
        decreases linked.len() - j,
    {
        let ghost mid = all_series@;
        deactivate_series(all_series, linked[j].as_str());
        proof {
            assert forall|k: int| 0 <= k < initial.len() implies {
                let (n, o) = (#[trigger] all_series@[k], initial[k]);
                n == crate::series::Series { active: n.active, ..o }
                    && n.active == (o.active && !first_of_some(initial, stop.subrange(0, j + 2), k))
            } by {
                let sub1 = stop.subrange(0, j + 1);
                let sub2 = stop.subrange(0, j + 2);
                assert(stop[j + 1] == linked@[j as int]@);
                assert(mid[k].id == initial[k].id);
                if first_of_some(initial, sub2, k) && !first_of_some(initial, sub1, k) {
                    let w = choose|w: int| 0 <= w < sub2.len() && is_first_series(initial, #[trigger] sub2[w], k);
                    if w < j + 1 {
                        assert(sub1[w] == sub2[w]);
                    }
                    assert forall|q: int| 0 <= q < k implies (#[trigger] mid[q]).id@ != linked@[j as int]@ by {
                        assert(mid[q].id == initial[q].id);
                    }
                    assert(is_first_series(mid, linked@[j as int]@, k));
                }
                if is_first_series(mid, linked@[j as int]@, k) {
                    assert forall|q: int| 0 <= q < k implies (#[trigger] initial[q]).id@ != linked@[j as int]@ by {
                        assert(mid[q].id == initial[q].id);
                    }
                    assert(is_first_series(initial, sub2[j + 1], k));
                }
                if first_of_some(initial, sub1, k) {
                    let w = choose|w: int| 0 <= w < sub1.len() && is_first_series(initial, #[trigger] sub1[w], k);
                    assert(sub2[w] == sub1[w]);
                }
            }
        }
        j += 1;
    }
    proof {
        assert(stop.subrange(0, j + 1) == stop);
    }
    Ok(())
}

} // verus!

verus! {

/// The series after a recurrence change: the new frequency, due rule and
/// end date over the old series.
pub open spec fn changed_series(
    old_series: crate::series::Series,
    frequency: crate::series::RecurrenceFrequency,
    due_rule: crate::series::DueRule,
    end_date: Option<String>,
) -> crate::series::Series {
    crate::series::Series { frequency, due_rule, end_date, ..old_series }
}

/// Whether task `t` is scheduled on a date on or after day `cutoff`.
pub open spec fn scheduled_from(t: Task, cutoff: int) -> bool {
    exists|d: int| d >= cutoff && opt_view(t.scheduled) == Some(#[trigger] formatted_iso_date(d))
}

/// Whether `id` is the id of one of `tasks` that is an occurrence of
/// series `sid` scheduled on or after `cutoff` (as text).
pub open spec fn is_stale_occurrence_id(tasks: Seq<Task>, id: String, sid: Seq<char>, cutoff: Seq<char>) -> bool {
    exists|t: Task| #[trigger] tasks.contains(t) && t.id == id && is_future_occurrence(t, sid, None, cutoff)
}

proof fn lemma_future_occurrences_are_tasks(tasks: Seq<Task>, sid: Seq<char>, ex: Option<Seq<char>>, c: Seq<char>, n: int)
    requires
        0 <= n <= tasks.len(),
    ensures
        forall|k: int| 0 <= k < future_occurrences_upto(tasks, sid, ex, c, n).len() ==> {
            let t = #[trigger] future_occurrences_upto(tasks, sid, ex, c, n)[k];
            tasks.contains(t) && is_future_occurrence(t, sid, ex, c)
        },
    decreases n,
{
    if n > 0 {
        lemma_future_occurrences_are_tasks(tasks, sid, ex, c, n - 1);
        let rest = future_occurrences_upto(tasks, sid, ex, c, n - 1);
        let all = future_occurrences_upto(tasks, sid, ex, c, n);
        assert forall|k: int| 0 <= k < all.len() implies tasks.contains(#[trigger] all[k])
            && is_future_occurrence(all[k], sid, ex, c) by {
            if k < rest.len() {
                assert(all[k] == rest[k]);
            } else {
                assert(all[k] == tasks[n - 1]);
                assert(tasks[n - 1] == tasks[n - 1]);
            }
        }
    }
}

/// The project chain a series' occurrences take their default status from.
pub open spec fn series_chain_of(projects: Seq<Project>, s: crate::series::Series) -> Seq<Project> {
    match s.project_id {
        Some(pid) => chain_of(projects, pid@),
        None => Seq::empty(),
    }
}

/// The dates a recurrence change of series `o` generates from cutoff `c`:
/// those of the changed series after the day before the cutoff, through
/// the lookahead.
pub open spec fn change_dates(
    o: crate::series::Series,
    f: crate::series::RecurrenceFrequency,
    d: crate::series::DueRule,
    e: Option<String>,
    c: int,
) -> Seq<i32> {
    crate::recurrence::series_dates(changed_series(o, f, d, e), c - 1, c + RECURRENCE_BASELINE_LOOKAHEAD_DAYS)
}

/// Whether a recurrence change from cutoff `c` re-creates the anchor's own
/// occurrence: the cutoff is the anchor and the new rule matches it.
pub open spec fn change_recreates_anchor(o: crate::series::Series, f: crate::series::RecurrenceFrequency, c: int) -> bool {
    let anchor = parsed_iso_date(o.anchor_date@)->0;
    c == anchor && crate::recurrence::anchor_matches(f, anchor)
}

/// The ids a recurrence change of series `o` from cutoff `c` deletes: its
/// stored occurrences on or after the cutoff, in order.
pub open spec fn change_stale(tasks: Seq<Task>, o: crate::series::Series, c: int) -> Seq<String> {
    future_occurrences_upto(tasks, o.id@, None, formatted_iso_date(c), tasks.len() as int).map_values(|t: Task| t.id)
}

/// Whether `created` is what a recurrence change of series `o` from cutoff
/// `c` creates: the anchor's occurrence when it is re-created, then one
/// occurrence of the changed series per generated date, in order.
pub open spec fn change_created(
    created: Seq<Task>,
    projects: Seq<Project>,
    settings: Settings,
    o: crate::series::Series,
    f: crate::series::RecurrenceFrequency,
    d: crate::series::DueRule,
    e: Option<String>,
    c: int,
) -> bool {
    let changed = changed_series(o, f, d, e);
    let status = default_status_spec(settings, series_chain_of(projects, changed));
    let dates = change_dates(o, f, d, e, c);
    let off: int = if change_recreates_anchor(o, f, c) { 1 } else { 0 };
    &&& created.len() == dates.len() + off
    &&& change_recreates_anchor(o, f, c) ==> is_occurrence_task(created[0], changed, status, parsed_iso_date(o.anchor_date@)->0)
    &&& forall|k: int| 0 <= k < dates.len() ==> is_occurrence_task(created[k + off], changed, status, #[trigger] dates[k] as int)
}

/// The watermark a recurrence change of series `o` from cutoff `c` leaves:
/// the last generated date, else the lookahead clamped to the end date,
/// never before the day before the cutoff.
pub open spec fn change_watermark(
    o: crate::series::Series,
    f: crate::series::RecurrenceFrequency,
    d: crate::series::DueRule,
    e: Option<String>,
    c: int,
) -> int {
    next_watermark(change_dates(o, f, d, e, c),
        effective_horizon(changed_series(o, f, d, e), c + RECURRENCE_BASELINE_LOOKAHEAD_DAYS), c - 1)
}

proof fn lemma_same_frequency_occurrences(
    a: crate::series::RecurrenceFrequency,
    b: crate::series::RecurrenceFrequency,
    anchor: int,
    lo: int,
    hi: int,
)
    requires
        same_frequency(a, b),
    ensures
        crate::recurrence::occurrences(a, anchor, lo, hi) == crate::recurrence::occurrences(b, anchor, lo, hi),
        crate::recurrence::anchor_matches(a, anchor) == crate::recurrence::anchor_matches(b, anchor),
        crate::recurrence::anchor_usable(a, anchor) == crate::recurrence::anchor_usable(b, anchor),
    decreases hi - lo,
{
    if hi > lo {
        lemma_same_frequency_occurrences(a, b, anchor, lo, hi - 1);
        assert(crate::recurrence::multiplicity(a, anchor, hi) == crate::recurrence::multiplicity(b, anchor, hi)) by {
            match (a, b) {
                (crate::series::RecurrenceFrequency::Weekly { weekdays: w1, interval_weeks: i1 },
                 crate::series::RecurrenceFrequency::Weekly { weekdays: w2, interval_weeks: i2 }) => {
                    assert(w1@ == w2@);
                },
                _ => {},
            }
        }
    }
    match (a, b) {
        (crate::series::RecurrenceFrequency::Weekly { weekdays: w1, interval_weeks: i1 },
         crate::series::RecurrenceFrequency::Weekly { weekdays: w2, interval_weeks: i2 }) => {
            assert(w1@ == w2@);
        },
        _ => {},
    }
}

/// A recurrence change's outcome depends on the series' id, anchor,
/// template fields and project alone, and on the frequency only up to
/// [`same_frequency`].
proof fn lemma_change_transfer(
    tasks: Seq<Task>,
    projects: Seq<Project>,
    settings: Settings,
    o1: crate::series::Series,
    o2: crate::series::Series,
    f1: crate::series::RecurrenceFrequency,
    f2: crate::series::RecurrenceFrequency,
    d: crate::series::DueRule,
    e: Option<String>,
    c: int,
    created: Seq<Task>,
)
    requires
        same_frequency(f1, f2),
        o2 == (crate::series::Series {
            frequency: o2.frequency,
            generated_until: o2.generated_until,
            due_rule: o2.due_rule,
            end_date: o2.end_date,
            ..o1
        }),
    ensures
        change_stale(tasks, o2, c) == change_stale(tasks, o1, c),
        change_dates(o2, f2, d, e, c) == change_dates(o1, f1, d, e, c),
        change_recreates_anchor(o2, f2, c) == change_recreates_anchor(o1, f1, c),
        change_watermark(o2, f2, d, e, c) == change_watermark(o1, f1, d, e, c),
        change_created(created, projects, settings, o1, f1, d, e, c)
            ==> change_created(created, projects, settings, o2, f2, d, e, c),
{
    let c1 = changed_series(o1, f1, d, e);
    let c2 = changed_series(o2, f2, d, e);
    if let Some(anchor) = parsed_iso_date(o1.anchor_date@) {
        let end = match e {
            Some(x) => parsed_iso_date(x@),
            None => None,
        };
        let hi = match end {
            Some(x) => crate::recurrence::min_int(c + RECURRENCE_BASELINE_LOOKAHEAD_DAYS, x),
            None => c + RECURRENCE_BASELINE_LOOKAHEAD_DAYS,
        };
        lemma_same_frequency_occurrences(f1, f2, anchor, crate::recurrence::max_int(c - 1, anchor), hi);
    }
    assert(change_dates(o2, f2, d, e, c) == change_dates(o1, f1, d, e, c));
    if change_created(created, projects, settings, o1, f1, d, e, c) {
        let dates = change_dates(o1, f1, d, e, c);
        let off: int = if change_recreates_anchor(o1, f1, c) { 1 } else { 0 };
        let status = default_status_spec(settings, series_chain_of(projects, c1));
        assert(series_chain_of(projects, c1) == series_chain_of(projects, c2));
        assert forall|k: int| 0 <= k < dates.len() implies is_occurrence_task(created[k + off], c2, status, #[trigger] dates[k] as int) by {
            assert(is_occurrence_task(created[k + off], c1, status, dates[k] as int));
        }
    }
}

/// What a recurrence change removes and creates: the ids of the
/// occurrences to delete and the new occurrences, in date order.
#[derive(Debug, Clone, PartialEq)]
pub struct RecurrenceChangePlan {
    pub stale_ids: Vec<String>,
    pub created: Vec<Task>,
}

/// Changes one series' recurrence from `cutoff_date` on: sets the new
/// frequency, due rule and end date (which must validate), drops every
/// occurrence scheduled on or after the cutoff, re-creates the anchor's own
/// occurrence when the cutoff is the anchor and it satisfies the new rule,
/// moves the watermark to the day before the cutoff and generates sixty
/// days from there.
pub fn plan_recurrence_change(
    settings: &Settings,
    projects: &[Project],
    all_tasks: &[Task],
    series: &mut crate::series::Series,
    cutoff_date: i32,
    frequency: crate::series::RecurrenceFrequency,
    due_rule: crate::series::DueRule,
    end_date: Option<String>,
) -> (r: Result<RecurrenceChangePlan, String>)
    requires
        is_valid_day(cutoff_date as int),
    ensures
        ({
            let changed = changed_series(*old(series), frequency, due_rule, end_date);
            let chain = match changed.project_id {
                Some(pid) => chain_of(projects@, pid@),
                None => Seq::empty(),
            };
            let cutoff = cutoff_date as int;
            if crate::series::series_problem(changed) is Some {
                r matches Err(e) && Some(e@) == crate::series::series_problem(changed)
            } else if parsed_iso_date(changed.anchor_date@) is None {
                r is Err
            } else if !is_valid_day(cutoff - 1) || !is_valid_day(cutoff + RECURRENCE_BASELINE_LOOKAHEAD_DAYS) {
                r matches Err(e) && e@ == "cutoff date is out of range"@
            } else {
                r matches Ok(plan) && {
                    let anchor = parsed_iso_date(changed.anchor_date@)->0;
                    let first = cutoff == anchor && crate::recurrence::anchor_matches(frequency, anchor);
                    let off: int = if first { 1 } else { 0 };
                    let watermarked = crate::series::Series { generated_until: final(series).generated_until, ..changed };
                    let previous = cutoff - 1;
                    let dates = crate::recurrence::series_dates(watermarked, previous, cutoff + RECURRENCE_BASELINE_LOOKAHEAD_DAYS);
                    let stale = future_occurrences_upto(all_tasks@, changed.id@, None, formatted_iso_date(cutoff), all_tasks@.len() as int);
                    &&& plan.stale_ids@.len() == stale.len()
                    &&& forall|k: int| 0 <= k < stale.len() ==> (#[trigger] plan.stale_ids@[k]) == stale[k].id
                    &&& plan.created@.len() == dates.len() + off
                    &&& first ==> is_occurrence_task(plan.created@[0], changed, default_status_spec(*settings, chain), anchor)
                    &&& forall|k: int| 0 <= k < dates.len() ==> is_occurrence_task(plan.created@[k + off], watermarked,
                        default_status_spec(*settings, chain), #[trigger] dates[k] as int)
                    &&& final(series).generated_until@ == formatted_iso_date(next_watermark(dates,
                        effective_horizon(watermarked, cutoff + RECURRENCE_BASELINE_LOOKAHEAD_DAYS), previous))
                    &&& *final(series) == crate::series::Series { generated_until: final(series).generated_until, ..changed }
                    &&& forall|k: int| 0 <= k < plan.created@.len() ==>
                        opt_view((#[trigger] plan.created@[k]).series_id) == Some(old(series).id@)
                            && scheduled_from(plan.created@[k], cutoff)
                    &&& forall|k: int| 0 <= k < plan.stale_ids@.len() ==>
                        is_stale_occurrence_id(all_tasks@, #[trigger] plan.stale_ids@[k], old(series).id@, formatted_iso_date(cutoff))
                    &&& plan.stale_ids@ == change_stale(all_tasks@, *old(series), cutoff)
                    &&& change_created(plan.created@, projects@, *settings, *old(series), frequency, due_rule, end_date, cutoff)
                    &&& final(series).generated_until@
                        == formatted_iso_date(change_watermark(*old(series), frequency, due_rule, end_date, cutoff))
                }
            }
        }),
{
    series.frequency = frequency;
    series.due_rule = due_rule;
    series.end_date = end_date;
    crate::series::validate_series(series)?;
    let chain: Vec<&Project> = match &series.project_id {
        Some(pid) => crate::project_tree::self_and_ancestors(projects, pid.as_str()),
        None => Vec::new(),
    };
    proof {
        assert(refs_view(chain@) =~= (match series.project_id {
            Some(pid) => chain_of(projects@, pid@),
            None => Seq::empty(),
        }));
    }
    let cutoff_text = format_iso_date(cutoff_date);
    let stale = future_occurrences(all_tasks, series.id.as_str(), None, cutoff_text.as_str());
    let mut stale_ids: Vec<String> = Vec::new();
    let mut k: usize = 0;
    while k < stale.len()
        invariant
            k <= stale@.len(),
            stale_ids@.len() == k,
            forall|q: int| 0 <= q < k ==> (#[trigger] stale_ids@[q]) == stale@[q].id,
        decreases stale.len() - k,
    {
        stale_ids.push(copy_string(&stale[k].id));
        k += 1;
    }
    let anchor = crate::dates::parse_iso_date_described(series.anchor_date.as_str())?;
    let mut created: Vec<Task> = Vec::new();
    if cutoff_date == anchor && crate::recurrence::anchor_matches_frequency(&series.frequency, anchor) {
        created.push(build_series_occurrence(series, settings, chain.as_slice(), anchor));
    }
    assert(created@.len() <= 1);
    assert(created@.len() == 1 ==> cutoff_date == anchor
        && opt_view(created@[0].scheduled) == Some(formatted_iso_date(anchor as int))
        && opt_view(created@[0].series_id) == Some(old(series).id@));
    let watermark = match crate::dates::add_days(cutoff_date, -1) {
        Some(w) => w,
        None => return Err(owned("cutoff date is out of range")),
    };
    let horizon = match crate::dates::add_days(cutoff_date, RECURRENCE_BASELINE_LOOKAHEAD_DAYS) {
        Some(h) => h,
        None => return Err(owned("cutoff date is out of range")),
    };
    series.generated_until = format_iso_date(watermark);
    let ghost before_gen = *series;
    let ghost head = created@;
    let mut generated = generate_series_occurrences(settings, chain.as_slice(), series, horizon)?;
    let ghost gen = generated@;
    created.append(&mut generated);
    proof {
        let dates = crate::recurrence::series_dates(before_gen, watermark as int, horizon as int);
        crate::recurrence::lemma_series_dates_in_window(before_gen, watermark as int, horizon as int);
        assert forall|k: int| 0 <= k < created@.len() implies
            opt_view((#[trigger] created@[k]).series_id) == Some(old(series).id@)
                && scheduled_from(created@[k], cutoff_date as int) by {
            if k < head.len() {
                assert(created@[k] == head[k]);
                assert(opt_view(head[k].scheduled) == Some(formatted_iso_date(cutoff_date as int)));
            } else {
                let j = k - head.len();
                assert(created@[k] == gen[j]);
                assert(is_occurrence_task(gen[j], before_gen,
                    default_status_spec(*settings, refs_view(chain@)), dates[j] as int));
                assert(watermark < dates[j]);
                assert(opt_view(gen[j].scheduled) == Some(formatted_iso_date(dates[j] as int)));
            }
        }
        let n = all_tasks@.len() as int;
        let fo = future_occurrences_upto(all_tasks@, old(series).id@, None, cutoff_text@, n);
        lemma_future_occurrences_are_tasks(all_tasks@, old(series).id@, None, cutoff_text@, n);
        assert forall|k: int| 0 <= k < stale_ids@.len() implies
            is_stale_occurrence_id(all_tasks@, #[trigger] stale_ids@[k], old(series).id@, formatted_iso_date(cutoff_date as int)) by {
            assert(task_refs_view(stale@)[k] == fo[k]);
            assert(all_tasks@.contains(fo[k]) && fo[k].id == stale_ids@[k]);
        }
    }
    Ok(RecurrenceChangePlan { stale_ids, created })
}

} // verus!

verus! {

/// Whether two frequencies are the same rule (weekday lists compared by
/// contents).
pub open spec fn same_frequency(a: crate::series::RecurrenceFrequency, b: crate::series::RecurrenceFrequency) -> bool {
    match (a, b) {
        (crate::series::RecurrenceFrequency::Weekly { weekdays: w1, interval_weeks: i1 },
         crate::series::RecurrenceFrequency::Weekly { weekdays: w2, interval_weeks: i2 }) => w1@ == w2@ && i1 == i2,
        _ => a == b,
    }
}

/// A copy of a recurrence frequency.
pub fn copy_frequency(f: &crate::series::RecurrenceFrequency) -> (r: crate::series::RecurrenceFrequency)
    ensures
        same_frequency(r, *f),
{
    match f {
        crate::series::RecurrenceFrequency::EveryNDays { interval } =>
            crate::series::RecurrenceFrequency::EveryNDays { interval: *interval },
        crate::series::RecurrenceFrequency::Weekly { weekdays, interval_weeks } => {
            let mut w: Vec<u8> = Vec::new();
            let mut i: usize = 0;
            while i < weekdays.len()
                invariant
                    i <= weekdays@.len(),
                    w@ == weekdays@.subrange(0, i as int),
                decreases weekdays.len() - i,
            {
                w.push(weekdays[i]);
                proof {
                    assert(w@ =~= weekdays@.subrange(0, i + 1));
                }
                i += 1;
            }
            assert(w@ =~= weekdays@);
            crate::series::RecurrenceFrequency::Weekly { weekdays: w, interval_weeks: *interval_weeks }
        },
        crate::series::RecurrenceFrequency::MonthlyByDay { day } =>
            crate::series::RecurrenceFrequency::MonthlyByDay { day: *day },
    }
}

/// A copy of a due rule.
pub fn copy_due_rule(d: &crate::series::DueRule) -> (r: crate::series::DueRule)
    ensures
        r == *d,
{
    match d {
        crate::series::DueRule::Never => crate::series::DueRule::Never,
        crate::series::DueRule::DefaultCode { code } => crate::series::DueRule::DefaultCode { code: copy_string(code) },
        crate::series::DueRule::AfterScheduled { days } => crate::series::DueRule::AfterScheduled { days: *days },
        crate::series::DueRule::Weekday { weekday, interval_weeks } =>
            crate::series::DueRule::Weekday { weekday: *weekday, interval_weeks: *interval_weeks },
    }
}

/// The checks of a recurrence change before any series is touched: a
/// date-shaped cutoff and end date, an end date not before the cutoff, an
/// existing and still active series.
pub open spec fn recurrence_update_problem(
    all_series: Seq<crate::series::Series>,
    series_id: Seq<char>,
    cutoff: Seq<char>,
    end_date: Option<Seq<char>>,
) -> Option<Seq<char>> {
    if parsed_iso_date(cutoff) is None {
        Some("cutoff must be a valid date in YYYY-MM-DD format"@)
    } else if end_date matches Some(e) && parsed_iso_date(e) is None {
        Some(date_field_error("end date"@))
    } else if end_date matches Some(e) && parsed_iso_date(e)->0 < parsed_iso_date(cutoff)->0 {
        Some("end date must be on or after the cutoff date"@)
    } else if forall|q: int| 0 <= q < all_series.len() ==> (#[trigger] all_series[q]).id@ != series_id {
        Some(series_not_found_error(series_id))
    } else if !all_series[choose|k: int| is_first_series(all_series, series_id, k)].active {
        Some("this series' recurrence has been removed and can no longer be edited"@)
    } else {
        None
    }
}

proof fn lemma_first_series_exists(list: Seq<crate::series::Series>, id: Seq<char>)
    requires
        exists|q: int| 0 <= q < list.len() && (#[trigger] list[q]).id@ == id,
    ensures
        exists|k: int| is_first_series(list, id, k),
    decreases list.len(),
{
    let last = list.len() - 1;
    if exists|q: int| 0 <= q < last && (#[trigger] list[q]).id@ == id {
        let shorter = list.subrange(0, last);
        assert(exists|q: int| 0 <= q < shorter.len() && (#[trigger] shorter[q]).id@ == id) by {
            let q = choose|q: int| 0 <= q < last && (#[trigger] list[q]).id@ == id;
            assert(shorter[q] == list[q]);
        }
        lemma_first_series_exists(shorter, id);
        let k = choose|k: int| is_first_series(shorter, id, k);
        assert forall|q: int| 0 <= q < k implies (#[trigger] list[q]).id@ != id by {
            assert(shorter[q] == list[q]);
        }
        assert(is_first_series(list, id, k));
    } else {
        assert(list[last].id@ == id);
        assert(is_first_series(list, id, last));
    }
}

/// Whether series `q` of `list` is changed by a recurrence edit of
/// `series_id`: the first series with that id, or, for each linked id, the
/// first series with it when that one is active.
pub open spec fn edited_series(list: Seq<crate::series::Series>, series_id: Seq<char>, linked: Seq<Seq<char>>, q: int) -> bool {
    &&& 0 <= q < list.len()
    &&& (is_first_series(list, series_id, q)
        || (list[q].active && linked.contains(list[q].id@) && is_first_series(list, list[q].id@, q)))
}

/// Series `n` is series `o` with the new frequency, due rule and end date
/// (and a moved watermark); its anchor, id and everything else are kept.
pub open spec fn recurrence_changed(
    n: crate::series::Series,
    o: crate::series::Series,
    frequency: crate::series::RecurrenceFrequency,
    due_rule: crate::series::DueRule,
    end_date: Option<String>,
) -> bool {
    &&& same_frequency(n.frequency, frequency)
    &&& n == (crate::series::Series {
        frequency: n.frequency,
        generated_until: n.generated_until,
        ..changed_series(o, frequency, due_rule, end_date)
    })
}

/// Whether task `t` is an occurrence of one of the edited series.
pub open spec fn of_edited_series(t: Task, list: Seq<crate::series::Series>, series_id: Seq<char>, linked: Seq<Seq<char>>) -> bool {
    exists|q: int| #[trigger] edited_series(list, series_id, linked, q) && opt_view(t.series_id) == Some(list[q].id@)
}

/// Whether `id` names a stored occurrence of one of the edited series on
/// or after `cutoff`.
pub open spec fn stale_of_edited(tasks: Seq<Task>, id: String, list: Seq<crate::series::Series>, series_id: Seq<char>,
    linked: Seq<Seq<char>>, cutoff: Seq<char>) -> bool {
    exists|q: int| #[trigger] edited_series(list, series_id, linked, q) && is_stale_occurrence_id(tasks, id, list[q].id@, cutoff)
}

/// The position of the first series with id `id`, if any.
pub open spec fn first_series_at(list: Seq<crate::series::Series>, id: Seq<char>) -> Option<int> {
    if exists|k: int| is_first_series(list, id, k) {
        Some(choose|k: int| is_first_series(list, id, k))
    } else {
        None
    }
}

/// The linked series `lv[0..n]` changes, in order: for each id, the first
/// series with it when that one is active.
pub open spec fn linked_order(list: Seq<crate::series::Series>, lv: Seq<Seq<char>>, n: int) -> Seq<int>
    decreases n,
{
    if n <= 0 {
        Seq::empty()
    } else {
        linked_order(list, lv, n - 1) + match first_series_at(list, lv[n - 1]) {
            Some(i) => if list[i].active { seq![i] } else { Seq::empty() },
            None => Seq::empty(),
        }
    }
}

/// The series a recurrence edit of `series_id` changes, in the order it
/// changes them: the series itself, then its linked subtask series.
pub open spec fn change_order(list: Seq<crate::series::Series>, series_id: Seq<char>, lv: Seq<Seq<char>>) -> Seq<int> {
    seq![choose|k: int| is_first_series(list, series_id, k)] + linked_order(list, lv, lv.len() as int)
}

/// The stale ids of the changes of the series at `order`, concatenated.
pub open spec fn stale_over(tasks: Seq<Task>, list: Seq<crate::series::Series>, order: Seq<int>, c: int) -> Seq<String>
    decreases order.len(),
{
    if order.len() == 0 {
        Seq::empty()
    } else {
        stale_over(tasks, list, order.drop_last(), c) + change_stale(tasks, list[order.last()], c)
    }
}

/// The task lists of `pieces`, concatenated.
pub open spec fn concat_tasks(pieces: Seq<Seq<Task>>) -> Seq<Task>
    decreases pieces.len(),
{
    if pieces.len() == 0 {
        Seq::empty()
    } else {
        concat_tasks(pieces.drop_last()) + pieces.last()
    }
}

/// Whether `created` is the concatenation of what the changes of the
/// series at `order` create (see [`change_created`]).
pub open spec fn created_over(
    created: Seq<Task>,
    projects: Seq<Project>,
    settings: Settings,
    list: Seq<crate::series::Series>,
    order: Seq<int>,
    f: crate::series::RecurrenceFrequency,
    d: crate::series::DueRule,
    e: Option<String>,
    c: int,
) -> bool {
    exists|pieces: Seq<Seq<Task>>| {
        &&& pieces.len() == order.len()
        &&& #[trigger] concat_tasks(pieces) == created
        &&& forall|p: int| 0 <= p < pieces.len() ==> change_created(#[trigger] pieces[p], projects, settings, list[order[p]], f, d, e, c)
    }
}

proof fn lemma_first_series_unique(list: Seq<crate::series::Series>, id: Seq<char>, a: int, b: int)
    requires
        is_first_series(list, id, a),
        is_first_series(list, id, b),
    ensures
        a == b,
{
    if a < b {
        assert(list[a].id@ == id);
    }
    if b < a {
        assert(list[b].id@ == id);
    }
}

proof fn lemma_same_frequency_problem(a: crate::series::RecurrenceFrequency, b: crate::series::RecurrenceFrequency)
    requires
        same_frequency(a, b),
    ensures
        crate::series::frequency_problem(a) == crate::series::frequency_problem(b),
{
    match (a, b) {
        (crate::series::RecurrenceFrequency::Weekly { weekdays: w1, interval_weeks: i1 },
         crate::series::RecurrenceFrequency::Weekly { weekdays: w2, interval_weeks: i2 }) => {
            assert(w1@ == w2@);
        },
        _ => {},
    }
}

/// Changes the recurrence of series `series_id` from `cutoff` on, and the
/// same change for every active subtask series linked to it (see
/// [`linked_subtask_series_ids`]): each changed series takes the new
/// frequency, due rule and end date and keeps its anchor (see
/// [`plan_recurrence_change`]); the plan collects the stored occurrences on
/// or after the cutoff to delete and the occurrences to create. Every check
/// runs before any series changes, so on an error the series list is as it
/// was: those of [`recurrence_update_problem`], then the new rule's
/// validation, an unreadable anchor date, a cutoff too close to the end of
/// the calendar, and an unreadable anchor date of a linked series.
pub fn plan_series_recurrence_update(
    settings: &Settings,
    projects: &[Project],
    all_tasks: &[Task],
    all_series: &mut Vec<crate::series::Series>,
    series_id: &str,
    cutoff: &str,
    frequency: crate::series::RecurrenceFrequency,
    due_rule: crate::series::DueRule,
    end_date: Option<String>,
) -> (r: Result<RecurrenceChangePlan, String>)
    ensures
        recurrence_update_problem(old(all_series)@, series_id@, cutoff@, opt_view(end_date)) matches Some(e)
            ==> (r matches Err(x) && x@ == e),
        r is Err ==> final(all_series)@ == old(all_series)@,
        recurrence_update_problem(old(all_series)@, series_id@, cutoff@, opt_view(end_date)) is None ==> ({
            let list = old(all_series)@;
            let k = choose|k: int| is_first_series(list, series_id@, k);
            let linked = linked_ids_upto(all_tasks@, series_id@, all_tasks@.len() as int);
            let c = parsed_iso_date(cutoff@)->0;
            let problem = crate::series::series_problem(changed_series(list[k], frequency, due_rule, end_date));
            if problem is Some {
                r matches Err(x) && Some(x@) == problem
            } else if parsed_iso_date(list[k].anchor_date@) is None {
                r is Err
            } else if !is_valid_day(c - 1) || !is_valid_day(c + RECURRENCE_BASELINE_LOOKAHEAD_DAYS) {
                r matches Err(x) && x@ == "cutoff date is out of range"@
            } else if exists|q: int| #[trigger] edited_series(list, series_id@, linked, q)
                && parsed_iso_date(list[q].anchor_date@) is None {
                r is Err
            } else {
                r matches Ok(plan) && {
                    let order = change_order(list, series_id@, linked);
                    &&& final(all_series)@.len() == list.len()
                    &&& forall|q: int| 0 <= q < list.len() ==> if edited_series(list, series_id@, linked, q) {
                        recurrence_changed(#[trigger] final(all_series)@[q], list[q], frequency, due_rule, end_date)
                            && final(all_series)@[q].generated_until@
                                == formatted_iso_date(change_watermark(list[q], frequency, due_rule, end_date, c))
                    } else {
                        final(all_series)@[q] == list[q]
                    }
                    &&& plan.stale_ids@ == stale_over(all_tasks@, list, order, c)
                    &&& created_over(plan.created@, projects@, *settings, list, order, frequency, due_rule, end_date, c)
                    &&& forall|j: int| 0 <= j < plan.created@.len() ==>
                        of_edited_series(#[trigger] plan.created@[j], list, series_id@, linked)
                            && scheduled_from(plan.created@[j], c)
                    &&& forall|j: int| 0 <= j < plan.stale_ids@.len() ==>
                        stale_of_edited(all_tasks@, #[trigger] plan.stale_ids@[j], list, series_id@, linked, formatted_iso_date(c))
                }
            }
        }),
{
    let cutoff_date = match parse_iso_date(cutoff) {
        None => return Err(owned("cutoff must be a valid date in YYYY-MM-DD format")),
        Some(d) => d,
    };
    proof {
        reveal_strlit("end date");
    }
    validate_date_field(&end_date, "end date")?;
    if let Some(end) = &end_date {
        match parse_iso_date(end.as_str()) {
            None => return Err(owned("end date must be a valid date in YYYY-MM-DD format")),
            Some(e) => {
                if e < cutoff_date {
                    return Err(owned("end date must be on or after the cutoff date"));
                }
            },
        }
    }
    let linked = linked_subtask_series_ids(all_tasks, series_id);
    let ghost lv = string_views(linked@);
    let index = match find_series_index(all_series, series_id) {
        None => return Err(concat3("series '", series_id, "' not found")),
        Some(k) => k,
    };
    proof {
        let c = choose|k: int| is_first_series(all_series@, series_id@, k);
        assert(is_first_series(all_series@, series_id@, index as int));
        lemma_first_series_unique(all_series@, series_id@, c, index as int);
    }
    if !all_series[index].active {
        return Err(owned("this series' recurrence has been removed and can no longer be edited"));
    }
    let ghost initial = all_series@;
    assert(recurrence_update_problem(initial, series_id@, cutoff@, opt_view(end_date)) is None);
    crate::series::validate_recurrence_frequency(&frequency)?;
    crate::series::validate_due_rule(&due_rule)?;
    crate::dates::parse_iso_date_described(all_series[index].anchor_date.as_str())?;
    if crate::dates::add_days(cutoff_date, -1).is_none()
        || crate::dates::add_days(cutoff_date, RECURRENCE_BASELINE_LOOKAHEAD_DAYS).is_none() {
        return Err(owned("cutoff date is out of range"));
    }
    proof {
        let c = choose|k: int| is_first_series(initial, series_id@, k);
        lemma_first_series_unique(initial, series_id@, c, index as int);
    }
    let mut j: usize = 0;
    while j < linked.len()
        invariant
            j <= linked@.len(),
            lv == string_views(linked@),
            lv == linked_ids_upto(all_tasks@, series_id@, all_tasks@.len() as int),
            all_series@ == initial,
            initial == old(all_series)@,
            index < initial.len(),
            is_first_series(initial, series_id@, index as int),
            (choose|k: int| is_first_series(initial, series_id@, k)) == index,
            recurrence_update_problem(initial, series_id@, cutoff@, opt_view(end_date)) is None,
            parsed_iso_date(cutoff@) == Some(cutoff_date as int),
            crate::series::frequency_problem(frequency) is None,
            crate::series::due_rule_problem(due_rule) is None,
            is_valid_day(cutoff_date - 1),
            is_valid_day(cutoff_date + RECURRENCE_BASELINE_LOOKAHEAD_DAYS),
            parsed_iso_date(initial[index as int].anchor_date@) is Some,
            forall|q: int| #[trigger] edited_series(initial, series_id@, lv.subrange(0, j as int), q)
                ==> parsed_iso_date(initial[q].anchor_date@) is Some,
        decreases linked.len() - j,
    {
        let found = find_series_index(all_series, linked[j].as_str());
        if let Some(li) = found {
            if all_series[li].active {
                match crate::dates::parse_iso_date_described(all_series[li].anchor_date.as_str()) {
                    Ok(_) => {},
                    Err(e) => {
                        proof {
                            assert(lv[j as int] == initial[li as int].id@);
                            assert(lv.contains(initial[li as int].id@));
                            assert(edited_series(initial, series_id@, lv, li as int));
                        }
                        return Err(e);
                    },
                }
            }
        }
        proof {
            assert forall|q: int| #[trigger] edited_series(initial, series_id@, lv.subrange(0, j + 1), q)
                implies parsed_iso_date(initial[q].anchor_date@) is Some by {
                if !edited_series(initial, series_id@, lv.subrange(0, j as int), q) && !is_first_series(initial, series_id@, q) {
                    let w = choose|w: int| 0 <= w < j + 1 && #[trigger] lv.subrange(0, j + 1)[w] == initial[q].id@;
                    if w < j {
                        assert(lv.subrange(0, j as int)[w] == initial[q].id@);
                    } else {
                        assert(initial[q].id@ == linked@[j as int]@);
                        match found {
                            Some(li) => lemma_first_series_unique(initial, linked@[j as int]@, li as int, q),
                            None => assert(initial[q].id@ != linked@[j as int]@),
                        }
                    }
                }
            }
        }
        j += 1;
    }
    proof {
        assert(lv.subrange(0, j as int) =~= lv);
    }
    let mut target = all_series.remove(index);
    proof {
        lemma_same_frequency_problem(frequency, frequency);
    }
    let fc = copy_frequency(&frequency);
    proof {
        lemma_same_frequency_problem(fc, frequency);
    }
    let first = plan_recurrence_change(
        settings, projects, all_tasks, &mut target, cutoff_date,
        fc, copy_due_rule(&due_rule), copy_opt_string(&end_date),
    );
    all_series.insert(index, target);
    let mut plan = match first {
        Ok(p) => p,
        Err(e) => {
            proof {
                assert(false);
            }
            return Err(e);
        },
    };
    let ghost mut order: Seq<int> = seq![index as int];
    let ghost mut pieces: Seq<Seq<Task>> = seq![plan.created@];
    proof {
        lemma_change_transfer(all_tasks@, projects@, *settings, initial[index as int], initial[index as int],
            fc, frequency, due_rule, end_date, cutoff_date as int, plan.created@);
        assert(order.drop_last() =~= Seq::<int>::empty());
        assert(pieces.drop_last() =~= Seq::<Seq<Task>>::empty());
        assert(stale_over(all_tasks@, initial, Seq::<int>::empty(), cutoff_date as int) =~= Seq::<String>::empty());
        assert(concat_tasks(Seq::<Seq<Task>>::empty()) =~= Seq::<Task>::empty());
        assert(order.last() == index as int && pieces.last() == plan.created@);
        assert(plan.stale_ids@ == stale_over(all_tasks@, initial, order, cutoff_date as int));
        assert(concat_tasks(pieces) =~= plan.created@);
        assert(linked_order(initial, lv, 0) =~= Seq::<int>::empty());
        assert(order =~= seq![index as int] + linked_order(initial, lv, 0));
        assert(all_series@ =~= initial.update(index as int, target));
        assert(edited_series(initial, series_id@, lv, index as int));
        assert forall|q: int| 0 <= q < plan.created@.len() implies
            of_edited_series(#[trigger] plan.created@[q], initial, series_id@, lv)
                && scheduled_from(plan.created@[q], cutoff_date as int) by {
            assert(edited_series(initial, series_id@, lv, index as int));
        }
        assert forall|q: int| 0 <= q < plan.stale_ids@.len() implies
            stale_of_edited(all_tasks@, #[trigger] plan.stale_ids@[q], initial, series_id@, lv, formatted_iso_date(cutoff_date as int)) by {
            assert(edited_series(initial, series_id@, lv, index as int));
        }
    }
    let mut j: usize = 0;
    while j < linked.len()
        invariant
            j <= linked@.len(),
            lv == string_views(linked@),
            index < initial.len(),
            is_first_series(initial, series_id@, index as int),
            is_valid_day(cutoff_date as int),
            is_valid_day(cutoff_date - 1),
            is_valid_day(cutoff_date + RECURRENCE_BASELINE_LOOKAHEAD_DAYS),
            crate::series::frequency_problem(frequency) is None,
            crate::series::due_rule_problem(due_rule) is None,
            forall|q: int| #[trigger] edited_series(initial, series_id@, lv, q) ==> parsed_iso_date(initial[q].anchor_date@) is Some,
            all_series@.len() == initial.len(),
            forall|q: int| 0 <= q < initial.len() ==> (#[trigger] all_series@[q]).id == initial[q].id
                && all_series@[q].active == initial[q].active && all_series@[q].anchor_date == initial[q].anchor_date,
            forall|q: int| 0 <= q < initial.len() ==> if is_first_series(initial, series_id@, q)
                || (initial[q].active && lv.subrange(0, j as int).contains(initial[q].id@) && is_first_series(initial, initial[q].id@, q)) {
                recurrence_changed(#[trigger] all_series@[q], initial[q], frequency, due_rule, end_date)
                    && all_series@[q].generated_until@
                        == formatted_iso_date(change_watermark(initial[q], frequency, due_rule, end_date, cutoff_date as int))
            } else {
                all_series@[q] == initial[q]
            },
            (choose|k: int| is_first_series(initial, series_id@, k)) == index,
            order == seq![index as int] + linked_order(initial, lv, j as int),
            forall|p: int| 0 <= p < order.len() ==> 0 <= #[trigger] order[p] < initial.len(),
            pieces.len() == order.len(),
            concat_tasks(pieces) == plan.created@,
            forall|p: int| 0 <= p < pieces.len() ==> change_created(#[trigger] pieces[p], projects@, *settings,
                initial[order[p]], frequency, due_rule, end_date, cutoff_date as int),
            plan.stale_ids@ == stale_over(all_tasks@, initial, order, cutoff_date as int),
            forall|q: int| 0 <= q < plan.created@.len() ==>
                of_edited_series(#[trigger] plan.created@[q], initial, series_id@, lv)
                    && scheduled_from(plan.created@[q], cutoff_date as int),
            forall|q: int| 0 <= q < plan.stale_ids@.len() ==>
                stale_of_edited(all_tasks@, #[trigger] plan.stale_ids@[q], initial, series_id@, lv, formatted_iso_date(cutoff_date as int)),
        decreases linked.len() - j,
    {
        let found = find_series_index(all_series, linked[j].as_str());
        proof {
            if let Some(li) = found {
                assert forall|q: int| 0 <= q < li implies (#[trigger] initial[q]).id@ != linked@[j as int]@ by {
                    assert(all_series@[q].id == initial[q].id);
                }
                assert(all_series@[li as int].id == initial[li as int].id);
                assert(is_first_series(initial, linked@[j as int]@, li as int));
            } else {
                assert forall|q: int| 0 <= q < initial.len() implies (#[trigger] initial[q]).id@ != linked@[j as int]@ by {
                    assert(all_series@[q].id == initial[q].id);
                }
            }
        }
        let ghost before = all_series@;
        let ghost before_plan = plan;
        let ghost mut touched: Option<int> = None;
        if let Some(li) = found {
            if all_series[li].active {
                let ghost mid = all_series@;
                let mut s = all_series.remove(li);
                proof {
                    assert(s == mid[li as int]);
                    assert(lv[j as int] == linked@[j as int]@);
                    assert(lv.contains(initial[li as int].id@));
                    assert(edited_series(initial, series_id@, lv, li as int));
                }
                let ghost s_old = s;
                proof {
                    assert(s_old == (crate::series::Series {
                        frequency: s_old.frequency,
                        generated_until: s_old.generated_until,
                        due_rule: s_old.due_rule,
                        end_date: s_old.end_date,
                        ..initial[li as int]
                    }));
                }
                let fc = copy_frequency(&frequency);
                proof {
                    lemma_same_frequency_problem(fc, frequency);
                }
                let change = plan_recurrence_change(
                    settings, projects, all_tasks, &mut s, cutoff_date,
                    fc, copy_due_rule(&due_rule), copy_opt_string(&end_date),
                );
                all_series.insert(li, s);
                proof {
                    assert(all_series@ =~= mid.update(li as int, s));
                }
                match change {
                    Ok(mut c) => {
                        let ghost cp = c;
                        plan.stale_ids.append(&mut c.stale_ids);
                        plan.created.append(&mut c.created);
                        proof {
                            touched = Some(li as int);
                            lemma_change_transfer(all_tasks@, projects@, *settings, s_old, initial[li as int],
                                fc, frequency, due_rule, end_date, cutoff_date as int, cp.created@);
                            let old_order = order;
                            let old_pieces = pieces;
                            order = order.push(li as int);
                            pieces = pieces.push(cp.created@);
                            assert(order.drop_last() =~= old_order);
                            assert(pieces.drop_last() =~= old_pieces);
                            assert(plan.stale_ids@ =~= before_plan.stale_ids@ + cp.stale_ids@);
                            assert(plan.created@ =~= before_plan.created@ + cp.created@);
                            assert(plan.stale_ids@ == stale_over(all_tasks@, initial, order, cutoff_date as int));
                            assert(concat_tasks(pieces) == plan.created@);
                            assert forall|p: int| 0 <= p < pieces.len() implies change_created(#[trigger] pieces[p], projects@, *settings,
                                initial[order[p]], frequency, due_rule, end_date, cutoff_date as int) by {
                                if p < old_pieces.len() {
                                    assert(pieces[p] == old_pieces[p] && order[p] == old_order[p]);
                                }
                            }
                            assert(recurrence_changed(s, initial[li as int], frequency, due_rule, end_date));
                            assert forall|q: int| 0 <= q < plan.created@.len() implies
                                of_edited_series(#[trigger] plan.created@[q], initial, series_id@, lv)
                                    && scheduled_from(plan.created@[q], cutoff_date as int) by {
                                if q < before_plan.created@.len() {
                                    assert(plan.created@[q] == before_plan.created@[q]);
                                } else {
                                    assert(plan.created@[q] == cp.created@[q - before_plan.created@.len()]);
                                    assert(edited_series(initial, series_id@, lv, li as int));
                                }
                            }
                            assert forall|q: int| 0 <= q < plan.stale_ids@.len() implies
                                stale_of_edited(all_tasks@, #[trigger] plan.stale_ids@[q], initial, series_id@, lv,
                                    formatted_iso_date(cutoff_date as int)) by {
                                if q < before_plan.stale_ids@.len() {
                                    assert(plan.stale_ids@[q] == before_plan.stale_ids@[q]);
                                } else {
                                    assert(plan.stale_ids@[q] == cp.stale_ids@[q - before_plan.stale_ids@.len()]);
                                    assert(edited_series(initial, series_id@, lv, li as int));
                                }
                            }
                        }
                    },
                    Err(e) => {
                        proof {
                            assert(false);
                        }
                        return Err(e);
                    },
                }
            }
        }
        proof {
            assert(touched is None ==> all_series@ == before);
            assert(touched matches Some(t) ==> found == Some(t as usize) && initial[t].active
                && all_series@ == before.update(t, all_series@[t])
                && recurrence_changed(all_series@[t], initial[t], frequency, due_rule, end_date));
            assert(touched is None ==> (found matches Some(li) ==> !initial[li as int].active));
            assert(lv[j as int] == linked@[j as int]@);
            if let Some(li) = found {
                let w = choose|k: int| is_first_series(initial, lv[j as int], k);
                lemma_first_series_unique(initial, lv[j as int], w, li as int);
                assert(first_series_at(initial, lv[j as int]) == Some(li as int));
            } else {
                assert(!exists|k: int| is_first_series(initial, lv[j as int], k));
            }
            assert(order =~= seq![index as int] + linked_order(initial, lv, j + 1));
            assert forall|q: int| 0 <= q < initial.len() implies if is_first_series(initial, series_id@, q)
                || (initial[q].active && lv.subrange(0, j + 1).contains(initial[q].id@) && is_first_series(initial, initial[q].id@, q)) {
                recurrence_changed(#[trigger] all_series@[q], initial[q], frequency, due_rule, end_date)
            } else {
                all_series@[q] == initial[q]
            } by {
                let old_linked = initial[q].active && lv.subrange(0, j as int).contains(initial[q].id@)
                    && is_first_series(initial, initial[q].id@, q);
                let new_linked = initial[q].active && lv.subrange(0, j + 1).contains(initial[q].id@)
                    && is_first_series(initial, initial[q].id@, q);
                if old_linked {
                    let w = choose|w: int| 0 <= w < j && #[trigger] lv.subrange(0, j as int)[w] == initial[q].id@;
                    assert(lv.subrange(0, j + 1)[w] == initial[q].id@);
                }
                if new_linked && !old_linked {
                    let w = choose|w: int| 0 <= w < j + 1 && #[trigger] lv.subrange(0, j + 1)[w] == initial[q].id@;
                    if w < j {
                        assert(lv.subrange(0, j as int)[w] == initial[q].id@);
                    }
                    assert(initial[q].id@ == linked@[j as int]@);
                    match found {
                        Some(li) => lemma_first_series_unique(initial, linked@[j as int]@, li as int, q),
                        None => {},
                    }
                }
                if touched is Some && q == touched->0 {
                    assert(lv.subrange(0, j + 1)[j as int] == initial[q].id@);
                }
            }
        }
        j += 1;
    }
    proof {
        assert(lv.subrange(0, j as int) =~= lv);
        assert(order == change_order(initial, series_id@, lv));
        assert(created_over(plan.created@, projects@, *settings, initial, order, frequency, due_rule, end_date,
            cutoff_date as int)) by {
            assert(concat_tasks(pieces) == plan.created@);
        }
    }
    Ok(plan)
}

} // verus!

verus! {

// ----- creating and deleting projects and tasks -----

/// Plans a new project: a trimmed, non-empty name no other project has
/// (ignoring ASCII case), a hex color (or the default one), an existing
/// parent; the project gets the next order. The application stores it.
pub fn plan_new_project(
    projects: &[Project],
    name: String,
    color: Option<String>,
    parent_id: Option<String>,
) -> (r: Result<Project, String>)
    requires
        orders_below_max(projects@),
    ensures
        ({
            let n = crate::text::trimmed(name@);
            if n.len() == 0 {
                r matches Err(e) && e@ == "project name must not be empty"@
            } else if color matches Some(c) && !is_hex_color(c@) {
                r matches Err(e) && e@ == hex_color_error(color->0@)
            } else if name_taken(projects@, -1, n) {
                r matches Err(e) && e@ == name_taken_error(n)
            } else if parent_problem(projects@, opt_view(parent_id), None) is Some {
                r matches Err(e) && Some(e@) == parent_problem(projects@, opt_view(parent_id), None)
            } else {
                r matches Ok(p) && {
                    &&& p.name@ == n
                    &&& p.color@ == (match color { Some(c) => c@, None => default_project_color() })
                    &&& p.parent_id == parent_id
                    &&& p.order == next_order_spec(projects@)
                    &&& p.id@.len() > 0 && p.created@.len() > 0
                    &&& crate::project::is_empty_board(p.board)
                    &&& crate::project::is_empty_defaults(p.defaults)
                    &&& p.tracking_task_id is None
                }
            }
        }),
{
    let n = crate::text::trim(name.as_str());
    if n.as_str().unicode_len() == 0 {
        return Err(owned("project name must not be empty"));
    }
    let ghost color_v = color;
    let c = resolve_project_color(color)?;
    assert(color_v is Some ==> is_hex_color(color_v->0@));
    let mut i: usize = 0;
    while i < projects.len()
        invariant
            i <= projects@.len(),
            color_v is Some ==> is_hex_color(color_v->0@),
            color_v == color,
            n@ == crate::text::trimmed(name@),
            n@.len() > 0,
            forall|k: int| 0 <= k < i ==> !crate::text::eq_ignore_ascii_case_spec((#[trigger] projects@[k]).name@, n@),
        decreases projects.len() - i,
    {
        if crate::text::eq_ignore_ascii_case(projects[i].name.as_str(), n.as_str()) {
            assert(crate::text::eq_ignore_ascii_case_spec(projects@[i as int].name@, n@) && i as int != -1);
            assert(name_taken(projects@, -1, n@));
            return Err(concat3("a project named '", n.as_str(), "' already exists"));
        }
        i += 1;
    }
    validate_parent_id(projects, opt_as_str(&parent_id), None)?;
    let order = next_order(projects);
    let mut project = Project::new(n, c, order);
    project.parent_id = parent_id;
    Ok(project)
}

/// What deleting a project does: the ids of the projects removed (it and
/// its descendants), the ids of their tasks to reassign, archive or
/// delete, the reassigned tasks (for a reassignment), and the counts
/// reported back.
#[derive(Debug, Clone, PartialEq)]
pub struct ProjectDeletePlan {
    pub doomed_ids: Vec<String>,
    pub task_ids: Vec<String>,
    pub reassigned: Vec<Task>,
    pub result: DeleteProjectResult,
}

/// The first of `ps[i..]` that is the default project, if any.
pub open spec fn first_default_among(ps: Seq<Project>, s: Settings, i: int) -> Option<Seq<char>>
    decreases ps.len() - i,
{
    if i < 0 || i >= ps.len() {
        None
    } else if ps[i].id@ == s.default_project_id@ {
        Some(ps[i].name@)
    } else {
        first_default_among(ps, s, i + 1)
    }
}

/// Plans deleting project `project_id` with its descendants: fails for a
/// missing project, when the default project is among them, and when
/// their tasks (those filed under one of their ids) need a
/// strategy that was not given or does not apply; otherwise says what to
/// remove and how many tasks and subprojects go with it.
pub fn plan_project_delete(
    settings: &Settings,
    projects: &[Project],
    tasks: &[Task],
    project_id: &str,
    task_strategy: Option<ProjectTaskStrategy>,
) -> (r: Result<ProjectDeletePlan, String>)
    ensures
        crate::project_tree::find_project(projects@, project_id@) is None
            ==> (r matches Err(e) && e@ == "project '"@ + project_id@ + "' not found"@),
        crate::project_tree::find_project(projects@, project_id@) matches Some(i) ==> {
            let doomed = seq![projects@[i]] + crate::project_tree::descendants_upto(projects@, project_id@, projects@.len() as int);
            let matching = tasks_filed_under(tasks@, doomed.map_values(|p: Project| p.id@), tasks@.len() as int);
            if first_default_among(doomed, *settings, 0) is Some {
                r matches Err(e) && e@ == default_project_error(first_default_among(doomed, *settings, 0)->0)
            } else if matching.len() > 0 && task_strategy is None {
                r matches Err(e) && e@ == "this project still has tasks; choose how to handle them before deleting it"@
            } else if matching.len() > 0 && strategy_problem(projects@, doomed.map_values(|p: Project| p.id@), task_strategy->0) is Some {
                r matches Err(e) && Some(e@) == strategy_problem(projects@, doomed.map_values(|p: Project| p.id@), task_strategy->0)
            } else {
                r matches Ok(plan) && {
                    &&& string_views(plan.doomed_ids@) == doomed.map_values(|p: Project| p.id@)
                    &&& plan.task_ids@.len() == matching.len()
                    &&& forall|k: int| 0 <= k < matching.len() ==> (#[trigger] plan.task_ids@[k]) == matching[k].id
                    &&& plan.result.affected_tasks == matching.len()
                    &&& plan.result.deleted_subprojects == doomed.len() - 1
                }
            }
        },
{
    let doomed = projects_to_delete(projects, project_id);
    if doomed.len() == 0 {
        return Err(concat3("project '", project_id, "' not found"));
    }
    let ghost d = refs_view(doomed@);
    let mut i: usize = 0;
    while i < doomed.len()
        invariant
            d == refs_view(doomed@),
            crate::project_tree::find_project(projects@, project_id@) matches Some(w) && d == seq![projects@[w]]
                + crate::project_tree::descendants_upto(projects@, project_id@, projects@.len() as int),
            i <= doomed@.len(),
            first_default_among(d, *settings, 0) == first_default_among(d, *settings, i as int),
        decreases doomed.len() - i,
    {
        assert(d[i as int] == *doomed@[i as int]);
        ensure_not_default_project(doomed[i], settings)?;
        i += 1;
    }
    let mut ids: Vec<String> = Vec::new();
    let mut j: usize = 0;
    while j < doomed.len()
        invariant
            d == refs_view(doomed@),
            j <= doomed@.len(),
            ids@.len() == j,
            forall|k: int| 0 <= k < j ==> (#[trigger] ids@[k])@ == d[k].id@,
        decreases doomed.len() - j,
    {
        assert(d[j as int] == *doomed@[j as int]);
        ids.push(copy_string(&doomed[j].id));
        j += 1;
    }
    assert(string_views(ids@) =~= d.map_values(|p: Project| p.id@));
    let deleted_subprojects = doomed.len() - 1;
    let matching = tasks_for_projects(tasks, &ids);
    let mut task_ids: Vec<String> = Vec::new();
    let mut k: usize = 0;
    while k < matching.len()
        invariant
            k <= matching@.len(),
            task_ids@.len() == k,
            forall|q: int| 0 <= q < k ==> (#[trigger] task_ids@[q]) == matching@[q].id,
        decreases matching.len() - k,
    {
        task_ids.push(copy_string(&matching[k].id));
        k += 1;
    }
    let mut reassigned: Vec<Task> = Vec::new();
    if matching.len() > 0 {
        let strategy = match task_strategy {
            None => return Err(owned("this project still has tasks; choose how to handle them before deleting it")),
            Some(s) => s,
        };
        reassigned = plan_task_strategy(projects, &ids, matching.as_slice(), &strategy)?;
    }
    let affected = matching.len();
    Ok(ProjectDeletePlan {
        doomed_ids: ids,
        task_ids,
        reassigned,
        result: DeleteProjectResult { affected_tasks: affected, deleted_subprojects },
    })
}

/// What deleting a task also does: the subtasks deleted with it, the
/// owner whose container it leaves empty (with that link cleared), and the
/// containers removed.
#[derive(Debug, Clone, PartialEq)]
pub struct TaskDeletePlan {
    pub subtask_ids: Vec<String>,
    pub owner_update: Option<Task>,
    pub containers_to_remove: Vec<String>,
}

/// Plans deleting task `id` (stored as `target`): its own container's
/// subtasks and the container go with it, and when it was the last task in
/// some other task's container, that container goes and its owner's link
/// is cleared.
pub fn plan_task_delete(target: &Task, tasks: &[Task], projects: &[Project], id: &str) -> (r: TaskDeletePlan)
    ensures
        match container_of(tasks@, id@) {
            None => r.subtask_ids@.len() == 0,
            Some(c) => {
                let subs = subtasks_in(tasks@, c, tasks@.len() as int);
                &&& r.subtask_ids@.len() == subs.len()
                &&& forall|k: int| 0 <= k < subs.len() ==> (#[trigger] r.subtask_ids@[k]) == subs[k].id
            },
        },
        ({
            let emptied = target.project_id matches Some(p) && emptied_container_owner(tasks@, p@, id@);
            &&& string_views(r.containers_to_remove@) == own_container_ids(tasks@, projects@, id@)
                + (if emptied { seq![target.project_id->0@] } else { Seq::empty() })
            &&& (emptied <==> r.owner_update is Some)
            &&& r.owner_update matches Some(o) ==> o.subtask_project_id is None
                && exists|i: int| is_first_owner(tasks@, target.project_id->0@, i)
                    && same_task(Task { subtask_project_id: tasks@[i].subtask_project_id, ..o }, tasks@[i])
        }),
{
    let (subs, owned_container) = subtasks_and_container_to_delete(tasks, projects, id);
    let mut subtask_ids: Vec<String> = Vec::new();
    let mut k: usize = 0;
    while k < subs.len()
        invariant
            k <= subs@.len(),
            subtask_ids@.len() == k,
            forall|q: int| 0 <= q < k ==> (#[trigger] subtask_ids@[q]) == subs@[q].id,
        decreases subs.len() - k,
    {
        subtask_ids.push(copy_string(&subs[k].id));
        k += 1;
    }
    let mut containers: Vec<String> = Vec::new();
    if let Some(c) = owned_container {
        containers.push(c.id);
    }
    assert(string_views(containers@) =~= own_container_ids(tasks@, projects@, id@));
    let ghost own = string_views(containers@);
    let mut owner_update: Option<Task> = None;
    if let Some(p) = &target.project_id {
        if let Some(owner) = owning_task_if_container_now_empty(tasks, p.as_str(), id) {
            let mut o = copy_task(owner);
            o.subtask_project_id = None;
            owner_update = Some(o);
            containers.push(copy_string(p));
            assert(string_views(containers@) =~= own + seq![p@]);
        }
    }
    TaskDeletePlan { subtask_ids, owner_update, containers_to_remove: containers }
}

/// The container of task `id` that is deleted with it: its own subtask
/// container, when a project has that id.
pub open spec fn own_container_ids(tasks: Seq<Task>, projects: Seq<Project>, id: Seq<char>) -> Seq<Seq<char>> {
    match container_of(tasks, id) {
        None => Seq::empty(),
        Some(c) => match crate::project_tree::find_project(projects, c) {
            None => Seq::empty(),
            Some(j) => seq![projects[j].id@],
        },
    }
}

/// Whether deleting task `id`, filed under container `c`, leaves `c`
/// empty while some task owns it.
pub open spec fn emptied_container_owner(tasks: Seq<Task>, c: Seq<char>, id: Seq<char>) -> bool {
    (exists|i: int| is_first_owner(tasks, c, i)) && !others_remain(tasks, c, id)
}

/// Returns the project's tracking task: the stored one (`loaded_tracker`,
/// what loading the project's recorded tracker gave, if it did), else a
/// new hidden task "<name> — General time" in the project, recorded on the
/// project. Fails when the project does not exist.
pub fn get_or_create_tracking_task_for_project(
    projects: &mut Vec<Project>,
    project_id: &str,
    loaded_tracker: Option<Task>,
) -> (r: Result<Task, String>)
    ensures
        crate::project_tree::find_project(old(projects)@, project_id@) is None
            ==> (r matches Err(e) && e@ == "project not found"@ && final(projects)@ == old(projects)@),
        crate::project_tree::find_project(old(projects)@, project_id@) matches Some(i) ==> {
            if old(projects)@[i].tracking_task_id is Some && loaded_tracker is Some {
                r == Ok::<Task, String>(loaded_tracker->0) && final(projects)@ == old(projects)@
            } else {
                r matches Ok(t) && {
                    &&& t.hidden
                    &&& opt_view(t.project_id) == Some(project_id@)
                    &&& crate::task::is_fresh_task(t)
                    &&& t.title@ == old(projects)@[i].name@ + " — General time"@
                    &&& final(projects)@.len() == old(projects)@.len()
                    &&& final(projects)@[i].tracking_task_id == Some(t.id)
                    &&& forall|k: int| 0 <= k < old(projects)@.len() && k != i ==> final(projects)@[k] == old(projects)@[k]
                }
            }
        },
{
    let index = match crate::project_tree::find_project_index(projects.as_slice(), project_id) {
        None => return Err(owned("project not found")),
        Some(i) => i,
    };
    if projects[index].tracking_task_id.is_some() {
        if let Some(t) = loaded_tracker {
            return Ok(t);
        }
    }
    let mut title = copy_string(&projects[index].name);
    title.append(" — General time");
    let mut tracker = Task::new(title);
    tracker.hidden = true;
    tracker.project_id = Some(owned(project_id));
    let ghost before = projects@;
    let mut p = projects.remove(index);
    p.tracking_task_id = Some(copy_string(&tracker.id));
    projects.insert(index, p);
    proof {
        assert(projects@ =~= before.update(index as int, p));
    }
    Ok(tracker)
}

} // verus!

verus! {

// ----- status statistics -----

/// Whether a task is visible on the board: what the global status counts
/// cover.
pub open spec fn counted_in_status_totals(t: Task) -> bool {
    !t.hidden
}

/// How many counted tasks among `tasks[0..upto]` have status `st`.
pub open spec fn status_total(tasks: Seq<Task>, st: Seq<char>, upto: int) -> nat
    decreases upto,
{
    if upto <= 0 {
        0
    } else {
        status_total(tasks, st, upto - 1)
            + if counted_in_status_totals(tasks[upto - 1]) && tasks[upto - 1].status@ == st { 1nat } else { 0nat }
    }
}

fn count_status(tasks: &[Task], st: &str) -> (r: usize)
    ensures
        r == status_total(tasks@, st@, tasks@.len() as int),
{
    let mut n: usize = 0;
    let mut i: usize = 0;
    while i < tasks.len()
        invariant
            i <= tasks@.len(),
            n == status_total(tasks@, st@, i as int),
            n <= i,
        decreases tasks.len() - i,
    {
        let t = &tasks[i];
        if !t.hidden && str_eq(t.status.as_str(), st) {
            n += 1;
        }
        i += 1;
    }
    n
}

/// The defined statuses, in settings order, with how many visible
/// tasks have each (statuses with none left out).
pub open spec fn known_status_counts(s: Seq<StatusDefinition>, tasks: Seq<Task>, upto: int) -> Seq<(Seq<char>, nat)>
    decreases upto,
{
    if upto <= 0 {
        Seq::empty()
    } else {
        let rest = known_status_counts(s, tasks, upto - 1);
        let n = status_total(tasks, s[upto - 1].id@, tasks.len() as int);
        if n > 0 { rest.push((s[upto - 1].id@, n)) } else { rest }
    }
}

pub open spec fn count_pairs_view(v: Seq<(String, usize)>) -> Seq<(Seq<char>, nat)> {
    v.map_values(|p: (String, usize)| (p.0@, p.1 as nat))
}

fn known_counts(settings: &Settings, active_tasks: &[Task]) -> (r: Vec<(String, usize)>)
    ensures
        count_pairs_view(r@) == known_status_counts(settings.statuses@, active_tasks@, settings.statuses@.len() as int),
{
    let mut out: Vec<(String, usize)> = Vec::new();
    let mut i: usize = 0;
    while i < settings.statuses.len()
        invariant
            i <= settings.statuses@.len(),
            count_pairs_view(out@) == known_status_counts(settings.statuses@, active_tasks@, i as int),
        decreases settings.statuses.len() - i,
    {
        let st = &settings.statuses[i].id;
        let n = count_status(active_tasks, st.as_str());
        if n > 0 {
            let ghost before = out@;
            out.push((copy_string(st), n));
            proof {
                assert(count_pairs_view(out@) =~= count_pairs_view(before).push((st@, n as nat)));
            }
        }
        i += 1;
    }
    out
}

/// Whether task `i` is visible and has a status no definition names.
pub open spec fn unknown_status_of(s: Settings, tasks: Seq<Task>, i: int) -> bool {
    counted_in_status_totals(tasks[i]) && !has_status(s, tasks[i].status@)
}

proof fn lemma_status_total_monotone(tasks: Seq<Task>, st: Seq<char>, a: int, b: int)
    requires
        0 <= a <= b,
    ensures
        status_total(tasks, st, a) <= status_total(tasks, st, b),
    decreases b - a,
{
    if a < b {
        lemma_status_total_monotone(tasks, st, a, b - 1);
    }
}

fn unknown_statuses(settings: &Settings, active_tasks: &[Task]) -> (u: Vec<String>)
    ensures
        forall|a: int, b: int| 0 <= a < b < u@.len() ==> (#[trigger] u@[a])@ != (#[trigger] u@[b])@,
        forall|q: int| 0 <= q < u@.len() ==> !has_status(*settings, (#[trigger] u@[q])@)
            && status_total(active_tasks@, u@[q]@, active_tasks@.len() as int) > 0,
        forall|i: int| 0 <= i < active_tasks@.len() && unknown_status_of(*settings, active_tasks@, i)
            ==> exists|q: int| 0 <= q < u@.len() && (#[trigger] u@[q])@ == #[trigger] active_tasks@[i].status@,
{
    let mut unknown: Vec<String> = Vec::new();
    let mut j: usize = 0;
    while j < active_tasks.len()
        invariant
            j <= active_tasks@.len(),
            forall|a: int, b: int| 0 <= a < b < unknown@.len() ==> (#[trigger] unknown@[a])@ != (#[trigger] unknown@[b])@,
            forall|q: int| 0 <= q < unknown@.len() ==> !has_status(*settings, (#[trigger] unknown@[q])@)
                && status_total(active_tasks@, unknown@[q]@, j as int) > 0,
            forall|i: int| 0 <= i < j && unknown_status_of(*settings, active_tasks@, i)
                ==> exists|k: int| 0 <= k < unknown@.len() && (#[trigger] unknown@[k])@ == #[trigger] active_tasks@[i].status@,
        decreases active_tasks.len() - j,
    {
        let ghost start = unknown@;
        let t = &active_tasks[j];
        if !t.hidden && !crate::settings::is_status_id(settings, t.status.as_str()) {
            let present = vec_contains_str(&unknown, t.status.as_str());
            if !present {
                unknown.push(copy_string(&t.status));
            }
            proof {
                if present {
                    let k = choose|k: int| 0 <= k < unknown@.len() && (#[trigger] unknown@[k])@ == t.status@;
                    assert forall|i: int| 0 <= i < j + 1 && unknown_status_of(*settings, active_tasks@, i)
                        implies exists|k2: int| 0 <= k2 < unknown@.len() && (#[trigger] unknown@[k2])@ == #[trigger] active_tasks@[i].status@ by {
                        if i == j {
                            assert(unknown@[k]@ == active_tasks@[i].status@);
                        }
                    }
                } else {
                    assert forall|a: int, b: int| 0 <= a < b < unknown@.len() implies (#[trigger] unknown@[a])@ != (#[trigger] unknown@[b])@ by {
                        if b == start.len() {
                            assert(unknown@[a] == start[a]);
                        } else {
                            assert(unknown@[a] == start[a] && unknown@[b] == start[b]);
                        }
                    }
                    assert forall|i: int| 0 <= i < j + 1 && unknown_status_of(*settings, active_tasks@, i)
                        implies exists|k: int| 0 <= k < unknown@.len() && (#[trigger] unknown@[k])@ == #[trigger] active_tasks@[i].status@ by {
                        if i < j {
                            let k = choose|k: int| 0 <= k < start.len() && (#[trigger] start[k])@ == active_tasks@[i].status@;
                            assert(unknown@[k] == start[k]);
                        } else {
                            assert(unknown@[start.len() as int]@ == active_tasks@[i].status@);
                        }
                    }
                }
            }
        }
        proof {
            assert forall|q: int| 0 <= q < unknown@.len() implies !has_status(*settings, (#[trigger] unknown@[q])@)
                && status_total(active_tasks@, unknown@[q]@, j + 1) > 0 by {
                lemma_status_total_monotone(active_tasks@, unknown@[q]@, j as int, j + 1);
                if q < start.len() {
                    assert(unknown@[q] == start[q]);
                }
            }
        }
        j += 1;
    }
    unknown
}

/// The status counts of `tasks` (see [`status_counts`]).
pub open spec fn are_status_counts(settings: Settings, tasks: Seq<Task>, r: Seq<(String, usize)>) -> bool {
    let known = known_status_counts(settings.statuses@, tasks, settings.statuses@.len() as int);
    &&& count_pairs_view(r).subrange(0, known.len() as int) == known
    &&& forall|k: int| known.len() <= k < r.len() ==> {
        let st = (#[trigger] r[k]).0@;
        &&& !has_status(settings, st)
        &&& r[k].1 as nat == status_total(tasks, st, tasks.len() as int)
        &&& r[k].1 > 0
    }
    &&& forall|a: int, b: int| known.len() <= a < b < r.len() ==> (#[trigger] r[a]).0@ != (#[trigger] r[b]).0@
    &&& forall|i: int| 0 <= i < tasks.len() && unknown_status_of(settings, tasks, i)
        ==> exists|k: int| known.len() <= k < r.len() && (#[trigger] r[k]).0@ == #[trigger] tasks[i].status@
}

/// How many visible (non-hidden) tasks have each status: the defined
/// statuses first, in settings order (those with no task left out), then
/// each status no definition names, once, with its count.
pub fn status_counts(settings: &Settings, active_tasks: &[Task]) -> (r: Vec<(String, usize)>)
    ensures
        are_status_counts(*settings, active_tasks@, r@),
{
    let mut out = known_counts(settings, active_tasks);
    let ghost known = count_pairs_view(out@);
    let known_len = out.len();
    let unknown = unknown_statuses(settings, active_tasks);
    let mut k: usize = 0;
    while k < unknown.len()
        invariant
            k <= unknown@.len(),
            known_len == known.len(),
            out@.len() == known_len + k,
            count_pairs_view(out@).subrange(0, known.len() as int) == known,
            forall|q: int| 0 <= q < k ==> (#[trigger] out@[known_len + q]).0@ == unknown@[q]@
                && out@[known_len + q].1 as nat == status_total(active_tasks@, unknown@[q]@, active_tasks@.len() as int),
        decreases unknown.len() - k,
    {
        let n = count_status(active_tasks, unknown[k].as_str());
        let ghost before = out@;
        out.push((copy_string(&unknown[k]), n));
        proof {
            assert(count_pairs_view(out@).subrange(0, known.len() as int) =~= count_pairs_view(before).subrange(0, known.len() as int));
        }
        k += 1;
    }
    proof {
        assert forall|k2: int| known.len() <= k2 < out@.len() implies {
            let st = (#[trigger] out@[k2]).0@;
            &&& !has_status(*settings, st)
            &&& out@[k2].1 as nat == status_total(active_tasks@, st, active_tasks@.len() as int)
            &&& out@[k2].1 > 0
        } by {
            let q = k2 - known_len;
            assert(out@[known_len + q].0@ == unknown@[q]@);
        }
        assert forall|a: int, b: int| known.len() <= a < b < out@.len() implies (#[trigger] out@[a]).0@ != (#[trigger] out@[b]).0@ by {
            assert(out@[known_len + (a - known_len)].0@ == unknown@[a - known_len]@);
            assert(out@[known_len + (b - known_len)].0@ == unknown@[b - known_len]@);
        }
        assert forall|i: int| 0 <= i < active_tasks@.len() && unknown_status_of(*settings, active_tasks@, i)
            implies exists|k2: int| known.len() <= k2 < out@.len() && (#[trigger] out@[k2]).0@ == #[trigger] active_tasks@[i].status@ by {
            let q = choose|q: int| 0 <= q < unknown@.len() && (#[trigger] unknown@[q])@ == active_tasks@[i].status@;
            assert(out@[known_len + q].0@ == unknown@[q]@);
        }
    }
    out
}

proof fn lemma_status_total_positive(tasks: Seq<Task>, st: Seq<char>, upto: int, w: int)
    requires
        0 <= w < upto <= tasks.len(),
        counted_in_status_totals(tasks[w]),
        tasks[w].status@ == st,
    ensures
        status_total(tasks, st, upto) > 0,
    decreases upto,
{
    if w < upto - 1 {
        lemma_status_total_positive(tasks, st, upto - 1, w);
    }
}


/// Whether a project's status line rolls up its subprojects: the nearest
/// override along its chain, else the global default.
pub open spec fn shows_subprojects(ps: Seq<Project>, project_id: Seq<char>, s: Settings) -> bool {
    match chain_show_subprojects(crate::project_tree::self_and_ancestors_spec(ps, project_id), 0) {
        Some(b) => b,
        None => s.show_subproject_tasks_default,
    }
}

/// Whether a task is one of project `p`'s own visible, incomplete tasks.
pub open spec fn own_incomplete(t: Task, p: Seq<char>, s: Settings) -> bool {
    crate::status_stats::in_project(t, p) && !t.hidden && crate::status_stats::incomplete(t, s)
}

/// Project `p`'s own visible, incomplete tasks among `tasks[0..upto]`, in
/// order.
pub open spec fn own_incomplete_upto(tasks: Seq<Task>, p: Seq<char>, s: Settings, upto: int) -> Seq<Task>
    decreases upto,
{
    if upto <= 0 {
        Seq::empty()
    } else {
        let rest = own_incomplete_upto(tasks, p, s, upto - 1);
        if own_incomplete(tasks[upto - 1], p, s) { rest.push(tasks[upto - 1]) } else { rest }
    }
}

/// The integer figures of a project's status line; the ratios and the
/// weekly average are formed from the completion counts and the tracked
/// sessions by the caller.
#[derive(Debug, Clone, PartialEq)]
pub struct ProjectStatusFigures {
    pub status_tier: StatusTier,
    pub estimated_time_left: u32,
    pub total_time_tracked: u32,
    pub include_subprojects: bool,
    pub effective_layout_id: String,
}

/// The integer figures of project `project_id`'s status line over
/// `all_tasks`: the tier from the effective rules over the project's own
/// visible incomplete tasks, the estimated time left (never rolled up), the
/// total time tracked (rolled up as the project's chain says), whether the
/// chain rolls up, and the layout in effect. `Err` names the project when
/// no project has that id.
pub fn plan_project_status_stats(
    project_id: &str,
    projects: &[Project],
    all_tasks: Vec<Task>,
    settings: &Settings,
    today: i32,
) -> (r: Result<ProjectStatusFigures, String>)
    requires
        is_valid_day(today as int),
        all_tasks@.len() <= u32::MAX,
        crate::project_tree::find_project(projects@, project_id@) is Some ==> ({
            let ids = crate::status_stats::scope_ids(projects@, project_id@, shows_subprojects(projects@, project_id@, *settings));
            &&& crate::status_stats::estimate_left_upto(all_tasks@, project_id@, *settings, all_tasks@.len() as int) <= u32::MAX
            &&& crate::status_stats::tracked_over(projects@, all_tasks@, ids, ids.len() as int) <= u32::MAX
        }),
    ensures
        r is Err <==> crate::project_tree::find_project(projects@, project_id@) is None,
        r matches Err(e) ==> e@ == "project '"@ + project_id@ + "' not found"@,
        r matches Ok(f) ==> ({
            let i = crate::project_tree::find_project(projects@, project_id@)->0;
            let rollup = shows_subprojects(projects@, project_id@, *settings);
            let ids = crate::status_stats::scope_ids(projects@, project_id@, rollup);
            let left = crate::status_stats::estimate_left_upto(all_tasks@, project_id@, *settings, all_tasks@.len() as int);
            let rules = Seq::new(settings.default_status_tier_rules@.len(), |k: int|
                crate::status_tier::effective_rule(settings.default_status_tier_rules@,
                    (match projects@[i].board.status_tier_rule_overrides {
                        Some(o) => Some(o@),
                        None => None::<Seq<Option<crate::settings::StatusTierRule>>>,
                    }), k));
            &&& f.include_subprojects == rollup
            &&& f.estimated_time_left == left
            &&& f.total_time_tracked == crate::status_stats::tracked_over(projects@, all_tasks@, ids, ids.len() as int)
            &&& f.status_tier == crate::status_tier::first_matching_tier(rules,
                    own_incomplete_upto(all_tasks@, project_id@, *settings, all_tasks@.len() as int),
                    settings.priorities@, f.estimated_time_left, today as int)
            &&& f.effective_layout_id == (match projects@[i].board.status_line_layout_id {
                    Some(l) => l,
                    None => settings.default_status_line_layout_id,
                })
        }),
{
    let pi = match crate::project_tree::find_project_index(projects, project_id) {
        Some(pi) => pi,
        None => {
            let msg = concat3("project '", project_id, "' not found");
            return Err(msg);
        },
    };
    let project = &projects[pi];
    let include_subprojects = resolve_show_subproject_tasks(projects, project_id, settings);
    let estimated_time_left = crate::status_stats::estimated_time_left(project_id, &all_tasks, settings);
    let total_time_tracked = crate::status_stats::total_time_tracked(project_id, projects, &all_tasks, include_subprojects);
    let ghost orig = all_tasks@;
    let ghost n = all_tasks@.len();
    let mut remaining = all_tasks;
    let mut own: Vec<Task> = Vec::new();
    let mut i: usize = 0;
    while remaining.len() > 0
        invariant
            orig.len() == n,
            n <= usize::MAX,
            i <= n,
            remaining@ == orig.subrange(i as int, n as int),
            own@ == own_incomplete_upto(orig, project_id@, *settings, i as int),
        decreases remaining.len(),
    {
        let t = remaining.remove(0);
        proof {
            assert(t == orig[i as int]);
            assert(remaining@ =~= orig.subrange(i + 1, n as int));
        }
        if crate::status_stats::belongs_to_project(&t, project_id) && !t.hidden && crate::status_stats::is_incomplete(&t, settings) {
            own.push(t);
        }
        i += 1;
    }
    let overrides: Option<&[Option<crate::settings::StatusTierRule>]> = match &project.board.status_tier_rule_overrides {
        Some(o) => Some(o.as_slice()),
        None => None,
    };
    let rules = crate::status_tier::effective_status_tier_rules(settings.default_status_tier_rules.as_slice(), overrides);
    let status_tier = crate::status_tier::evaluate_status_tier(rules.as_slice(), own.as_slice(), settings, estimated_time_left, today);
    let effective_layout_id = resolve_status_line_layout_id(project, settings);
    proof {
        let rs = Seq::new(settings.default_status_tier_rules@.len(), |k: int|
            crate::status_tier::effective_rule(settings.default_status_tier_rules@,
                (match project.board.status_tier_rule_overrides {
                    Some(o) => Some(o@),
                    None => None::<Seq<Option<crate::settings::StatusTierRule>>>,
                }), k));
        assert(rules@ =~= rs);
        assert(i == n);
        assert(own@ == own_incomplete_upto(all_tasks@, project_id@, *settings, all_tasks@.len() as int));
        assert(status_tier == crate::status_tier::first_matching_tier(rs, own@, settings.priorities@, estimated_time_left, today as int));
        let i0 = crate::project_tree::find_project(projects@, project_id@)->0;
        assert(i0 == pi);
        let re = Seq::new(settings.default_status_tier_rules@.len(), |k: int|
            crate::status_tier::effective_rule(settings.default_status_tier_rules@,
                (match projects@[i0].board.status_tier_rule_overrides {
                    Some(o) => Some(o@),
                    None => None::<Seq<Option<crate::settings::StatusTierRule>>>,
                }), k));
        assert(re =~= rs);
    }
    Ok(ProjectStatusFigures {
        status_tier,
        estimated_time_left,
        total_time_tracked,
        include_subprojects,
        effective_layout_id,
    })
}


/// The position of the first layout with id `id`, if any.
pub open spec fn find_layout(ls: Seq<StatLayout>, id: Seq<char>) -> Option<int> {
    if exists|i: int| 0 <= i < ls.len() && (#[trigger] ls[i]).id@ == id {
        Some(choose|i: int| 0 <= i < ls.len() && (#[trigger] ls[i]).id@ == id
            && forall|k: int| 0 <= k < i ==> (#[trigger] ls[k]).id@ != id)
    } else {
        None
    }
}

/// The position of the first layout with id `id`, if any.
pub fn find_layout_index(layouts: &[StatLayout], id: &str) -> (r: Option<usize>)
    ensures
        match r {
            Some(i) => find_layout(layouts@, id@) == Some(i as int) && i < layouts@.len() && layouts@[i as int].id@ == id@
                && forall|k: int| 0 <= k < i ==> (#[trigger] layouts@[k]).id@ != id@,
            None => find_layout(layouts@, id@) is None && forall|k: int| 0 <= k < layouts@.len() ==> (#[trigger] layouts@[k]).id@ != id@,
        },
{
    let mut i: usize = 0;
    while i < layouts.len()
        invariant
            i <= layouts@.len(),
            forall|k: int| 0 <= k < i ==> (#[trigger] layouts@[k]).id@ != id@,
        decreases layouts.len() - i,
    {
        if str_eq(layouts[i].id.as_str(), id) {
            proof {
                let c = choose|j: int| 0 <= j < layouts@.len() && (#[trigger] layouts@[j]).id@ == id@
                    && forall|k: int| 0 <= k < j ==> (#[trigger] layouts@[k]).id@ != id@;
                assert(c == i as int) by {
                    if c < i {
                        assert(layouts@[c].id@ != id@);
                    } else if c > i {
                        assert(layouts@[i as int].id@ != id@);
                    }
                }
            }
            return Some(i);
        }
        i += 1;
    }
    None
}

/// "layout '<id>' not found".
pub open spec fn layout_not_found(id: Seq<char>) -> Seq<char> {
    "layout '"@ + id + "' not found"@
}

/// Replaces the saved layout that has `layout`'s id with `layout`, after
/// checking it; `Err` with the check's message when it fails, else naming
/// the id when no saved layout has it. The list is unchanged on `Err`.
pub fn plan_update_status_layout(layouts: &mut Vec<StatLayout>, layout: StatLayout) -> (r: Result<(), String>)
    ensures
        match crate::layout::status_layout_problem(layout) {
            Some(p) => r matches Err(e) && e@ == p && final(layouts)@ == old(layouts)@,
            None => match find_layout(old(layouts)@, layout.id@) {
                Some(i) => r is Ok && final(layouts)@ == old(layouts)@.update(i, layout),
                None => r matches Err(e) && e@ == layout_not_found(layout.id@) && final(layouts)@ == old(layouts)@,
            },
        },
{
    match crate::layout::validate_status_layout(&layout) {
        Err(e) => return Err(e),
        Ok(()) => {},
    }
    match find_layout_index(layouts.as_slice(), layout.id.as_str()) {
        Some(i) => {
            layouts.set(i, layout);
            Ok(())
        },
        None => Err(concat3("layout '", layout.id.as_str(), "' not found")),
    }
}

/// Appends a new status-line layout named `new_name` with the stat ids of
/// the saved layout `layout_id`, and returns its position; `Err` names the
/// id when no saved layout has it, and the list is then unchanged.
pub fn plan_duplicate_status_layout(layouts: &mut Vec<StatLayout>, layout_id: &str, new_name: String) -> (r: Result<usize, String>)
    ensures
        match find_layout(old(layouts)@, layout_id@) {
            Some(i) => r matches Ok(k) && k == old(layouts)@.len() && final(layouts)@.len() == k + 1
                && final(layouts)@.subrange(0, k as int) == old(layouts)@
                && ({
                    let d = final(layouts)@[k as int];
                    &&& d.id@.len() > 0
                    &&& d.name == new_name
                    &&& d.kind@ == crate::layout::status_line_kind()
                    &&& string_views(d.stat_ids@) == string_views(old(layouts)@[i].stat_ids@)
                    &&& d.widget_widths@ == Map::<String, String>::empty()
                    &&& d.dashboard_widgets@.len() == 0
                    &&& d.dashboard_theme is None
                    &&& d.project_id is None
                }),
            None => r matches Err(e) && e@ == layout_not_found(layout_id@) && final(layouts)@ == old(layouts)@,
        },
{
    match find_layout_index(layouts.as_slice(), layout_id) {
        Some(i) => {
            let ids = copy_strings(&layouts[i].stat_ids);
            let dup = StatLayout::new_status_line(new_name, ids);
            let k = layouts.len();
            layouts.push(dup);
            proof {
                assert(layouts@.subrange(0, k as int) =~= old(layouts)@);
            }
            Ok(k)
        },
        None => Err(concat3("layout '", layout_id, "' not found")),
    }
}

/// The layouts among `ls[0..upto]` whose id is not `id`, in order.
pub open spec fn layouts_without(ls: Seq<StatLayout>, id: Seq<char>, upto: int) -> Seq<StatLayout>
    decreases upto,
{
    if upto <= 0 {
        Seq::empty()
    } else {
        let rest = layouts_without(ls, id, upto - 1);
        if ls[upto - 1].id@ != id { rest.push(ls[upto - 1]) } else { rest }
    }
}

/// Deletes the saved layout `layout_id`: `Err` naming the id when no saved
/// layout has it, else the in-use error while any project or the global
/// default still uses it (the list is then unchanged); otherwise every
/// layout with that id leaves the list.
pub fn plan_delete_status_layout(
    layouts: Vec<StatLayout>,
    layout_id: &str,
    projects: &[Project],
    settings: &Settings,
) -> (r: Result<Vec<StatLayout>, String>)
    ensures
        (forall|k: int| 0 <= k < layouts@.len() ==> (#[trigger] layouts@[k]).id@ != layout_id@) ==> (r matches Err(e)
            && e@ == layout_not_found(layout_id@)),
        (exists|k: int| 0 <= k < layouts@.len() && (#[trigger] layouts@[k]).id@ == layout_id@) ==> match ensure_layout_in_use_error(projects@, *settings, layout_id@) {
            Some(msg) => r matches Err(e) && e@ == msg,
            None => r matches Ok(v) && v@ == layouts_without(layouts@, layout_id@, layouts@.len() as int),
        },
{
    if find_layout_index(layouts.as_slice(), layout_id).is_none() {
        return Err(concat3("layout '", layout_id, "' not found"));
    }
    match ensure_layout_not_in_use(layout_id, projects, settings) {
        Err(e) => return Err(e),
        Ok(()) => {},
    }
    let ghost orig = layouts@;
    let n0 = layouts.len();
    let ghost n = n0 as nat;
    let mut remaining = layouts;
    let mut kept: Vec<StatLayout> = Vec::new();
    let mut i: usize = 0;
    while remaining.len() > 0
        invariant
            orig.len() == n,
            n <= usize::MAX,
            i <= n,
            remaining@ == orig.subrange(i as int, n as int),
            kept@ == layouts_without(orig, layout_id@, i as int),
        decreases remaining.len(),
    {
        let l = remaining.remove(0);
        proof {
            assert(l == orig[i as int]);
            assert(remaining@ =~= orig.subrange(i + 1, n as int));
        }
        if !str_eq(l.id.as_str(), layout_id) {
            kept.push(l);
        }
        i += 1;
    }
    Ok(kept)
}

/// The in-use error for deleting layout `id`, when any project or the
/// global default still uses it.
pub open spec fn ensure_layout_in_use_error(ps: Seq<Project>, s: Settings, id: Seq<char>) -> Option<Seq<char>> {
    let n = layout_users(ps, id, ps.len() as int);
    if n == 0 && s.default_status_line_layout_id@ != id {
        None
    } else {
        Some(layout_in_use_error(n, s.default_status_line_layout_id@ == id))
    }
}


/// The settings chain of a series' project: that project and its
/// ancestors, or nothing without a project.
pub open spec fn series_chain(ps: Seq<Project>, series: crate::series::Series) -> Seq<Project> {
    match series.project_id {
        Some(id) => chain_of(ps, id@),
        None => Seq::empty(),
    }
}

/// Extends the occurrences of series `series_id` through the date
/// `through`: `Err` when `through` is no `YYYY-MM-DD` date or no series has
/// that id, no occurrences for a series whose recurrence was removed, else
/// the occurrences generated for it (see [`occurrences_generated`]), the
/// series updated in place. The list is unchanged on `Err` and for an
/// inactive series.
pub fn plan_occurrences_until(
    all_series: &mut Vec<crate::series::Series>,
    series_id: &str,
    through: &str,
    settings: &Settings,
    projects: &[Project],
) -> (r: Result<Vec<Task>, String>)
    ensures
        match parsed_iso_date(through@) {
            None => r matches Err(e) && e@ == "through must be a valid date in YYYY-MM-DD format"@
                && final(all_series)@ == old(all_series)@,
            Some(t) => {
                if exists|k: int| is_first_series(old(all_series)@, series_id@, k) {
                    let k = choose|k: int| is_first_series(old(all_series)@, series_id@, k);
                    let before = old(all_series)@[k];
                    if !before.active {
                        r matches Ok(v) && v@.len() == 0 && final(all_series)@ == old(all_series)@
                    } else {
                        &&& final(all_series)@.len() == old(all_series)@.len()
                        &&& final(all_series)@ == old(all_series)@.update(k, final(all_series)@[k])
                        &&& occurrences_generated(before, final(all_series)@[k], r, *settings, series_chain(projects@, before), t)
                    }
                } else {
                    r matches Err(e) && e@ == series_not_found_error(series_id@) && final(all_series)@ == old(all_series)@
                }
            },
        },
{
    let t = match parse_iso_date(through) {
        None => return Err(owned("through must be a valid date in YYYY-MM-DD format")),
        Some(t) => t,
    };
    let index = match find_series_index(all_series, series_id) {
        None => return Err(concat3("series '", series_id, "' not found")),
        Some(k) => k,
    };
    proof {
        let c = choose|k: int| is_first_series(all_series@, series_id@, k);
        assert(is_first_series(all_series@, series_id@, index as int));
        if c < index {
            assert(all_series@[c].id@ != series_id@);
        }
        if c > index {
            assert(all_series@[index as int].id@ != series_id@);
        }
    }
    if !all_series[index].active {
        return Ok(Vec::new());
    }
    let chain = match &all_series[index].project_id {
        Some(id) => crate::project_tree::self_and_ancestors(projects, id.as_str()),
        None => Vec::new(),
    };
    proof {
        if all_series@[index as int].project_id is None {
            assert(refs_view(chain@) =~= Seq::<Project>::empty());
        }
    }
    let ghost initial = all_series@;
    let mut target = all_series.remove(index);
    let created = generate_series_occurrences(settings, chain.as_slice(), &mut target, t);
    all_series.insert(index, target);
    proof {
        assert(all_series@ =~= initial.update(index as int, target));
    }
    created
}


/// Whether some task names project `id` as its subtask container.
pub open spec fn is_container_of_some(tasks: Seq<Task>, id: Seq<char>) -> bool {
    exists|k: int| 0 <= k < tasks.len() && opt_view((#[trigger] tasks[k]).subtask_project_id) == Some(id)
}

/// How many of `ps[0..upto]` are no task's subtask container.
pub open spec fn board_projects_upto(ps: Seq<Project>, tasks: Seq<Task>, upto: int) -> nat
    decreases upto,
{
    if upto <= 0 {
        0
    } else {
        board_projects_upto(ps, tasks, upto - 1) + if is_container_of_some(tasks, ps[upto - 1].id@) { 0nat } else { 1nat }
    }
}

/// The number of projects the board shows: those that are no active
/// task's subtask container.
pub fn board_project_count(projects: &[Project], active_tasks: &[Task]) -> (r: usize)
    ensures
        r == board_projects_upto(projects@, active_tasks@, projects@.len() as int),
{
    let mut count: usize = 0;
    let mut i: usize = 0;
    while i < projects.len()
        invariant
            i <= projects@.len(),
            count == board_projects_upto(projects@, active_tasks@, i as int),
            count <= i,
        decreases projects.len() - i,
    {
        let id = projects[i].id.as_str();
        let mut used = false;
        let mut k: usize = 0;
        while k < active_tasks.len()
            invariant
                k <= active_tasks@.len(),
                id@ == projects@[i as int].id@,
                used == exists|q: int| 0 <= q < k && opt_view((#[trigger] active_tasks@[q]).subtask_project_id) == Some(id@),
            decreases active_tasks.len() - k,
        {
            let hit = match &active_tasks[k].subtask_project_id {
                Some(c) => str_eq(c.as_str(), id),
                None => false,
            };
            proof {
                if hit {
                    assert(opt_view(active_tasks@[k as int].subtask_project_id) == Some(id@));
                }
            }
            used = used || hit;
            k += 1;
        }
        if !used {
            count += 1;
        }
        i += 1;
    }
    count
}

/// The task and project figures of the "All tasks" status bar: task counts
/// by status over the visible active tasks (see [`status_counts`]) and the
/// number of projects the board shows (see [`board_project_count`]).
#[derive(Debug, Clone, PartialEq)]
pub struct GlobalStatusStats {
    pub tasks_by_status: Vec<(String, usize)>,
    pub total_projects: usize,
}

/// The global status figures over the active tasks and the projects.
pub fn global_status_stats(settings: &Settings, projects: &[Project], active_tasks: &[Task]) -> (r: GlobalStatusStats)
    ensures
        are_status_counts(*settings, active_tasks@, r.tasks_by_status@),
        r.total_projects == board_projects_upto(projects@, active_tasks@, projects@.len() as int),
{
    GlobalStatusStats {
        tasks_by_status: status_counts(settings, active_tasks),
        total_projects: board_project_count(projects, active_tasks),
    }
}


/// Generating a series' occurrences never moves its watermark backward,
/// and every occurrence it creates is scheduled strictly after the
/// previous watermark and no later than the requested date, in date order:
/// a date is never generated twice across calls.
pub proof fn lemma_generation_moves_forward(
    before: crate::series::Series,
    after: crate::series::Series,
    r: Result<Vec<Task>, String>,
    settings: Settings,
    chain: Seq<Project>,
    through: int,
)
    requires
        occurrences_generated(before, after, r, settings, chain, through),
        is_valid_day(through),
        parsed_iso_date(before.generated_until@) matches Some(p) && is_valid_day(p),
    ensures
        ({
            let previous = parsed_iso_date(before.generated_until@)->0;
            &&& r is Ok
            &&& exists|w: int| w >= previous && after.generated_until@ == formatted_iso_date(w)
            &&& forall|k: int| 0 <= k < r->Ok_0@.len() ==> exists|d: int|
                previous < d <= through && opt_view((#[trigger] r->Ok_0@[k]).scheduled) == Some(formatted_iso_date(d))
        }),
{
    let previous = parsed_iso_date(before.generated_until@)->0;
    let dates = crate::recurrence::series_dates(before, previous, through);
    crate::recurrence::lemma_series_dates_in_window(before, previous, through);
    let w = next_watermark(dates, effective_horizon(before, through), previous);
    assert(w >= previous && after.generated_until@ == formatted_iso_date(w));
    let created = r->Ok_0@;
    assert forall|k: int| 0 <= k < created.len() implies exists|d: int|
        previous < d <= through && opt_view((#[trigger] created[k]).scheduled) == Some(formatted_iso_date(d)) by {
        assert(is_occurrence_task(created[k], before, default_status_spec(settings, chain), dates[k] as int));
        assert(previous < dates[k] <= through);
    }
}

/// Generating again through a date the watermark already covers creates
/// nothing and leaves the series as it is: after one generation, a second
/// one through any date on or before the new watermark is empty.
pub proof fn lemma_generation_below_watermark_is_empty(
    before: crate::series::Series,
    after: crate::series::Series,
    r: Result<Vec<Task>, String>,
    again: crate::series::Series,
    r2: Result<Vec<Task>, String>,
    settings: Settings,
    chain: Seq<Project>,
    through: int,
    through2: int,
)
    requires
        occurrences_generated(before, after, r, settings, chain, through),
        occurrences_generated(after, again, r2, settings, chain, through2),
        parsed_iso_date(before.generated_until@) is Some,
        parsed_iso_date(after.generated_until@) matches Some(w) && is_valid_day(w) && through2 <= w,
        is_valid_day(through2),
    ensures
        r2 matches Ok(v) && v@.len() == 0,
        again.generated_until@ == after.generated_until@,
        again == (crate::series::Series { generated_until: again.generated_until, ..after }),
{
    let w = parsed_iso_date(after.generated_until@)->0;
    let dates = crate::recurrence::series_dates(after, w, through2);
    crate::recurrence::lemma_series_dates_in_window(after, w, through2);
    if dates.len() > 0 {
        assert(w < dates[0] <= through2);
    }
    assert(dates.len() == 0);
    let h = effective_horizon(after, through2);
    assert(next_watermark(dates, h, w) == w);
    let previous = parsed_iso_date(before.generated_until@)->0;
    let first = crate::recurrence::series_dates(before, previous, through);
    assert(w == next_watermark(first, effective_horizon(before, through), previous));
}

/// Whether the projects of `s` come in non-decreasing `order`.
pub open spec fn in_project_order(s: Seq<Project>) -> bool {
    forall|i: int, j: int| 0 <= i < j < s.len() ==> (#[trigger] s[i]).order <= (#[trigger] s[j]).order
}

/// The first position of `s` at or after `k` whose project has a greater
/// `order` than `p`, or the end.
pub open spec fn insertion_point(s: Seq<Project>, p: Project, k: int) -> int
    decreases s.len() - k,
{
    if k < 0 || k >= s.len() {
        s.len() as int
    } else if s[k].order > p.order {
        k
    } else {
        insertion_point(s, p, k + 1)
    }
}

/// The first `n` projects of `s` sorted by `order`, each inserted after
/// every project whose order is not greater: ties keep their given order.
pub open spec fn stably_ordered(s: Seq<Project>, n: int) -> Seq<Project>
    decreases n,
{
    if n <= 0 {
        Seq::empty()
    } else {
        let prefix = stably_ordered(s, n - 1);
        prefix.insert(insertion_point(prefix, s[n - 1], 0), s[n - 1])
    }
}

/// The projects by `order`, ties keeping their given order.
pub fn sort_projects(projects: Vec<Project>) -> (r: Vec<Project>)
    ensures
        r@ == stably_ordered(projects@, projects@.len() as int),
        r@.to_multiset() == projects@.to_multiset(),
        in_project_order(r@),
{
    let ghost orig = projects@;
    let n0 = projects.len();
    let ghost n = n0 as nat;
    let mut rest = projects;
    let mut out: Vec<Project> = Vec::new();
    let mut i: usize = 0;
    proof {
        assert(out@ =~= orig.subrange(0, 0));
    }
    while rest.len() > 0
        invariant
            orig.len() == n,
            n <= usize::MAX,
            i <= n,
            rest@ == orig.subrange(i as int, n as int),
            out@ == stably_ordered(orig, i as int),
            out@.to_multiset() == orig.subrange(0, i as int).to_multiset(),
            in_project_order(out@),
        decreases rest.len(),
    {
        let p = rest.remove(0);
        proof {
            assert(p == orig[i as int]);
            assert(rest@ =~= orig.subrange(i + 1, n as int));
        }
        let mut k: usize = 0;
        while k < out.len() && out[k].order <= p.order
            invariant
                k <= out@.len(),
                forall|q: int| 0 <= q < k ==> (#[trigger] out@[q]).order <= p.order,
                insertion_point(out@, p, 0) == insertion_point(out@, p, k as int),
            decreases out.len() - k,
        {
            k += 1;
        }
        let ghost before = out@;
        out.insert(k, p);
        proof {
            assert(out@ == before.insert(k as int, p));
            assert(k == insertion_point(before, p, 0));
            vstd::seq_lib::to_multiset_insert(before, k as int, p);
            assert(orig.subrange(0, i + 1) =~= orig.subrange(0, i as int).push(p));
            vstd::seq_lib::to_multiset_build(orig.subrange(0, i as int), p);
            assert forall|a: int, b: int| 0 <= a < b < out@.len() implies (#[trigger] out@[a]).order <= (#[trigger] out@[b]).order by {
                if b < k {
                    assert(out@[a] == before[a] && out@[b] == before[b]);
                } else if b == k {
                    assert(out@[a] == before[a]);
                } else if a == k {
                    assert(out@[b] == before[b - 1]);
                    assert(before[k as int].order > p.order);
                    assert(before[k as int].order <= before[b - 1].order);
                } else if a < k {
                    assert(out@[a] == before[a] && out@[b] == before[b - 1]);
                } else {
                    assert(out@[a] == before[a - 1] && out@[b] == before[b - 1]);
                }
            }
        }
        i += 1;
    }
    proof {
        assert(orig.subrange(0, n as int) =~= orig);
    }
    out
}

/// A task moved on the board: its `order` set, and its status and priority
/// when given, which must be defined (the status is checked first). The
/// task is unchanged on `Err`.
pub fn plan_reorder(
    settings: &Settings,
    task: Task,
    order: i64,
    status: Option<String>,
    priority: Option<String>,
) -> (r: Result<Task, String>)
    ensures
        (status matches Some(s) && !crate::settings::has_status(*settings, s@)) ==> (r matches Err(e)
            && e@ == crate::settings::status_error(status->0@)),
        (status matches Some(s) ==> crate::settings::has_status(*settings, s@)) ==> {
            if priority matches Some(p) && !crate::settings::has_priority(*settings, p@) {
                r matches Err(e) && e@ == crate::settings::priority_error(priority->0@)
            } else {
                r matches Ok(t) && t == (Task {
                    order,
                    status: match status { Some(s) => s, None => task.status },
                    priority: match priority { Some(p) => p, None => task.priority },
                    ..task
                })
            }
        },
{
    if let Some(s) = &status {
        match crate::settings::validate_status_id(settings, s.as_str()) {
            Err(e) => return Err(e),
            Ok(()) => {},
        }
    }
    if let Some(p) = &priority {
        match crate::settings::validate_priority_id(settings, p.as_str()) {
            Err(e) => return Err(e),
            Ok(()) => {},
        }
    }
    let mut t = task;
    t.order = order;
    if let Some(s) = status {
        t.status = s;
    }
    if let Some(p) = priority {
        t.priority = p;
    }
    Ok(t)
}


/// Syncing a subtask container is idempotent: once the synced container
/// replaces the stored one, a second sync with the same title and project
/// finds that very container, at the same position, already carrying the
/// title and project it would set.
pub proof fn lemma_container_sync_idempotent(
    ps: Seq<Project>,
    container_id: Seq<char>,
    title: Seq<char>,
    project_id: Seq<char>,
    synced: Project,
)
    requires
        crate::project_tree::find_project(ps, container_id) is Some,
        synced.name@ == title,
        opt_view(synced.parent_id) == Some(project_id),
        same_project(synced, Project {
            name: synced.name,
            parent_id: synced.parent_id,
            ..ps[crate::project_tree::find_project(ps, container_id)->0]
        }),
    ensures
        ({
            let i = crate::project_tree::find_project(ps, container_id)->0;
            let stored = ps.update(i, synced);
            &&& crate::project_tree::find_project(stored, container_id) == Some(i)
            &&& stored[i].name@ == title
            &&& opt_view(stored[i].parent_id) == Some(project_id)
        }),
{
    let i = crate::project_tree::find_project(ps, container_id)->0;
    let stored = ps.update(i, synced);
    assert(crate::project_tree::is_first_with_id(ps, container_id, i));
    assert(crate::project_tree::is_first_with_id(stored, container_id, i)) by {
        assert forall|k: int| 0 <= k < i implies (#[trigger] stored[k]).id@ != container_id by {
            assert(stored[k] == ps[k]);
        }
    }
    let j = choose|j: int| crate::project_tree::is_first_with_id(stored, container_id, j);
    assert(j == i) by {
        if j < i {
            assert(stored[j].id@ != container_id);
        } else if j > i {
            assert(stored[i].id@ == container_id);
        }
    }
}

} // verus!
