//! Task-store rules that do not touch the disk: which ids are safe file
//! names, the order tasks are listed in, and the decisions of the two data
//! migrations (backfilling scheduled dates, and resolving legacy project
//! names in task front matter).

use chrono::Datelike;
use vstd::prelude::*;
use crate::clone::copy_string;
use crate::commands::{lex_less, str_less};
use crate::dates::{format_iso_date, formatted_iso_date, is_valid_day, parsed_iso_date};
use crate::project::Project;
use crate::settings::opt_view;
use crate::task::Task;
use crate::text::{eq_ignore_ascii_case, eq_ignore_ascii_case_spec, owned, str_eq};

verus! {

/// A refusal of the task store.
#[derive(Debug, Clone, PartialEq)]
pub enum StorageError {
    /// No task has this id.
    NotFound(String),
    /// The id is not a safe file name.
    InvalidId(String),
}

impl StorageError {
    /// The error's message.
    pub fn message(&self) -> (r: String)
        ensures
            r@ == (match self {
                StorageError::NotFound(id) => "task with id '"@ + id@ + "' not found"@,
                StorageError::InvalidId(id) => "'"@ + id@ + "' is not a valid task id"@,
            }),
    {
        match self {
            StorageError::NotFound(id) => crate::text::concat3("task with id '", id.as_str(), "' not found"),
            StorageError::InvalidId(id) => crate::text::concat3("'", id.as_str(), "' is not a valid task id"),
        }
    }
}

/// Whether `c` may appear in a task id: an ASCII letter or digit, or `-`.
pub open spec fn id_char(c: char) -> bool {
    ('a' <= c <= 'z') || ('A' <= c <= 'Z') || ('0' <= c <= '9') || c == '-'
}

/// Whether `id` is a safe task file name: non-empty, letters, digits and
/// dashes only.
pub open spec fn is_safe_task_id(id: Seq<char>) -> bool {
    id.len() > 0 && forall|i: int| 0 <= i < id.len() ==> id_char(#[trigger] id[i])
}

/// `Ok` exactly for a safe task id.
pub fn validate_task_id(id: &str) -> (r: Result<(), StorageError>)
    ensures
        r is Ok <==> is_safe_task_id(id@),
        r matches Err(e) ==> e matches StorageError::InvalidId(x) && x@ == id@,
{
    let n = id.unicode_len();
    let mut ok = n > 0;
    let mut i: usize = 0;
    while i < n
        invariant
            n == id@.len(),
            i <= n,
            ok == (n > 0 && forall|k: int| 0 <= k < i ==> id_char(#[trigger] id@[k])),
        decreases n - i,
    {
        let c = id.get_char(i);
        let good = ('a' <= c && c <= 'z') || ('A' <= c && c <= 'Z') || ('0' <= c && c <= '9') || c == '-';
        ok = ok && good;
        i += 1;
    }
    if ok {
        Ok(())
    } else {
        Err(StorageError::InvalidId(owned(id)))
    }
}

/// Whether task `a` is listed before task `b`: by `order`, then by
/// creation time as text.
pub open spec fn listed_before(a: Task, b: Task) -> bool {
    a.order < b.order || (a.order == b.order && lex_less(a.created@, b.created@))
}

/// Whether `a` is listed before `b` (see [`listed_before`]).
pub fn task_listed_before(a: &Task, b: &Task) -> (r: bool)
    ensures
        r == listed_before(*a, *b),
{
    a.order < b.order || (a.order == b.order && str_less(a.created.as_str(), b.created.as_str()))
}

/// Whether `s` parses as an RFC 3339 timestamp.
pub uninterp spec fn rfc3339_parses(s: Seq<char>) -> bool;

/// The instant an RFC 3339 timestamp names, in UTC, as whole seconds since
/// the Unix epoch and the nanoseconds past that second.
pub uninterp spec fn rfc3339_instant(s: Seq<char>) -> Option<(int, int)>;

/// chrono's `DateTime::parse_from_rfc3339`, converted to UTC
/// (`with_timezone(&Utc)`) and read back by `timestamp()` and
/// `timestamp_subsec_nanos()`. The instant is the name `rfc3339_instant`,
/// which is present exactly when the text parses; a failure carries chrono's
/// own description (`to_string()` of its error), whose wording is not stated.
#[verifier::external_body]
pub(crate) fn parse_rfc3339_utc(s: &str) -> (r: Result<(i64, u32), String>)
    ensures
        r is Ok <==> rfc3339_parses(s@),
        match r {
            Ok((secs, nanos)) => rfc3339_instant(s@) == Some((secs as int, nanos as int)),
            Err(_) => rfc3339_instant(s@) is None,
        },
{
    chrono::DateTime::parse_from_rfc3339(s)
        .map(|t| t.with_timezone(&chrono::Utc))
        .map(|t| (t.timestamp(), t.timestamp_subsec_nanos()))
        .map_err(|e| e.to_string())
}

/// The local calendar date of an RFC 3339 timestamp: chrono's
/// `DateTime::parse_from_rfc3339`, converted to the machine's time zone
/// (`with_timezone(&Local)`), as a day number. Whether the text parses is
/// the name `rfc3339_parses`; the date itself depends on the machine's time
/// zone, so nothing more is claimed of it than that it is representable.
#[verifier::external_body]
fn local_date_of_rfc3339(s: &str) -> (r: Option<i32>)
    ensures
        r is Some <==> rfc3339_parses(s@),
        r matches Some(d) ==> is_valid_day(d as int),
{
    chrono::DateTime::parse_from_rfc3339(s).ok().map(|t| t.with_timezone(&chrono::Local).date_naive().num_days_from_ce())
}

/// The task with its scheduled date backfilled from `created_day` (the
/// local date of its creation time), for a task without one; `None` when
/// the task already has a scheduled date or its creation time did not
/// parse.
pub fn plan_scheduled_backfill(task: &Task, created_day: Option<i32>) -> (r: Option<Task>)
    requires
        created_day matches Some(d) ==> is_valid_day(d as int),
    ensures
        match (task.scheduled, created_day) {
            (None, Some(d)) => r matches Some(t) && opt_view(t.scheduled) == Some(formatted_iso_date(d as int))
                && parsed_iso_date(formatted_iso_date(d as int)) == Some(d as int)
                && crate::task::same_task(Task { scheduled: None, ..t }, *task),
            _ => r is None,
        },
{
    if task.scheduled.is_some() {
        return None;
    }
    match created_day {
        None => None,
        Some(d) => {
            let mut t = crate::clone::copy_task(task);
            t.scheduled = Some(format_iso_date(d));
            Some(t)
        },
    }
}

/// The scheduled-date backfill of one task: its creation time's local date
/// (see [`plan_scheduled_backfill`]); `None` when nothing changes.
pub fn scheduled_backfill(task: &Task) -> (r: Option<Task>)
    ensures
        task.scheduled is Some ==> r is None,
        task.scheduled is None ==> (r is Some <==> rfc3339_parses(task.created@)),
        r matches Some(t) ==> t.scheduled is Some && parsed_iso_date(t.scheduled->0@) is Some
            && crate::task::same_task(Task { scheduled: None, ..t }, *task),
{
    if task.scheduled.is_some() {
        return None;
    }
    let day = local_date_of_rfc3339(task.created.as_str());
    plan_scheduled_backfill(task, day)
}

/// The position of the first occurrence of `pat` in `s` at or after `i`.
pub open spec fn find_from(s: Seq<char>, pat: Seq<char>, i: int) -> Option<int>
    decreases s.len() + 1 - i,
{
    if i < 0 || i > s.len() || i + pat.len() > s.len() {
        None
    } else if s.subrange(i, i + pat.len()) == pat {
        Some(i)
    } else {
        find_from(s, pat, i + 1)
    }
}

/// The front matter of a task file: the text between an opening `---`
/// line at the very start and the next line starting with `---`.
pub open spec fn front_matter(content: Seq<char>) -> Option<Seq<char>> {
    let open = "---\n"@;
    if content.len() < open.len() || content.subrange(0, open.len() as int) != open {
        None
    } else {
        let rest = content.subrange(open.len() as int, content.len() as int);
        match find_from(rest, "\n---"@, 0) {
            None => None,
            Some(end) => Some(rest.subrange(0, end)),
        }
    }
}

proof fn lemma_find_from_in_range(s: Seq<char>, pat: Seq<char>, i: int)
    ensures
        find_from(s, pat, i) matches Some(k) ==> i <= k && k + pat.len() <= s.len(),
    decreases s.len() + 1 - i,
{
    if !(i < 0 || i > s.len() || i + pat.len() > s.len()) && s.subrange(i, i + pat.len()) != pat {
        lemma_find_from_in_range(s, pat, i + 1);
    }
}

fn find_closing(s: &str) -> (r: Option<usize>)
    ensures
        match r {
            Some(i) => find_from(s@, "\n---"@, 0) == Some(i as int),
            None => find_from(s@, "\n---"@, 0) is None,
        },
{
    proof {
        reveal_strlit("\n---");
    }
    let n = s.unicode_len();
    if n < 4 {
        assert(find_from(s@, "\n---"@, 0) is None);
        return None;
    }
    let ghost pat = seq!['\n', '-', '-', '-'];
    assert("\n---"@ == pat);
    let mut i: usize = 0;
    while i <= n - 4
        invariant
            n == s@.len(),
            n >= 4,
            i <= n - 3,
            "\n---"@ == pat,
            pat == seq!['\n', '-', '-', '-'],
            find_from(s@, pat, 0) == find_from(s@, pat, i as int),
        decreases n - i,
    {
        let c0 = s.get_char(i);
        let c1 = s.get_char(i + 1);
        let c2 = s.get_char(i + 2);
        let c3 = s.get_char(i + 3);
        let hit = c0 == '\n' && c1 == '-' && c2 == '-' && c3 == '-';
        proof {
            let sub = s@.subrange(i as int, i + 4);
            assert(sub.len() == 4);
            assert(sub[0] == c0 && sub[1] == c1 && sub[2] == c2 && sub[3] == c3);
            if hit {
                assert(sub =~= pat);
            } else {
                if sub == pat {
                    assert(sub[0] == s@[i as int] && sub[1] == s@[i + 1] && sub[2] == s@[i + 2] && sub[3] == s@[i + 3]);
                }
            }
        }
        if hit {
            return Some(i);
        }
        i += 1;
    }
    None
}

/// The front matter of a task file (see [`front_matter`]).
pub fn front_matter_of(content: &str) -> (r: Option<String>)
    ensures
        opt_view(r) == front_matter(content@),
{
    proof {
        reveal_strlit("---\n");
    }
    let n = content.unicode_len();
    if n < 4 {
        return None;
    }
    let head = content.substring_char(0, 4);
    if !str_eq(head, "---\n") {
        return None;
    }
    let rest = content.substring_char(4, n);
    proof {
        lemma_find_from_in_range(rest@, "\n---"@, 0);
        reveal_strlit("\n---");
    }
    match find_closing(rest) {
        None => None,
        Some(end) => Some(rest.substring_char(0, end).to_string()),
    }
}

/// What serde_yaml reads as the string value of the `project` key of a
/// YAML mapping, if any.
pub uninterp spec fn yaml_project_value(yaml: Seq<char>) -> Option<Seq<char>>;

/// Reads the `project` key of a YAML mapping: serde_yaml's
/// `from_str::<serde_yaml::Value>`, then `get("project")` and `as_str()`.
/// What serde_yaml makes of the text is the name `yaml_project_value`.
#[verifier::external_body]
fn yaml_project_field(yaml: &str) -> (r: Option<String>)
    ensures
        opt_view(r) == yaml_project_value(yaml@),
{
    let value: serde_yaml::Value = serde_yaml::from_str(yaml).ok()?;
    value.get("project")?.as_str().map(|s| s.to_string())
}

/// The legacy `project` name in a task file's front matter, if any.
pub fn read_legacy_project_name(content: &str) -> (r: Option<String>)
    ensures
        opt_view(r) == (match front_matter(content@) {
            None => None,
            Some(fm) => yaml_project_value(fm),
        }),
{
    match front_matter_of(content) {
        None => None,
        Some(fm) => yaml_project_field(fm.as_str()),
    }
}

/// Whether position `i` holds the first project named `name` (ignoring
/// ASCII case).
pub open spec fn is_first_named(ps: Seq<Project>, name: Seq<char>, i: int) -> bool {
    &&& 0 <= i < ps.len()
    &&& eq_ignore_ascii_case_spec(ps[i].name@, name)
    &&& forall|k: int| 0 <= k < i ==> !eq_ignore_ascii_case_spec((#[trigger] ps[k]).name@, name)
}

/// The task with its project resolved from a legacy project name: the
/// first project with that name (ignoring ASCII case), or the task as it
/// is when no project has it.
pub fn resolve_legacy_project(task: Task, legacy_name: &str, projects: &[Project]) -> (r: Task)
    ensures
        (exists|i: int| is_first_named(projects@, legacy_name@, i)) ==> exists|i: int|
            is_first_named(projects@, legacy_name@, i) && r == (Task { project_id: Some(projects@[i].id), ..task }),
        (forall|i: int| 0 <= i < projects@.len() ==> !eq_ignore_ascii_case_spec((#[trigger] projects@[i]).name@, legacy_name@))
            ==> (r == task),
{
    let mut i: usize = 0;
    while i < projects.len()
        invariant
            i <= projects@.len(),
            forall|k: int| 0 <= k < i ==> !eq_ignore_ascii_case_spec((#[trigger] projects@[k]).name@, legacy_name@),
        decreases projects.len() - i,
    {
        if eq_ignore_ascii_case(projects[i].name.as_str(), legacy_name) {
            let r = Task { project_id: Some(copy_string(&projects[i].id)), ..task };
            proof {
                assert(is_first_named(projects@, legacy_name@, i as int));
                assert forall|j: int| is_first_named(projects@, legacy_name@, j) implies j == i by {
                    if j < i {
                        assert(!eq_ignore_ascii_case_spec(projects@[j].name@, legacy_name@));
                    }
                    if j > i {
                        assert(!eq_ignore_ascii_case_spec(projects@[i as int].name@, legacy_name@));
                    }
                }
            }
            return r;
        }
        i += 1;
    }
    proof {
        assert forall|j: int| !is_first_named(projects@, legacy_name@, j) by {
            if 0 <= j < projects@.len() {
                assert(!eq_ignore_ascii_case_spec(projects@[j].name@, legacy_name@));
            }
        }
    }
    task
}


proof fn lemma_lex_less_transitive(a: Seq<char>, b: Seq<char>, c: Seq<char>, i: int)
    requires
        0 <= i,
        crate::commands::lex_less_from(a, b, i),
        crate::commands::lex_less_from(b, c, i),
    ensures
        crate::commands::lex_less_from(a, c, i),
    decreases a.len() - i,
{
    if i < a.len() && a[i] == b[i] && b[i] == c[i] {
        lemma_lex_less_transitive(a, b, c, i + 1);
    }
}

proof fn lemma_lex_less_irreflexive(a: Seq<char>, i: int)
    requires
        0 <= i,
    ensures
        !crate::commands::lex_less_from(a, a, i),
    decreases a.len() - i,
{
    if i < a.len() {
        lemma_lex_less_irreflexive(a, i + 1);
    }
}

proof fn lemma_listed_before_transitive(a: Task, b: Task, c: Task)
    requires
        listed_before(a, b),
        listed_before(b, c),
    ensures
        listed_before(a, c),
{
    if a.order == b.order && b.order == c.order {
        lemma_lex_less_transitive(a.created@, b.created@, c.created@, 0);
    }
}

/// Whether no task of `s` is listed before one that precedes it.
pub open spec fn in_listing_order(s: Seq<Task>) -> bool {
    forall|i: int, j: int| 0 <= i < j < s.len() ==> !listed_before(#[trigger] s[j], #[trigger] s[i])
}

/// The first position of `s` at or after `k` whose task `t` is listed
/// before, or the end.
pub open spec fn listing_point(s: Seq<Task>, t: Task, k: int) -> int
    decreases s.len() - k,
{
    if k < 0 || k >= s.len() {
        s.len() as int
    } else if listed_before(t, s[k]) {
        k
    } else {
        listing_point(s, t, k + 1)
    }
}

/// The first `n` tasks of `s` in listing order, each inserted before the
/// first task it is listed before: tasks that tie keep their given order.
pub open spec fn stably_listed(s: Seq<Task>, n: int) -> Seq<Task>
    decreases n,
{
    if n <= 0 {
        Seq::empty()
    } else {
        let prefix = stably_listed(s, n - 1);
        prefix.insert(listing_point(prefix, s[n - 1], 0), s[n - 1])
    }
}

/// The tasks in listing order (see [`listed_before`]): by `order`, then by
/// creation time, keeping the given order between tasks that tie.
pub fn sort_tasks(tasks: Vec<Task>) -> (r: Vec<Task>)
    ensures
        r@ == stably_listed(tasks@, tasks@.len() as int),
        r@.to_multiset() == tasks@.to_multiset(),
        in_listing_order(r@),
{
    let ghost orig = tasks@;
    let n0 = tasks.len();
    let ghost n = n0 as nat;
    let mut rest = tasks;
    let mut out: Vec<Task> = Vec::new();
    let mut i: usize = 0;
    proof {
        assert(out@ =~= orig.subrange(0, 0));
    }
    while rest.len() > 0
        invariant
            orig.len() == n,
            n <= usize::MAX,
            i <= n,
            rest@ == orig.subrange(i as int, n as int),
            out@ == stably_listed(orig, i as int),
            out@.to_multiset() == orig.subrange(0, i as int).to_multiset(),
            in_listing_order(out@),
        decreases rest.len(),
    {
        let t = rest.remove(0);
        proof {
            assert(t == orig[i as int]);
            assert(rest@ =~= orig.subrange(i + 1, n as int));
        }
        let mut k: usize = 0;
        while k < out.len() && !task_listed_before(&t, &out[k])
            invariant
                k <= out@.len(),
                forall|q: int| 0 <= q < k ==> !listed_before(t, #[trigger] out@[q]),
                listing_point(out@, t, 0) == listing_point(out@, t, k as int),
            decreases out.len() - k,
        {
            k += 1;
        }
        let ghost before = out@;
        out.insert(k, t);
        proof {
            assert(out@ == before.insert(k as int, t));
            assert(k == listing_point(before, t, 0));
            vstd::seq_lib::to_multiset_insert(before, k as int, t);
            assert(orig.subrange(0, i + 1) =~= orig.subrange(0, i as int).push(t));
            vstd::seq_lib::to_multiset_build(orig.subrange(0, i as int), t);
            assert forall|a: int, b: int| 0 <= a < b < out@.len() implies !listed_before(#[trigger] out@[b], #[trigger] out@[a]) by {
                if b < k {
                    assert(out@[a] == before[a] && out@[b] == before[b]);
                } else if b == k {
                    assert(out@[a] == before[a]);
                } else if a == k {
                    assert(out@[b] == before[b - 1]);
                    assert(listed_before(t, before[k as int]));
                    if listed_before(before[b - 1], t) {
                        lemma_listed_before_transitive(before[b - 1], t, before[k as int]);
                        if b - 1 > k {
                            assert(!listed_before(before[b - 1], before[k as int]));
                        } else {
                            lemma_lex_less_irreflexive(before[k as int].created@, 0);
                        }
                    }
                } else if a < k {
                    assert(out@[a] == before[a] && out@[b] == before[b - 1]);
                } else {
                    assert(out@[a] == before[a - 1] && out@[b] == before[b - 1]);
                }
            }
        }
        i += 1;
    }
    proof {
        assert(orig.subrange(0, n as int) =~= orig);
    }
    out
}

} // verus!
