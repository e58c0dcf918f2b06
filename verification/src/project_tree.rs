//! Queries over the project hierarchy formed by `parent_id` links.
//!
//! Walks are bounded by the number of projects, so they terminate on any
//! input; on a well-formed (acyclic) hierarchy the bound is never reached.

use vstd::prelude::*;
use crate::project::Project;
use crate::settings::opt_view;
use crate::clone::copy_opt_string;
use crate::text::str_eq;

verus! {

/// The projects whose parent is `parent` (top-level ones for `None`), in
/// order.
pub open spec fn children_seq(ps: Seq<Project>, parent: Option<Seq<char>>) -> Seq<Project>
    decreases ps.len(),
{
    if ps.len() == 0 {
        Seq::empty()
    } else {
        let rest = children_seq(ps.drop_last(), parent);
        if opt_view(ps.last().parent_id) == parent { rest.push(ps.last()) } else { rest }
    }
}

pub open spec fn opt_str_view(o: Option<&str>) -> Option<Seq<char>> {
    match o {
        Some(s) => Some(s@),
        None => None,
    }
}

pub open spec fn refs_view(v: Seq<&Project>) -> Seq<Project> {
    v.map_values(|p: &Project| *p)
}

fn same_parent(p: &Project, parent_id: Option<&str>) -> (r: bool)
    ensures
        r == (opt_view(p.parent_id) == opt_str_view(parent_id)),
{
    match (&p.parent_id, parent_id) {
        (Some(a), Some(b)) => str_eq(a.as_str(), b),
        (None, None) => true,
        _ => false,
    }
}

/// The direct children of `parent_id` (every top-level project for
/// `None`), in the order they appear in `projects`.
pub fn children_of<'a>(projects: &'a [Project], parent_id: Option<&str>) -> (r: Vec<&'a Project>)
    ensures
        refs_view(r@) == children_seq(projects@, opt_str_view(parent_id)),
{
    let mut out: Vec<&'a Project> = Vec::new();
    let mut i: usize = 0;
    while i < projects.len()
        invariant
            i <= projects@.len(),
            refs_view(out@) == children_seq(projects@.subrange(0, i as int), opt_str_view(parent_id)),
        decreases projects.len() - i,
    {
        proof {
            assert(projects@.subrange(0, i + 1).drop_last() == projects@.subrange(0, i as int));
        }
        if same_parent(&projects[i], parent_id) {
            out.push(&projects[i]);
        }
        proof {
            assert(refs_view(out@) =~= children_seq(projects@.subrange(0, i + 1), opt_str_view(parent_id)));
        }
        i += 1;
    }
    assert(projects@.subrange(0, i as int) == projects@);
    out
}


/// Whether `i` is the first project with id `id`.
pub open spec fn is_first_with_id(ps: Seq<Project>, id: Seq<char>, i: int) -> bool {
    &&& 0 <= i < ps.len()
    &&& ps[i].id@ == id
    &&& forall|k: int| 0 <= k < i ==> (#[trigger] ps[k]).id@ != id
}

/// The position of the first project with id `id`, if any.
pub open spec fn find_project(ps: Seq<Project>, id: Seq<char>) -> Option<int> {
    if exists|i: int| is_first_with_id(ps, id, i) {
        Some(choose|i: int| is_first_with_id(ps, id, i))
    } else {
        None
    }
}

/// The first project with id `id`, if any.
pub fn find_project_index(projects: &[Project], id: &str) -> (r: Option<usize>)
    ensures
        match r {
            Some(i) => find_project(projects@, id@) == Some(i as int) && is_first_with_id(projects@, id@, i as int),
            None => find_project(projects@, id@) is None
                && forall|k: int| 0 <= k < projects@.len() ==> (#[trigger] projects@[k]).id@ != id@,
        },
{
    let mut i: usize = 0;
    while i < projects.len()
        invariant
            i <= projects@.len(),
            forall|k: int| 0 <= k < i ==> (#[trigger] projects@[k]).id@ != id@,
        decreases projects.len() - i,
    {
        if str_eq(projects[i].id.as_str(), id) {
            proof {
                assert(is_first_with_id(projects@, id@, i as int));
                let c = choose|j: int| is_first_with_id(projects@, id@, j);
                if c < i {
                    assert(projects@[c].id@ != id@);
                }
                if c > i {
                    assert(projects@[i as int].id@ != id@);
                }
            }
            return Some(i);
        }
        i += 1;
    }
    proof {
        if exists|j: int| is_first_with_id(projects@, id@, j) {
            let c = choose|j: int| is_first_with_id(projects@, id@, j);
            assert(projects@[c].id@ != id@);
        }
    }
    None
}

/// The chain of projects reached from `parent` by following parent links
/// (each link resolved to the first project with that id), nearest first,
/// at most `fuel` long; it stops at a top-level project or a dangling id.
pub open spec fn ancestor_chain(ps: Seq<Project>, parent: Option<Seq<char>>, fuel: nat) -> Seq<Project>
    decreases fuel,
{
    if fuel == 0 {
        Seq::empty()
    } else {
        match parent {
            None => Seq::empty(),
            Some(pid) => match find_project(ps, pid) {
                None => Seq::empty(),
                Some(i) => seq![ps[i]] + ancestor_chain(ps, opt_view(ps[i].parent_id), (fuel - 1) as nat),
            },
        }
    }
}

/// The ancestors of the project `id`, nearest first, ending at the root;
/// empty for a missing id or a top-level project.
pub open spec fn ancestors_spec(ps: Seq<Project>, id: Seq<char>) -> Seq<Project> {
    match find_project(ps, id) {
        None => Seq::empty(),
        Some(i) => ancestor_chain(ps, opt_view(ps[i].parent_id), ps.len()),
    }
}

/// The ancestors of the project identified by `id`, nearest first, ending
/// at the root. Empty if `id` names no project or a top-level one; stops at
/// a parent id that names no project.
pub fn ancestors_of<'a>(projects: &'a [Project], id: &str) -> (r: Vec<&'a Project>)
    ensures
        refs_view(r@) == ancestors_spec(projects@, id@),
{
    let mut out: Vec<&'a Project> = Vec::new();
    let start = match find_project_index(projects, id) {
        None => return out,
        Some(i) => i,
    };
    let mut current: Option<String> = copy_opt_string(&projects[start].parent_id);
    let mut fuel: usize = projects.len();
    proof {
        assert(refs_view(out@) + ancestor_chain(projects@, opt_view(current), fuel as nat)
            =~= ancestors_spec(projects@, id@));
    }
    while fuel > 0
        invariant
            refs_view(out@) + ancestor_chain(projects@, opt_view(current), fuel as nat) == ancestors_spec(projects@, id@),
        ensures
            refs_view(out@) + ancestor_chain(projects@, opt_view(current), fuel as nat) == ancestors_spec(projects@, id@),
            fuel == 0 || current is None || (current matches Some(c) && find_project(projects@, c@) is None),
        decreases fuel,
    {
        let pid = match &current {
            None => break,
            Some(p) => p,
        };
        let k = match find_project_index(projects, pid.as_str()) {
            None => break,
            Some(k) => k,
        };
        let ghost before = refs_view(out@);
        let ghost rest = ancestor_chain(projects@, opt_view(projects@[k as int].parent_id), (fuel - 1) as nat);
        out.push(&projects[k]);
        proof {
            assert(refs_view(out@) =~= before.push(projects@[k as int]));
            assert(ancestor_chain(projects@, opt_view(current), fuel as nat) == seq![projects@[k as int]] + rest);
            assert(refs_view(out@) + rest =~= before + (seq![projects@[k as int]] + rest));
        }
        current = copy_opt_string(&projects[k].parent_id);
        fuel -= 1;
    }
    proof {
        assert(ancestor_chain(projects@, opt_view(current), fuel as nat) == Seq::<Project>::empty());
        assert(refs_view(out@) + Seq::<Project>::empty() =~= refs_view(out@));
    }
    out
}

/// The project `id` (when it exists) followed by its ancestors.
pub open spec fn self_and_ancestors_spec(ps: Seq<Project>, id: Seq<char>) -> Seq<Project> {
    match find_project(ps, id) {
        None => Seq::empty(),
        Some(i) => seq![ps[i]] + ancestors_spec(ps, id),
    }
}

/// The project identified by `id` (if found) followed by its ancestors,
/// nearest first: the settings-resolution chain of that project.
pub fn self_and_ancestors<'a>(projects: &'a [Project], id: &str) -> (r: Vec<&'a Project>)
    ensures
        refs_view(r@) == self_and_ancestors_spec(projects@, id@),
{
    let mut out: Vec<&'a Project> = Vec::new();
    match find_project_index(projects, id) {
        None => {
            return out;
        },
        Some(i) => {
            out.push(&projects[i]);
        },
    }
    let ancestors = ancestors_of(projects, id);
    let ghost head = refs_view(out@);
    let mut j: usize = 0;
    while j < ancestors.len()
        invariant
            j <= ancestors@.len(),
            refs_view(out@) == head + refs_view(ancestors@).subrange(0, j as int),
        decreases ancestors.len() - j,
    {
        let ghost before = out@;
        out.push(ancestors[j]);
        proof {
            assert(out@ == before.push(ancestors@[j as int]));
            assert(refs_view(out@) =~= refs_view(before).push(refs_view(ancestors@)[j as int]));
            assert(refs_view(ancestors@).subrange(0, j + 1) =~= refs_view(ancestors@).subrange(0, j as int).push(refs_view(ancestors@)[j as int]));
            assert(refs_view(out@) =~= head + refs_view(ancestors@).subrange(0, j + 1));
        }
        j += 1;
    }
    proof {
        assert(refs_view(ancestors@).subrange(0, j as int) == refs_view(ancestors@));
    }
    out
}

/// Whether project `i`'s parent is among the first `upto` projects, as one
/// that descends from `x` within `k` generations.
pub open spec fn parent_among(ps: Seq<Project>, x: Seq<char>, i: int, k: nat, upto: int) -> bool
    decreases k, upto + 1,
{
    if upto <= 0 {
        false
    } else {
        (desc_within(ps, x, upto - 1, k) && opt_view(ps[i].parent_id) == Some(ps[upto - 1].id@))
            || parent_among(ps, x, i, k, upto - 1)
    }
}

/// Whether project `i` descends from the project id `x` through at most
/// `k` intermediate generations.
pub open spec fn desc_within(ps: Seq<Project>, x: Seq<char>, i: int, k: nat) -> bool
    decreases k, 0int,
{
    opt_view(ps[i].parent_id) == Some(x) || (k > 0 && parent_among(ps, x, i, (k - 1) as nat, ps.len() as int))
}

/// Whether project `i` is a (transitive) descendant of the project id `x`.
pub open spec fn is_descendant(ps: Seq<Project>, x: Seq<char>, i: int) -> bool {
    desc_within(ps, x, i, ps.len())
}

/// The descendants of `x` among the first `upto` projects, in order.
pub open spec fn descendants_upto(ps: Seq<Project>, x: Seq<char>, upto: int) -> Seq<Project>
    decreases upto,
{
    if upto <= 0 {
        Seq::empty()
    } else {
        let rest = descendants_upto(ps, x, upto - 1);
        if is_descendant(ps, x, upto - 1) { rest.push(ps[upto - 1]) } else { rest }
    }
}

fn parent_is(p: &Project, id: &String) -> (r: bool)
    ensures
        r == (opt_view(p.parent_id) == Some(id@)),
{
    match &p.parent_id {
        Some(a) => *a == *id,
        None => false,
    }
}

fn next_round(projects: &[Project], x: &String, marks: &Vec<bool>, Ghost(k): Ghost<nat>) -> (r: Vec<bool>)
    requires
        marks@.len() == projects@.len(),
        forall|i: int| 0 <= i < projects@.len() ==> #[trigger] marks@[i] == desc_within(projects@, x@, i, k),
    ensures
        r@.len() == projects@.len(),
        forall|i: int| 0 <= i < projects@.len() ==> #[trigger] r@[i] == desc_within(projects@, x@, i, k + 1),
{
    let n = projects.len();
    let mut out: Vec<bool> = Vec::new();
    let mut i: usize = 0;
    while i < n
        invariant
            n == projects@.len(),
            marks@.len() == n,
            forall|q: int| 0 <= q < n ==> #[trigger] marks@[q] == desc_within(projects@, x@, q, k),
            i <= n,
            out@.len() == i,
            forall|q: int| 0 <= q < i ==> #[trigger] out@[q] == desc_within(projects@, x@, q, k + 1),
        decreases n - i,
    {
        let mut among = false;
        let mut j: usize = 0;
        while j < n
            invariant
                n == projects@.len(),
                marks@.len() == n,
                forall|q: int| 0 <= q < n ==> #[trigger] marks@[q] == desc_within(projects@, x@, q, k),
                i < n,
                j <= n,
                among == parent_among(projects@, x@, i as int, k, j as int),
            decreases n - j,
        {
            let step = marks[j] && parent_is(&projects[i], &projects[j].id);
            among = step || among;
            j += 1;
        }
        let hit = parent_is(&projects[i], x) || among;
        proof {
            let k1: nat = k + 1;
            assert((k1 - 1) as nat == k);
        }
        out.push(hit);
        i += 1;
    }
    out
}

/// For each project, whether it descends from the project id `x`.
fn descendant_marks(projects: &[Project], x: &String) -> (r: Vec<bool>)
    ensures
        r@.len() == projects@.len(),
        forall|q: int| 0 <= q < projects@.len() ==> #[trigger] r@[q] == is_descendant(projects@, x@, q),
{
    let n = projects.len();
    let mut marks: Vec<bool> = Vec::new();
    let mut i: usize = 0;
    while i < n
        invariant
            n == projects@.len(),
            i <= n,
            marks@.len() == i,
            forall|q: int| 0 <= q < i ==> #[trigger] marks@[q] == desc_within(projects@, x@, q, 0),
        decreases n - i,
    {
        marks.push(parent_is(&projects[i], x));
        i += 1;
    }
    let mut round: usize = 0;
    while round < n
        invariant
            n == projects@.len(),
            round <= n,
            marks@.len() == n,
            forall|q: int| 0 <= q < n ==> #[trigger] marks@[q] == desc_within(projects@, x@, q, round as nat),
        decreases n - round,
    {
        marks = next_round(projects, x, &marks, Ghost(round as nat));
        round += 1;
    }
    marks
}

/// Every transitive descendant of the project identified by `id`
/// (children, grandchildren, ...), each once, in the order they appear in
/// `projects`.
pub fn descendants_of<'a>(projects: &'a [Project], id: &str) -> (r: Vec<&'a Project>)
    ensures
        refs_view(r@) == descendants_upto(projects@, id@, projects@.len() as int),
{
    let x = crate::text::owned(id);
    let n = projects.len();
    let marks = descendant_marks(projects, &x);
    let mut out: Vec<&'a Project> = Vec::new();
    let mut i: usize = 0;
    while i < n
        invariant
            n == projects@.len(),
            x@ == id@,
            marks@.len() == n,
            forall|q: int| 0 <= q < n ==> #[trigger] marks@[q] == is_descendant(projects@, x@, q),
            i <= n,
            refs_view(out@) == descendants_upto(projects@, id@, i as int),
        decreases n - i,
    {
        if marks[i] {
            out.push(&projects[i]);
        }
        proof {
            assert(refs_view(out@) =~= descendants_upto(projects@, id@, i + 1));
        }
        i += 1;
    }
    out
}

/// Whether some descendant of `moving` has id `new_parent`.
pub open spec fn has_descendant_with_id(ps: Seq<Project>, moving: Seq<char>, new_parent: Seq<char>) -> bool {
    exists|i: int| 0 <= i < ps.len() && is_descendant(ps, moving, i) && (#[trigger] ps[i]).id@ == new_parent
}

/// Whether making `new_parent_id` the parent of `moving_id` would create a
/// cycle: it is `moving_id` itself or one of its descendants.
pub fn would_create_cycle(projects: &[Project], moving_id: &str, new_parent_id: &str) -> (r: bool)
    ensures
        r == (moving_id@ == new_parent_id@ || has_descendant_with_id(projects@, moving_id@, new_parent_id@)),
{
    if str_eq(moving_id, new_parent_id) {
        return true;
    }
    let x = crate::text::owned(moving_id);
    let marks = descendant_marks(projects, &x);
    let mut i: usize = 0;
    while i < projects.len()
        invariant
            x@ == moving_id@,
            i <= projects@.len(),
            marks@.len() == projects@.len(),
            forall|q: int| 0 <= q < projects@.len() ==> #[trigger] marks@[q] == is_descendant(projects@, x@, q),
            forall|q: int| 0 <= q < i ==> !(is_descendant(projects@, x@, q) && (#[trigger] projects@[q]).id@ == new_parent_id@),
        decreases projects.len() - i,
    {
        if marks[i] && str_eq(projects[i].id.as_str(), new_parent_id) {
            return true;
        }
        i += 1;
    }
    false
}


proof fn lemma_descendants_upto_ids(ps: Seq<Project>, x: Seq<char>, upto: int, p: Seq<char>)
    requires
        0 <= upto <= ps.len(),
    ensures
        (exists|j: int| 0 <= j < descendants_upto(ps, x, upto).len() && (#[trigger] descendants_upto(ps, x, upto)[j]).id@ == p)
            <==> (exists|i: int| 0 <= i < upto && is_descendant(ps, x, i) && (#[trigger] ps[i]).id@ == p),
    decreases upto,
{
    if upto > 0 {
        lemma_descendants_upto_ids(ps, x, upto - 1, p);
        let rest = descendants_upto(ps, x, upto - 1);
        let d = descendants_upto(ps, x, upto);
        if exists|j: int| 0 <= j < d.len() && (#[trigger] d[j]).id@ == p {
            let j = choose|j: int| 0 <= j < d.len() && (#[trigger] d[j]).id@ == p;
            if j < rest.len() {
                assert(rest[j] == d[j]);
            } else {
                assert(d[j] == ps[upto - 1]);
            }
        }
        if exists|i: int| 0 <= i < upto && is_descendant(ps, x, i) && (#[trigger] ps[i]).id@ == p {
            let i = choose|i: int| 0 <= i < upto && is_descendant(ps, x, i) && (#[trigger] ps[i]).id@ == p;
            if i < upto - 1 {
                let j = choose|j: int| 0 <= j < rest.len() && (#[trigger] rest[j]).id@ == p;
                assert(d[j] == rest[j]);
            } else {
                assert(d[rest.len() as int] == ps[i]);
            }
        }
    }
}

/// Moving a project under another creates a cycle exactly when the new
/// parent is the moving project itself or carries the id of one of the
/// projects that `descendants_of` returns for the moving project.
pub proof fn lemma_cycle_iff_descendant(ps: Seq<Project>, moving: Seq<char>, new_parent: Seq<char>)
    ensures
        (moving == new_parent || has_descendant_with_id(ps, moving, new_parent)) <==> (moving == new_parent
            || exists|j: int|
            0 <= j < descendants_upto(ps, moving, ps.len() as int).len()
                && (#[trigger] descendants_upto(ps, moving, ps.len() as int)[j]).id@ == new_parent),
{
    lemma_descendants_upto_ids(ps, moving, ps.len() as int, new_parent);
}

} // verus!
