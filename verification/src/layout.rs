//! Layouts of the project status line and the dashboards: which stats or
//! widgets they show, their validation, and the seeded defaults.

use std::collections::HashMap;
use vstd::prelude::*;
use crate::clone::{copy_opt_string, copy_string};
use crate::ids::new_id;
use crate::settings::{opt_view, string_views, Settings};
use crate::text::{concat3, owned, str_eq};

verus! {

/// A widget's free-form configuration, carried through unread.
#[verifier::external_type_specification]
#[verifier::external_body]
pub struct ExJsonValue(serde_json::Value);

pub open spec fn status_line_kind() -> Seq<char> {
    "status_line"@
}

pub open spec fn dashboard_kind() -> Seq<char> {
    "dashboard"@
}

pub open spec fn project_dashboard_kind() -> Seq<char> {
    "project_dashboard"@
}

/// The widget types a project dashboard can show.
pub open spec fn known_project_widget_ids() -> Seq<Seq<char>> {
    seq![
        "p_scoreboard"@, "p_health_pulse"@, "p_velocity"@, "p_completion_dial"@, "p_fuel_gauge"@,
        "p_effort_balance"@, "p_weekly_rhythm"@, "p_time_donut"@, "p_status_radial"@, "p_due_timeline"@,
        "p_burndown"@, "p_completion_trend"@, "p_subproject_tree"@, "p_subproject_bars"@,
        "p_subproject_sunburst"@,
    ]
}

/// The widget types the global dashboard can show.
pub open spec fn known_dashboard_widget_ids() -> Seq<Seq<char>> {
    seq!["completion_overview"@, "project_scale"@, "status_by_project"@, "project_health"@, "productivity"@]
}

/// The stats a status line can show, in catalog order.
pub open spec fn known_status_line_stat_ids() -> Seq<Seq<char>> {
    seq![
        "status_badge"@, "estimated_time_left"@, "total_time_tracked"@, "avg_time_per_week"@,
        "completion_pct"@, "weighted_completion_pct"@, "mini_health"@, "mini_completion"@,
        "mini_fuel"@, "mini_sparkline"@,
    ]
}

/// The stats a status line can show, in catalog order.
pub fn known_status_line_stat_id_list() -> (r: Vec<String>)
    ensures
        string_views(r@) == known_status_line_stat_ids(),
{
    let mut v: Vec<String> = Vec::new();
    v.push(owned("status_badge"));
    v.push(owned("estimated_time_left"));
    v.push(owned("total_time_tracked"));
    v.push(owned("avg_time_per_week"));
    v.push(owned("completion_pct"));
    v.push(owned("weighted_completion_pct"));
    v.push(owned("mini_health"));
    v.push(owned("mini_completion"));
    v.push(owned("mini_fuel"));
    v.push(owned("mini_sparkline"));
    assert(string_views(v@) =~= known_status_line_stat_ids());
    v
}

/// A placed dashboard widget.
#[derive(Debug, Clone, PartialEq)]
pub struct DashboardWidget {
    pub widget_type: String,
    pub x: i32,
    pub y: i32,
    pub w: i32,
    pub h: i32,
    pub include_subprojects: Option<bool>,
    pub config: Option<serde_json::Value>,
}

/// A status-line or dashboard layout.
#[derive(Debug, Clone, PartialEq)]
pub struct StatLayout {
    pub id: String,
    pub name: String,
    pub kind: String,
    pub stat_ids: Vec<String>,
    pub widget_widths: HashMap<String, String>,
    pub dashboard_widgets: Vec<DashboardWidget>,
    pub dashboard_theme: Option<String>,
    pub project_id: Option<String>,
}

fn widget(widget_type: &str, x: i32, y: i32, w: i32, h: i32, include_subprojects: Option<bool>) -> (r: DashboardWidget)
    ensures
        r.widget_type@ == widget_type@,
        r.x == x && r.y == y && r.w == w && r.h == h,
        r.include_subprojects == include_subprojects,
        r.config is None,
{
    DashboardWidget { widget_type: owned(widget_type), x, y, w, h, include_subprojects, config: None }
}

impl StatLayout {
    /// A new status-line layout with a fresh id.
    pub fn new_status_line(name: String, stat_ids: Vec<String>) -> (r: StatLayout)
        ensures
            r.id@.len() > 0,
            r.name == name,
            r.kind@ == status_line_kind(),
            r.stat_ids == stat_ids,
            r.widget_widths@ == Map::<String, String>::empty(),
            r.dashboard_widgets@.len() == 0,
            r.dashboard_theme is None,
            r.project_id is None,
    {
        StatLayout {
            id: new_id(),
            name,
            kind: owned("status_line"),
            stat_ids,
            widget_widths: HashMap::new(),
            dashboard_widgets: Vec::new(),
            dashboard_theme: None,
            project_id: None,
        }
    }

    /// A new global dashboard layout with a fresh id.
    pub fn new_dashboard(name: String, widgets: Vec<DashboardWidget>) -> (r: StatLayout)
        ensures
            r.id@.len() > 0,
            r.name == name,
            r.kind@ == dashboard_kind(),
            r.stat_ids@.len() == 0,
            r.widget_widths@ == Map::<String, String>::empty(),
            r.dashboard_widgets == widgets,
            r.dashboard_theme is None,
            r.project_id is None,
    {
        StatLayout {
            id: new_id(),
            name,
            kind: owned("dashboard"),
            stat_ids: Vec::new(),
            widget_widths: HashMap::new(),
            dashboard_widgets: widgets,
            dashboard_theme: None,
            project_id: None,
        }
    }

    /// A new project dashboard for `project_id` with a fresh id and the
    /// four seeded widgets (completion dial, health pulse, scoreboard,
    /// weekly rhythm).
    pub fn new_project_dashboard(project_id: &str) -> (r: StatLayout)
        ensures
            r.id@.len() > 0,
            r.name@ == "Project Dashboard"@,
            r.kind@ == project_dashboard_kind(),
            r.stat_ids@.len() == 0,
            r.widget_widths@ == Map::<String, String>::empty(),
            r.dashboard_widgets@.len() == 4,
            r.dashboard_widgets@[0].widget_type@ == "p_completion_dial"@,
            r.dashboard_widgets@[1].widget_type@ == "p_health_pulse"@,
            r.dashboard_widgets@[2].widget_type@ == "p_scoreboard"@,
            r.dashboard_widgets@[3].widget_type@ == "p_weekly_rhythm"@,
            r.dashboard_theme is None,
            opt_view(r.project_id) == Some(project_id@),
    {
        let mut widgets: Vec<DashboardWidget> = Vec::new();
        widgets.push(widget("p_completion_dial", 0, 0, 4, 4, None));
        widgets.push(widget("p_health_pulse", 4, 0, 4, 4, None));
        widgets.push(widget("p_scoreboard", 8, 0, 4, 4, None));
        widgets.push(widget("p_weekly_rhythm", 0, 4, 6, 4, None));
        StatLayout {
            id: new_id(),
            name: owned("Project Dashboard"),
            kind: owned("project_dashboard"),
            stat_ids: Vec::new(),
            widget_widths: HashMap::new(),
            dashboard_widgets: widgets,
            dashboard_theme: None,
            project_id: Some(owned(project_id)),
        }
    }
}

fn listed(names: &Vec<String>, x: &str) -> (r: bool)
    ensures
        r == string_views(names@).contains(x@),
{
    let found = crate::text::vec_contains_str(names, x);
    proof {
        let sv = string_views(names@);
        if found {
            let k = choose|k: int| 0 <= k < names@.len() && (#[trigger] names@[k])@ == x@;
            assert(sv[k] == x@);
        } else {
            assert forall|k: int| 0 <= k < sv.len() implies sv[k] != x@ by {
                assert(sv[k] == names@[k]@);
            }
        }
    }
    found
}

/// The first of `ids[i..]` outside `known`.
pub open spec fn first_unknown(ids: Seq<Seq<char>>, known: Seq<Seq<char>>, i: int) -> Option<Seq<char>>
    decreases ids.len() - i,
{
    if i < 0 || i >= ids.len() {
        None
    } else if !known.contains(ids[i]) {
        Some(ids[i])
    } else {
        first_unknown(ids, known, i + 1)
    }
}

/// The problem with a status-line layout: another kind, or a stat id
/// outside the catalog.
pub open spec fn status_layout_problem(l: StatLayout) -> Option<Seq<char>> {
    if l.kind@ != status_line_kind() {
        Some("'"@ + l.kind@ + "' is not a supported layout kind"@)
    } else {
        match first_unknown(string_views(l.stat_ids@), known_status_line_stat_ids(), 0) {
            Some(u) => Some("'"@ + u + "' is not a recognized stat id"@),
            None => None,
        }
    }
}

fn first_unlisted(ids: &Vec<String>, known: &Vec<String>) -> (r: Option<usize>)
    ensures
        match r {
            Some(i) => i < ids@.len() && first_unknown(string_views(ids@), string_views(known@), 0) == Some(ids@[i as int]@),
            None => first_unknown(string_views(ids@), string_views(known@), 0) is None,
        },
{
    let ghost sv = string_views(ids@);
    let mut i: usize = 0;
    while i < ids.len()
        invariant
            sv == string_views(ids@),
            i <= ids@.len(),
            first_unknown(sv, string_views(known@), 0) == first_unknown(sv, string_views(known@), i as int),
        decreases ids.len() - i,
    {
        assert(sv[i as int] == ids@[i as int]@);
        if !listed(known, ids[i].as_str()) {
            return Some(i);
        }
        i += 1;
    }
    None
}

/// Checks a status-line layout (see [`status_layout_problem`]).
pub fn validate_status_layout(layout: &StatLayout) -> (r: Result<(), String>)
    ensures
        crate::commands::err_text(r) == status_layout_problem(*layout),
{
    if !str_eq(layout.kind.as_str(), "status_line") {
        return Err(concat3("'", layout.kind.as_str(), "' is not a supported layout kind"));
    }
    let known = known_status_line_stat_id_list();
    match first_unlisted(&layout.stat_ids, &known) {
        Some(i) => Err(concat3("'", layout.stat_ids[i].as_str(), "' is not a recognized stat id")),
        None => Ok(()),
    }
}

/// The widget types of `ws`.
pub open spec fn widget_types(ws: Seq<DashboardWidget>) -> Seq<Seq<char>> {
    ws.map_values(|w: DashboardWidget| w.widget_type@)
}

fn widget_type_list(ws: &Vec<DashboardWidget>) -> (r: Vec<String>)
    ensures
        string_views(r@) == widget_types(ws@),
{
    let mut out: Vec<String> = Vec::new();
    let mut i: usize = 0;
    while i < ws.len()
        invariant
            i <= ws@.len(),
            out@.len() == i,
            forall|k: int| 0 <= k < i ==> (#[trigger] out@[k])@ == ws@[k].widget_type@,
        decreases ws.len() - i,
    {
        out.push(copy_string(&ws[i].widget_type));
        i += 1;
    }
    assert(string_views(out@) =~= widget_types(ws@));
    out
}

fn known_dashboard_widget_list() -> (r: Vec<String>)
    ensures
        string_views(r@) == known_dashboard_widget_ids(),
{
    let mut v: Vec<String> = Vec::new();
    v.push(owned("completion_overview"));
    v.push(owned("project_scale"));
    v.push(owned("status_by_project"));
    v.push(owned("project_health"));
    v.push(owned("productivity"));
    assert(string_views(v@) =~= known_dashboard_widget_ids());
    v
}

fn known_project_widget_list() -> (r: Vec<String>)
    ensures
        string_views(r@) == known_project_widget_ids(),
{
    let mut v: Vec<String> = Vec::new();
    v.push(owned("p_scoreboard"));
    v.push(owned("p_health_pulse"));
    v.push(owned("p_velocity"));
    v.push(owned("p_completion_dial"));
    v.push(owned("p_fuel_gauge"));
    v.push(owned("p_effort_balance"));
    v.push(owned("p_weekly_rhythm"));
    v.push(owned("p_time_donut"));
    v.push(owned("p_status_radial"));
    v.push(owned("p_due_timeline"));
    v.push(owned("p_burndown"));
    v.push(owned("p_completion_trend"));
    v.push(owned("p_subproject_tree"));
    v.push(owned("p_subproject_bars"));
    v.push(owned("p_subproject_sunburst"));
    assert(string_views(v@) =~= known_project_widget_ids());
    v
}

/// The problem with a global dashboard layout: another kind, or an
/// unknown widget type.
pub open spec fn dashboard_layout_problem(l: StatLayout) -> Option<Seq<char>> {
    if l.kind@ != dashboard_kind() {
        Some("'"@ + l.kind@ + "' is not a dashboard layout kind"@)
    } else {
        match first_unknown(widget_types(l.dashboard_widgets@), known_dashboard_widget_ids(), 0) {
            Some(u) => Some("'"@ + u + "' is not a recognized dashboard widget type"@),
            None => None,
        }
    }
}

/// Checks a global dashboard layout (see [`dashboard_layout_problem`]).
pub fn validate_dashboard_layout(layout: &StatLayout) -> (r: Result<(), String>)
    ensures
        crate::commands::err_text(r) == dashboard_layout_problem(*layout),
{
    if !str_eq(layout.kind.as_str(), "dashboard") {
        return Err(concat3("'", layout.kind.as_str(), "' is not a dashboard layout kind"));
    }
    let types = widget_type_list(&layout.dashboard_widgets);
    let known = known_dashboard_widget_list();
    match first_unlisted(&types, &known) {
        Some(i) => Err(concat3("'", types[i].as_str(), "' is not a recognized dashboard widget type")),
        None => Ok(()),
    }
}

/// The problem with a project dashboard layout: another kind, no project,
/// or an unknown widget type.
pub open spec fn project_dashboard_layout_problem(l: StatLayout) -> Option<Seq<char>> {
    if l.kind@ != project_dashboard_kind() {
        Some("'"@ + l.kind@ + "' is not a project_dashboard layout kind"@)
    } else if l.project_id is None {
        Some("project_dashboard layout must have a project_id"@)
    } else {
        match first_unknown(widget_types(l.dashboard_widgets@), known_project_widget_ids(), 0) {
            Some(u) => Some("'"@ + u + "' is not a recognized project widget type"@),
            None => None,
        }
    }
}

/// Checks a project dashboard layout (see
/// [`project_dashboard_layout_problem`]).
pub fn validate_project_dashboard_layout(layout: &StatLayout) -> (r: Result<(), String>)
    ensures
        crate::commands::err_text(r) == project_dashboard_layout_problem(*layout),
{
    if !str_eq(layout.kind.as_str(), "project_dashboard") {
        return Err(concat3("'", layout.kind.as_str(), "' is not a project_dashboard layout kind"));
    }
    if layout.project_id.is_none() {
        return Err(owned("project_dashboard layout must have a project_id"));
    }
    let types = widget_type_list(&layout.dashboard_widgets);
    let known = known_project_widget_list();
    match first_unlisted(&types, &known) {
        Some(i) => Err(concat3("'", types[i].as_str(), "' is not a recognized project widget type")),
        None => Ok(()),
    }
}

/// Whether some layout has id `id`.
pub open spec fn has_layout(ls: Seq<StatLayout>, id: Seq<char>) -> bool {
    exists|i: int| 0 <= i < ls.len() && (#[trigger] ls[i]).id@ == id
}

fn any_layout_with_id(layouts: &Vec<StatLayout>, id: &str) -> (r: bool)
    ensures
        r == has_layout(layouts@, id@),
{
    let mut i: usize = 0;
    while i < layouts.len()
        invariant
            i <= layouts@.len(),
            forall|k: int| 0 <= k < i ==> (#[trigger] layouts@[k]).id@ != id@,
        decreases layouts.len() - i,
    {
        if str_eq(layouts[i].id.as_str(), id) {
            return true;
        }
        i += 1;
    }
    false
}

/// Makes sure the default status-line layout exists: when the settings'
/// layout id names no layout, appends a "Default" layout of every known
/// stat (in catalog order) and points the settings at it; `None` when
/// nothing changed.
pub fn ensure_default_status_line_layout(layouts: Vec<StatLayout>, settings: Settings) -> (r: Option<(Vec<StatLayout>, Settings)>)
    ensures
        has_layout(layouts@, settings.default_status_line_layout_id@) <==> r is None,
        r matches Some((ls, s)) ==> {
            &&& ls@.len() == layouts@.len() + 1
            &&& ls@.subrange(0, layouts@.len() as int) == layouts@
            &&& {
                let l = ls@[layouts@.len() as int];
                &&& l.name@ == "Default"@
                &&& l.kind@ == status_line_kind()
                &&& string_views(l.stat_ids@) == known_status_line_stat_ids()
                &&& l.id@.len() > 0
                &&& s.default_status_line_layout_id == l.id
            }
            &&& s == Settings { default_status_line_layout_id: s.default_status_line_layout_id, ..settings }
        },
{
    if any_layout_with_id(&layouts, settings.default_status_line_layout_id.as_str()) {
        return None;
    }
    let mut layouts = layouts;
    let mut settings = settings;
    let layout = StatLayout::new_status_line(owned("Default"), known_status_line_stat_id_list());
    settings.default_status_line_layout_id = copy_string(&layout.id);
    layouts.push(layout);
    Some((layouts, settings))
}

/// Makes sure the default global dashboard exists: when the settings'
/// dashboard id names no layout, appends a "Default" dashboard with the
/// five seeded widgets and points the settings at it; `None` when nothing
/// changed.
pub fn ensure_default_dashboard_layout(layouts: Vec<StatLayout>, settings: Settings) -> (r: Option<(Vec<StatLayout>, Settings)>)
    ensures
        has_layout(layouts@, settings.default_dashboard_layout_id@) <==> r is None,
        r matches Some((ls, s)) ==> {
            &&& ls@.len() == layouts@.len() + 1
            &&& ls@.subrange(0, layouts@.len() as int) == layouts@
            &&& {
                let l = ls@[layouts@.len() as int];
                &&& l.name@ == "Default"@
                &&& l.kind@ == dashboard_kind()
                &&& widget_types(l.dashboard_widgets@) == known_dashboard_widget_ids()
                &&& l.id@.len() > 0
                &&& s.default_dashboard_layout_id == l.id
            }
            &&& s == Settings { default_dashboard_layout_id: s.default_dashboard_layout_id, ..settings }
        },
{
    if any_layout_with_id(&layouts, settings.default_dashboard_layout_id.as_str()) {
        return None;
    }
    let mut widgets: Vec<DashboardWidget> = Vec::new();
    widgets.push(widget("completion_overview", 0, 0, 6, 4, None));
    widgets.push(widget("project_scale", 6, 0, 6, 4, None));
    widgets.push(widget("status_by_project", 0, 4, 4, 4, None));
    widgets.push(widget("project_health", 4, 4, 3, 4, Some(false)));
    widgets.push(widget("productivity", 7, 4, 5, 4, None));
    assert(widget_types(widgets@) =~= known_dashboard_widget_ids());
    let mut layouts = layouts;
    let mut settings = settings;
    let layout = StatLayout::new_dashboard(owned("Default"), widgets);
    settings.default_dashboard_layout_id = copy_string(&layout.id);
    layouts.push(layout);
    Some((layouts, settings))
}

/// Whether layout `l` is the project dashboard of project `p`.
pub open spec fn is_project_dashboard_of(l: StatLayout, p: Seq<char>) -> bool {
    l.kind@ == project_dashboard_kind() && opt_view(l.project_id) == Some(p)
}

/// The id of project `project_id`'s dashboard: the first existing one, or
/// a new seeded one appended to `layouts`.
pub fn ensure_default_project_dashboard_layout(project_id: &str, layouts: &mut Vec<StatLayout>) -> (r: String)
    ensures
        (exists|i: int| 0 <= i < old(layouts)@.len() && is_project_dashboard_of(#[trigger] old(layouts)@[i], project_id@)) ==> {
            &&& final(layouts)@ == old(layouts)@
            &&& exists|i: int| 0 <= i < old(layouts)@.len() && is_project_dashboard_of(#[trigger] old(layouts)@[i], project_id@)
                && r == old(layouts)@[i].id
                && forall|k: int| 0 <= k < i ==> !is_project_dashboard_of(#[trigger] old(layouts)@[k], project_id@)
        },
        !(exists|i: int| 0 <= i < old(layouts)@.len() && is_project_dashboard_of(#[trigger] old(layouts)@[i], project_id@)) ==> {
            &&& final(layouts)@.len() == old(layouts)@.len() + 1
            &&& final(layouts)@.subrange(0, old(layouts)@.len() as int) == old(layouts)@
            &&& is_project_dashboard_of(final(layouts)@.last(), project_id@)
            &&& final(layouts)@.last().id == r
        },
{
    let mut i: usize = 0;
    while i < layouts.len()
        invariant
            i <= layouts@.len(),
            layouts@ == old(layouts)@,
            forall|k: int| 0 <= k < i ==> !is_project_dashboard_of(#[trigger] layouts@[k], project_id@),
        decreases layouts.len() - i,
    {
        let l = &layouts[i];
        let mine = match &l.project_id {
            Some(p) => str_eq(p.as_str(), project_id),
            None => false,
        };
        if str_eq(l.kind.as_str(), "project_dashboard") && mine {
            return copy_string(&l.id);
        }
        i += 1;
    }
    let layout = StatLayout::new_project_dashboard(project_id);
    let id = copy_string(&layout.id);
    layouts.push(layout);
    id
}

} // verus!
