//! Global settings: priority levels, statuses, task defaults, relative-date
//! codes, and the rules a settings value must satisfy before it is saved.
//!
//! The two OKLCH lightness settings are floating-point values and live with
//! the application layer; their range check reaches [`validate_settings`]
//! as an argument.

use vstd::prelude::*;
use crate::dates::{
    add_days, add_days_spec, add_one_month, add_one_month_spec, is_valid_day, opt_i32_view,
};
use crate::clone::copy_string;
use crate::text::{concat3, owned, str_eq};

verus! {

/// Fallback color of a priority level or status without one of its own.
pub open spec fn neutral_color() -> Seq<char> {
    "#807973"@
}

pub fn default_priority_color() -> (r: String)
    ensures
        r@ == neutral_color(),
{
    owned("#807973")
}

pub fn default_status_color() -> (r: String)
    ensures
        r@ == neutral_color(),
{
    owned("#807973")
}

/// The accepted values of `Settings.ink_mode`.
pub open spec fn ink_modes() -> Seq<Seq<char>> {
    seq!["auto"@, "white"@, "black"@]
}

/// The accepted values of `Settings.card_tracked_time_display`.
pub open spec fn card_tracked_time_display_modes() -> Seq<Seq<char>> {
    seq!["total"@, "session"@]
}

/// The accepted values of `Settings.status_bar_style`.
pub open spec fn status_bar_styles() -> Seq<Seq<char>> {
    seq!["tiles"@]
}

/// The relative-date codes accepted by `TaskDefaults.scheduled`.
pub open spec fn scheduled_relative_date_codes() -> Seq<Seq<char>> {
    seq!["today"@, "tomorrow"@, "in_2_days"@, "in_3_days"@, "in_1_week"@, "in_1_month"@]
}

/// The relative-date codes accepted by `TaskDefaults.due`; `"none"` means
/// never due.
pub open spec fn due_relative_date_codes() -> Seq<Seq<char>> {
    seq!["none"@, "same_day"@, "next_day"@, "in_2_days"@, "in_3_days"@, "in_1_week"@, "in_1_month"@]
}

pub fn default_ink_mode() -> (r: String)
    ensures
        r@ == "auto"@,
{
    owned("auto")
}

pub fn default_max_visible_subtasks() -> (r: u32)
    ensures
        r == 5,
{
    5
}

pub fn default_card_tracked_time_display() -> (r: String)
    ensures
        r@ == "total"@,
{
    owned("total")
}

pub fn default_status_bar_style() -> (r: String)
    ensures
        r@ == "tiles"@,
{
    owned("tiles")
}

pub fn default_avg_time_per_week_window() -> (r: u32)
    ensures
        r == 4,
{
    4
}

pub fn default_status_bar_enabled() -> (r: bool)
    ensures
        r,
{
    true
}

/// A user-defined priority level. Lower `rank` is more severe.
#[derive(Debug, Clone, PartialEq)]
pub struct PriorityLevel {
    pub id: String,
    pub label: String,
    pub color: String,
    pub rank: i64,
}

/// A user-defined task status.
#[derive(Debug, Clone, PartialEq)]
pub struct StatusDefinition {
    pub id: String,
    pub label: String,
    pub order: i64,
    pub color: String,
}

/// One status-line health tier's conditions; every set condition must match.
#[derive(Debug, Clone, Default, PartialEq)]
pub struct StatusTierRule {
    pub due_within_days: Option<i32>,
    pub min_priority: Option<String>,
    pub estimated_time_left_exceeds_minutes: Option<u32>,
}

/// Default task attributes, global or as a project's overrides.
#[derive(Debug, Clone, Default, PartialEq)]
pub struct TaskDefaults {
    pub tags: Vec<String>,
    pub priority: Option<String>,
    pub status: Option<String>,
    pub due: Option<String>,
    pub scheduled: Option<String>,
    pub estimated_minutes: Option<u32>,
}

/// One action's key combos for vim navigation.
#[derive(Debug, Clone, Default, PartialEq)]
pub struct VimKeybinding {
    pub action_id: String,
    pub combos: Vec<String>,
}

/// Global vim navigation settings.
#[derive(Debug, Clone, Default, PartialEq)]
pub struct VimSettings {
    pub enabled: bool,
    pub keybindings: Vec<VimKeybinding>,
    pub status_keybindings: Vec<VimKeybinding>,
}

/// Global, app-wide settings.
#[derive(Debug, Clone, PartialEq)]
pub struct Settings {
    pub priorities: Vec<PriorityLevel>,
    pub statuses: Vec<StatusDefinition>,
    pub defaults: TaskDefaults,
    pub done_status: String,
    pub cancelled_status: Option<String>,
    pub default_project_id: String,
    pub show_previous_weeks_column: bool,
    pub ink_mode: String,
    pub show_subproject_tasks_default: bool,
    pub parent_estimate_includes_own_value: bool,
    pub max_visible_subtasks: u32,
    pub tracking_auto_transition_enabled: bool,
    pub tracking_auto_transition_status_id: Option<String>,
    pub card_tracked_time_display: String,
    pub default_status_tier_rules: Vec<StatusTierRule>,
    pub avg_time_per_week_window: u32,
    pub default_status_line_layout_id: String,
    pub status_bar_style: String,
    pub status_bar_enabled: bool,
    pub status_bar_tile_tint: bool,
    pub default_dashboard_layout_id: String,
    pub vim: VimSettings,
}

pub open spec fn opt_view(o: Option<String>) -> Option<Seq<char>> {
    match o {
        Some(s) => Some(s@),
        None => None,
    }
}

pub open spec fn msg(parts: Seq<Seq<char>>) -> Seq<char>
    decreases parts.len(),
{
    if parts.len() == 0 {
        Seq::empty()
    } else {
        msg(parts.drop_last()) + parts.last()
    }
}

// ----- relative-date codes -----

fn is_scheduled_code(code: &str) -> (r: bool)
    ensures
        r == scheduled_relative_date_codes().contains(code@),
{
    let r = str_eq(code, "today") || str_eq(code, "tomorrow") || str_eq(code, "in_2_days")
        || str_eq(code, "in_3_days") || str_eq(code, "in_1_week") || str_eq(code, "in_1_month");
    proof {
        let s = scheduled_relative_date_codes();
        if r {
            if code@ == "today"@ { assert(s[0] == code@); }
            if code@ == "tomorrow"@ { assert(s[1] == code@); }
            if code@ == "in_2_days"@ { assert(s[2] == code@); }
            if code@ == "in_3_days"@ { assert(s[3] == code@); }
            if code@ == "in_1_week"@ { assert(s[4] == code@); }
            if code@ == "in_1_month"@ { assert(s[5] == code@); }
        }
    }
    r
}

fn is_due_code(code: &str) -> (r: bool)
    ensures
        r == due_relative_date_codes().contains(code@),
{
    let r = str_eq(code, "none") || str_eq(code, "same_day") || str_eq(code, "next_day")
        || str_eq(code, "in_2_days") || str_eq(code, "in_3_days") || str_eq(code, "in_1_week")
        || str_eq(code, "in_1_month");
    proof {
        let s = due_relative_date_codes();
        if r {
            if code@ == "none"@ { assert(s[0] == code@); }
            if code@ == "same_day"@ { assert(s[1] == code@); }
            if code@ == "next_day"@ { assert(s[2] == code@); }
            if code@ == "in_2_days"@ { assert(s[3] == code@); }
            if code@ == "in_3_days"@ { assert(s[4] == code@); }
            if code@ == "in_1_week"@ { assert(s[5] == code@); }
            if code@ == "in_1_month"@ { assert(s[6] == code@); }
        }
    }
    r
}

pub open spec fn scheduled_code_error(code: Seq<char>) -> Seq<char> {
    "'"@ + code + "' is not a recognized scheduled-date option"@
}

pub open spec fn due_code_error(code: Seq<char>) -> Seq<char> {
    "'"@ + code + "' is not a recognized due-date option"@
}

/// `Ok` exactly when `code` is a scheduled-date code.
pub fn validate_scheduled_relative_date_code(code: &str) -> (r: Result<(), String>)
    ensures
        r is Ok <==> scheduled_relative_date_codes().contains(code@),
        r matches Err(e) ==> e@ == scheduled_code_error(code@),
{
    if is_scheduled_code(code) {
        Ok(())
    } else {
        Err(concat3("'", code, "' is not a recognized scheduled-date option"))
    }
}

/// `Ok` exactly when `code` is a due-date code.
pub fn validate_due_relative_date_code(code: &str) -> (r: Result<(), String>)
    ensures
        r is Ok <==> due_relative_date_codes().contains(code@),
        r matches Err(e) ==> e@ == due_code_error(code@),
{
    if is_due_code(code) {
        Ok(())
    } else {
        Err(concat3("'", code, "' is not a recognized due-date option"))
    }
}

/// The date a scheduled-date code names relative to `today`.
pub open spec fn scheduled_relative_date_spec(code: Seq<char>, today: int) -> Option<int> {
    if code == "today"@ {
        Some(today)
    } else if code == "tomorrow"@ {
        add_days_spec(today, 1)
    } else if code == "in_2_days"@ {
        add_days_spec(today, 2)
    } else if code == "in_3_days"@ {
        add_days_spec(today, 3)
    } else if code == "in_1_week"@ {
        add_days_spec(today, 7)
    } else if code == "in_1_month"@ {
        add_one_month_spec(today)
    } else {
        None
    }
}

/// The date a due-date code names relative to `scheduled`.
pub open spec fn due_relative_date_spec(code: Seq<char>, scheduled: int) -> Option<int> {
    if code == "none"@ {
        None
    } else if code == "same_day"@ {
        Some(scheduled)
    } else if code == "next_day"@ {
        add_days_spec(scheduled, 1)
    } else if code == "in_2_days"@ {
        add_days_spec(scheduled, 2)
    } else if code == "in_3_days"@ {
        add_days_spec(scheduled, 3)
    } else if code == "in_1_week"@ {
        add_days_spec(scheduled, 7)
    } else if code == "in_1_month"@ {
        add_one_month_spec(scheduled)
    } else {
        None
    }
}

/// Resolves a scheduled-date code to a date relative to `today`; `None` for
/// an unknown code.
pub fn resolve_scheduled_relative_date(code: &str, today: i32) -> (r: Option<i32>)
    requires
        is_valid_day(today as int),
    ensures
        opt_i32_view(r) == scheduled_relative_date_spec(code@, today as int),
        r matches Some(d) ==> is_valid_day(d as int),
{
    if str_eq(code, "today") {
        Some(today)
    } else if str_eq(code, "tomorrow") {
        add_days(today, 1)
    } else if str_eq(code, "in_2_days") {
        add_days(today, 2)
    } else if str_eq(code, "in_3_days") {
        add_days(today, 3)
    } else if str_eq(code, "in_1_week") {
        add_days(today, 7)
    } else if str_eq(code, "in_1_month") {
        add_one_month(today)
    } else {
        None
    }
}

/// Resolves a due-date code to a date relative to `scheduled`; `None` for
/// `"none"` and for an unknown code.
pub fn resolve_due_relative_date(code: &str, scheduled: i32) -> (r: Option<i32>)
    requires
        is_valid_day(scheduled as int),
    ensures
        opt_i32_view(r) == due_relative_date_spec(code@, scheduled as int),
        r matches Some(d) ==> is_valid_day(d as int),
{
    if str_eq(code, "none") {
        None
    } else if str_eq(code, "same_day") {
        Some(scheduled)
    } else if str_eq(code, "next_day") {
        add_days(scheduled, 1)
    } else if str_eq(code, "in_2_days") {
        add_days(scheduled, 2)
    } else if str_eq(code, "in_3_days") {
        add_days(scheduled, 3)
    } else if str_eq(code, "in_1_week") {
        add_days(scheduled, 7)
    } else if str_eq(code, "in_1_month") {
        add_one_month(scheduled)
    } else {
        None
    }
}

} // verus!

verus! {

// ----- lookups -----

pub open spec fn has_priority(s: Settings, id: Seq<char>) -> bool {
    exists|i: int| 0 <= i < s.priorities@.len() && (#[trigger] s.priorities@[i]).id@ == id
}

pub open spec fn has_status(s: Settings, id: Seq<char>) -> bool {
    exists|i: int| 0 <= i < s.statuses@.len() && (#[trigger] s.statuses@[i]).id@ == id
}

pub open spec fn priority_error(id: Seq<char>) -> Seq<char> {
    "priority '"@ + id + "' is not a defined priority level"@
}

pub open spec fn status_error(id: Seq<char>) -> Seq<char> {
    "status '"@ + id + "' is not a defined status"@
}

/// Whether some priority level has id `id`.
pub fn is_priority_id(settings: &Settings, id: &str) -> (r: bool)
    ensures
        r == has_priority(*settings, id@),
{
    let target = owned(id);
    let mut i: usize = 0;
    while i < settings.priorities.len()
        invariant
            i <= settings.priorities@.len(),
            target@ == id@,
            forall|j: int| 0 <= j < i ==> (#[trigger] settings.priorities@[j]).id@ != id@,
        decreases settings.priorities.len() - i,
    {
        if settings.priorities[i].id == target {
            return true;
        }
        i += 1;
    }
    false
}

/// Whether some status has id `id`.
pub fn is_status_id(settings: &Settings, id: &str) -> (r: bool)
    ensures
        r == has_status(*settings, id@),
{
    let target = owned(id);
    let mut i: usize = 0;
    while i < settings.statuses.len()
        invariant
            i <= settings.statuses@.len(),
            target@ == id@,
            forall|j: int| 0 <= j < i ==> (#[trigger] settings.statuses@[j]).id@ != id@,
        decreases settings.statuses.len() - i,
    {
        if settings.statuses[i].id == target {
            return true;
        }
        i += 1;
    }
    false
}

/// `Ok` exactly when `id` names a priority level.
pub fn validate_priority_id(settings: &Settings, id: &str) -> (r: Result<(), String>)
    ensures
        r is Ok <==> has_priority(*settings, id@),
        r matches Err(e) ==> e@ == priority_error(id@),
{
    if is_priority_id(settings, id) {
        Ok(())
    } else {
        Err(concat3("priority '", id, "' is not a defined priority level"))
    }
}

/// `Ok` exactly when `id` names a status.
pub fn validate_status_id(settings: &Settings, id: &str) -> (r: Result<(), String>)
    ensures
        r is Ok <==> has_status(*settings, id@),
        r matches Err(e) ==> e@ == status_error(id@),
{
    if is_status_id(settings, id) {
        Ok(())
    } else {
        Err(concat3("status '", id, "' is not a defined status"))
    }
}

pub open spec fn ink_mode_error(v: Seq<char>) -> Seq<char> {
    "'"@ + v + "' is not a recognized ink mode"@
}

pub open spec fn card_display_error(v: Seq<char>) -> Seq<char> {
    "'"@ + v + "' is not a recognized card tracked-time display mode"@
}

pub open spec fn status_bar_style_error(v: Seq<char>) -> Seq<char> {
    "'"@ + v + "' is not a recognized status bar style"@
}

/// `Ok` exactly when `value` is an ink mode.
pub fn validate_ink_mode(value: &str) -> (r: Result<(), String>)
    ensures
        r is Ok <==> ink_modes().contains(value@),
        r matches Err(e) ==> e@ == ink_mode_error(value@),
{
    let ok = str_eq(value, "auto") || str_eq(value, "white") || str_eq(value, "black");
    proof {
        if value@ == "auto"@ { assert(ink_modes()[0] == value@); }
        if value@ == "white"@ { assert(ink_modes()[1] == value@); }
        if value@ == "black"@ { assert(ink_modes()[2] == value@); }
    }
    if ok {
        Ok(())
    } else {
        Err(concat3("'", value, "' is not a recognized ink mode"))
    }
}

/// `Ok` exactly when `value` is a card tracked-time display mode.
pub fn validate_card_tracked_time_display(value: &str) -> (r: Result<(), String>)
    ensures
        r is Ok <==> card_tracked_time_display_modes().contains(value@),
        r matches Err(e) ==> e@ == card_display_error(value@),
{
    let ok = str_eq(value, "total") || str_eq(value, "session");
    proof {
        if value@ == "total"@ { assert(card_tracked_time_display_modes()[0] == value@); }
        if value@ == "session"@ { assert(card_tracked_time_display_modes()[1] == value@); }
    }
    if ok {
        Ok(())
    } else {
        Err(concat3("'", value, "' is not a recognized card tracked-time display mode"))
    }
}

/// `Ok` exactly when `value` is a status bar style.
pub fn validate_status_bar_style(value: &str) -> (r: Result<(), String>)
    ensures
        r is Ok <==> status_bar_styles().contains(value@),
        r matches Err(e) ==> e@ == status_bar_style_error(value@),
{
    let ok = str_eq(value, "tiles");
    proof {
        if value@ == "tiles"@ { assert(status_bar_styles()[0] == value@); }
    }
    if ok {
        Ok(())
    } else {
        Err(concat3("'", value, "' is not a recognized status bar style"))
    }
}

// ----- duplicate ids -----

/// Whether `ids[j]` already occurred before position `j`.
pub open spec fn repeats_earlier(ids: Seq<Seq<char>>, j: int) -> bool {
    exists|i: int| 0 <= i < j && ids[i] == ids[j]
}

/// The first position whose id already occurred earlier, if any.
pub open spec fn first_repeat(ids: Seq<Seq<char>>) -> Option<int> {
    if exists|j: int| 0 <= j < ids.len() && repeats_earlier(ids, j) {
        Some(choose|j: int| 0 <= j < ids.len() && repeats_earlier(ids, j)
            && forall|k: int| 0 <= k < j ==> !repeats_earlier(ids, k))
    } else {
        None
    }
}

pub open spec fn priority_ids(s: Settings) -> Seq<Seq<char>> {
    s.priorities@.map_values(|p: PriorityLevel| p.id@)
}

pub open spec fn status_ids(s: Settings) -> Seq<Seq<char>> {
    s.statuses@.map_values(|p: StatusDefinition| p.id@)
}

proof fn lemma_first_repeat_is(ids: Seq<Seq<char>>, j: int)
    requires
        0 <= j < ids.len(),
        repeats_earlier(ids, j),
        forall|k: int| 0 <= k < j ==> !repeats_earlier(ids, k),
    ensures
        first_repeat(ids) == Some(j),
{
    let c = choose|j2: int| 0 <= j2 < ids.len() && repeats_earlier(ids, j2)
        && forall|k: int| 0 <= k < j2 ==> !repeats_earlier(ids, k);
    assert(0 <= c < ids.len() && repeats_earlier(ids, c) && forall|k: int| 0 <= k < c ==> !repeats_earlier(ids, k));
    if c < j {
        assert(!repeats_earlier(ids, c));
    }
    if j < c {
        assert(!repeats_earlier(ids, j));
    }
}

pub open spec fn string_views(v: Seq<String>) -> Seq<Seq<char>> {
    v.map_values(|s: String| s@)
}

/// Whether `ids[j]` equals some earlier entry.
fn occurs_before(ids: &Vec<String>, j: usize) -> (r: bool)
    requires
        j < ids@.len(),
    ensures
        r == repeats_earlier(string_views(ids@), j as int),
{
    let ghost sv = string_views(ids@);
    let mut i: usize = 0;
    while i < j
        invariant
            j < ids@.len(),
            sv == string_views(ids@),
            i <= j,
            forall|k: int| 0 <= k < i ==> sv[k] != sv[j as int],
        decreases j - i,
    {
        if ids[i] == ids[j] {
            assert(sv[i as int] == sv[j as int]);
            return true;
        }
        i += 1;
    }
    false
}

/// The first position of `ids` whose value already occurred earlier.
fn first_repeated(ids: &Vec<String>) -> (r: Option<usize>)
    ensures
        match r {
            Some(j) => first_repeat(string_views(ids@)) == Some(j as int) && j < ids@.len(),
            None => first_repeat(string_views(ids@)) is None,
        },
{
    let ghost sv = string_views(ids@);
    let n = ids.len();
    let mut j: usize = 0;
    while j < n
        invariant
            n == ids@.len(),
            sv == string_views(ids@),
            j <= n,
            forall|k: int| 0 <= k < j ==> !repeats_earlier(sv, k),
        decreases n - j,
    {
        if occurs_before(ids, j) {
            proof {
                lemma_first_repeat_is(sv, j as int);
            }
            return Some(j);
        }
        j += 1;
    }
    proof {
        if first_repeat(sv) is Some {
            let w = choose|w: int| 0 <= w < sv.len() && repeats_earlier(sv, w);
            assert(!repeats_earlier(sv, w));
        }
    }
    None
}

fn priority_id_list(settings: &Settings) -> (r: Vec<String>)
    ensures
        string_views(r@) == priority_ids(*settings),
{
    let mut out: Vec<String> = Vec::new();
    let mut i: usize = 0;
    while i < settings.priorities.len()
        invariant
            i <= settings.priorities@.len(),
            out@.len() == i,
            forall|k: int| 0 <= k < i ==> (#[trigger] out@[k])@ == settings.priorities@[k].id@,
        decreases settings.priorities.len() - i,
    {
        out.push(copy_string(&settings.priorities[i].id));
        i += 1;
    }
    assert(string_views(out@) =~= priority_ids(*settings));
    out
}

fn status_id_list(settings: &Settings) -> (r: Vec<String>)
    ensures
        string_views(r@) == status_ids(*settings),
{
    let mut out: Vec<String> = Vec::new();
    let mut i: usize = 0;
    while i < settings.statuses.len()
        invariant
            i <= settings.statuses@.len(),
            out@.len() == i,
            forall|k: int| 0 <= k < i ==> (#[trigger] out@[k])@ == settings.statuses@[k].id@,
        decreases settings.statuses.len() - i,
    {
        out.push(copy_string(&settings.statuses[i].id));
        i += 1;
    }
    assert(string_views(out@) =~= status_ids(*settings));
    out
}

// ----- whole-settings validation -----

/// The first rule `s` breaks, in the order the rules are checked, or `None`
/// when it satisfies all of them. `lightness` is the outcome of checking the
/// two lightness values, which sits between the default-project rule and
/// the ink-mode rule.
pub open spec fn settings_problem(s: Settings, lightness: Option<Seq<char>>) -> Option<Seq<char>> {
    let prio_dup = first_repeat(priority_ids(s));
    let status_dup = first_repeat(status_ids(s));
    if s.priorities@.len() == 0 {
        Some("at least one priority level must be defined"@)
    } else if prio_dup is Some {
        Some("duplicate priority id '"@ + priority_ids(s)[prio_dup->0] + "'"@)
    } else if s.defaults.priority is Some && !has_priority(s, s.defaults.priority->0@) {
        Some(priority_error(s.defaults.priority->0@))
    } else if s.statuses@.len() == 0 {
        Some("at least one status must be defined"@)
    } else if status_dup is Some {
        Some("duplicate status id '"@ + status_ids(s)[status_dup->0] + "'"@)
    } else if s.defaults.status is Some && !has_status(s, s.defaults.status->0@) {
        Some(status_error(s.defaults.status->0@))
    } else if s.done_status@.len() == 0 {
        Some("a done status must be defined"@)
    } else if !has_status(s, s.done_status@) {
        Some(status_error(s.done_status@))
    } else if s.cancelled_status is Some && !has_status(s, s.cancelled_status->0@) {
        Some(status_error(s.cancelled_status->0@))
    } else if s.cancelled_status is Some && s.cancelled_status->0@ == s.done_status@ {
        Some("the cancelled status can't be the same as the done status"@)
    } else if s.defaults.due is Some && !due_relative_date_codes().contains(s.defaults.due->0@) {
        Some(due_code_error(s.defaults.due->0@))
    } else if s.defaults.scheduled is Some && !scheduled_relative_date_codes().contains(s.defaults.scheduled->0@) {
        Some(scheduled_code_error(s.defaults.scheduled->0@))
    } else if s.default_project_id@.len() == 0 {
        Some("a default project must be defined"@)
    } else if lightness is Some {
        lightness
    } else if !ink_modes().contains(s.ink_mode@) {
        Some(ink_mode_error(s.ink_mode@))
    } else if s.tracking_auto_transition_status_id is Some
        && !has_status(s, s.tracking_auto_transition_status_id->0@) {
        Some(status_error(s.tracking_auto_transition_status_id->0@))
    } else if !card_tracked_time_display_modes().contains(s.card_tracked_time_display@) {
        Some(card_display_error(s.card_tracked_time_display@))
    } else if s.default_status_tier_rules@.len() != 4 {
        Some("default_status_tier_rules must have exactly 4 entries, got "@
            + crate::text::decimal(s.default_status_tier_rules@.len()))
    } else if s.avg_time_per_week_window == 0 {
        Some("avg_time_per_week_window must be greater than 0"@)
    } else if s.default_status_line_layout_id@.len() == 0 {
        Some("a default status line layout must be defined"@)
    } else if !status_bar_styles().contains(s.status_bar_style@) {
        Some(status_bar_style_error(s.status_bar_style@))
    } else {
        None
    }
}

pub open spec fn err_view(r: Result<(), String>) -> Option<Seq<char>> {
    match r {
        Ok(_) => None,
        Err(e) => Some(e@),
    }
}

/// Checks settings before they are saved: non-empty priority and status
/// lists with unique ids, defaults and the done/cancelled/auto-transition
/// statuses naming defined entries, recognized relative-date codes and
/// display modes, a default project and status-line layout, exactly four
/// status-tier rules and a positive averaging window. `lightness_check` is
/// the result of checking the two lightness values. Returns the first
/// problem found.
pub fn validate_settings(settings: &Settings, lightness_check: Result<(), String>) -> (r: Result<(), String>)
    ensures
        err_view(r) == settings_problem(*settings, err_view(lightness_check)),
{
    if settings.priorities.len() == 0 {
        return Err(owned("at least one priority level must be defined"));
    }
    let prio_ids = priority_id_list(settings);
    if let Some(j) = first_repeated(&prio_ids) {
        return Err(concat3("duplicate priority id '", prio_ids[j].as_str(), "'"));
    }
    if let Some(p) = &settings.defaults.priority {
        validate_priority_id(settings, p.as_str())?;
    }
    if settings.statuses.len() == 0 {
        return Err(owned("at least one status must be defined"));
    }
    let st_ids = status_id_list(settings);
    if let Some(j) = first_repeated(&st_ids) {
        return Err(concat3("duplicate status id '", st_ids[j].as_str(), "'"));
    }
    if let Some(st) = &settings.defaults.status {
        validate_status_id(settings, st.as_str())?;
    }
    if settings.done_status.as_str().unicode_len() == 0 {
        return Err(owned("a done status must be defined"));
    }
    validate_status_id(settings, settings.done_status.as_str())?;
    if let Some(c) = &settings.cancelled_status {
        validate_status_id(settings, c.as_str())?;
        if *c == settings.done_status {
            return Err(owned("the cancelled status can't be the same as the done status"));
        }
    }
    if let Some(d) = &settings.defaults.due {
        validate_due_relative_date_code(d.as_str())?;
    }
    if let Some(sc) = &settings.defaults.scheduled {
        validate_scheduled_relative_date_code(sc.as_str())?;
    }
    if settings.default_project_id.as_str().unicode_len() == 0 {
        return Err(owned("a default project must be defined"));
    }
    lightness_check?;
    validate_ink_mode(settings.ink_mode.as_str())?;
    if let Some(t) = &settings.tracking_auto_transition_status_id {
        validate_status_id(settings, t.as_str())?;
    }
    validate_card_tracked_time_display(settings.card_tracked_time_display.as_str())?;
    if settings.default_status_tier_rules.len() != 4 {
        let n = crate::text::u64_to_decimal(settings.default_status_tier_rules.len() as u64);
        let mut m = owned("default_status_tier_rules must have exactly 4 entries, got ");
        m.append(n.as_str());
        return Err(m);
    }
    if settings.avg_time_per_week_window == 0 {
        return Err(owned("avg_time_per_week_window must be greater than 0"));
    }
    if settings.default_status_line_layout_id.as_str().unicode_len() == 0 {
        return Err(owned("a default status line layout must be defined"));
    }
    validate_status_bar_style(settings.status_bar_style.as_str())?;
    Ok(())
}

} // verus!

verus! {

// ----- seeded defaults -----

/// The seeded four status-tier rules, in `[severe, critical,
/// needs_attention, on_track]` order.
pub open spec fn is_default_tier_rules(r: Seq<StatusTierRule>) -> bool {
    &&& r.len() == 4
    &&& r[0].due_within_days == Some(0i32) && r[0].min_priority is None
        && r[0].estimated_time_left_exceeds_minutes is None
    &&& r[1].due_within_days == Some(1i32) && opt_view(r[1].min_priority) == Some("high"@)
        && r[1].estimated_time_left_exceeds_minutes is None
    &&& r[2].due_within_days == Some(3i32) && r[2].min_priority is None
        && r[2].estimated_time_left_exceeds_minutes is None
    &&& r[3].due_within_days == Some(7i32) && r[3].min_priority is None
        && r[3].estimated_time_left_exceeds_minutes is None
}

fn tier_rule(due: i32, min_priority: Option<String>) -> (r: StatusTierRule)
    ensures
        r.due_within_days == Some(due),
        r.min_priority == min_priority,
        r.estimated_time_left_exceeds_minutes is None,
{
    StatusTierRule { due_within_days: Some(due), min_priority, estimated_time_left_exceeds_minutes: None }
}

/// The seeded status-tier rules.
pub fn default_status_tier_rules() -> (r: Vec<StatusTierRule>)
    ensures
        is_default_tier_rules(r@),
{
    let mut v: Vec<StatusTierRule> = Vec::new();
    v.push(tier_rule(0, None));
    v.push(tier_rule(1, Some(owned("high"))));
    v.push(tier_rule(3, None));
    v.push(tier_rule(7, None));
    v
}

/// The seed color of a well-known priority id.
pub open spec fn seed_priority_color(id: Seq<char>) -> Option<Seq<char>> {
    if id == "high"@ {
        Some("#bc267f"@)
    } else if id == "medium"@ {
        Some("#aa6a00"@)
    } else if id == "low"@ {
        Some("#0e9254"@)
    } else {
        None
    }
}

/// The seed color of a well-known status id.
pub open spec fn seed_status_color(id: Seq<char>) -> Option<Seq<char>> {
    if id == "backlog"@ {
        Some("#6f7178"@)
    } else if id == "do"@ {
        Some("#0073b6"@)
    } else if id == "in-progress"@ {
        Some("#bd7d00"@)
    } else if id == "blocked"@ {
        Some("#bc267f"@)
    } else if id == "done"@ {
        Some("#0e9254"@)
    } else {
        None
    }
}

pub open spec fn is_priority(p: PriorityLevel, id: Seq<char>, label: Seq<char>, rank: i64) -> bool {
    p.id@ == id && p.label@ == label && opt_view(Some(p.color)) == seed_priority_color(id) && p.rank == rank
}

pub open spec fn is_status(s: StatusDefinition, id: Seq<char>, label: Seq<char>, order: i64) -> bool {
    s.id@ == id && s.label@ == label && opt_view(Some(s.color)) == seed_status_color(id) && s.order == order
}

/// The seeded settings: priorities high/medium/low, statuses
/// backlog/do/in-progress/blocked/done, new tasks defaulting to medium
/// priority, the backlog status, scheduled today and never due.
pub open spec fn is_default_settings(s: Settings) -> bool {
    &&& s.priorities@.len() == 3
    &&& is_priority(s.priorities@[0], "high"@, "High"@, 1)
    &&& is_priority(s.priorities@[1], "medium"@, "Medium"@, 2)
    &&& is_priority(s.priorities@[2], "low"@, "Low"@, 3)
    &&& s.statuses@.len() == 5
    &&& is_status(s.statuses@[0], "backlog"@, "Backlog"@, 1)
    &&& is_status(s.statuses@[1], "do"@, "Do"@, 2)
    &&& is_status(s.statuses@[2], "in-progress"@, "In Progress"@, 3)
    &&& is_status(s.statuses@[3], "blocked"@, "Blocked"@, 4)
    &&& is_status(s.statuses@[4], "done"@, "Done"@, 5)
    &&& s.defaults.tags@.len() == 0
    &&& opt_view(s.defaults.priority) == Some("medium"@)
    &&& opt_view(s.defaults.status) == Some("backlog"@)
    &&& opt_view(s.defaults.due) == Some("none"@)
    &&& opt_view(s.defaults.scheduled) == Some("today"@)
    &&& s.defaults.estimated_minutes is None
    &&& s.done_status@ == "done"@
    &&& s.cancelled_status is None
    &&& s.default_project_id@.len() == 0
    &&& !s.show_previous_weeks_column
    &&& s.ink_mode@ == "auto"@
    &&& !s.show_subproject_tasks_default
    &&& !s.parent_estimate_includes_own_value
    &&& s.max_visible_subtasks == 5
    &&& !s.tracking_auto_transition_enabled
    &&& s.tracking_auto_transition_status_id is None
    &&& s.card_tracked_time_display@ == "total"@
    &&& is_default_tier_rules(s.default_status_tier_rules@)
    &&& s.avg_time_per_week_window == 4
    &&& s.default_status_line_layout_id@.len() == 0
    &&& s.status_bar_style@ == "tiles"@
    &&& s.status_bar_enabled
    &&& !s.status_bar_tile_tint
    &&& s.default_dashboard_layout_id@.len() == 0
    &&& !s.vim.enabled
    &&& s.vim.keybindings@.len() == 0
    &&& s.vim.status_keybindings@.len() == 0
}

fn priority(id: &str, label: &str, color: &str, rank: i64) -> (r: PriorityLevel)
    ensures
        r.id@ == id@,
        r.label@ == label@,
        r.color@ == color@,
        r.rank == rank,
{
    PriorityLevel { id: owned(id), label: owned(label), color: owned(color), rank }
}

fn status(id: &str, label: &str, order: i64, color: &str) -> (r: StatusDefinition)
    ensures
        r.id@ == id@,
        r.label@ == label@,
        r.color@ == color@,
        r.order == order,
{
    StatusDefinition { id: owned(id), label: owned(label), order, color: owned(color) }
}

proof fn lemma_seed_ids_distinct()
    ensures
        "medium"@ != "high"@,
        "low"@ != "high"@ && "low"@ != "medium"@,
        "do"@ != "backlog"@,
        "in-progress"@ != "backlog"@ && "in-progress"@ != "do"@,
        "blocked"@ != "backlog"@ && "blocked"@ != "do"@ && "blocked"@ != "in-progress"@,
        "done"@ != "backlog"@ && "done"@ != "do"@ && "done"@ != "in-progress"@ && "done"@ != "blocked"@,
{
    reveal_strlit("high");
    reveal_strlit("medium");
    reveal_strlit("low");
    reveal_strlit("backlog");
    reveal_strlit("do");
    reveal_strlit("in-progress");
    reveal_strlit("blocked");
    reveal_strlit("done");
    assert("high"@.len() == 4 && "medium"@.len() == 6 && "low"@.len() == 3);
    assert("backlog"@.len() == 7 && "do"@.len() == 2 && "in-progress"@.len() == 11);
    assert("blocked"@.len() == 7 && "done"@.len() == 4);
    assert("backlog"@[1] != "blocked"@[1]);
}

impl Default for Settings {
    /// The seeded settings (see [`is_default_settings`]); the default
    /// project and status-line layout are filled in at startup.
    fn default() -> (r: Settings)
        ensures
            is_default_settings(r),
    {
        let mut priorities: Vec<PriorityLevel> = Vec::new();
        priorities.push(priority("high", "High", "#bc267f", 1));
        priorities.push(priority("medium", "Medium", "#aa6a00", 2));
        priorities.push(priority("low", "Low", "#0e9254", 3));
        let mut statuses: Vec<StatusDefinition> = Vec::new();
        statuses.push(status("backlog", "Backlog", 1, "#6f7178"));
        statuses.push(status("do", "Do", 2, "#0073b6"));
        statuses.push(status("in-progress", "In Progress", 3, "#bd7d00"));
        statuses.push(status("blocked", "Blocked", 4, "#bc267f"));
        statuses.push(status("done", "Done", 5, "#0e9254"));
        let defaults = TaskDefaults {
            tags: Vec::new(),
            priority: Some(owned("medium")),
            status: Some(owned("backlog")),
            due: Some(owned("none")),
            scheduled: Some(owned("today")),
            estimated_minutes: None,
        };
        let vim = VimSettings { enabled: false, keybindings: Vec::new(), status_keybindings: Vec::new() };
        proof {
            reveal_strlit("");
        }
        let r = Settings {
            priorities,
            statuses,
            defaults,
            done_status: owned("done"),
            cancelled_status: None,
            default_project_id: owned(""),
            show_previous_weeks_column: false,
            ink_mode: default_ink_mode(),
            show_subproject_tasks_default: false,
            parent_estimate_includes_own_value: false,
            max_visible_subtasks: default_max_visible_subtasks(),
            tracking_auto_transition_enabled: false,
            tracking_auto_transition_status_id: None,
            card_tracked_time_display: default_card_tracked_time_display(),
            default_status_tier_rules: default_status_tier_rules(),
            avg_time_per_week_window: default_avg_time_per_week_window(),
            default_status_line_layout_id: owned(""),
            status_bar_style: default_status_bar_style(),
            status_bar_enabled: default_status_bar_enabled(),
            status_bar_tile_tint: false,
            default_dashboard_layout_id: owned(""),
            vim,
        };
        proof {
            lemma_seed_ids_distinct();
        }
        r
    }
}

} // verus!

verus! {

// ----- normalization of loaded settings -----

/// `color`, replaced by `seed` when it is still the neutral fallback and a
/// seed color exists.
pub open spec fn normalized_color(color: Seq<char>, seed: Option<Seq<char>>) -> Seq<char> {
    if color == neutral_color() && seed is Some {
        seed->0
    } else {
        color
    }
}

/// Index of the last status with the highest `order` (the first of a
/// non-empty list when it has one entry).
pub open spec fn last_max_order(s: Seq<StatusDefinition>) -> int
    decreases s.len(),
{
    if s.len() <= 1 {
        0
    } else {
        let k = last_max_order(s.drop_last());
        if s.last().order >= s[k].order {
            s.len() - 1
        } else {
            k
        }
    }
}

proof fn lemma_last_max_order_in_range(s: Seq<StatusDefinition>)
    requires
        s.len() > 0,
    ensures
        0 <= last_max_order(s) < s.len(),
    decreases s.len(),
{
    if s.len() > 1 {
        lemma_last_max_order_in_range(s.drop_last());
    }
}

pub open spec fn has_status_id(statuses: Seq<StatusDefinition>, id: Seq<char>) -> bool {
    exists|i: int| 0 <= i < statuses.len() && (#[trigger] statuses[i]).id@ == id
}

/// The done status after repair: kept when it names a status, else `"done"`
/// when such a status exists, else the last status with the highest
/// `order`, else empty.
pub open spec fn repaired_done_status(statuses: Seq<StatusDefinition>, done: Seq<char>) -> Seq<char> {
    if has_status_id(statuses, done) {
        done
    } else if has_status_id(statuses, "done"@) {
        "done"@
    } else if statuses.len() > 0 {
        statuses[last_max_order(statuses)].id@
    } else {
        Seq::empty()
    }
}

fn seed_priority_color_of(id: &str) -> (r: Option<String>)
    ensures
        opt_view(r) == seed_priority_color(id@),
{
    if str_eq(id, "high") {
        Some(owned("#bc267f"))
    } else if str_eq(id, "medium") {
        Some(owned("#aa6a00"))
    } else if str_eq(id, "low") {
        Some(owned("#0e9254"))
    } else {
        None
    }
}

fn seed_status_color_of(id: &str) -> (r: Option<String>)
    ensures
        opt_view(r) == seed_status_color(id@),
{
    if str_eq(id, "backlog") {
        Some(owned("#6f7178"))
    } else if str_eq(id, "do") {
        Some(owned("#0073b6"))
    } else if str_eq(id, "in-progress") {
        Some(owned("#bd7d00"))
    } else if str_eq(id, "blocked") {
        Some(owned("#bc267f"))
    } else if str_eq(id, "done") {
        Some(owned("#0e9254"))
    } else {
        None
    }
}

fn normalize_color(color: &String, seed: Option<String>) -> (r: String)
    ensures
        r@ == normalized_color(color@, opt_view(seed)),
{
    if str_eq(color.as_str(), "#807973") {
        match seed {
            Some(c) => c,
            None => copy_string(color),
        }
    } else {
        copy_string(color)
    }
}

fn index_of_status(statuses: &Vec<StatusDefinition>, id: &str) -> (r: Option<usize>)
    ensures
        match r {
            Some(i) => i < statuses@.len() && statuses@[i as int].id@ == id@,
            None => !has_status_id(statuses@, id@),
        },
{
    let mut i: usize = 0;
    while i < statuses.len()
        invariant
            i <= statuses@.len(),
            forall|k: int| 0 <= k < i ==> (#[trigger] statuses@[k]).id@ != id@,
        decreases statuses.len() - i,
    {
        if str_eq(statuses[i].id.as_str(), id) {
            return Some(i);
        }
        i += 1;
    }
    None
}

fn last_max_order_index(statuses: &Vec<StatusDefinition>) -> (r: usize)
    requires
        statuses@.len() > 0,
    ensures
        r as int == last_max_order(statuses@),
{
    let mut best: usize = 0;
    let mut i: usize = 1;
    while i < statuses.len()
        invariant
            1 <= i <= statuses@.len(),
            best as int == last_max_order(statuses@.subrange(0, i as int)),
            best < i,
        decreases statuses.len() - i,
    {
        proof {
            let pre = statuses@.subrange(0, i as int + 1);
            assert(pre.drop_last() == statuses@.subrange(0, i as int));
            lemma_last_max_order_in_range(statuses@.subrange(0, i as int));
        }
        if statuses[i].order >= statuses[best].order {
            best = i;
        }
        i += 1;
    }
    assert(statuses@.subrange(0, i as int) == statuses@);
    best
}

fn repair_done_status(statuses: &Vec<StatusDefinition>, done: &String) -> (r: String)
    ensures
        r@ == repaired_done_status(statuses@, done@),
{
    if index_of_status(statuses, done.as_str()).is_some() {
        copy_string(done)
    } else if index_of_status(statuses, "done").is_some() {
        owned("done")
    } else if statuses.len() > 0 {
        let k = last_max_order_index(statuses);
        proof {
            lemma_last_max_order_in_range(statuses@);
        }
        copy_string(&statuses[k].id)
    } else {
        proof {
            reveal_strlit("");
        }
        owned("")
    }
}

/// What normalizing loaded settings gives (see [`Settings::normalize`]):
/// seeded colors in place of the neutral fallback, a repaired done status,
/// default date codes where none were set, a recognized status-bar style,
/// everything else kept.
pub open spec fn normalizes_to(s: Settings, r: Settings) -> bool {
    &&& r.priorities@.len() == s.priorities@.len()
    &&& forall|i: int| 0 <= i < r.priorities@.len() ==> {
        let (a, b) = (#[trigger] r.priorities@[i], s.priorities@[i]);
        a.id == b.id && a.label == b.label && a.rank == b.rank
            && a.color@ == normalized_color(b.color@, seed_priority_color(b.id@))
    }
    &&& r.statuses@.len() == s.statuses@.len()
    &&& forall|i: int| 0 <= i < r.statuses@.len() ==> {
        let (a, b) = (#[trigger] r.statuses@[i], s.statuses@[i]);
        a.id == b.id && a.label == b.label && a.order == b.order
            && a.color@ == normalized_color(b.color@, seed_status_color(b.id@))
    }
    &&& r.done_status@ == repaired_done_status(s.statuses@, s.done_status@)
    &&& r.defaults.scheduled == (if s.defaults.scheduled is None { r.defaults.scheduled } else { s.defaults.scheduled })
    &&& (s.defaults.scheduled is None ==> opt_view(r.defaults.scheduled) == Some("today"@))
    &&& r.defaults.due == (if s.defaults.due is None { r.defaults.due } else { s.defaults.due })
    &&& (s.defaults.due is None ==> opt_view(r.defaults.due) == Some("none"@))
    &&& r.status_bar_style@ == (if status_bar_styles().contains(s.status_bar_style@) {
        s.status_bar_style@
    } else {
        "tiles"@
    })
    &&& r.defaults.tags == s.defaults.tags
    &&& r.defaults.priority == s.defaults.priority
    &&& r.defaults.status == s.defaults.status
    &&& r.defaults.estimated_minutes == s.defaults.estimated_minutes
    &&& r.cancelled_status == s.cancelled_status
    &&& r.default_project_id == s.default_project_id
    &&& r.show_previous_weeks_column == s.show_previous_weeks_column
    &&& r.ink_mode == s.ink_mode
    &&& r.show_subproject_tasks_default == s.show_subproject_tasks_default
    &&& r.parent_estimate_includes_own_value == s.parent_estimate_includes_own_value
    &&& r.max_visible_subtasks == s.max_visible_subtasks
    &&& r.tracking_auto_transition_enabled == s.tracking_auto_transition_enabled
    &&& r.tracking_auto_transition_status_id == s.tracking_auto_transition_status_id
    &&& r.card_tracked_time_display == s.card_tracked_time_display
    &&& r.default_status_tier_rules == s.default_status_tier_rules
    &&& r.avg_time_per_week_window == s.avg_time_per_week_window
    &&& r.default_status_line_layout_id == s.default_status_line_layout_id
    &&& r.status_bar_enabled == s.status_bar_enabled
    &&& r.status_bar_tile_tint == s.status_bar_tile_tint
    &&& r.default_dashboard_layout_id == s.default_dashboard_layout_id
    &&& r.vim == s.vim
}

/// Whether two settings hold the same values (texts and lists compared by
/// contents).
pub open spec fn same_settings(a: Settings, b: Settings) -> bool {
    &&& a.priorities@.len() == b.priorities@.len()
    &&& forall|i: int| 0 <= i < a.priorities@.len() ==> {
        let (x, y) = (#[trigger] a.priorities@[i], b.priorities@[i]);
        x.id == y.id && x.label == y.label && x.rank == y.rank && x.color@ == y.color@
    }
    &&& a.statuses@.len() == b.statuses@.len()
    &&& forall|i: int| 0 <= i < a.statuses@.len() ==> {
        let (x, y) = (#[trigger] a.statuses@[i], b.statuses@[i]);
        x.id == y.id && x.label == y.label && x.order == y.order && x.color@ == y.color@
    }
    &&& a.done_status@ == b.done_status@
    &&& a.status_bar_style@ == b.status_bar_style@
    &&& a == Settings { priorities: a.priorities, statuses: a.statuses, done_status: a.done_status,
        status_bar_style: a.status_bar_style, ..b }
}

proof fn lemma_seed_colors_are_not_neutral(id: Seq<char>)
    ensures
        seed_priority_color(id) matches Some(c) ==> c != neutral_color(),
        seed_status_color(id) matches Some(c) ==> c != neutral_color(),
{
    reveal_strlit("#807973");
    reveal_strlit("#bc267f");
    reveal_strlit("#aa6a00");
    reveal_strlit("#0e9254");
    reveal_strlit("#6f7178");
    reveal_strlit("#0073b6");
    reveal_strlit("#bd7d00");
    assert(neutral_color()[1] == '8');
    assert("#bc267f"@[1] != neutral_color()[1]);
    assert("#aa6a00"@[1] != neutral_color()[1]);
    assert("#0e9254"@[1] != neutral_color()[1]);
    assert("#6f7178"@[1] != neutral_color()[1]);
    assert("#0073b6"@[1] != neutral_color()[1]);
    assert("#bd7d00"@[1] != neutral_color()[1]);
}

proof fn lemma_repair_is_stable(s: Seq<StatusDefinition>, t: Seq<StatusDefinition>, done: Seq<char>)
    requires
        s.len() == t.len(),
        forall|i: int| 0 <= i < s.len() ==> (#[trigger] s[i]).id == t[i].id,
    ensures
        repaired_done_status(t, repaired_done_status(s, done)) == repaired_done_status(s, done),
{
    assert forall|x: Seq<char>| has_status_id(s, x) <==> has_status_id(t, x) by {
        if has_status_id(s, x) {
            let i = choose|i: int| 0 <= i < s.len() && (#[trigger] s[i]).id@ == x;
            assert(t[i].id@ == x);
        }
        if has_status_id(t, x) {
            let i = choose|i: int| 0 <= i < t.len() && (#[trigger] t[i]).id@ == x;
            assert(s[i].id@ == x);
        }
    }
    let d = repaired_done_status(s, done);
    if !has_status_id(s, done) && !has_status_id(s, "done"@) && s.len() > 0 {
        lemma_last_max_order_in_range(s);
        let k = last_max_order(s);
        assert(s[k].id@ == d);
        assert(has_status_id(s, d));
    }
}

/// Normalizing loaded settings twice gives what normalizing once gives:
/// a normalized file is left as it is.
pub proof fn lemma_normalize_idempotent(s: Settings, once: Settings, twice: Settings)
    requires
        normalizes_to(s, once),
        normalizes_to(once, twice),
    ensures
        same_settings(twice, once),
{
    assert forall|i: int| 0 <= i < twice.priorities@.len() implies {
        let (x, y) = (#[trigger] twice.priorities@[i], once.priorities@[i]);
        x.id == y.id && x.label == y.label && x.rank == y.rank && x.color@ == y.color@
    } by {
        lemma_seed_colors_are_not_neutral(s.priorities@[i].id@);
    }
    assert forall|i: int| 0 <= i < twice.statuses@.len() implies {
        let (x, y) = (#[trigger] twice.statuses@[i], once.statuses@[i]);
        x.id == y.id && x.label == y.label && x.order == y.order && x.color@ == y.color@
    } by {
        lemma_seed_colors_are_not_neutral(s.statuses@[i].id@);
    }
    assert forall|i: int| 0 <= i < s.statuses@.len() implies (#[trigger] s.statuses@[i]).id == once.statuses@[i].id by {
        assert(once.statuses@[i].id == s.statuses@[i].id);
    }
    lemma_repair_is_stable(s.statuses@, once.statuses@, s.done_status@);
    assert(twice.defaults == once.defaults);
}

impl Settings {
    /// Repairs settings loaded from older files: priority and status colors
    /// still on the neutral fallback get their seed colors (for the
    /// well-known ids), a `done_status` naming no status is repaired (see
    /// [`repaired_done_status`]), missing default scheduled/due codes
    /// become `"today"`/`"none"`, and an unrecognized status bar style
    /// becomes `"tiles"`. Everything else is kept.
    pub fn normalize(self) -> (r: Self)
        ensures
            normalizes_to(self, r),
    {
        let mut s = self;
        let mut prios: Vec<PriorityLevel> = Vec::new();
        let mut i: usize = 0;
        while i < s.priorities.len()
            invariant
                s == self,
                i <= s.priorities@.len(),
                prios@.len() == i,
                forall|k: int| 0 <= k < i ==> {
                    let (a, b) = (#[trigger] prios@[k], self.priorities@[k]);
                    a.id == b.id && a.label == b.label && a.rank == b.rank
                        && a.color@ == normalized_color(b.color@, seed_priority_color(b.id@))
                },
            decreases s.priorities.len() - i,
        {
            let p = &s.priorities[i];
            let color = normalize_color(&p.color, seed_priority_color_of(p.id.as_str()));
            prios.push(PriorityLevel {
                id: copy_string(&p.id),
                label: copy_string(&p.label),
                color,
                rank: p.rank,
            });
            i += 1;
        }
        let mut stats: Vec<StatusDefinition> = Vec::new();
        let mut i: usize = 0;
        while i < s.statuses.len()
            invariant
                s == self,
                i <= s.statuses@.len(),
                stats@.len() == i,
                forall|k: int| 0 <= k < i ==> {
                    let (a, b) = (#[trigger] stats@[k], self.statuses@[k]);
                    a.id == b.id && a.label == b.label && a.order == b.order
                        && a.color@ == normalized_color(b.color@, seed_status_color(b.id@))
                },
            decreases s.statuses.len() - i,
        {
            let p = &s.statuses[i];
            let color = normalize_color(&p.color, seed_status_color_of(p.id.as_str()));
            stats.push(StatusDefinition {
                id: copy_string(&p.id),
                label: copy_string(&p.label),
                order: p.order,
                color,
            });
            i += 1;
        }
        let done = repair_done_status(&s.statuses, &s.done_status);
        s.priorities = prios;
        s.statuses = stats;
        s.done_status = done;
        if s.defaults.scheduled.is_none() {
            s.defaults.scheduled = Some(owned("today"));
        }
        if s.defaults.due.is_none() {
            s.defaults.due = Some(owned("none"));
        }
        if validate_status_bar_style(s.status_bar_style.as_str()).is_err() {
            s.status_bar_style = default_status_bar_style();
        }
        s
    }
}

} // verus!
