//! Occurrence dates of a recurring series and due dates of its occurrences.
//!
//! The occurrences of a series in a window are the days of the window in
//! increasing order, each repeated as many times as the rule produces it
//! (see [`multiplicity`]): once for an every-N-days or monthly rule that
//! hits it, and once per matching weekday entry for a weekly rule.

use vstd::prelude::*;
use crate::dates::{
    add_days, add_days_spec, civil_of, civil_of_spec, is_valid_day, opt_i32_view, parse_iso_date,
    parsed_iso_date, weekday, weekday_from_sunday, MAX_DAY, MIN_DAY,
};
use crate::series::{DueRule, RecurrenceFrequency, Series};
use crate::settings::{due_relative_date_spec, resolve_due_relative_date};

verus! {

/// `x`, but at least 1.
pub open spec fn at_least_one(x: u32) -> int {
    if x == 0 { 1 } else { x as int }
}

/// The Sunday starting the week of `day`.
pub open spec fn week_start(day: int) -> int {
    day - weekday_from_sunday(day)
}

/// The due date `rule` gives an occurrence scheduled on `scheduled`.
pub open spec fn due_rule_date(rule: DueRule, scheduled: int) -> Option<int> {
    match rule {
        DueRule::Never => None,
        DueRule::DefaultCode { code } => due_relative_date_spec(code@, scheduled),
        DueRule::AfterScheduled { days } => add_days_spec(scheduled, days as int),
        DueRule::Weekday { weekday, interval_weeks } => {
            let ahead = (weekday as int - weekday_from_sunday(scheduled)) % 7;
            match add_days_spec(scheduled, ahead) {
                None => None,
                Some(next) => {
                    let extra: int = if interval_weeks == 0 { 0 } else { interval_weeks - 1 };
                    if extra == 0 {
                        Some(next)
                    } else {
                        add_days_spec(next, 7 * extra)
                    }
                },
            }
        },
    }
}

/// Resolves `rule` to a due date for an occurrence scheduled on
/// `scheduled`; `None` means never due (or no representable date).
pub fn resolve_due_rule(rule: &DueRule, scheduled: i32) -> (r: Option<i32>)
    requires
        is_valid_day(scheduled as int),
    ensures
        opt_i32_view(r) == due_rule_date(*rule, scheduled as int),
        r matches Some(d) ==> is_valid_day(d as int),
{
    match rule {
        DueRule::Never => None,
        DueRule::DefaultCode { code } => resolve_due_relative_date(code.as_str(), scheduled),
        DueRule::AfterScheduled { days } => add_days(scheduled, *days as i64),
        DueRule::Weekday { weekday: wd, interval_weeks } => {
            let current = weekday(scheduled) as i64;
            let shifted: i64 = *wd as i64 + 7 - current;
            let ahead = shifted % 7;
            assert(ahead == (*wd as int - weekday_from_sunday(scheduled as int)) % 7) by {
                assert(shifted >= 0);
                assert((shifted - 7) % 7 == shifted % 7);
            }
            match add_days(scheduled, ahead) {
                None => None,
                Some(next) => {
                    let extra: i64 = if *interval_weeks == 0 { 0 } else { *interval_weeks as i64 - 1 };
                    if extra == 0 {
                        Some(next)
                    } else {
                        add_days(next, 7 * extra)
                    }
                },
            }
        },
    }
}

/// Whether the anchor date itself satisfies `frequency`.
pub open spec fn anchor_matches(frequency: RecurrenceFrequency, anchor: int) -> bool {
    match frequency {
        RecurrenceFrequency::EveryNDays { .. } => true,
        RecurrenceFrequency::Weekly { weekdays, .. } => lists_weekday(weekdays@, weekday_from_sunday(anchor)),
        RecurrenceFrequency::MonthlyByDay { day } => civil_of_spec(anchor).2 == day,
    }
}

/// Whether weekday `w` occurs in `weekdays`.
pub open spec fn lists_weekday(weekdays: Seq<u8>, w: int) -> bool {
    exists|i: int| 0 <= i < weekdays.len() && #[trigger] weekdays[i] as int == w
}

fn contains_weekday(v: &Vec<u8>, w: u32) -> (r: bool)
    ensures
        r == lists_weekday(v@, w as int),
{
    let mut i: usize = 0;
    while i < v.len()
        invariant
            i <= v@.len(),
            forall|k: int| 0 <= k < i ==> #[trigger] v@[k] as int != w,
        decreases v.len() - i,
    {
        if v[i] as u32 == w {
            return true;
        }
        i += 1;
    }
    false
}

/// Whether `anchor` itself is an occurrence date of `frequency`: always
/// for every-N-days, when its weekday is listed for weekly, when its day
/// of the month is the rule's day for monthly.
#[verifier::spinoff_prover]
pub fn anchor_matches_frequency(frequency: &RecurrenceFrequency, anchor: i32) -> (r: bool)
    requires
        is_valid_day(anchor as int),
    ensures
        r == anchor_matches(*frequency, anchor as int),
{
    match frequency {
        RecurrenceFrequency::EveryNDays { .. } => true,
        RecurrenceFrequency::Weekly { weekdays, .. } => contains_weekday(weekdays, weekday(anchor)),
        RecurrenceFrequency::MonthlyByDay { day } => civil_of(anchor).2 == *day,
    }
}

/// Whether weekday entry `wd` of a weekly rule whose first week starts on
/// `first_week` and which repeats every `every` weeks lands on `d`.
pub open spec fn weekly_slot(first_week: int, every: int, wd: int, d: int) -> bool {
    let off = d - first_week - wd;
    off >= 0 && off % 7 == 0 && (off / 7) % every == 0
}

/// How many weekday entries of `wds` land on `d`.
pub open spec fn weekly_hits(wds: Seq<u8>, first_week: int, every: int, d: int) -> nat
    decreases wds.len(),
{
    if wds.len() == 0 {
        0
    } else {
        weekly_hits(wds.drop_last(), first_week, every, d)
            + if weekly_slot(first_week, every, wds.last() as int, d) { 1nat } else { 0nat }
    }
}

/// How many times the rule anchored at `anchor` produces day `d` (for `d`
/// after the anchor).
pub open spec fn multiplicity(frequency: RecurrenceFrequency, anchor: int, d: int) -> nat {
    match frequency {
        RecurrenceFrequency::EveryNDays { interval } =>
            if (d - anchor) % at_least_one(interval) == 0 { 1 } else { 0 },
        RecurrenceFrequency::Weekly { weekdays, interval_weeks } =>
            weekly_hits(weekdays@, week_start(anchor), at_least_one(interval_weeks), d),
        RecurrenceFrequency::MonthlyByDay { day } =>
            if civil_of_spec(d).2 == day { 1 } else { 0 },
    }
}

/// The days in `(lo, hi]`, increasing, each repeated by its multiplicity.
pub open spec fn occurrences(frequency: RecurrenceFrequency, anchor: int, lo: int, hi: int) -> Seq<i32>
    decreases hi - lo,
{
    if hi <= lo {
        Seq::empty()
    } else {
        occurrences(frequency, anchor, lo, hi - 1)
            + Seq::new(multiplicity(frequency, anchor, hi), |_i: int| hi as i32)
    }
}

pub open spec fn min_int(a: int, b: int) -> int {
    if a <= b { a } else { b }
}

pub open spec fn max_int(a: int, b: int) -> int {
    if a >= b { a } else { b }
}

/// The occurrence dates strictly after `after` (and after the anchor) up
/// to `through` (and the end date, when there is one).
pub open spec fn occurrence_window(
    frequency: RecurrenceFrequency,
    anchor: int,
    end: Option<int>,
    after: int,
    through: int,
) -> Seq<i32> {
    let hi = match end {
        Some(e) => min_int(through, e),
        None => through,
    };
    occurrences(frequency, anchor, max_int(after, anchor), hi)
}

/// Whether the rule can be evaluated from `anchor`: a weekly rule counts
/// weeks from the Sunday of the anchor's week, which must be a
/// representable date.
pub open spec fn anchor_usable(frequency: RecurrenceFrequency, anchor: int) -> bool {
    frequency is Weekly ==> is_valid_day(week_start(anchor))
}

fn weekly_count(weekdays: &Vec<u8>, first_week: i32, every: i64, d: i32) -> (r: usize)
    requires
        every >= 1,
        is_valid_day(first_week as int),
        is_valid_day(d as int),
    ensures
        r as nat == weekly_hits(weekdays@, first_week as int, every as int, d as int),
        r <= weekdays@.len(),
{
    let mut count: usize = 0;
    let mut j: usize = 0;
    while j < weekdays.len()
        invariant
            every >= 1,
            is_valid_day(first_week as int),
            is_valid_day(d as int),
            j <= weekdays@.len(),
            count <= j,
            count as nat == weekly_hits(weekdays@.subrange(0, j as int), first_week as int, every as int, d as int),
        decreases weekdays.len() - j,
    {
        proof {
            assert(weekdays@.subrange(0, j as int + 1).drop_last() == weekdays@.subrange(0, j as int));
        }
        let off: i64 = d as i64 - first_week as i64 - weekdays[j] as i64;
        if off >= 0 && off % 7 == 0 && (off / 7) % every == 0 {
            count += 1;
        }
        j += 1;
    }
    assert(weekdays@.subrange(0, j as int) == weekdays@);
    count
}

fn multiplicity_of(frequency: &RecurrenceFrequency, anchor: i32, d: i32) -> (r: usize)
    requires
        anchor < d,
        is_valid_day(anchor as int),
        is_valid_day(d as int),
        anchor_usable(*frequency, anchor as int),
    ensures
        r as nat == multiplicity(*frequency, anchor as int, d as int),
{
    match frequency {
        RecurrenceFrequency::EveryNDays { interval } => {
            let every: i64 = if *interval == 0 { 1 } else { *interval as i64 };
            let off: i64 = d as i64 - anchor as i64;
            let rem = off % every;
            if rem == 0 { 1 } else { 0 }
        },
        RecurrenceFrequency::Weekly { weekdays, interval_weeks } => {
            let every: i64 = if *interval_weeks == 0 { 1 } else { *interval_weeks as i64 };
            let first_week = anchor - weekday(anchor) as i32;
            weekly_count(weekdays, first_week, every, d)
        },
        RecurrenceFrequency::MonthlyByDay { day } => {
            if civil_of(d).2 == *day { 1 } else { 0 }
        },
    }
}

/// The occurrence dates of `frequency` anchored at `anchor`, strictly after
/// `after` and the anchor, up to `through` and `end` inclusive, in
/// increasing order (see [`occurrence_window`]).
pub fn occurrence_days(
    frequency: &RecurrenceFrequency,
    anchor: i32,
    end: Option<i32>,
    after: i32,
    through: i32,
) -> (r: Vec<i32>)
    requires
        is_valid_day(anchor as int),
        end matches Some(e) ==> is_valid_day(e as int),
        is_valid_day(after as int),
        is_valid_day(through as int),
        anchor_usable(*frequency, anchor as int),
    ensures
        r@ == occurrence_window(*frequency, anchor as int, opt_i32_view(end), after as int, through as int),
{
    let hi: i32 = match end {
        Some(e) => if through <= e { through } else { e },
        None => through,
    };
    let lo: i32 = if after >= anchor { after } else { anchor };
    let mut out: Vec<i32> = Vec::new();
    if hi <= lo {
        return out;
    }
    let mut d: i32 = lo;
    while d < hi
        invariant
            MIN_DAY <= lo <= d <= hi <= MAX_DAY,
            anchor <= lo,
            is_valid_day(anchor as int),
            anchor_usable(*frequency, anchor as int),
            out@ == occurrences(*frequency, anchor as int, lo as int, d as int),
        decreases hi - d,
    {
        let next = d + 1;
        let m = multiplicity_of(frequency, anchor, next);
        let ghost base = out@;
        let mut c: usize = 0;
        while c < m
            invariant
                c <= m,
                out@ == base + Seq::new(c as nat, |_i: int| next as i32),
            decreases m - c,
        {
            out.push(next);
            proof {
                assert(out@ == base + Seq::new(c as nat + 1, |_i: int| next as i32));
            }
            c += 1;
        }
        d = next;
    }
    out
}

/// The occurrence dates `series` produces strictly after `after` and up to
/// `through`: empty when the anchor does not parse (or, for a weekly rule,
/// its week starts before the earliest representable date); an end date
/// that does not parse is ignored.
pub open spec fn series_dates(series: Series, after: int, through: int) -> Seq<i32> {
    match parsed_iso_date(series.anchor_date@) {
        None => Seq::empty(),
        Some(anchor) => {
            let end = match series.end_date {
                Some(e) => parsed_iso_date(e@),
                None => None,
            };
            if anchor_usable(series.frequency, anchor) {
                occurrence_window(series.frequency, anchor, end, after, through)
            } else {
                Seq::empty()
            }
        },
    }
}

/// The occurrence dates `series` produces strictly after `after` and up to
/// `through`, clamped to its end date (see [`series_dates`]).
pub fn occurrence_dates_in_range(series: &Series, after: i32, through: i32) -> (r: Vec<i32>)
    requires
        is_valid_day(after as int),
        is_valid_day(through as int),
    ensures
        r@ == series_dates(*series, after as int, through as int),
{
    let anchor = match parse_iso_date(series.anchor_date.as_str()) {
        Some(a) => a,
        None => return Vec::new(),
    };
    let end: Option<i32> = match &series.end_date {
        Some(e) => parse_iso_date(e.as_str()),
        None => None,
    };
    let usable = match &series.frequency {
        RecurrenceFrequency::Weekly { .. } => anchor - (weekday(anchor) as i32) >= MIN_DAY,
        _ => true,
    };
    if !usable {
        return Vec::new();
    }
    occurrence_days(&series.frequency, anchor, end, after, through)
}

} // verus!

verus! {

proof fn lemma_occurrences_split(frequency: RecurrenceFrequency, anchor: int, lo: int, mid: int, hi: int)
    requires
        lo <= mid <= hi,
    ensures
        occurrences(frequency, anchor, lo, mid) + occurrences(frequency, anchor, mid, hi)
            == occurrences(frequency, anchor, lo, hi),
    decreases hi - mid,
{
    if mid < hi {
        lemma_occurrences_split(frequency, anchor, lo, mid, hi - 1);
        let tail = Seq::new(multiplicity(frequency, anchor, hi), |_i: int| hi as i32);
        assert(occurrences(frequency, anchor, lo, mid) + occurrences(frequency, anchor, mid, hi)
            == (occurrences(frequency, anchor, lo, mid) + occurrences(frequency, anchor, mid, hi - 1)) + tail);
    } else {
        assert(occurrences(frequency, anchor, mid, hi) == Seq::<i32>::empty());
        assert(occurrences(frequency, anchor, lo, mid) + Seq::<i32>::empty() == occurrences(frequency, anchor, lo, mid));
    }
}

proof fn lemma_occurrences_bounds(frequency: RecurrenceFrequency, anchor: int, lo: int, hi: int)
    requires
        MIN_DAY <= lo,
        hi <= MAX_DAY,
    ensures
        forall|i: int| 0 <= i < occurrences(frequency, anchor, lo, hi).len()
            ==> lo < #[trigger] occurrences(frequency, anchor, lo, hi)[i] <= hi,
        forall|i: int, j: int| 0 <= i <= j < occurrences(frequency, anchor, lo, hi).len()
            ==> occurrences(frequency, anchor, lo, hi)[i] <= occurrences(frequency, anchor, lo, hi)[j],
    decreases hi - lo,
{
    if hi > lo {
        lemma_occurrences_bounds(frequency, anchor, lo, hi - 1);
        let prev = occurrences(frequency, anchor, lo, hi - 1);
        let all = occurrences(frequency, anchor, lo, hi);
        assert forall|i: int| 0 <= i < all.len() implies lo < #[trigger] all[i] <= hi by {
            if i < prev.len() {
                assert(all[i] == prev[i]);
            }
        }
        assert forall|i: int, j: int| 0 <= i <= j < all.len() implies all[i] <= all[j] by {
            if j < prev.len() {
                assert(all[i] == prev[i] && all[j] == prev[j]);
            } else if i < prev.len() {
                assert(all[i] == prev[i]);
            }
        }
    }
}

/// Generating occurrences is additive over adjacent windows: the dates
/// after `after` through `mid`, followed by those after `mid` through
/// `through`, are exactly the dates after `after` through `through`. So
/// extending a series' generated window forward from its watermark never
/// repeats or skips a date.
pub proof fn lemma_window_extension(
    frequency: RecurrenceFrequency,
    anchor: int,
    end: Option<int>,
    after: int,
    mid: int,
    through: int,
)
    requires
        after <= mid <= through,
    ensures
        occurrence_window(frequency, anchor, end, after, mid) + occurrence_window(frequency, anchor, end, mid, through)
            == occurrence_window(frequency, anchor, end, after, through),
{
    let lo = max_int(after, anchor);
    let hi = match end {
        Some(e) => min_int(through, e),
        None => through,
    };
    let hi1 = match end {
        Some(e) => min_int(mid, e),
        None => mid,
    };
    let lo2 = max_int(mid, anchor);
    if hi <= lo {
        assert(occurrence_window(frequency, anchor, end, after, through) == Seq::<i32>::empty());
        assert(occurrence_window(frequency, anchor, end, after, mid) == Seq::<i32>::empty());
        assert(occurrence_window(frequency, anchor, end, mid, through) == Seq::<i32>::empty());
    } else if hi1 <= lo {
        // the first window is empty; the second starts where the whole does
        assert(occurrence_window(frequency, anchor, end, after, mid) == Seq::<i32>::empty());
        if lo2 == lo {
        } else {
            // hi1 = e <= lo < mid: everything is clamped away
            assert(hi <= lo2);
            assert(occurrence_window(frequency, anchor, end, mid, through) == Seq::<i32>::empty());
            assert(occurrence_window(frequency, anchor, end, after, through) == Seq::<i32>::empty());
        }
        assert(Seq::<i32>::empty() + occurrence_window(frequency, anchor, end, mid, through)
            == occurrence_window(frequency, anchor, end, mid, through));
    } else if hi <= lo2 {
        // the second window is empty; the first is clamped to the end date
        assert(occurrence_window(frequency, anchor, end, mid, through) == Seq::<i32>::empty());
        assert(hi1 == hi);
        assert(occurrence_window(frequency, anchor, end, after, mid) + Seq::<i32>::empty()
            == occurrence_window(frequency, anchor, end, after, mid));
    } else {
        assert(hi1 == lo2);
        lemma_occurrences_split(frequency, anchor, lo, lo2, hi);
    }
}

/// Every generated date lies strictly after both `after` and the anchor,
/// at or before `through` and the end date, and the dates come in
/// non-decreasing order.
pub proof fn lemma_window_bounds(
    frequency: RecurrenceFrequency,
    anchor: int,
    end: Option<int>,
    after: int,
    through: int,
)
    requires
        is_valid_day(anchor),
        is_valid_day(after),
        is_valid_day(through),
        end matches Some(e) ==> is_valid_day(e),
    ensures
        forall|i: int| 0 <= i < occurrence_window(frequency, anchor, end, after, through).len() ==> {
            let d = #[trigger] occurrence_window(frequency, anchor, end, after, through)[i];
            &&& after < d <= through
            &&& anchor < d
            &&& (end matches Some(e) ==> d <= e)
        },
        forall|i: int, j: int| 0 <= i <= j < occurrence_window(frequency, anchor, end, after, through).len()
            ==> occurrence_window(frequency, anchor, end, after, through)[i]
                <= occurrence_window(frequency, anchor, end, after, through)[j],
{
    let lo = max_int(after, anchor);
    let hi = match end {
        Some(e) => min_int(through, e),
        None => through,
    };
    lemma_occurrences_bounds(frequency, anchor, lo, hi);
}

} // verus!

verus! {

/// Every date a series produces is a representable date.
pub proof fn lemma_series_dates_valid(series: Series, after: int, through: int)
    requires
        is_valid_day(after),
        is_valid_day(through),
    ensures
        forall|i: int| 0 <= i < series_dates(series, after, through).len()
            ==> is_valid_day(#[trigger] series_dates(series, after, through)[i] as int),
{
    if let Some(anchor) = parsed_iso_date(series.anchor_date@) {
        let end = match series.end_date {
            Some(e) => parsed_iso_date(e@),
            None => None,
        };
        let hi = match end {
            Some(e) => min_int(through, e),
            None => through,
        };
        lemma_occurrences_bounds(series.frequency, anchor, max_int(after, anchor), hi);
    }
}


/// The dates a series produces in a window lie strictly after its start
/// and no later than its end, in ascending order.
pub proof fn lemma_series_dates_in_window(series: Series, after: int, through: int)
    requires
        is_valid_day(after),
        is_valid_day(through),
    ensures
        forall|i: int| 0 <= i < series_dates(series, after, through).len()
            ==> after < #[trigger] series_dates(series, after, through)[i] <= through,
        forall|i: int, j: int| 0 <= i <= j < series_dates(series, after, through).len()
            ==> series_dates(series, after, through)[i] <= series_dates(series, after, through)[j],
{
    if let Some(anchor) = parsed_iso_date(series.anchor_date@) {
        let end = match series.end_date {
            Some(e) => parsed_iso_date(e@),
            None => None,
        };
        let hi = match end {
            Some(e) => min_int(through, e),
            None => through,
        };
        lemma_occurrences_bounds(series.frequency, anchor, max_int(after, anchor), hi);
    }
}


proof fn lemma_occurrences_contain(frequency: RecurrenceFrequency, anchor: int, lo: int, hi: int, x: i32)
    requires
        MIN_DAY <= lo,
        hi <= MAX_DAY,
    ensures
        occurrences(frequency, anchor, lo, hi).contains(x)
            <==> (lo < x <= hi && multiplicity(frequency, anchor, x as int) > 0),
    decreases hi - lo,
{
    if hi > lo {
        lemma_occurrences_contain(frequency, anchor, lo, hi - 1, x);
        let rest = occurrences(frequency, anchor, lo, hi - 1);
        let m = multiplicity(frequency, anchor, hi);
        let tail = Seq::new(m, |_i: int| hi as i32);
        let all = occurrences(frequency, anchor, lo, hi);
        assert(all == rest + tail);
        if all.contains(x) {
            let i = choose|i: int| 0 <= i < all.len() && all[i] == x;
            if i < rest.len() {
                assert(rest[i] == x);
            } else {
                assert(tail[i - rest.len()] == x);
                assert(x as int == hi);
            }
        }
        if lo < x <= hi && multiplicity(frequency, anchor, x as int) > 0 {
            if x < hi {
                let i = choose|i: int| 0 <= i < rest.len() && rest[i] == x;
                assert(all[i] == x);
            } else {
                assert(all[rest.len() as int] == x);
            }
        }
    }
}

proof fn lemma_weekly_hits_positive(wds: Seq<u8>, first_week: int, every: int, d: int)
    ensures
        weekly_hits(wds, first_week, every, d) > 0
            <==> exists|i: int| 0 <= i < wds.len() && weekly_slot(first_week, every, #[trigger] wds[i] as int, d),
    decreases wds.len(),
{
    if wds.len() > 0 {
        let rest = wds.drop_last();
        lemma_weekly_hits_positive(rest, first_week, every, d);
        if exists|i: int| 0 <= i < rest.len() && weekly_slot(first_week, every, #[trigger] rest[i] as int, d) {
            let i = choose|i: int| 0 <= i < rest.len() && weekly_slot(first_week, every, #[trigger] rest[i] as int, d);
            assert(wds[i] == rest[i]);
        }
        if exists|i: int| 0 <= i < wds.len() && weekly_slot(first_week, every, #[trigger] wds[i] as int, d) {
            let i = choose|i: int| 0 <= i < wds.len() && weekly_slot(first_week, every, #[trigger] wds[i] as int, d);
            if i < rest.len() {
                assert(rest[i] == wds[i]);
            }
        }
    }
}

proof fn lemma_weekly_slot_meaning(anchor: int, every: int, wd: int, d: int)
    requires
        0 <= wd <= 6,
        every >= 1,
        anchor < d,
    ensures
        weekly_slot(anchor - anchor % 7, every, wd, d)
            <==> (wd == d % 7 && (((d - d % 7) - (anchor - anchor % 7)) / 7) % every == 0),
{
    let fw = anchor - anchor % 7;
    let off = d - fw - wd;
    assert(fw % 7 == 0);
    assert((d - d % 7) % 7 == 0);
    assert(d - d % 7 >= fw);
    if wd == d % 7 {
        assert(off == (d - d % 7) - fw);
        assert(off % 7 == 0);
    } else {
        assert(off % 7 != 0);
    }
}

/// The dates a weekly series generates: a day after the anchor, after
/// `after`, through `through` (and its end date, when that parses) is an
/// occurrence exactly when its weekday (counted from Sunday) is listed and
/// the number of whole weeks from the Sunday starting the anchor's week to
/// the Sunday starting its own week is a multiple of the interval (taken
/// as 1 when 0).
pub proof fn lemma_weekly_series_dates(series: Series, after: int, through: int, x: i32)
    requires
        series.frequency matches RecurrenceFrequency::Weekly { weekdays, interval_weeks }
            && forall|i: int| 0 <= i < weekdays@.len() ==> #[trigger] weekdays@[i] <= 6,
        parsed_iso_date(series.anchor_date@) matches Some(a) && is_valid_day(a - a % 7),
        is_valid_day(after),
        is_valid_day(through),
    ensures
        ({
            let weekdays = series.frequency->weekdays;
            let interval_weeks = series.frequency->interval_weeks;
            let a = parsed_iso_date(series.anchor_date@)->0;
            let every: int = if interval_weeks == 0 { 1 } else { interval_weeks as int };
            let d = x as int;
            series_dates(series, after, through).contains(x) <==> {
                &&& a < d
                &&& after < d <= through
                &&& match series.end_date {
                    Some(e) => match parsed_iso_date(e@) {
                        Some(z) => d <= z,
                        None => true,
                    },
                    None => true,
                }
                &&& exists|i: int| 0 <= i < weekdays@.len() && #[trigger] weekdays@[i] as int == d % 7
                &&& (((d - d % 7) - (a - a % 7)) / 7) % every == 0
            }
        }),
{
    let weekdays = series.frequency->weekdays;
    let interval_weeks = series.frequency->interval_weeks;
    let a = parsed_iso_date(series.anchor_date@)->0;
    let every: int = if interval_weeks == 0 { 1 } else { interval_weeks as int };
    let d = x as int;
    let end = match series.end_date {
        Some(e) => parsed_iso_date(e@),
        None => None,
    };
    let hi = match end {
        Some(z) => min_int(through, z),
        None => through,
    };
    let lo = max_int(after, a);
    assert(week_start(a) == a - a % 7);
    assert(anchor_usable(series.frequency, a));
    assert(series_dates(series, after, through) == occurrences(series.frequency, a, lo, hi));
    lemma_occurrences_contain(series.frequency, a, lo, hi, x);
    if a < d {
        lemma_weekly_hits_positive(weekdays@, a - a % 7, every, d);
        assert(multiplicity(series.frequency, a, d) == weekly_hits(weekdays@, a - a % 7, every, d));
        assert forall|i: int| 0 <= i < weekdays@.len() implies
            (weekly_slot(a - a % 7, every, #[trigger] weekdays@[i] as int, d)
                <==> (weekdays@[i] as int == d % 7 && (((d - d % 7) - (a - a % 7)) / 7) % every == 0)) by {
            lemma_weekly_slot_meaning(a, every, weekdays@[i] as int, d);
        }
        let listed = exists|i: int| 0 <= i < weekdays@.len() && #[trigger] weekdays@[i] as int == d % 7;
        let counted = (((d - d % 7) - (a - a % 7)) / 7) % every == 0;
        if multiplicity(series.frequency, a, d) > 0 {
            let i = choose|i: int| 0 <= i < weekdays@.len() && weekly_slot(a - a % 7, every, #[trigger] weekdays@[i] as int, d);
            assert(weekdays@[i] as int == d % 7 && counted);
            assert(listed);
        }
        if listed && counted {
            let i = choose|i: int| 0 <= i < weekdays@.len() && #[trigger] weekdays@[i] as int == d % 7;
            assert(weekly_slot(a - a % 7, every, weekdays@[i] as int, d));
            assert(multiplicity(series.frequency, a, d) > 0);
        }
        assert((lo < d <= hi) <==> (a < d && after < d && d <= through && match end {
            Some(z) => d <= z,
            None => true,
        }));
    }
}

/// The due date of a weekday rule: the first day on or after the
/// scheduled day with the rule's weekday (counted from Sunday), then
/// `interval_weeks - 1` further weeks (an interval of 0 counts as 1). So it
/// has that weekday and lies in the `interval_weeks`-th week starting at
/// the scheduled day, and it exists whenever that week is representable.
pub proof fn lemma_weekday_due_date(scheduled: int, weekday: u8, interval_weeks: u32)
    requires
        is_valid_day(scheduled),
        weekday <= 6,
    ensures
        ({
            let n: int = if interval_weeks == 0 { 1 } else { interval_weeks as int };
            let r = due_rule_date(DueRule::Weekday { weekday, interval_weeks }, scheduled);
            &&& r matches Some(due) ==> due % 7 == weekday as int
                && scheduled + 7 * (n - 1) <= due <= scheduled + 7 * n - 1
            &&& is_valid_day(scheduled + 7 * n - 1) ==> r is Some
        }),
{
    let ahead = (weekday as int - weekday_from_sunday(scheduled)) % 7;
    assert(0 <= ahead <= 6);
    assert((scheduled + ahead) % 7 == weekday as int);
    let n: int = if interval_weeks == 0 { 1 } else { interval_weeks as int };
    assert(((scheduled + ahead) + 7 * (n - 1)) % 7 == weekday as int);
}


proof fn lemma_occurrences_strict(frequency: RecurrenceFrequency, anchor: int, lo: int, hi: int)
    requires
        MIN_DAY <= lo,
        hi <= MAX_DAY,
        forall|d: int| lo < d <= hi ==> #[trigger] multiplicity(frequency, anchor, d) <= 1,
    ensures
        forall|i: int, j: int| 0 <= i < j < occurrences(frequency, anchor, lo, hi).len()
            ==> occurrences(frequency, anchor, lo, hi)[i] < occurrences(frequency, anchor, lo, hi)[j],
    decreases hi - lo,
{
    if hi > lo {
        lemma_occurrences_strict(frequency, anchor, lo, hi - 1);
        lemma_occurrences_bounds(frequency, anchor, lo, hi - 1);
        let prev = occurrences(frequency, anchor, lo, hi - 1);
        let all = occurrences(frequency, anchor, lo, hi);
        assert(multiplicity(frequency, anchor, hi) <= 1);
        assert forall|i: int, j: int| 0 <= i < j < all.len() implies all[i] < all[j] by {
            if j < prev.len() {
                assert(all[i] == prev[i] && all[j] == prev[j]);
            } else {
                assert(i < prev.len());
                assert(all[i] == prev[i]);
                assert(prev[i] <= hi - 1);
            }
        }
    }
}

/// The window of a series' dates: after the anchor and after `after`,
/// through `through` and through its end date when that parses.
pub open spec fn in_series_window(series: Series, a: int, after: int, through: int, d: int) -> bool {
    &&& a < d
    &&& after < d <= through
    &&& match series.end_date {
        Some(e) => match parsed_iso_date(e@) {
            Some(z) => d <= z,
            None => true,
        },
        None => true,
    }
}

proof fn lemma_series_dates_as_occurrences(series: Series, a: int, after: int, through: int, x: i32)
    requires
        parsed_iso_date(series.anchor_date@) == Some(a),
        anchor_usable(series.frequency, a),
        is_valid_day(after),
        is_valid_day(through),
    ensures
        series_dates(series, after, through).contains(x)
            <==> (in_series_window(series, a, after, through, x as int) && multiplicity(series.frequency, a, x as int) > 0),
{
    let end = match series.end_date {
        Some(e) => parsed_iso_date(e@),
        None => None,
    };
    let hi = match end {
        Some(z) => min_int(through, z),
        None => through,
    };
    let lo = max_int(after, a);
    lemma_occurrences_contain(series.frequency, a, lo, hi, x);
}

/// The dates an every-`n`-days series generates: a day in its window (see
/// [`in_series_window`]) is an occurrence exactly when it lies a whole
/// number of intervals (taken as 1 when 0) after the anchor. No date comes
/// twice, and they come in increasing order.
pub proof fn lemma_every_n_days_series_dates(series: Series, after: int, through: int, x: i32)
    requires
        series.frequency is EveryNDays,
        parsed_iso_date(series.anchor_date@) is Some,
        is_valid_day(after),
        is_valid_day(through),
    ensures
        ({
            let interval = series.frequency->interval;
            let n: int = if interval == 0 { 1 } else { interval as int };
            let a = parsed_iso_date(series.anchor_date@)->0;
            series_dates(series, after, through).contains(x)
                <==> (in_series_window(series, a, after, through, x as int) && (x as int - a) % n == 0)
        }),
        forall|i: int, j: int| 0 <= i < j < series_dates(series, after, through).len()
            ==> series_dates(series, after, through)[i] < series_dates(series, after, through)[j],
{
    let a = parsed_iso_date(series.anchor_date@)->0;
    lemma_series_dates_as_occurrences(series, a, after, through, x);
    let end = match series.end_date {
        Some(e) => parsed_iso_date(e@),
        None => None,
    };
    let hi = match end {
        Some(z) => min_int(through, z),
        None => through,
    };
    lemma_occurrences_strict(series.frequency, a, max_int(after, a), hi);
}

/// The dates a monthly series generates: a day in its window (see
/// [`in_series_window`]) is an occurrence exactly when its day of the month
/// is the rule's day (so months without that day have none). No date comes
/// twice, and they come in increasing order.
pub proof fn lemma_monthly_series_dates(series: Series, after: int, through: int, x: i32)
    requires
        series.frequency is MonthlyByDay,
        parsed_iso_date(series.anchor_date@) is Some,
        is_valid_day(after),
        is_valid_day(through),
    ensures
        ({
            let a = parsed_iso_date(series.anchor_date@)->0;
            series_dates(series, after, through).contains(x)
                <==> (in_series_window(series, a, after, through, x as int)
                    && civil_of_spec(x as int).2 == series.frequency->day as int)
        }),
        forall|i: int, j: int| 0 <= i < j < series_dates(series, after, through).len()
            ==> series_dates(series, after, through)[i] < series_dates(series, after, through)[j],
{
    let a = parsed_iso_date(series.anchor_date@)->0;
    lemma_series_dates_as_occurrences(series, a, after, through, x);
    let end = match series.end_date {
        Some(e) => parsed_iso_date(e@),
        None => None,
    };
    let hi = match end {
        Some(z) => min_int(through, z),
        None => through,
    };
    lemma_occurrences_strict(series.frequency, a, max_int(after, a), hi);
}


proof fn lemma_weekly_hits_at_most_one(wds: Seq<u8>, first_week: int, every: int, d: int)
    requires
        forall|i: int, j: int| 0 <= i < j < wds.len() ==> wds[i] != wds[j],
        forall|i: int| 0 <= i < wds.len() && weekly_slot(first_week, every, #[trigger] wds[i] as int, d)
            ==> wds[i] as int == d % 7,
    ensures
        weekly_hits(wds, first_week, every, d) <= 1,
    decreases wds.len(),
{
    if wds.len() > 0 {
        let rest = wds.drop_last();
        assert forall|i: int| 0 <= i < rest.len() && weekly_slot(first_week, every, #[trigger] rest[i] as int, d)
            implies rest[i] as int == d % 7 by {
            assert(rest[i] == wds[i]);
        }
        lemma_weekly_hits_at_most_one(rest, first_week, every, d);
        lemma_weekly_hits_positive(rest, first_week, every, d);
        if weekly_slot(first_week, every, wds.last() as int, d) && weekly_hits(rest, first_week, every, d) > 0 {
            let i = choose|i: int| 0 <= i < rest.len() && weekly_slot(first_week, every, #[trigger] rest[i] as int, d);
            assert(rest[i] == wds[i]);
            assert(wds[i] as int == d % 7);
            assert(wds[wds.len() - 1] as int == d % 7);
            assert(wds[i] != wds[wds.len() - 1]);
        }
    }
}

/// A weekly series whose weekday entries are distinct never generates a
/// date twice, and its dates come in increasing order.
pub proof fn lemma_weekly_series_dates_increasing(series: Series, after: int, through: int)
    requires
        series.frequency matches RecurrenceFrequency::Weekly { weekdays, interval_weeks }
            && (forall|i: int| 0 <= i < weekdays@.len() ==> #[trigger] weekdays@[i] <= 6)
            && (forall|i: int, j: int| 0 <= i < j < weekdays@.len() ==> weekdays@[i] != weekdays@[j]),
        is_valid_day(after),
        is_valid_day(through),
    ensures
        forall|i: int, j: int| 0 <= i < j < series_dates(series, after, through).len()
            ==> series_dates(series, after, through)[i] < series_dates(series, after, through)[j],
{
    if let Some(a) = parsed_iso_date(series.anchor_date@) {
        if anchor_usable(series.frequency, a) {
            let weekdays = series.frequency->weekdays;
            let interval_weeks = series.frequency->interval_weeks;
            let every: int = if interval_weeks == 0 { 1 } else { interval_weeks as int };
            let end = match series.end_date {
                Some(e) => parsed_iso_date(e@),
                None => None,
            };
            let hi = match end {
                Some(z) => min_int(through, z),
                None => through,
            };
            let lo = max_int(after, a);
            assert forall|d: int| lo < d <= hi implies #[trigger] multiplicity(series.frequency, a, d) <= 1 by {
                assert forall|i: int| 0 <= i < weekdays@.len() && weekly_slot(a - a % 7, every, #[trigger] weekdays@[i] as int, d)
                    implies weekdays@[i] as int == d % 7 by {
                    lemma_weekly_slot_meaning(a, every, weekdays@[i] as int, d);
                }
                lemma_weekly_hits_at_most_one(weekdays@, a - a % 7, every, d);
            }
            lemma_occurrences_strict(series.frequency, a, lo, hi);
        }
    }
}


/// An after-`days` due rule puts the due date exactly `days` days after
/// the scheduled day (before it for a negative count), when that day is
/// representable; a never-due rule gives no due date.
pub proof fn lemma_offset_due_dates(scheduled: int, days: i32)
    ensures
        due_rule_date(DueRule::AfterScheduled { days }, scheduled)
            == (if is_valid_day(scheduled + days) { Some(scheduled + days) } else { None::<int> }),
        due_rule_date(DueRule::Never, scheduled) is None,
{
}

/// The anchor of a weekly series counts as an occurrence exactly when its
/// weekday (counted from Sunday) is listed; every anchor matches an
/// every-`n`-days rule; a monthly rule matches an anchor on its day.
pub proof fn lemma_anchor_matches_meaning(frequency: RecurrenceFrequency, anchor: int)
    ensures
        frequency is Weekly ==> (anchor_matches(frequency, anchor)
            <==> exists|i: int| 0 <= i < frequency->weekdays@.len() && #[trigger] frequency->weekdays@[i] as int == anchor % 7),
        frequency is EveryNDays ==> anchor_matches(frequency, anchor),
        frequency is MonthlyByDay ==> (anchor_matches(frequency, anchor) <==> civil_of_spec(anchor).2 == frequency->day as int),
{
}

} // verus!
