//! Recurring-task series: the recurrence rule, the due-date rule applied to
//! each occurrence, and the template copied into every occurrence.

use vstd::prelude::*;
use crate::ids::{new_id, now_rfc3339};
use crate::clone::copy_string;
use crate::settings::{due_code_error, due_relative_date_codes, validate_due_relative_date_code};
use crate::text::owned;

verus! {

/// How an occurrence's due date relates to its own scheduled date.
#[derive(Debug, Clone, PartialEq)]
pub enum DueRule {
    /// No due date.
    Never,
    /// A due-date code resolved against each occurrence's scheduled date.
    DefaultCode { code: String },
    /// Due `days` days after the scheduled date (negative: before).
    AfterScheduled { days: i32 },
    /// Due on the next `weekday` (`0` = Sunday) on or after the scheduled
    /// date, `interval_weeks - 1` further weeks on.
    Weekday { weekday: u8, interval_weeks: u32 },
}

/// How often a series repeats.
#[derive(Debug, Clone, PartialEq)]
pub enum RecurrenceFrequency {
    /// Every `interval` days.
    EveryNDays { interval: u32 },
    /// On the given weekdays (`0` = Sunday), every `interval_weeks` weeks.
    Weekly { weekdays: Vec<u8>, interval_weeks: u32 },
    /// On the given day of the month; months without it are skipped.
    MonthlyByDay { day: u32 },
}

/// A recurring task's rule and template.
#[derive(Debug, Clone, PartialEq)]
pub struct Series {
    pub id: String,
    pub frequency: RecurrenceFrequency,
    pub anchor_date: String,
    pub end_date: Option<String>,
    pub due_rule: DueRule,
    pub generated_until: String,
    pub active: bool,
    pub title: String,
    pub project_id: Option<String>,
    pub priority: String,
    pub tags: Vec<String>,
    pub estimated_minutes: Option<u32>,
    pub notes: String,
    pub created: String,
}

pub open spec fn weekday_error() -> Seq<char> {
    "weekday must be 0 (Sunday) through 6 (Saturday)"@
}

/// The problem with a due rule, if any.
pub open spec fn due_rule_problem(rule: DueRule) -> Option<Seq<char>> {
    match rule {
        DueRule::Never => None,
        DueRule::DefaultCode { code } => if due_relative_date_codes().contains(code@) {
            None
        } else {
            Some(due_code_error(code@))
        },
        DueRule::AfterScheduled { .. } => None,
        DueRule::Weekday { weekday, interval_weeks } => if weekday > 6 {
            Some(weekday_error())
        } else if interval_weeks == 0 {
            Some("due interval must be at least 1 week"@)
        } else {
            None
        },
    }
}

/// The problem with a recurrence frequency, if any.
pub open spec fn frequency_problem(f: RecurrenceFrequency) -> Option<Seq<char>> {
    match f {
        RecurrenceFrequency::EveryNDays { interval } => if interval == 0 {
            Some("recurrence interval must be at least 1 day"@)
        } else {
            None
        },
        RecurrenceFrequency::Weekly { weekdays, interval_weeks } => if weekdays@.len() == 0 {
            Some("a weekly recurrence must specify at least one weekday"@)
        } else if exists|i: int| 0 <= i < weekdays@.len() && #[trigger] weekdays@[i] > 6 {
            Some(weekday_error())
        } else if interval_weeks == 0 {
            Some("recurrence interval must be at least 1 week"@)
        } else {
            None
        },
        RecurrenceFrequency::MonthlyByDay { day } => if day == 0 || day > 31 {
            Some("day-of-month must be between 1 and 31"@)
        } else {
            None
        },
    }
}

pub open spec fn result_problem(r: Result<(), String>) -> Option<Seq<char>> {
    match r {
        Ok(_) => None,
        Err(e) => Some(e@),
    }
}

/// Checks a due rule: a recognized code, an in-range weekday and a
/// positive week interval; any after-scheduled offset is accepted.
pub fn validate_due_rule(rule: &DueRule) -> (r: Result<(), String>)
    ensures
        result_problem(r) == due_rule_problem(*rule),
{
    match rule {
        DueRule::Never => Ok(()),
        DueRule::DefaultCode { code } => validate_due_relative_date_code(code.as_str()),
        DueRule::AfterScheduled { .. } => Ok(()),
        DueRule::Weekday { weekday, interval_weeks } => {
            if *weekday > 6 {
                return Err(owned("weekday must be 0 (Sunday) through 6 (Saturday)"));
            }
            if *interval_weeks == 0 {
                return Err(owned("due interval must be at least 1 week"));
            }
            Ok(())
        }
    }
}

fn any_weekday_above_six(weekdays: &Vec<u8>) -> (r: bool)
    ensures
        r == exists|i: int| 0 <= i < weekdays@.len() && #[trigger] weekdays@[i] > 6,
{
    let mut i: usize = 0;
    while i < weekdays.len()
        invariant
            i <= weekdays@.len(),
            forall|k: int| 0 <= k < i ==> #[trigger] weekdays@[k] <= 6,
        decreases weekdays.len() - i,
    {
        if weekdays[i] > 6 {
            return true;
        }
        i += 1;
    }
    false
}

/// Checks a recurrence frequency: a positive interval, a non-empty list of
/// in-range weekdays, a day of the month in `1..=31`.
pub fn validate_recurrence_frequency(frequency: &RecurrenceFrequency) -> (r: Result<(), String>)
    ensures
        result_problem(r) == frequency_problem(*frequency),
{
    match frequency {
        RecurrenceFrequency::EveryNDays { interval } => {
            if *interval == 0 {
                return Err(owned("recurrence interval must be at least 1 day"));
            }
        }
        RecurrenceFrequency::Weekly { weekdays, interval_weeks } => {
            if weekdays.len() == 0 {
                return Err(owned("a weekly recurrence must specify at least one weekday"));
            }
            if any_weekday_above_six(weekdays) {
                return Err(owned("weekday must be 0 (Sunday) through 6 (Saturday)"));
            }
            if *interval_weeks == 0 {
                return Err(owned("recurrence interval must be at least 1 week"));
            }
        }
        RecurrenceFrequency::MonthlyByDay { day } => {
            if *day == 0 || *day > 31 {
                return Err(owned("day-of-month must be between 1 and 31"));
            }
        }
    }
    Ok(())
}

/// The first problem of a series: its frequency's, then its due rule's.
pub open spec fn series_problem(s: Series) -> Option<Seq<char>> {
    if frequency_problem(s.frequency) is Some {
        frequency_problem(s.frequency)
    } else {
        due_rule_problem(s.due_rule)
    }
}

/// Checks a series' frequency, then its due rule.
pub fn validate_series(series: &Series) -> (r: Result<(), String>)
    ensures
        result_problem(r) == series_problem(*series),
{
    validate_recurrence_frequency(&series.frequency)?;
    validate_due_rule(&series.due_rule)?;
    Ok(())
}

impl Series {
    /// A new active series with a fresh id and creation time, its
    /// generation watermark at the anchor date.
    pub fn new(
        frequency: RecurrenceFrequency,
        anchor_date: String,
        end_date: Option<String>,
        due_rule: DueRule,
        title: String,
        project_id: Option<String>,
        priority: String,
        tags: Vec<String>,
        estimated_minutes: Option<u32>,
        notes: String,
    ) -> (r: Series)
        ensures
            r.id@.len() > 0,
            r.created@.len() > 0,
            r.frequency == frequency,
            r.anchor_date == anchor_date,
            r.generated_until == anchor_date,
            r.end_date == end_date,
            r.due_rule == due_rule,
            r.active,
            r.title == title,
            r.project_id == project_id,
            r.priority == priority,
            r.tags == tags,
            r.estimated_minutes == estimated_minutes,
            r.notes == notes,
    {
        Series {
            id: new_id(),
            frequency,
            generated_until: copy_string(&anchor_date),
            anchor_date,
            end_date,
            due_rule,
            active: true,
            title,
            project_id,
            priority,
            tags,
            estimated_minutes,
            notes,
            created: now_rfc3339(),
        }
    }
}

} // verus!
