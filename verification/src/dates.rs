//! Calendar dates as day numbers.
//!
//! A date is held as its day number in the proleptic Gregorian calendar,
//! January 1 of year 1 being day 1 (chrono's `num_days_from_ce`). Days then
//! order and subtract as plain integers; chrono converts to and from
//! year/month/day, ISO `YYYY-MM-DD` text, and month steps.

use chrono::Datelike;
use vstd::prelude::*;

verus! {

/// The earliest year chrono's `NaiveDate` represents.
pub const MIN_YEAR: i32 = -262143;

/// The latest year chrono's `NaiveDate` represents.
pub const MAX_YEAR: i32 = 262142;

/// Day number of January 1, `MIN_YEAR`.
pub const MIN_DAY: i32 = -95746129;

/// Day number of December 31, `MAX_YEAR`.
pub const MAX_DAY: i32 = 95745399;

/// Whether `d` is the day number of a representable date.
pub open spec fn is_valid_day(d: int) -> bool {
    MIN_DAY <= d <= MAX_DAY
}

pub open spec fn is_leap_year(y: int) -> bool {
    y % 4 == 0 && (y % 100 != 0 || y % 400 == 0)
}

pub open spec fn days_in_month(y: int, m: int) -> int {
    if m == 2 {
        if is_leap_year(y) { 29 } else { 28 }
    } else if m == 4 || m == 6 || m == 9 || m == 11 {
        30
    } else {
        31
    }
}

/// Days in the months of year `y` before month `m`.
pub open spec fn days_before_month(y: int, m: int) -> int {
    let leap: int = if is_leap_year(y) && m > 2 { 1 } else { 0 };
    let base: int = if m == 1 { 0 }
        else if m == 2 { 31 }
        else if m == 3 { 59 }
        else if m == 4 { 90 }
        else if m == 5 { 120 }
        else if m == 6 { 151 }
        else if m == 7 { 181 }
        else if m == 8 { 212 }
        else if m == 9 { 243 }
        else if m == 10 { 273 }
        else if m == 11 { 304 }
        else { 334 };
    base + leap
}

/// Days in all years before year `y`, counted from year 1.
pub open spec fn days_before_year(y: int) -> int {
    let p = y - 1;
    p * 365 + p / 4 - p / 100 + p / 400
}

/// The day number of the calendar date `y`-`m`-`d`.
pub open spec fn days_from_civil(y: int, m: int, d: int) -> int {
    days_before_year(y) + days_before_month(y, m) + d
}

/// Whether `y`-`m`-`d` names a representable calendar date.
pub open spec fn is_valid_civil(y: int, m: int, d: int) -> bool {
    &&& MIN_YEAR <= y <= MAX_YEAR
    &&& 1 <= m <= 12
    &&& 1 <= d <= days_in_month(y, m)
}

/// The date for `y`-`m`-`d`, when that names a representable date.
pub open spec fn from_civil(y: int, m: int, d: int) -> Option<int> {
    if is_valid_civil(y, m, d) {
        Some(days_from_civil(y, m, d))
    } else {
        None
    }
}

/// The (year, month, day) of a representable date.
pub open spec fn civil_of_spec(day: int) -> (int, int, int) {
    choose|c: (int, int, int)| is_valid_civil(c.0, c.1, c.2) && days_from_civil(c.0, c.1, c.2) == day
}

/// Day of the week of `day`, counted from Sunday (`0`) to Saturday (`6`):
/// day 1 (January 1, year 1) was a Monday.
pub open spec fn weekday_from_sunday(day: int) -> int {
    day % 7
}

/// The date one month after `day`, on the same day-of-month, or on the last
/// day of that month when it is shorter.
pub open spec fn add_one_month_spec(day: int) -> Option<int> {
    let c = civil_of_spec(day);
    let total = c.0 * 12 + c.1 - 1 + 1;
    let ny = total / 12;
    let nm = total % 12 + 1;
    let nd = if c.2 > days_in_month(ny, nm) { days_in_month(ny, nm) } else { c.2 };
    from_civil(ny, nm, nd)
}

/// `day + n`, when that is a representable date.
pub open spec fn add_days_spec(day: int, n: int) -> Option<int> {
    if is_valid_day(day + n) {
        Some(day + n)
    } else {
        None
    }
}

pub open spec fn opt_i32_view(o: Option<i32>) -> Option<int> {
    match o {
        Some(x) => Some(x as int),
        None => None,
    }
}

/// What chrono's `NaiveDate::parse_from_str(s, "%Y-%m-%d")` accepts, as a
/// day number.
pub uninterp spec fn parsed_iso_date(s: Seq<char>) -> Option<int>;

/// What chrono's `format("%Y-%m-%d")` renders for a date.
pub uninterp spec fn formatted_iso_date(day: int) -> Seq<char>;

/// Whether year `y` is a leap year, computed on `y + 280000` (a multiple of
/// 400 later, so that the remainders are those of a non-negative number).
fn leap_year(y: i32) -> (r: bool)
    requires
        MIN_YEAR <= y <= MAX_YEAR,
    ensures
        r == is_leap_year(y as int),
{
    let ys: u64 = (y as i64 + 280000) as u64;
    proof {
        let yi = y as int;
        vstd::arithmetic::div_mod::lemma_fundamental_div_mod_converse(yi, 4, ys as int / 4 - 70000, ys as int % 4);
        vstd::arithmetic::div_mod::lemma_fundamental_div_mod_converse(yi, 100, ys as int / 100 - 2800, ys as int % 100);
        vstd::arithmetic::div_mod::lemma_fundamental_div_mod_converse(yi, 400, ys as int / 400 - 700, ys as int % 400);
    }
    ys % 4 == 0 && (ys % 100 != 0 || ys % 400 == 0)
}

/// Days in the months of a year before month `m`, leap day included.
fn month_offset(m: u32, leap: bool) -> (r: i64)
    requires
        1 <= m <= 12,
    ensures
        forall|y: int| is_leap_year(y) == leap ==> r == days_before_month(y, m as int),
{
    let base: i64 = if m == 1 { 0 }
        else if m == 2 { 31 }
        else if m == 3 { 59 }
        else if m == 4 { 90 }
        else if m == 5 { 120 }
        else if m == 6 { 151 }
        else if m == 7 { 181 }
        else if m == 8 { 212 }
        else if m == 9 { 243 }
        else if m == 10 { 273 }
        else if m == 11 { 304 }
        else { 334 };
    if leap && m > 2 { base + 1 } else { base }
}

/// The day number of the calendar date `year`-`month`-`day`, or `None`
/// when that names no representable date: what chrono's
/// `NaiveDate::from_ymd_opt` followed by `num_days_from_ce` computes.
pub fn from_ymd(year: i32, month: u32, day: u32) -> (r: Option<i32>)
    ensures
        opt_i32_view(r) == from_civil(year as int, month as int, day as int),
        r matches Some(d) ==> is_valid_day(d as int),
{
    if year < MIN_YEAR || year > MAX_YEAR || month < 1 || month > 12 || day < 1 {
        return None;
    }
    let leap = leap_year(year);
    let dim: u32 = if month == 2 {
        if leap { 29 } else { 28 }
    } else if month == 4 || month == 6 || month == 9 || month == 11 {
        30
    } else {
        31
    };
    if day > dim {
        return None;
    }
    let ps: u64 = (year as i64 + 279999) as u64;
    let q4: i64 = (ps / 4) as i64 - 70000;
    let q100: i64 = (ps / 100) as i64 - 2800;
    let q400: i64 = (ps / 400) as i64 - 700;
    let p: i64 = year as i64 - 1;
    proof {
        let pi = p as int;
        vstd::arithmetic::div_mod::lemma_fundamental_div_mod_converse(pi, 4, q4 as int, ps as int % 4);
        vstd::arithmetic::div_mod::lemma_fundamental_div_mod_converse(pi, 100, q100 as int, ps as int % 100);
        vstd::arithmetic::div_mod::lemma_fundamental_div_mod_converse(pi, 400, q400 as int, ps as int % 400);
        assert(days_before_year(year as int) == pi * 365 + q4 - q100 + q400);
        let pmin = MIN_YEAR as int - 1;
        let pmax = MAX_YEAR as int - 1;
        assert(pmin / 4 == -65536 && pmin / 100 == -2622 && pmin / 400 == -656);
        assert(pmax / 4 == 65535 && pmax / 100 == 2621 && pmax / 400 == 655);
    }
    let total: i64 = p * 365 + q4 - q100 + q400 + month_offset(month, leap) + day as i64;
    Some(total as i32)
}

/// Year, month and day of a date: chrono's `NaiveDate::from_num_days_from_ce_opt`
/// with `year()`, `month()`, `day()`. Claims the components form a valid
/// calendar date whose day count is `day`.
#[verifier::external_body]
pub(crate) fn civil_of(day: i32) -> (r: (i32, u32, u32))
    requires
        is_valid_day(day as int),
    ensures
        is_valid_civil(r.0 as int, r.1 as int, r.2 as int),
        days_from_civil(r.0 as int, r.1 as int, r.2 as int) == day,
{
    let d = chrono::NaiveDate::from_num_days_from_ce_opt(day).unwrap();
    (d.year(), d.month(), d.day())
}

/// Parses `YYYY-MM-DD` text: chrono's `NaiveDate::parse_from_str(s,
/// "%Y-%m-%d")`, as a day number. Claims only that an accepted text names a
/// representable date; what chrono accepts is the name `parsed_iso_date`.
#[verifier::external_body]
pub(crate) fn parse_iso_date(s: &str) -> (r: Option<i32>)
    ensures
        opt_i32_view(r) == parsed_iso_date(s@),
        r matches Some(d) ==> is_valid_day(d as int),
{
    chrono::NaiveDate::parse_from_str(s, "%Y-%m-%d").ok().map(|d| d.num_days_from_ce())
}

/// Parses `YYYY-MM-DD` text like [`parse_iso_date`], keeping chrono's
/// description of a failure: `NaiveDate::parse_from_str(s, "%Y-%m-%d")`
/// with the error rendered by `to_string()`. The contract ties the outcome
/// to the name `parsed_iso_date`; the error text itself is chrono's and is
/// not stated.
#[verifier::external_body]
pub(crate) fn parse_iso_date_described(s: &str) -> (r: Result<i32, String>)
    ensures
        match r {
            Ok(d) => parsed_iso_date(s@) == Some(d as int) && is_valid_day(d as int),
            Err(_) => parsed_iso_date(s@) is None,
        },
{
    chrono::NaiveDate::parse_from_str(s, "%Y-%m-%d").map(|d| d.num_days_from_ce()).map_err(|e| e.to_string())
}

/// Four-digit zero-padded rendering of a year in `0..=9999`.
pub open spec fn pad4(n: int) -> Seq<char> {
    seq![
        ((n / 1000 + 48) as u32) as char,
        ((n / 100 % 10 + 48) as u32) as char,
        ((n / 10 % 10 + 48) as u32) as char,
        ((n % 10 + 48) as u32) as char,
    ]
}

/// Two-digit zero-padded rendering of a number in `0..=99`.
pub open spec fn pad2(n: int) -> Seq<char> {
    seq![((n / 10 + 48) as u32) as char, ((n % 10 + 48) as u32) as char]
}

/// Renders a date as `YYYY-MM-DD`: chrono's `format("%Y-%m-%d")`. For years
/// `0..=9999` the contract states chrono's zero-padded layout; other years
/// are written with an explicit sign (`write_year`), and their text is left
/// to the name `formatted_iso_date`. Parsing the text with the same format
/// gives the date back for every representable date: the parser takes a
/// signed year of any width, and an unsigned one of four digits.
#[verifier::external_body]
pub(crate) fn format_iso_date(day: i32) -> (r: String)
    requires
        is_valid_day(day as int),
    ensures
        r@ == formatted_iso_date(day as int),
        ({
            let c = civil_of_spec(day as int);
            0 <= c.0 <= 9999 ==> r@ == pad4(c.0) + seq!['-'] + pad2(c.1) + seq!['-'] + pad2(c.2)
        }),
        parsed_iso_date(r@) == Some(day as int),
{
    chrono::NaiveDate::from_num_days_from_ce_opt(day).unwrap().format("%Y-%m-%d").to_string()
}

/// One month later: chrono's `checked_add_months(Months::new(1))`, which
/// keeps the day of the month or clamps it to the new month's last day, and
/// returns `None` past the representable range.
#[verifier::external_body]
pub(crate) fn add_one_month(day: i32) -> (r: Option<i32>)
    requires
        is_valid_day(day as int),
    ensures
        opt_i32_view(r) == add_one_month_spec(day as int),
        r matches Some(d) ==> is_valid_day(d as int),
{
    chrono::NaiveDate::from_num_days_from_ce_opt(day)
        .unwrap()
        .checked_add_months(chrono::Months::new(1))
        .map(|d| d.num_days_from_ce())
}

/// `day + n` days, or `None` outside the representable range (chrono's
/// `checked_add_days`/`checked_sub_days`).
pub fn add_days(day: i32, n: i64) -> (r: Option<i32>)
    requires
        is_valid_day(day as int),
    ensures
        opt_i32_view(r) == add_days_spec(day as int, n as int),
{
    if n > (MAX_DAY as i64) - (day as i64) || n < (MIN_DAY as i64) - (day as i64) {
        None
    } else {
        Some((day as i64 + n) as i32)
    }
}

/// Day of the week counted from Sunday (`0`) through Saturday (`6`), as
/// chrono's `weekday().num_days_from_sunday()`.
pub fn weekday(day: i32) -> (r: u32)
    ensures
        r as int == weekday_from_sunday(day as int),
        r < 7,
{
    let w = day % 7;
    let r = if w < 0 { w + 7 } else { w };
    r as u32
}

} // verus!
