//! Relative date shorthands (`today`, `this-week`, `3-days-ago`, ...).

use vstd::prelude::*;

use chrono::Datelike;

use crate::error::ParcError;
use crate::text::{
    chars_of, concat3, ends_with, eq_str, has_prefix, has_suffix, slice_vec, starts_with_at,
};
use crate::search::{is_ymd_date, ymd_accepted};

verus! {

/// Relative date shorthands used in both search DSL and --due flags.
#[derive(Debug, Clone, Copy, PartialEq, Eq)]
pub enum RelativeDate {
    Today,
    Yesterday,
    Tomorrow,
    ThisWeek,
    LastWeek,
    ThisMonth,
    LastMonth,
    NextWeek,
    Overdue,
    DaysAgo(u32),
    InDays(u32),
}

/// Value of a sequence of ASCII digits.
pub open spec fn digits_value(d: Seq<char>) -> nat
    decreases d.len(),
{
    if d.len() == 0 {
        0
    } else {
        digits_value(d.drop_last()) * 10 + (d.last() as nat - '0' as nat) as nat
    }
}

pub open spec fn is_digit(c: char) -> bool {
    '0' <= c && c <= '9'
}

pub open spec fn all_digits(d: Seq<char>) -> bool {
    forall|i: int| 0 <= i < d.len() ==> is_digit(#[trigger] d[i])
}

/// `str::parse::<u32>`: an optional `+`, then one or more ASCII digits
/// whose value fits in 32 bits.
pub open spec fn parse_u32_spec(s: Seq<char>) -> Option<u32> {
    let d = if s.len() > 0 && s[0] == '+' { s.drop_first() } else { s };
    if d.len() > 0 && all_digits(d) && digits_value(d) <= u32::MAX {
        Some(digits_value(d) as u32)
    } else {
        None
    }
}

/// Parses decimal text as a `u32`, as `str::parse::<u32>` does.
pub fn parse_u32(s: &[char]) -> (r: Option<u32>)
    ensures
        r == parse_u32_spec(s@),
{
    let start: usize = if s.len() > 0 && s[0] == '+' { 1 } else { 0 };
    let ghost d = if s@.len() > 0 && s@[0] == '+' { s@.drop_first() } else { s@ };
    assert(d =~= s@.subrange(start as int, s@.len() as int));
    if start >= s.len() {
        return None;
    }
    let mut acc: u64 = 0;
    let mut i = start;
    while i < s.len()
        invariant
            start <= i <= s.len(),
            d == s@.subrange(start as int, s@.len() as int),
            d == (if s@.len() > 0 && s@[0] == '+' { s@.drop_first() } else { s@ }),
            all_digits(s@.subrange(start as int, i as int)),
            acc == digits_value(s@.subrange(start as int, i as int)),
            acc <= u32::MAX,
        decreases s.len() - i,
    {
        let c = s[i];
        if !('0' <= c && c <= '9') {
            assert(d[i - start] == c);
            assert(!all_digits(d));
            return None;
        }
        let dv = (c as u64) - ('0' as u64);
        assert(s@.subrange(start as int, i + 1).drop_last() =~= s@.subrange(start as int, i as int));
        let next = acc * 10 + dv;
        if next > 0xffff_ffff {
            proof {
                lemma_digits_value_monotone(d, i + 1 - start);
                assert(d.subrange(0, i + 1 - start) =~= s@.subrange(start as int, i + 1));
                assert(digits_value(s@.subrange(start as int, i + 1)) == next);
            }
            return None;
        }
        acc = next;
        i = i + 1;
    }
    assert(s@.subrange(start as int, s@.len() as int) == d);
    Some(acc as u32)
}

/// A prefix of a digit string never has a larger value than the whole.
pub proof fn lemma_digits_value_monotone(d: Seq<char>, k: int)
    requires
        0 <= k <= d.len(),
    ensures
        digits_value(d.subrange(0, k)) <= digits_value(d),
    decreases d.len() - k,
{
    if k < d.len() {
        lemma_digits_value_monotone(d, k + 1);
        assert(d.subrange(0, k + 1).drop_last() =~= d.subrange(0, k));
    } else {
        assert(d.subrange(0, k) =~= d);
    }
}

/// The shorthand a string denotes, if any.
pub open spec fn parse_relative_date_spec(s: Seq<char>) -> Option<RelativeDate> {
    if s == "today"@ {
        Some(RelativeDate::Today)
    } else if s == "yesterday"@ {
        Some(RelativeDate::Yesterday)
    } else if s == "tomorrow"@ {
        Some(RelativeDate::Tomorrow)
    } else if s == "this-week"@ {
        Some(RelativeDate::ThisWeek)
    } else if s == "last-week"@ {
        Some(RelativeDate::LastWeek)
    } else if s == "next-week"@ {
        Some(RelativeDate::NextWeek)
    } else if s == "this-month"@ {
        Some(RelativeDate::ThisMonth)
    } else if s == "last-month"@ {
        Some(RelativeDate::LastMonth)
    } else if s == "overdue"@ {
        Some(RelativeDate::Overdue)
    } else if has_suffix(s, "-days-ago"@) {
        match parse_u32_spec(s.subrange(0, s.len() - "-days-ago"@.len())) {
            Some(n) => Some(RelativeDate::DaysAgo(n)),
            None => None,
        }
    } else if has_prefix(s, "in-"@) && has_suffix(s.subrange(3, s.len() as int), "-days"@) {
        match parse_u32_spec(s.subrange(3, s.len() - "-days"@.len())) {
            Some(n) => Some(RelativeDate::InDays(n)),
            None => None,
        }
    } else {
        None
    }
}

/// Try to parse a character sequence as a relative date shorthand.
pub fn parse_relative_chars(v: &[char]) -> (r: Option<RelativeDate>)
    ensures
        r == parse_relative_date_spec(v@),
{
    proof {
        reveal_strlit("in-");
        reveal_strlit("-days");
        reveal_strlit("-days-ago");
    }
    if eq_str(v, "today") {
        return Some(RelativeDate::Today);
    }
    if eq_str(v, "yesterday") {
        return Some(RelativeDate::Yesterday);
    }
    if eq_str(v, "tomorrow") {
        return Some(RelativeDate::Tomorrow);
    }
    if eq_str(v, "this-week") {
        return Some(RelativeDate::ThisWeek);
    }
    if eq_str(v, "last-week") {
        return Some(RelativeDate::LastWeek);
    }
    if eq_str(v, "next-week") {
        return Some(RelativeDate::NextWeek);
    }
    if eq_str(v, "this-month") {
        return Some(RelativeDate::ThisMonth);
    }
    if eq_str(v, "last-month") {
        return Some(RelativeDate::LastMonth);
    }
    if eq_str(v, "overdue") {
        return Some(RelativeDate::Overdue);
    }
    let ago = chars_of("-days-ago");
    if ends_with(v, "-days-ago") {
        let rest = slice_vec(v, 0, v.len() - ago.len());
        return match parse_u32(&rest) {
            Some(n) => Some(RelativeDate::DaysAgo(n)),
            None => None,
        };
    }
    let inp = chars_of("in-");
    let days = chars_of("-days");
    if starts_with_at(v, 0, "in-") {
        assert(v@.subrange(0, v@.len() as int) =~= v@);
        let rest = slice_vec(v, 3, v.len());
        if ends_with(&rest, "-days") {
            let n_str = slice_vec(v, 3, v.len() - days.len());
            assert(n_str@ =~= v@.subrange(3, v@.len() - "-days"@.len()));
            return match parse_u32(&n_str) {
                Some(n) => Some(RelativeDate::InDays(n)),
                None => None,
            };
        }
    } else {
        assert(v@.subrange(0, v@.len() as int) =~= v@);
    }
    None
}

/// Try to parse a string as a relative date shorthand.
pub fn parse_relative_date(value: &str) -> (r: Option<RelativeDate>)
    ensures
        r == parse_relative_date_spec(value@),
{
    let v = chars_of(value);
    parse_relative_chars(&v)
}


// ── Calendar days ────────────────────────────────────────────────────
//
// A date is held as its day number in the proleptic Gregorian calendar,
// January 1 of year 1 being day 1 (chrono's `num_days_from_ce`). Moving a
// date by `n` days moves its number by `n`; everything else about the
// calendar is chrono's.

/// Whether chrono has a date numbered `days`
/// (`NaiveDate::from_num_days_from_ce_opt(days)` is `Some`).
pub uninterp spec fn day_exists(days: int) -> bool;

/// What `NaiveDate::format("%Y-%m-%d")` prints for the date numbered `days`.
pub uninterp spec fn iso_day(days: int) -> Seq<char>;

/// `Datelike::weekday().num_days_from_monday()` of the date numbered
/// `days`: day 1 (January 1 of year 1) was a Monday, and the weekdays
/// repeat every seven days.
pub open spec fn weekday_of(days: int) -> int {
    (days - 1) % 7
}

/// `Datelike::year()` of the date numbered `days`.
pub uninterp spec fn year_of(days: int) -> int;

/// `Datelike::month()` of the date numbered `days`.
pub uninterp spec fn month_of(days: int) -> int;

/// Whether `NaiveDate::from_ymd_opt(y, m, d)` is `Some`.
pub uninterp spec fn ymd_exists(y: int, m: int, d: int) -> bool;

/// The day number of `NaiveDate::from_ymd_opt(y, m, d)`.
pub uninterp spec fn ymd_day(y: int, m: int, d: int) -> int;

/// Today's date on the local clock (`chrono::Local::now().date_naive()`),
/// as its day number. Which day it is depends on the clock; that it is a
/// date chrono has is all that is stated.
#[verifier::external_body]
pub(crate) fn local_today() -> (r: i32)
    ensures
        day_exists(r as int),
{
    chrono::Local::now().date_naive().num_days_from_ce()
}

/// `NaiveDate::from_num_days_from_ce_opt(days)`, printed with
/// `format("%Y-%m-%d")`: `None` exactly when chrono has no such date.
#[verifier::external_body]
fn iso_of_day(days: i32) -> (r: Option<String>)
    ensures
        r.is_some() == day_exists(days as int),
        r matches Some(s) ==> s@ == iso_day(days as int),
{
    match chrono::NaiveDate::from_num_days_from_ce_opt(days) {
        Some(d) => Some(d.format("%Y-%m-%d").to_string()),
        None => None,
    }
}

/// `weekday().num_days_from_monday()` of the date numbered `days`, which
/// chrono documents as 0 (Monday) to 6 (Sunday).
#[verifier::external_body]
fn weekday_of_day(days: i32) -> (r: Option<u32>)
    ensures
        r.is_some() == day_exists(days as int),
        r matches Some(w) ==> w == weekday_of(days as int) && w < 7,
{
    match chrono::NaiveDate::from_num_days_from_ce_opt(days) {
        Some(d) => Some(d.weekday().num_days_from_monday()),
        None => None,
    }
}

/// `year()` and `month()` of the date numbered `days`; chrono documents
/// the month as 1 to 12.
#[verifier::external_body]
fn year_month_of_day(days: i32) -> (r: Option<(i32, u32)>)
    ensures
        r.is_some() == day_exists(days as int),
        r matches Some((y, m)) ==> y == year_of(days as int) && m == month_of(days as int) && 1
            <= m <= 12,
{
    match chrono::NaiveDate::from_num_days_from_ce_opt(days) {
        Some(d) => Some((d.year(), d.month())),
        None => None,
    }
}

/// `NaiveDate::from_ymd_opt(y, m, d)`, as its day number.
#[verifier::external_body]
fn day_of_ymd(y: i32, m: u32, d: u32) -> (r: Option<i32>)
    ensures
        r.is_some() == ymd_exists(y as int, m as int, d as int),
        r matches Some(n) ==> n == ymd_day(y as int, m as int, d as int),
{
    match chrono::NaiveDate::from_ymd_opt(y, m, d) {
        Some(date) => Some(date.num_days_from_ce()),
        None => None,
    }
}

pub open spec fn fits_i32(n: int) -> bool {
    i32::MIN <= n <= i32::MAX
}

/// The days `a..=b`, when both are dates chrono has.
pub open spec fn day_span(a: int, b: int) -> Option<(int, int)> {
    if fits_i32(a) && fits_i32(b) && day_exists(a) && day_exists(b) {
        Some((a, b))
    } else {
        None
    }
}

/// The Monday of the week of day `t`.
pub open spec fn week_start(t: int) -> int {
    t - weekday_of(t)
}

/// The month after `(y, m)`.
pub open spec fn next_month(y: int, m: int) -> (int, int) {
    if m == 12 {
        (y + 1, 1)
    } else {
        (y, m + 1)
    }
}

/// The month before `(y, m)`.
pub open spec fn prev_month(y: int, m: int) -> (int, int) {
    if m == 1 {
        (y - 1, 12)
    } else {
        (y, m - 1)
    }
}

/// The month `(y, m)` runs from the first of the month to the day before
/// the first of month `(ny, nm)`.
pub open spec fn month_span(y: int, m: int, ny: int, nm: int) -> Option<(int, int)> {
    if fits_i32(y) && fits_i32(ny) && ymd_exists(y, m, 1) && ymd_exists(ny, nm, 1) {
        day_span(ymd_day(y, m, 1), ymd_day(ny, nm, 1) - 1)
    } else {
        None
    }
}

/// The first and last day a shorthand covers, seen from day `t`; `None`
/// where a day it needs is not a date chrono has. For `overdue` this is
/// the end day only (yesterday); its start is the fixed `0000-01-01`.
pub open spec fn range_days(rel: RelativeDate, t: int) -> Option<(int, int)> {
    match rel {
        RelativeDate::Today => day_span(t, t),
        RelativeDate::Yesterday => day_span(t - 1, t - 1),
        RelativeDate::Tomorrow => day_span(t + 1, t + 1),
        RelativeDate::Overdue => day_span(t - 1, t - 1),
        RelativeDate::DaysAgo(n) => day_span(t - n, t - n),
        RelativeDate::InDays(n) => day_span(t + n, t + n),
        RelativeDate::ThisWeek => if day_exists(t) {
            day_span(week_start(t), week_start(t) + 6)
        } else {
            None
        },
        RelativeDate::LastWeek => if day_exists(t) {
            day_span(week_start(t) - 7, week_start(t) - 1)
        } else {
            None
        },
        RelativeDate::NextWeek => if day_exists(t) {
            day_span(week_start(t) + 7, week_start(t) + 13)
        } else {
            None
        },
        RelativeDate::ThisMonth => if day_exists(t) {
            let y = year_of(t);
            let m = month_of(t);
            month_span(y, m, next_month(y, m).0, next_month(y, m).1)
        } else {
            None
        },
        RelativeDate::LastMonth => if day_exists(t) {
            let y = year_of(t);
            let m = month_of(t);
            month_span(prev_month(y, m).0, prev_month(y, m).1, y, m)
        } else {
            None
        },
    }
}

/// The text of a range's start day.
pub open spec fn range_start_text(rel: RelativeDate, a: int) -> Seq<char> {
    if rel == RelativeDate::Overdue {
        "0000-01-01"@
    } else {
        iso_day(a)
    }
}

/// What resolving `rel` on day `t` gives: the start and end as ISO dates.
pub open spec fn range_result(rel: RelativeDate, t: int, r: Option<(String, String)>) -> bool {
    match range_days(rel, t) {
        None => r.is_none(),
        Some((a, b)) => r matches Some((s, e)) && s@ == range_start_text(rel, a) && e@ == iso_day(b),
    }
}

/// The ISO text of day `d`, if chrono has it.
fn day_text(d: i64) -> (r: Option<String>)
    ensures
        r.is_some() == (fits_i32(d as int) && day_exists(d as int)),
        r matches Some(s) ==> s@ == iso_day(d as int),
{
    if d < -2147483648 || d > 2147483647 {
        return None;
    }
    iso_of_day(d as i32)
}

/// The texts of days `a..=b`, if chrono has both.
fn span_text(a: i64, b: i64) -> (r: Option<(String, String)>)
    ensures
        match day_span(a as int, b as int) {
            None => r.is_none(),
            Some((x, y)) => r matches Some((s, e)) && s@ == iso_day(x) && e@ == iso_day(y),
        },
{
    let s = match day_text(a) {
        Some(s) => s,
        None => return None,
    };
    let e = match day_text(b) {
        Some(e) => e,
        None => return None,
    };
    Some((s, e))
}

/// The texts of month `(y, m)`, which ends the day before month `(ny, nm)` starts.
fn month_text(y: i64, m: u32, ny: i64, nm: u32) -> (r: Option<(String, String)>)
    ensures
        match month_span(y as int, m as int, ny as int, nm as int) {
            None => r.is_none(),
            Some((x, z)) => r matches Some((s, e)) && s@ == iso_day(x) && e@ == iso_day(z),
        },
{
    if y < -2147483648 || y > 2147483647 || ny < -2147483648 || ny > 2147483647 {
        return None;
    }
    let first = match day_of_ymd(y as i32, m, 1) {
        Some(d) => d,
        None => return None,
    };
    let next = match day_of_ymd(ny as i32, nm, 1) {
        Some(d) => d,
        None => return None,
    };
    span_text(first as i64, next as i64 - 1)
}

/// Resolve a relative date to a (start_date, end_date) range of ISO date
/// strings, seen from day number `today`. For point dates, start == end.
/// `None` where a day the range needs is outside chrono's calendar.
pub fn resolve_range_on(rel: RelativeDate, today: i32) -> (r: Option<(String, String)>)
    ensures
        range_result(rel, today as int, r),
{
    let t = today as i64;
    match rel {
        RelativeDate::Today => span_text(t, t),
        RelativeDate::Yesterday => span_text(t - 1, t - 1),
        RelativeDate::Tomorrow => span_text(t + 1, t + 1),
        RelativeDate::DaysAgo(n) => span_text(t - n as i64, t - n as i64),
        RelativeDate::InDays(n) => span_text(t + n as i64, t + n as i64),
        RelativeDate::Overdue => {
            let y = match day_text(t - 1) {
                Some(y) => y,
                None => return None,
            };
            Some((string_of_str("0000-01-01"), y))
        },
        RelativeDate::ThisWeek | RelativeDate::LastWeek | RelativeDate::NextWeek => {
            let w = match weekday_of_day(today) {
                Some(w) => w as i64,
                None => return None,
            };
            let monday = t - w;
            match rel {
                RelativeDate::ThisWeek => span_text(monday, monday + 6),
                RelativeDate::LastWeek => span_text(monday - 7, monday - 1),
                _ => span_text(monday + 7, monday + 13),
            }
        },
        RelativeDate::ThisMonth | RelativeDate::LastMonth => {
            let (y, m) = match year_month_of_day(today) {
                Some(ym) => ym,
                None => return None,
            };
            let y = y as i64;
            match rel {
                RelativeDate::ThisMonth => if m == 12 {
                    month_text(y, m, y + 1, 1)
                } else {
                    month_text(y, m, y, m + 1)
                },
                _ => if m == 1 {
                    month_text(y - 1, 12, y, m)
                } else {
                    month_text(y, m - 1, y, m)
                },
            }
        },
    }
}

/// Resolve a relative date to a (start_date, end_date) range of ISO date
/// strings, seen from today's date on the local clock. For point dates,
/// start == end. `None` where a day the range needs is outside chrono's
/// calendar (`in-4000000000-days`).
pub fn resolve_relative_date_to_range(rel: &RelativeDate) -> (r: Option<(String, String)>)
    ensures
        exists|t: int| fits_i32(t) && day_exists(t) && range_result(*rel, t, r),
{
    let today = local_today();
    let r = resolve_range_on(*rel, today);
    assert(fits_i32(today as int) && day_exists(today as int) && range_result(*rel, today as int, r));
    r
}

/// The date a `--due` value stands for, seen from day `t`: the end of a
/// shorthand's range, or the text itself when it is a `YYYY-MM-DD` date.
pub open spec fn due_date_result(input: Seq<char>, t: int, r: Result<String, ParcError>) -> bool {
    match parse_relative_date_spec(input) {
        Some(rel) => match range_days(rel, t) {
            Some((a, b)) => r matches Ok(s) && s@ == iso_day(b),
            None => r matches Err(ParcError::ParseError(m)) && m@ == "due date '"@ + input
                + "' is outside the calendar"@,
        },
        None => if ymd_accepted(input) {
            r matches Ok(s) && s@ == input
        } else {
            r matches Err(ParcError::ParseError(m)) && m@ == "invalid due date '"@ + input
                + "': expected YYYY-MM-DD or shorthand (today, tomorrow, in-N-days, etc.)"@
        },
    }
}

/// Resolve a --due value to a concrete YYYY-MM-DD date string, seen from
/// day number `today`. A relative shorthand resolves to the end of its
/// range (this-week → Sunday, next-week → next Sunday); anything else
/// passes through when it is a `YYYY-MM-DD` date.
pub fn resolve_due_date_on(input: &str, today: i32) -> (r: Result<String, ParcError>)
    ensures
        due_date_result(input@, today as int, r),
{
    let v = chars_of(input);
    match parse_relative_chars(&v) {
        Some(rel) => match resolve_range_on(rel, today) {
            Some((_start, end)) => Ok(end),
            None => Err(
                ParcError::ParseError(concat3("due date '", &v, "' is outside the calendar")),
            ),
        },
        None => {
            if is_ymd_date(input) {
                Ok(string_of_str(input))
            } else {
                Err(
                    ParcError::ParseError(
                        concat3(
                            "invalid due date '",
                            &v,
                            "': expected YYYY-MM-DD or shorthand (today, tomorrow, in-N-days, etc.)",
                        ),
                    ),
                )
            }
        },
    }
}

/// Resolve a --due value to a concrete YYYY-MM-DD date string, seen from
/// today's date on the local clock.
pub fn resolve_due_date(input: &str) -> (r: Result<String, ParcError>)
    ensures
        exists|t: int| fits_i32(t) && due_date_result(input@, t, r),
{
    let today = local_today();
    let r = resolve_due_date_on(input, today);
    assert(fits_i32(today as int) && due_date_result(input@, today as int, r));
    r
}

/// A copy of `s` as an owned string.
fn string_of_str(s: &str) -> (r: String)
    ensures
        r@ == s@,
{
    let v = chars_of(s);
    crate::text::string_of(&v)
}

// ── Laws ─────────────────────────────────────────────────────────────

/// The day shorthands cover one day each: `today` is today, `yesterday`
/// and `overdue` end yesterday, `tomorrow` is tomorrow, `N-days-ago` and
/// `in-N-days` are the day N days before or after.
pub proof fn single_day_law(rel: RelativeDate, t: int)
    requires
        !(rel is ThisWeek || rel is LastWeek || rel is NextWeek || rel is ThisMonth || rel is LastMonth),
        range_days(rel, t) is Some,
    ensures
        range_days(rel, t).unwrap().0 == range_days(rel, t).unwrap().1,
        range_days(rel, t).unwrap().1 == match rel {
            RelativeDate::Today => t,
            RelativeDate::Tomorrow => t + 1,
            RelativeDate::DaysAgo(n) => t - n,
            RelativeDate::InDays(n) => t + n,
            _ => t - 1,
        },
{
}

/// The week shorthands cover seven days each, back to back: last week
/// ends the day before this week starts, next week starts the day after
/// this week ends. Each week runs Monday to Sunday, and this week holds
/// today.
pub proof fn week_ranges_law(t: int)
    requires
        range_days(RelativeDate::ThisWeek, t) is Some,
        range_days(RelativeDate::LastWeek, t) is Some,
        range_days(RelativeDate::NextWeek, t) is Some,
    ensures
        ({
            let this = range_days(RelativeDate::ThisWeek, t).unwrap();
            let last = range_days(RelativeDate::LastWeek, t).unwrap();
            let next = range_days(RelativeDate::NextWeek, t).unwrap();
            &&& this.1 - this.0 == 6 && last.1 - last.0 == 6 && next.1 - next.0 == 6
            &&& last.1 + 1 == this.0 && this.1 + 1 == next.0
            &&& this.0 <= t <= this.1
            &&& weekday_of(this.0) == 0 && weekday_of(this.1) == 6
            &&& weekday_of(last.0) == 0 && weekday_of(next.0) == 0
        }),
{
    assert(0 <= weekday_of(t) <= 6);
    assert(weekday_of(week_start(t)) == 0) by (nonlinear_arith);
    assert(weekday_of(week_start(t) + 6) == 6) by (nonlinear_arith);
    assert(weekday_of(week_start(t) - 7) == 0) by (nonlinear_arith);
    assert(weekday_of(week_start(t) + 7) == 0) by (nonlinear_arith);
}

} // verus!
