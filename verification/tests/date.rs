use parc::date::{parse_relative_date, RelativeDate};

#[test]
fn test_parse_relative_date_shorthands() {
    assert_eq!(parse_relative_date("today"), Some(RelativeDate::Today));
    assert_eq!(parse_relative_date("yesterday"), Some(RelativeDate::Yesterday));
    assert_eq!(parse_relative_date("tomorrow"), Some(RelativeDate::Tomorrow));
    assert_eq!(parse_relative_date("this-week"), Some(RelativeDate::ThisWeek));
    assert_eq!(parse_relative_date("last-week"), Some(RelativeDate::LastWeek));
    assert_eq!(parse_relative_date("next-week"), Some(RelativeDate::NextWeek));
    assert_eq!(parse_relative_date("this-month"), Some(RelativeDate::ThisMonth));
    assert_eq!(parse_relative_date("last-month"), Some(RelativeDate::LastMonth));
    assert_eq!(parse_relative_date("overdue"), Some(RelativeDate::Overdue));
    assert_eq!(parse_relative_date("3-days-ago"), Some(RelativeDate::DaysAgo(3)));
    assert_eq!(parse_relative_date("in-3-days"), Some(RelativeDate::InDays(3)));
    assert_eq!(parse_relative_date("not-a-date"), None);
}

#[test]
fn relative_date_number_forms() {
    assert_eq!(parse_relative_date("+7-days-ago"), Some(RelativeDate::DaysAgo(7)));
    assert_eq!(parse_relative_date("in-0-days"), Some(RelativeDate::InDays(0)));
    assert_eq!(parse_relative_date("4294967295-days-ago"), Some(RelativeDate::DaysAgo(u32::MAX)));
    assert_eq!(parse_relative_date("4294967296-days-ago"), None);
    assert_eq!(parse_relative_date("-1-days-ago"), None);
    assert_eq!(parse_relative_date("-days-ago"), None);
    assert_eq!(parse_relative_date("in--days"), None);
    assert_eq!(parse_relative_date("in-3-days-ago"), None);
}

use chrono::{Datelike, Local, NaiveDate};
use parc::date::{resolve_due_date, resolve_relative_date_to_range};

#[test]
fn test_resolve_due_date_today() {
    let result = resolve_due_date("today").unwrap();
    let today = Local::now().date_naive().format("%Y-%m-%d").to_string();
    assert_eq!(result, today);
}

#[test]
fn test_resolve_due_date_tomorrow() {
    let result = resolve_due_date("tomorrow").unwrap();
    let tomorrow = (Local::now().date_naive() + chrono::Duration::days(1)).format("%Y-%m-%d").to_string();
    assert_eq!(result, tomorrow);
}

#[test]
fn test_resolve_due_date_in_n_days() {
    let result = resolve_due_date("in-3-days").unwrap();
    let expected = (Local::now().date_naive() + chrono::Duration::days(3)).format("%Y-%m-%d").to_string();
    assert_eq!(result, expected);
}

#[test]
fn test_resolve_due_date_passthrough() {
    let result = resolve_due_date("2026-03-15").unwrap();
    assert_eq!(result, "2026-03-15");
}

#[test]
fn test_resolve_due_date_invalid() {
    assert!(resolve_due_date("not-valid").is_err());
}

#[test]
fn test_resolve_range_point_dates() {
    let (start, end) = resolve_relative_date_to_range(&RelativeDate::Today).unwrap();
    assert_eq!(start, end);
    let (start, end) = resolve_relative_date_to_range(&RelativeDate::Yesterday).unwrap();
    assert_eq!(start, end);
}

#[test]
fn test_resolve_range_this_week() {
    let (start, end) = resolve_relative_date_to_range(&RelativeDate::ThisWeek).unwrap();
    let start_date = NaiveDate::parse_from_str(&start, "%Y-%m-%d").unwrap();
    let end_date = NaiveDate::parse_from_str(&end, "%Y-%m-%d").unwrap();
    assert_eq!(start_date.weekday(), chrono::Weekday::Mon);
    assert_eq!(end_date.weekday(), chrono::Weekday::Sun);
    assert_eq!((end_date - start_date).num_days(), 6);
}

use parc::date::{resolve_due_date_on, resolve_range_on};

fn day_number(y: i32, m: u32, d: u32) -> i32 {
    NaiveDate::from_ymd_opt(y, m, d).unwrap().num_days_from_ce()
}

fn range(rel: RelativeDate) -> (String, String) {
    resolve_range_on(rel, day_number(2026, 2, 21)).unwrap()
}

#[test]
fn ranges_seen_from_a_saturday() {
    let s = |a: &str, b: &str| (a.to_string(), b.to_string());
    assert_eq!(range(RelativeDate::Today), s("2026-02-21", "2026-02-21"));
    assert_eq!(range(RelativeDate::Yesterday), s("2026-02-20", "2026-02-20"));
    assert_eq!(range(RelativeDate::Tomorrow), s("2026-02-22", "2026-02-22"));
    assert_eq!(range(RelativeDate::ThisWeek), s("2026-02-16", "2026-02-22"));
    assert_eq!(range(RelativeDate::LastWeek), s("2026-02-09", "2026-02-15"));
    assert_eq!(range(RelativeDate::NextWeek), s("2026-02-23", "2026-03-01"));
    assert_eq!(range(RelativeDate::ThisMonth), s("2026-02-01", "2026-02-28"));
    assert_eq!(range(RelativeDate::LastMonth), s("2026-01-01", "2026-01-31"));
    assert_eq!(range(RelativeDate::Overdue), s("0000-01-01", "2026-02-20"));
    assert_eq!(range(RelativeDate::DaysAgo(21)), s("2026-01-31", "2026-01-31"));
    assert_eq!(range(RelativeDate::InDays(8)), s("2026-03-01", "2026-03-01"));
}

#[test]
fn month_ranges_across_year_end() {
    let jan = day_number(2026, 1, 10);
    assert_eq!(
        resolve_range_on(RelativeDate::LastMonth, jan),
        Some(("2025-12-01".to_string(), "2025-12-31".to_string()))
    );
    let dec = day_number(2025, 12, 31);
    assert_eq!(
        resolve_range_on(RelativeDate::ThisMonth, dec),
        Some(("2025-12-01".to_string(), "2025-12-31".to_string()))
    );
}

#[test]
fn due_dates_seen_from_a_saturday() {
    let t = day_number(2026, 2, 21);
    assert_eq!(resolve_due_date_on("this-week", t).unwrap(), "2026-02-22");
    assert_eq!(resolve_due_date_on("next-week", t).unwrap(), "2026-03-01");
    assert_eq!(resolve_due_date_on("3-days-ago", t).unwrap(), "2026-02-18");
    assert_eq!(resolve_due_date_on("2026-13-01", t).is_err(), true);
}
