use chrono::{Datelike, NaiveDate};
use parc::error::ParcError;
use parc::search::parse_query;
use parc::sql::{build_fts_expression, compile_query_on, priorities_for_op, priority_rank};
use parc::search::{CompareOp, TextTerm};

fn day(y: i32, m: u32, d: u32) -> i32 {
    NaiveDate::from_ymd_opt(y, m, d).unwrap().num_days_from_ce()
}

const PLAIN_SELECT: &str =
    "SELECT f.id, f.type, f.title, f.status, f.updated_at, NULL as snippet FROM fragments f";

#[test]
fn compile_type_and_tag_joins_and_groups() {
    let q = parse_query("type:todo #backend").unwrap();
    let c = compile_query_on(&q, day(2026, 2, 21)).unwrap();
    assert_eq!(
        c.sql,
        format!(
            "{} JOIN fragment_tags ft1 ON ft1.fragment_id = f.id AND ft1.tag = ?2 WHERE f.type = ?1 GROUP BY f.id ORDER BY f.updated_at DESC",
            PLAIN_SELECT
        )
    );
    assert_eq!(c.params, vec!["todo", "backend"]);
}

#[test]
fn compile_text_uses_fts_with_snippet() {
    let q = parse_query("hello \"big idea\"").unwrap();
    let c = compile_query_on(&q, day(2026, 2, 21)).unwrap();
    assert_eq!(
        c.sql,
        "SELECT f.id, f.type, f.title, f.status, f.updated_at, snippet(fragments_fts, 2, '»', '«', '…', 20) as snippet FROM fragments f JOIN fragments_fts ON fragments_fts.id = f.id WHERE fragments_fts MATCH ?1 ORDER BY f.updated_at DESC"
    );
    assert_eq!(c.params, vec!["hello \"big idea\""]);
}

#[test]
fn compile_priority_and_dates() {
    let q = parse_query("priority:>=high due:today").unwrap();
    let c = compile_query_on(&q, day(2026, 2, 21)).unwrap();
    assert_eq!(
        c.sql,
        format!(
            "{} WHERE f.priority IN (?1, ?2) AND f.due = ?3 ORDER BY f.updated_at DESC",
            PLAIN_SELECT
        )
    );
    assert_eq!(c.params, vec!["high", "critical", "2026-02-21"]);

    let q = parse_query("created:this-week").unwrap();
    let c = compile_query_on(&q, day(2026, 2, 21)).unwrap();
    assert_eq!(
        c.sql,
        format!(
            "{} WHERE substr(f.created_at, 1, 10) >= ?1 AND substr(f.created_at, 1, 10) <= ?2 ORDER BY f.updated_at DESC",
            PLAIN_SELECT
        )
    );
    assert_eq!(c.params, vec!["2026-02-16", "2026-02-22"]);
}

#[test]
fn compile_unknown_priority_is_an_error() {
    let q = parse_query("priority:urgent").unwrap();
    match compile_query_on(&q, day(2026, 2, 21)) {
        Err(ParcError::ParseError(m)) => assert_eq!(m, "unknown priority 'urgent'"),
        other => panic!("unexpected: {:?}", other.map(|c| c.sql)),
    }
}

#[test]
fn priority_order_and_ranges() {
    assert_eq!(priority_rank("low"), Some(1));
    assert_eq!(priority_rank("critical"), Some(4));
    assert_eq!(priority_rank("urgent"), None);
    assert_eq!(priorities_for_op(CompareOp::Gt, "medium"), Some(vec!["high".to_string(), "critical".to_string()]));
    assert_eq!(
        priorities_for_op(CompareOp::Lte, "low"),
        Some(vec!["none".to_string(), "low".to_string()])
    );
    assert_eq!(priorities_for_op(CompareOp::Gt, "critical"), Some(vec![]));
}

#[test]
fn fts_expression_quotes_phrases() {
    let terms = vec![TextTerm::Word("a".into()), TextTerm::Phrase("b c".into())];
    assert_eq!(build_fts_expression(&terms), "a \"b c\"");
}

#[test]
fn hashtag_and_tag_filter_agree() {
    let a = parse_query("#Backend").unwrap();
    let b = parse_query("tag:Backend").unwrap();
    assert_eq!(a.filters, b.filters);
    assert!(a.text_terms.is_empty() && b.text_terms.is_empty());
}

#[test]
fn has_attachments_keeps_only_fragments_with_attachments() {
    let q = parse_query("has:attachments").unwrap();
    let c = compile_query_on(&q, day(2026, 2, 21)).unwrap();
    assert_eq!(c.sql, format!("{} WHERE f.attachment_count > 0 ORDER BY f.updated_at DESC", PLAIN_SELECT));
    assert!(c.params.is_empty());

    let conn = rusqlite::Connection::open_in_memory().unwrap();
    conn.execute_batch(
        "CREATE TABLE fragments (id TEXT, type TEXT, title TEXT, status TEXT, updated_at TEXT, attachment_count INTEGER);
         INSERT INTO fragments VALUES ('A', 'note', 'a', NULL, '2026-01-02', 1);
         INSERT INTO fragments VALUES ('B', 'note', 'b', NULL, '2026-01-03', 0);",
    )
    .unwrap();
    let mut stmt = conn.prepare(&c.sql).unwrap();
    let ids: Vec<String> = stmt.query_map([], |r| r.get(0)).unwrap().map(|x| x.unwrap()).collect();
    assert_eq!(ids, vec!["A"]);
}
