use parc::date::RelativeDate;
use parc::search::{parse_query, CompareOp, DateFilter, Filter, HasCondition, TextTerm};

#[test]
fn test_parse_empty() {
    let q = parse_query("").unwrap();
    assert!(q.text_terms.is_empty());
    assert!(q.filters.is_empty());
}

#[test]
fn test_parse_simple_word() {
    let q = parse_query("hello").unwrap();
    assert_eq!(q.text_terms, vec![TextTerm::Word("hello".to_string())]);
    assert!(q.filters.is_empty());
}

#[test]
fn test_parse_multiple_words() {
    let q = parse_query("hello world").unwrap();
    assert_eq!(q.text_terms.len(), 2);
    assert_eq!(q.text_terms[0], TextTerm::Word("hello".to_string()));
    assert_eq!(q.text_terms[1], TextTerm::Word("world".to_string()));
}

#[test]
fn test_parse_phrase() {
    let q = parse_query("\"exact match\"").unwrap();
    assert_eq!(q.text_terms, vec![TextTerm::Phrase("exact match".to_string())]);
}

#[test]
fn test_parse_type_filter() {
    let q = parse_query("type:todo").unwrap();
    assert!(q.text_terms.is_empty());
    assert_eq!(
        q.filters,
        vec![Filter::Type { value: "todo".to_string(), negated: false }]
    );
}

#[test]
fn test_parse_status_negation() {
    let q = parse_query("status:!done").unwrap();
    assert_eq!(
        q.filters,
        vec![Filter::Status { value: "done".to_string(), negated: true }]
    );
}

#[test]
fn test_parse_hashtag() {
    let q = parse_query("#backend").unwrap();
    assert_eq!(
        q.filters,
        vec![Filter::Tag { value: "backend".to_string(), negated: false }]
    );
}

#[test]
fn test_parse_tag_filter() {
    let q = parse_query("tag:frontend").unwrap();
    assert_eq!(
        q.filters,
        vec![Filter::Tag { value: "frontend".to_string(), negated: false }]
    );
}

#[test]
fn test_parse_date_shorthand_today() {
    let q = parse_query("due:today").unwrap();
    assert_eq!(q.filters, vec![Filter::Due(DateFilter::Relative(RelativeDate::Today))]);
}

#[test]
fn test_parse_date_shorthand_this_week() {
    let q = parse_query("due:this-week").unwrap();
    assert_eq!(
        q.filters,
        vec![Filter::Due(DateFilter::Relative(RelativeDate::ThisWeek))]
    );
}

#[test]
fn test_parse_date_overdue() {
    let q = parse_query("due:overdue").unwrap();
    assert_eq!(
        q.filters,
        vec![Filter::Due(DateFilter::Relative(RelativeDate::Overdue))]
    );
}

#[test]
fn test_parse_date_days_ago() {
    let q = parse_query("created:30-days-ago").unwrap();
    assert_eq!(
        q.filters,
        vec![Filter::Created(DateFilter::Relative(RelativeDate::DaysAgo(30)))]
    );
}

#[test]
fn test_parse_date_comparison() {
    let q = parse_query("created:>2026-01-01").unwrap();
    assert_eq!(
        q.filters,
        vec![Filter::Created(DateFilter::Absolute {
            op: CompareOp::Gt,
            date: "2026-01-01".to_string(),
        })]
    );
}

#[test]
fn test_parse_has_links() {
    let q = parse_query("has:links").unwrap();
    assert_eq!(q.filters, vec![Filter::Has(HasCondition::Links)]);
}

#[test]
fn test_parse_has_due() {
    let q = parse_query("has:due").unwrap();
    assert_eq!(q.filters, vec![Filter::Has(HasCondition::Due)]);
}

#[test]
fn test_parse_has_attachments() {
    let q = parse_query("has:attachments").unwrap();
    assert_eq!(q.filters, vec![Filter::Has(HasCondition::Attachments)]);
}

#[test]
fn test_parse_linked() {
    let q = parse_query("linked:01JQ7V3X").unwrap();
    assert_eq!(q.filters, vec![Filter::Linked("01JQ7V3X".to_string())]);
}

#[test]
fn test_parse_priority_comparison() {
    let q = parse_query("priority:>=medium").unwrap();
    assert_eq!(
        q.filters,
        vec![Filter::Priority {
            op: CompareOp::Gte,
            value: "medium".to_string(),
            negated: false,
        }]
    );
}

#[test]
fn test_parse_combined_query() {
    let q = parse_query("type:todo status:open #backend API").unwrap();
    assert_eq!(q.text_terms, vec![TextTerm::Word("API".to_string())]);
    assert_eq!(q.filters.len(), 3);
    assert_eq!(
        q.filters[0],
        Filter::Type { value: "todo".to_string(), negated: false }
    );
    assert_eq!(
        q.filters[1],
        Filter::Status { value: "open".to_string(), negated: false }
    );
    assert_eq!(
        q.filters[2],
        Filter::Tag { value: "backend".to_string(), negated: false }
    );
}

#[test]
fn test_parse_by_filter() {
    let q = parse_query("by:alice").unwrap();
    assert_eq!(
        q.filters,
        vec![Filter::CreatedBy { value: "alice".to_string(), negated: false }]
    );
}

#[test]
fn test_parse_negated_tag() {
    let q = parse_query("tag:!wip").unwrap();
    assert_eq!(
        q.filters,
        vec![Filter::Tag { value: "wip".to_string(), negated: true }]
    );
}

#[test]
fn test_parse_date_absolute_eq() {
    let q = parse_query("due:2026-03-01").unwrap();
    assert_eq!(
        q.filters,
        vec![Filter::Due(DateFilter::Absolute {
            op: CompareOp::Eq,
            date: "2026-03-01".to_string(),
        })]
    );
}

#[test]
fn parse_unknown_has_condition_is_error() {
    let e = parse_query("has:nothing").unwrap_err();
    assert_eq!(e, parc::error::ParcError::ParseError("unknown has: condition 'nothing'".to_string()));
}

#[test]
fn parse_invalid_date_is_error() {
    let e = parse_query("due:>not-a-date").unwrap_err();
    assert_eq!(e, parc::error::ParcError::ParseError("invalid date 'not-a-date'".to_string()));
}

#[test]
fn parse_unknown_field_is_a_word() {
    let q = parse_query("foo:bar  tag:").unwrap();
    assert_eq!(
        q.text_terms,
        vec![TextTerm::Word("foo:bar".to_string()), TextTerm::Word("tag:".to_string())]
    );
}

#[test]
fn parse_hashtag_is_lowercased_and_unterminated_phrase_runs_to_end() {
    let q = parse_query("#BackEnd \"open phrase  ").unwrap();
    assert_eq!(q.filters, vec![Filter::Tag { value: "backend".to_string(), negated: false }]);
    assert_eq!(q.text_terms, vec![TextTerm::Phrase("open phrase".to_string())]);
}

#[test]
fn parse_relative_with_operator_drops_operator() {
    let q = parse_query("due:<today priority:!<high").unwrap();
    assert_eq!(
        q.filters,
        vec![
            Filter::Due(DateFilter::Relative(RelativeDate::Today)),
            Filter::Priority { op: CompareOp::Lt, value: "high".to_string(), negated: true },
        ]
    );
}
