use chrono::{Datelike, NaiveDate};
use parc::config::Config;
use parc::edits::{
    apply_update, link_fragments, list_query, prepare_create, search_query, unlink_fragments, CreateParams,
    ListParams, SearchParams, UpdateParams,
};
use parc::fragment::Fragment;
use parc::json::JsonValue;
use parc::schema::{FieldDef, FieldType, Schema, SchemaRegistry};
use parc::search::{Filter, SortOrder};
use parc::time::Timestamp;

fn day(y: i32, m: u32, d: u32) -> i32 {
    NaiveDate::from_ymd_opt(y, m, d).unwrap().num_days_from_ce()
}

fn todo_schema() -> Schema {
    Schema {
        name: "todo".into(),
        alias: Some("t".into()),
        editor_skip: false,
        fields: vec![
            FieldDef {
                name: "status".into(),
                field_type: FieldType::Enum(vec!["open".into(), "done".into()]),
                required: false,
                default: Some("open".into()),
            },
            FieldDef { name: "due".into(), field_type: FieldType::Date, required: false, default: None },
        ],
    }
}

fn registry() -> SchemaRegistry {
    SchemaRegistry::new(vec![todo_schema()])
}

fn create(ty: &str) -> CreateParams {
    CreateParams {
        fragment_type: ty.into(),
        title: Some("Ship it".into()),
        tags: vec!["a".into(), "b".into(), "a".into()],
        body: Some("body".into()),
        links: vec!["01X".into()],
        due: None,
        priority: Some("high".into()),
        status: None,
        assignee: None,
    }
}

fn field<'a>(f: &'a Fragment, k: &str) -> Option<&'a JsonValue> {
    f.extra_fields.iter().find(|(n, _)| n == k).map(|(_, v)| v)
}

#[test]
fn create_resolves_alias_and_applies_defaults() {
    let mut config = Config::default();
    config.default_tags = vec!["b".into(), "c".into()];
    let f = prepare_create(create("t"), &registry(), &config, day(2026, 2, 21)).unwrap();
    assert_eq!(f.fragment_type, "todo");
    assert_eq!(f.title, "Ship it");
    assert_eq!(f.tags, vec!["b", "c", "a"]);
    assert_eq!(f.links, vec!["01X"]);
    assert_eq!(f.body, "body");
    assert_eq!(f.id.len(), 26);
    assert!(matches!(field(&f, "status"), Some(JsonValue::String(s)) if s == "open"));
    assert!(matches!(field(&f, "priority"), Some(JsonValue::String(s)) if s == "high"));
}

#[test]
fn create_refusals() {
    let config = Config::default();
    let e = prepare_create(create("nope"), &registry(), &config, day(2026, 2, 21)).unwrap_err();
    assert_eq!(e.code, -32602);
    assert_eq!(e.message, "Invalid params: unknown type: nope");
    let mut p = create("todo");
    p.due = Some("someday".into());
    let e = prepare_create(p, &registry(), &config, day(2026, 2, 21)).unwrap_err();
    assert_eq!(e.code, -32602);
    assert!(e.message.starts_with("Invalid params: parse error: invalid due date 'someday'"));
    let mut p = create("todo");
    p.status = Some("blocked".into());
    let e = prepare_create(p, &registry(), &config, day(2026, 2, 21)).unwrap_err();
    assert_eq!(e.code, -32603);
    assert!(matches!(e.data, Some(JsonValue::String(ref d)) if d.starts_with("validation error: ")));
}

fn plain(id: &str) -> Fragment {
    let t = Timestamp::parse_rfc3339("2026-01-01T00:00:00Z").unwrap();
    Fragment {
        id: id.into(),
        fragment_type: "note".into(),
        title: "Old".into(),
        tags: vec![],
        links: vec![],
        attachments: vec![],
        created_at: t,
        updated_at: t,
        created_by: None,
        extra_fields: vec![("status".into(), JsonValue::String("open".into()))],
        body: "old".into(),
    }
}

#[test]
fn update_replaces_given_fields() {
    let now = Timestamp::parse_rfc3339("2026-02-21T12:00:00Z").unwrap();
    let p = UpdateParams {
        id: "01A".into(),
        title: Some("New".into()),
        tags: None,
        body: None,
        links: Some(vec!["01B".into()]),
        due: Some("tomorrow".into()),
        priority: None,
        status: Some("done".into()),
        assignee: None,
    };
    let f = apply_update(plain("01A"), p, &notes(), day(2026, 2, 21), now).unwrap();
    assert_eq!(f.title, "New");
    assert_eq!(f.body, "old");
    assert_eq!(f.links, vec!["01B"]);
    assert_eq!(f.updated_at, now);
    assert!(matches!(field(&f, "status"), Some(JsonValue::String(s)) if s == "done"));
    assert!(matches!(field(&f, "due"), Some(JsonValue::String(s)) if s == "2026-02-22"));
}

fn notes() -> SchemaRegistry {
    let note = Schema { name: "note".into(), alias: Some("n".into()), editor_skip: false, fields: vec![] };
    SchemaRegistry::new(vec![note, todo_schema()])
}

fn status_update(id: &str, status: &str) -> UpdateParams {
    UpdateParams {
        id: id.into(),
        title: None,
        tags: None,
        body: None,
        links: None,
        due: None,
        priority: None,
        status: Some(status.into()),
        assignee: None,
    }
}

#[test]
fn update_is_checked_against_the_schema() {
    let now = Timestamp::parse_rfc3339("2026-02-21T12:00:00Z").unwrap();
    let mut todo = plain("01T");
    todo.fragment_type = "todo".into();
    let f = apply_update(todo, status_update("01T", "done"), &notes(), day(2026, 2, 21), now).unwrap();
    assert!(matches!(field(&f, "status"), Some(JsonValue::String(s)) if s == "done"));
    let e = apply_update(f, status_update("01T", "blocked"), &notes(), day(2026, 2, 21), now).unwrap_err();
    assert_eq!(e.code, -32602);
    assert_eq!(
        e.message,
        "Invalid params: validation error: invalid value 'blocked' for field 'status': allowed values are [\"open\", \"done\"]"
    );
    let mut odd = plain("01X");
    odd.fragment_type = "memo".into();
    let e = apply_update(odd, status_update("01X", "x"), &notes(), day(2026, 2, 21), now).unwrap_err();
    assert_eq!(e.code, -32602);
    assert_eq!(e.message, "Invalid params: schema not found for type: memo");
}

#[test]
fn list_and_search_queries() {
    let q = list_query(ListParams {
        fragment_type: Some("todo".into()),
        status: None,
        tag: Some("Backend".into()),
        limit: Some(5),
        sort: Some("created".into()),
    });
    assert_eq!(
        q.filters,
        vec![
            Filter::Type { value: "todo".into(), negated: false },
            Filter::Tag { value: "Backend".into(), negated: false }
        ]
    );
    assert_eq!(q.sort, SortOrder::UpdatedDesc);
    assert_eq!(q.limit, Some(5));
    let q = search_query(&SearchParams { query: "type:todo".into(), limit: Some(2), sort: None }).unwrap();
    assert_eq!(q.limit, Some(2));
    let e = search_query(&SearchParams { query: "bogus:x:y due:zzz".into(), limit: None, sort: None }).unwrap_err();
    assert_eq!(e.code, -32603);
}

#[test]
fn link_then_unlink_restores_links() {
    let now = Timestamp::parse_rfc3339("2026-02-21T12:00:00Z").unwrap();
    let mut a = plain("01A");
    let mut b = plain("01B");
    b.links = vec!["01C".into()];
    assert_eq!(link_fragments(&mut a, &mut b, now).unwrap(), (true, true));
    assert_eq!(a.links, vec!["01B"]);
    assert_eq!(b.links, vec!["01C", "01A"]);
    assert_eq!(link_fragments(&mut a, &mut b, now).unwrap(), (false, false));
    assert_eq!(unlink_fragments(&mut a, &mut b, now), (true, true));
    assert!(a.links.is_empty());
    assert_eq!(b.links, vec!["01C"]);
    let mut c = plain("01A");
    let e = link_fragments(&mut a, &mut c, now).unwrap_err();
    assert_eq!(e.message, "Invalid params: cannot link a fragment to itself");
}
