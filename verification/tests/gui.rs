use chrono::{Datelike, NaiveDate};
use parc::attachment::AttachmentInfo;
use parc::config::Config;
use parc::doctor::{DoctorFinding, DoctorReport};
use parc::edits::CreateParams;
use parc::error::ParcError;
use parc::fragment::Fragment;
use parc::gui::{
    apply_changes, attachment_dto, attachment_path, backlink_dto, doctor_report_dto, finding_dto, link_pair,
    prepare_fragment, schema_to_dto, search_result_dto, summary_dto, toggle_archived, vault_info_dto, version_dto,
    FragmentDto, GuiError, UpdateParams,
};
use parc::history::VersionEntry;
use parc::index::BacklinkInfo;
use parc::json::JsonValue;
use parc::schema::{FieldDef, FieldType, Schema, SchemaRegistry};
use parc::search::SearchResult;
use parc::time::Timestamp;
use parc::vault::{VaultInfo, VaultScope};

fn day(y: i32, m: u32, d: u32) -> i32 {
    NaiveDate::from_ymd_opt(y, m, d).unwrap().num_days_from_ce()
}

fn todo_schema() -> Schema {
    Schema {
        name: "todo".into(),
        alias: Some("t".into()),
        editor_skip: false,
        fields: vec![
            FieldDef {
                name: "status".into(),
                field_type: FieldType::Enum(vec!["open".into(), "done".into()]),
                required: false,
                default: Some("open".into()),
            },
            FieldDef { name: "due".into(), field_type: FieldType::Date, required: false, default: None },
            FieldDef { name: "labels".into(), field_type: FieldType::ListOfStrings, required: true, default: None },
        ],
    }
}

fn plain(id: &str) -> Fragment {
    let t = Timestamp::parse_rfc3339("2026-01-01T00:00:00Z").unwrap();
    Fragment {
        id: id.into(),
        fragment_type: "note".into(),
        title: "Old".into(),
        tags: vec![],
        links: vec![],
        attachments: vec![],
        created_at: t,
        updated_at: t,
        created_by: None,
        extra_fields: vec![("status".into(), JsonValue::String("open".into()))],
        body: "old".into(),
    }
}

fn field<'a>(f: &'a [(String, JsonValue)], k: &str) -> Option<&'a JsonValue> {
    f.iter().find(|(n, _)| n == k).map(|(_, v)| v)
}

fn no_update(id: &str) -> UpdateParams {
    UpdateParams {
        id: id.into(),
        title: None,
        tags: None,
        body: None,
        links: None,
        due: None,
        priority: None,
        status: None,
        assignee: None,
        extra_fields: None,
    }
}

#[test]
fn gui_error_messages() {
    let e = GuiError::Other("test error".into());
    assert_eq!(e.message(), "test error");
    let core: GuiError = ParcError::FragmentNotFound("NONEXISTENT".into()).into();
    assert_eq!(core.message(), "fragment not found: NONEXISTENT");
    assert_eq!(GuiError::Io("disk full".into()).message(), "disk full");
}

#[test]
fn fragment_record_keeps_fields_and_writes_times() {
    let mut f = plain("01A");
    f.tags = vec!["a".into()];
    let dto = FragmentDto::from_fragment(f);
    assert_eq!(dto.id, "01A");
    assert_eq!(dto.fragment_type, "note");
    assert_eq!(dto.tags, vec!["a"]);
    assert_eq!(dto.created_at, "2026-01-01T00:00:00+00:00");
    assert_eq!(dto.updated_at, "2026-01-01T00:00:00+00:00");
    assert!(matches!(field(&dto.extra_fields, "status"), Some(JsonValue::String(s)) if s == "open"));
}

fn hit() -> SearchResult {
    SearchResult {
        id: "01A".into(),
        fragment_type: "todo".into(),
        title: "T".into(),
        status: Some("open".into()),
        tags: vec!["x".into()],
        updated_at: "2026-01-01T00:00:00Z".into(),
        snippet: Some("...".into()),
    }
}

#[test]
fn list_and_search_records() {
    let s = summary_dto(hit());
    assert_eq!(s.id, "01A");
    assert_eq!(s.status.as_deref(), Some("open"));
    assert_eq!(s.tags, vec!["x"]);
    let r = search_result_dto(hit());
    assert_eq!(r.snippet.as_deref(), Some("..."));
    assert_eq!(r.fragment_type, "todo");
}

#[test]
fn small_records() {
    let v = vault_info_dto(VaultInfo { path: "/tmp/test/.parc".into(), scope: VaultScope::Local, fragment_count: 42 });
    assert_eq!(v.scope, "local");
    assert_eq!(v.fragment_count, 42);
    let g = vault_info_dto(VaultInfo { path: "/h/.parc".into(), scope: VaultScope::Global, fragment_count: 0 });
    assert_eq!(g.scope, "global");
    let e = version_dto(VersionEntry { timestamp: "2026-01-01T00-00-00Z".into(), path: "p".into(), size: 7 });
    assert_eq!(e.timestamp, "2026-01-01T00-00-00Z");
    assert_eq!(e.size, 7);
    let a = attachment_dto(AttachmentInfo { filename: "a.png".into(), size: 3, path: "/v/attachments/01A/a.png".into() });
    assert_eq!(a.filename, "a.png");
    assert_eq!(a.path, "/v/attachments/01A/a.png");
    let b = backlink_dto(BacklinkInfo { source_id: "01B".into(), source_type: "note".into(), source_title: "B".into() });
    assert_eq!((b.id.as_str(), b.fragment_type.as_str(), b.title.as_str()), ("01B", "note", "B"));
    assert_eq!(attachment_path("/v", "01A", "a.png"), "/v/attachments/01A/a.png");
}

#[test]
fn schema_record_words_and_values() {
    let d = schema_to_dto(&todo_schema());
    assert_eq!(d.name, "todo");
    assert_eq!(d.alias.as_deref(), Some("t"));
    assert!(!d.editor_skip);
    assert_eq!(d.fields.len(), 3);
    assert_eq!(d.fields[0].field_type, "enum");
    assert_eq!(d.fields[0].values, vec!["open", "done"]);
    assert_eq!(d.fields[0].default.as_deref(), Some("open"));
    assert_eq!(d.fields[1].field_type, "date");
    assert!(d.fields[1].values.is_empty());
    assert_eq!(d.fields[2].field_type, "list");
    assert!(d.fields[2].required);
}

#[test]
fn doctor_records() {
    let f = finding_dto(&DoctorFinding::SchemaViolation { id: "01A".into(), title: "T".into(), message: "m".into() });
    assert_eq!(f.finding_type, "schema_violation");
    let names: Vec<&str> = f.details.iter().map(|(k, _)| k.as_str()).collect();
    assert_eq!(names, vec!["id", "message", "title"]);
    let s = finding_dto(&DoctorFinding::VaultSizeWarning { total_bytes: 524288001 });
    assert_eq!(s.finding_type, "vault_size_warning");
    assert!(matches!(&s.details[0].1, JsonValue::Number(n) if n == "524288001"));
    let report = DoctorReport {
        findings: vec![DoctorFinding::BrokenLink {
            source_id: "abc123".into(),
            source_title: "A".into(),
            target_ref: "zzz".into(),
        }],
        fragments_checked: 10,
    };
    let d = doctor_report_dto(&report);
    assert_eq!(d.fragments_checked, 10);
    assert!(!d.healthy);
    assert_eq!(d.findings.len(), 1);
    assert_eq!(d.findings[0].finding_type, "broken_link");
    assert!(matches!(field(&d.findings[0].details, "source_id"), Some(JsonValue::String(s)) if s == "abc123"));
    let empty = doctor_report_dto(&DoctorReport { findings: vec![], fragments_checked: 0 });
    assert!(empty.healthy);
}

fn create(ty: &str) -> CreateParams {
    CreateParams {
        fragment_type: ty.into(),
        title: None,
        tags: vec!["a".into()],
        body: None,
        links: vec![],
        due: None,
        priority: None,
        status: None,
        assignee: None,
    }
}

#[test]
fn create_command_refusals() {
    let reg = SchemaRegistry::new(vec![todo_schema()]);
    let config = Config::default();
    let e = prepare_fragment(create("nope"), &reg, &config, day(2026, 2, 21)).unwrap_err();
    assert!(matches!(e, GuiError::Other(ref m) if m == "unknown type: nope"));
    let mut p = create("t");
    p.due = Some("someday".into());
    let e = prepare_fragment(p, &reg, &config, day(2026, 2, 21)).unwrap_err();
    assert!(e.message().starts_with("parse error: invalid due date 'someday'"));
    let mut p = create("todo");
    p.status = Some("blocked".into());
    let e = prepare_fragment(p, &reg, &config, day(2026, 2, 21)).unwrap_err();
    assert!(matches!(e, GuiError::Core(ParcError::ValidationError(ref m))
        if m == "invalid value 'blocked' for field 'status': allowed values are [\"open\", \"done\"]"));
    let mut optional = todo_schema();
    optional.fields.pop();
    let reg = SchemaRegistry::new(vec![optional]);
    let f = prepare_fragment(create("t"), &reg, &config, day(2026, 2, 21)).unwrap();
    assert_eq!(f.fragment_type, "todo");
    assert_eq!(f.title, "");
    assert!(matches!(field(&f.extra_fields, "status"), Some(JsonValue::String(s)) if s == "open"));
}

#[test]
fn update_command_sets_extra_fields_last() {
    let now = Timestamp::parse_rfc3339("2026-02-21T12:00:00Z").unwrap();
    let mut p = no_update("01A");
    p.status = Some("done".into());
    p.due = Some("tomorrow".into());
    p.extra_fields = Some(vec![
        ("status".into(), JsonValue::String("blocked".into())),
        ("owner".into(), JsonValue::String("alice".into())),
        ("owner".into(), JsonValue::String("bob".into())),
    ]);
    let f = apply_changes(plain("01A"), p, day(2026, 2, 21), now).unwrap();
    assert_eq!(f.updated_at, now);
    assert_eq!(f.title, "Old");
    assert!(matches!(field(&f.extra_fields, "status"), Some(JsonValue::String(s)) if s == "blocked"));
    assert!(matches!(field(&f.extra_fields, "owner"), Some(JsonValue::String(s)) if s == "bob"));
    assert!(matches!(field(&f.extra_fields, "due"), Some(JsonValue::String(s)) if s == "2026-02-22"));
    let names: Vec<&str> = f.extra_fields.iter().map(|(k, _)| k.as_str()).collect();
    assert_eq!(names, vec!["due", "owner", "status"]);
    let mut bad = no_update("01A");
    bad.due = Some("never".into());
    let e = apply_changes(plain("01A"), bad, day(2026, 2, 21), now).unwrap_err();
    assert!(matches!(e, GuiError::Other(ref m) if m.starts_with("parse error: invalid due date 'never'")));
}

#[test]
fn archive_then_undo() {
    let now = Timestamp::parse_rfc3339("2026-02-21T12:00:00Z").unwrap();
    let mut f = plain("01A");
    toggle_archived(&mut f, false, now);
    assert!(matches!(field(&f.extra_fields, "archived"), Some(JsonValue::Bool(true))));
    assert!(matches!(field(&f.extra_fields, "status"), Some(JsonValue::String(s)) if s == "open"));
    assert_eq!(f.updated_at, now);
    toggle_archived(&mut f, true, now);
    assert!(field(&f.extra_fields, "archived").is_none());
    assert_eq!(f.extra_fields.len(), 1);
}

#[test]
fn link_pair_links_both_and_refuses_self() {
    let now = Timestamp::parse_rfc3339("2026-02-21T12:00:00Z").unwrap();
    let mut a = plain("01A");
    let mut b = plain("01B");
    assert_eq!(link_pair(&mut a, &mut b, now).unwrap(), (true, true));
    assert_eq!(a.links, vec!["01B"]);
    assert_eq!(b.links, vec!["01A"]);
    let mut c = plain("01A");
    let e = link_pair(&mut a, &mut c, now).unwrap_err();
    assert!(matches!(e, GuiError::Other(ref m) if m == "cannot link a fragment to itself"));
}
