use parc::attachment::parse_attachment_refs;
use parc::config::{Config, DateFormat};
use parc::doctor::{check_broken_links, check_orphans, check_plugins, check_vault_size, DoctorFinding, PluginStatus};
use parc::error::ParcError;
use parc::fragment::{new_id, parse_fragment, parse_fragment_at, serialize_fragment, split_frontmatter, Fragment};
use parc::json::JsonValue;
use parc::tag::extract_inline_tags;
use parc::time::Timestamp;

fn make_fragment(title: &str, body: &str) -> Fragment {
    Fragment {
        id: new_id(),
        fragment_type: "note".to_string(),
        title: title.to_string(),
        tags: Vec::new(),
        links: Vec::new(),
        attachments: Vec::new(),
        created_at: Timestamp::now(),
        updated_at: Timestamp::now(),
        created_by: None,
        extra_fields: Vec::new(),
        body: body.to_string(),
    }
}

#[test]
fn test_parse_attachment_refs() {
    let body = r#"
See the diagram: ![[attach:diagram.svg]]
The spec: ![[attach:spec.pdf|Project Spec]]
Normal link: [[01JQ7V4Y]]
"#;
    let refs = parse_attachment_refs(body);
    assert_eq!(refs.len(), 2);
    assert_eq!(refs[0].filename, "diagram.svg");
    assert!(refs[0].display_text.is_none());
    assert_eq!(refs[1].filename, "spec.pdf");
    assert_eq!(refs[1].display_text.as_deref(), Some("Project Spec"));
}

#[test]
fn test_parse_attachment_refs_in_code_block() {
    let body = r#"
Normal ref: ![[attach:real.png]]

```markdown
Not a ref: ![[attach:fake.png]]
```

`Also ignored: ![[attach:inline.png]]`
"#;
    let refs = parse_attachment_refs(body);
    assert_eq!(refs.len(), 1);
    assert_eq!(refs[0].filename, "real.png");
}

#[test]
fn test_default_config() {
    let config = Config::default();
    assert_eq!(config.id_display_length, 8);
    assert_eq!(config.date_format, DateFormat::Relative);
    let t = config.aliases.iter().find(|(k, _)| k == "t").unwrap();
    assert_eq!(t.1, "todo");
    assert_eq!(config.resurfacing.stale_days, 30);
    assert_eq!(config.resurfacing.today_section_limit, 10);
}

#[test]
fn test_broken_frontmatter_link() {
    let mut frag = make_fragment("Test", "Body");
    frag.links = vec!["NONEXISTENT".to_string()];
    let all_ids = vec![frag.id.clone()];
    let findings = check_broken_links(&[frag], &all_ids);
    assert_eq!(findings.len(), 1);
    assert!(matches!(&findings[0], DoctorFinding::BrokenLink { target_ref, .. } if target_ref == "NONEXISTENT"));
}

#[test]
fn test_broken_body_link() {
    let frag = make_fragment("Test", "See [[DEADBEEF]] for details.");
    let all_ids = vec![frag.id.clone()];
    let findings = check_broken_links(&[frag], &all_ids);
    assert_eq!(findings.len(), 1);
    assert!(matches!(&findings[0], DoctorFinding::BrokenLink { target_ref, .. } if target_ref == "[[DEADBEEF]]"));
}

#[test]
fn test_no_broken_links() {
    let frag_a = make_fragment("A", "Body");
    let mut frag_b = make_fragment("B", "Body");
    frag_b.links = vec![frag_a.id.clone()];
    let all_ids = vec![frag_a.id.clone(), frag_b.id.clone()];
    let findings = check_broken_links(&[frag_a, frag_b], &all_ids);
    assert!(findings.is_empty());
}

#[test]
fn test_orphan_detection() {
    let frag_a = make_fragment("Orphan", "No links");
    let a_id = frag_a.id.clone();
    let frag_b = make_fragment("B", "Body");
    let mut frag_c = make_fragment("C", "Body");
    frag_c.links = vec![frag_b.id.clone()];
    let all_ids = vec![frag_a.id.clone(), frag_b.id.clone(), frag_c.id.clone()];
    let findings = check_orphans(&[frag_a, frag_b, frag_c], &all_ids);
    assert_eq!(findings.len(), 1);
    assert!(matches!(&findings[0], DoctorFinding::OrphanFragment { id, .. } if id == &a_id));
}

#[test]
fn test_round_trip() {
    let t = Timestamp::parse_rfc3339("2026-02-21T10:30:00Z").unwrap();
    let fragment = Fragment {
        id: "01JQ7V3XKP5GQZ2N8R6T1WBMVH".to_string(),
        fragment_type: "todo".to_string(),
        title: "Test task".to_string(),
        tags: vec!["backend".to_string(), "search".to_string()],
        links: vec!["01JQ7V4Y".to_string()],
        attachments: Vec::new(),
        created_at: t,
        updated_at: t,
        created_by: Some("alice".to_string()),
        extra_fields: vec![
            ("priority".to_string(), JsonValue::String("high".to_string())),
            ("status".to_string(), JsonValue::String("open".to_string())),
        ],
        body: "Body content with #inline-tag.\n".to_string(),
    };
    let serialized = serialize_fragment(&fragment);
    let parsed = parse_fragment(&serialized).unwrap();
    assert_eq!(parsed.id, fragment.id);
    assert_eq!(parsed.fragment_type, fragment.fragment_type);
    assert_eq!(parsed.title, fragment.title);
    assert_eq!(parsed.tags, fragment.tags);
    assert_eq!(parsed.links, fragment.links);
    assert_eq!(parsed.created_by, fragment.created_by);
    assert_eq!(parsed.extra_fields.len(), 2);
    assert!(matches!(&parsed.extra_fields[0], (k, JsonValue::String(v)) if k == "priority" && v == "high"));
    assert!(matches!(&parsed.extra_fields[1], (k, JsonValue::String(v)) if k == "status" && v == "open"));
    assert_eq!(parsed.body.trim(), fragment.body.trim());
}

#[test]
fn test_extract_basic() {
    let tags = extract_inline_tags("This has #backend and #frontend tags.");
    assert!(tags.contains(&"backend".to_string()));
    assert!(tags.contains(&"frontend".to_string()));
}

#[test]
fn tag_test_ignore_code_block() {
    let md = "Normal #visible text\n\n```\n#ignored in code\n```\n";
    let tags = extract_inline_tags(md);
    assert!(tags.contains(&"visible".to_string()));
    assert!(!tags.contains(&"ignored".to_string()));
}

#[test]
fn tag_test_ignore_inline_code() {
    let tags = extract_inline_tags("Normal #visible and `#ignored` code.");
    assert!(tags.contains(&"visible".to_string()));
    assert!(!tags.contains(&"ignored".to_string()));
}

#[test]
fn test_ignore_pure_numeric() {
    let tags = extract_inline_tags("Issue #123 and #valid-tag");
    assert!(!tags.contains(&"123".to_string()));
    assert!(tags.contains(&"valid-tag".to_string()));
}

#[test]
fn test_case_insensitive_dedup() {
    let tags = extract_inline_tags("Both #Backend and #backend here.");
    assert_eq!(tags, vec!["backend".to_string()]);
}

// ── further cases ────────────────────────────────────────────────────

#[test]
fn split_gives_back_the_written_body() {
    let mut f = make_fragment("Plain", "\n\nfirst line\nsecond");
    f.tags = vec!["x".to_string()];
    let text = serialize_fragment(&f);
    let (fm, body) = split_frontmatter(&text).unwrap();
    assert!(fm.starts_with("id: "));
    assert_eq!(body, "\nfirst line\nsecond");
}

#[test]
fn split_refuses_text_without_frontmatter() {
    assert!(matches!(split_frontmatter("no frontmatter"), Err(ParcError::ValidationError(m)) if m == "fragment must start with YAML frontmatter (---)"));
    assert!(matches!(split_frontmatter("---\nid: x\n"), Err(ParcError::ValidationError(m)) if m == "no closing --- for frontmatter"));
}

#[test]
fn new_ids_are_ulids() {
    let id = new_id();
    assert_eq!(id.len(), 26);
    assert!(id.chars().all(|c| c.is_ascii_digit() || c.is_ascii_uppercase()));
}

#[test]
fn vault_size_warning_above_500_mib() {
    assert!(check_vault_size(500 * 1024 * 1024).is_empty());
    let f = check_vault_size(500 * 1024 * 1024 + 1);
    assert_eq!(f.len(), 1);
    assert!(matches!(f[0], DoctorFinding::VaultSizeWarning { total_bytes } if total_bytes == 524288001));
}

#[test]
fn plugin_findings_name_the_plugin() {
    let plugins = vec![
        PluginStatus { name: "ok".into(), validation: Ok(()), wasm_path: "ok.wasm".into(), wasm_exists: true },
        PluginStatus { name: "gone".into(), validation: Ok(()), wasm_path: "/v/gone.wasm".into(), wasm_exists: false },
        PluginStatus {
            name: "bad".into(),
            validation: Err(ParcError::PluginError("invalid hook event: x".into())),
            wasm_path: "bad.wasm".into(),
            wasm_exists: true,
        },
    ];
    let f = check_plugins(&plugins);
    assert_eq!(f.len(), 2);
    assert!(matches!(&f[0], DoctorFinding::PluginIssue { plugin_name, detail } if plugin_name == "gone" && detail == "wasm file not found: /v/gone.wasm"));
    assert!(matches!(&f[1], DoctorFinding::PluginIssue { plugin_name, detail } if plugin_name == "bad" && detail == "plugin error: invalid hook event: x"));
}

#[test]
fn missing_timestamps_read_as_the_given_time() {
    let now = Timestamp::parse_rfc3339("2026-03-01T08:00:00Z").unwrap();
    let text = "---\nid: 01ABC\ntype: note\ntitle: Plain\ncreated_at: 2026-02-21T10:30:00Z\n---\nBody\n";
    let f = parse_fragment_at(text, now).unwrap();
    assert_eq!(f.updated_at, now);
    assert_eq!(f.created_at, Timestamp::parse_rfc3339("2026-02-21T10:30:00Z").unwrap());
    assert_eq!(f.title, "Plain");
    assert!(parse_fragment_at("no frontmatter", now).is_err());
}
