use parc::config::{config_from_raw, get_editor, plugin_config_json, ColorMode, Config, DateFormat, RawConfig, RawResurfacing};
use parc::error::ParcError;
use parc::export::{csv_escape, export_csv, export_html, html_escape};
use parc::fragment::Fragment;
use parc::fuzzy::{hit_count, title_match_indices, FuzzyItem};
use parc::history::{diff_texts, pick_version, sort_versions, VersionEntry};
use parc::hook::{check_hook_script, discover_hooks, is_safe_type_filter, run_pre_hooks, HookEvent, HookRunner, HookScript};
use parc::import::{import_result, prepare_import_json, ImportStatus, PreparedImport};
use parc::index::{index_row, index_tags};
use parc::json::JsonValue;
use parc::plugin::{
    guest_range, list_commands, plugin_manifest_filename, resolve_plugin_wasm_path, tag_validation_errors,
    PluginCapabilities, PluginManifest, PluginMeta,
};
use parc::schema::{parse_field_type, validate_schema_name, FieldType};
use parc::time::Timestamp;

fn stamp() -> Timestamp {
    Timestamp::parse_rfc3339("2026-02-21T10:30:00Z").unwrap()
}

fn todo(id: &str, title: &str, body: &str) -> Fragment {
    Fragment {
        id: id.to_string(),
        fragment_type: "todo".to_string(),
        title: title.to_string(),
        tags: vec!["Backend".to_string()],
        links: Vec::new(),
        attachments: vec!["a.png".to_string()],
        created_at: stamp(),
        updated_at: stamp(),
        created_by: None,
        extra_fields: vec![("status".to_string(), JsonValue::String("open".to_string()))],
        body: body.to_string(),
    }
}

#[test]
fn csv_quotes_only_when_needed() {
    assert_eq!(csv_escape("plain"), "plain");
    assert_eq!(csv_escape("a,b"), "\"a,b\"");
    assert_eq!(csv_escape("say \"hi\""), "\"say \"\"hi\"\"\"");
    assert_eq!(csv_escape("two\nlines"), "\"two\nlines\"");
}

#[test]
fn csv_rows_carry_merged_tags_and_fields() {
    let out = export_csv(&[todo("01ABCDEFGH", "Fix, now", "See #ops")]).unwrap();
    assert_eq!(
        out,
        "id,type,title,tags,status,priority,due,created_at,updated_at\n01ABCDEFGH,todo,\"Fix, now\",backend;ops,open,,,2026-02-21T10:30:00+00:00,2026-02-21T10:30:00+00:00\n"
    );
}

#[test]
fn html_escapes_and_pages() {
    assert_eq!(html_escape("<a & \"b\">"), "&lt;a &amp; &quot;b&quot;&gt;");
    let files = export_html(&[todo("01ABCDEFGH", "A <b>", "hi")]).unwrap();
    assert_eq!(files.len(), 2);
    assert_eq!(files[0].0, "01ABCDEF.html");
    assert!(files[0].1.contains("<h1>A &lt;b&gt;</h1>"));
    assert!(files[0].1.contains("<p>hi</p>"));
    assert_eq!(files[1].0, "index.html");
    assert!(files[1].1.contains("<li><a href=\"01ABCDEF.html\">A &lt;b&gt;</a> (todo)</li>"));
}

#[test]
fn import_keeps_new_ids_and_refuses_untyped_entries() {
    let json = r#"[
        {"id": "01KEEP", "type": "note", "title": "Kept", "tags": ["a", 3, "b"], "body": "x"},
        {"id": "01TAKEN", "type": "note", "title": "Renamed"},
        {"title": "No type"},
        7
    ]"#;
    let existing = vec!["01TAKEN".to_string()];
    let prepared = prepare_import_json(json, &existing).unwrap();
    assert_eq!(prepared.len(), 4);
    match &prepared[0] {
        PreparedImport::Fragment(f) => {
            assert_eq!(f.id, "01KEEP");
            assert_eq!(f.tags, vec!["a", "b"]);
            assert_eq!(f.body, "x");
        }
        _ => panic!("first entry should be imported"),
    }
    match &prepared[1] {
        PreparedImport::Fragment(f) => {
            assert_ne!(f.id, "01TAKEN");
            assert_eq!(f.id.len(), 26);
        }
        _ => panic!("second entry should be imported"),
    }
    assert!(matches!(&prepared[2], PreparedImport::Refused(r) if r.title == "No type" && matches!(&r.status, ImportStatus::Error(m) if m == "missing 'type' field")));
    assert!(matches!(&prepared[3], PreparedImport::Refused(r) if matches!(&r.status, ImportStatus::Error(m) if m == "entry is not an object")));
    assert!(matches!(prepare_import_json("not json", &existing), Err(ParcError::ParseError(_))));
    let r = import_result(&todo("01X", "T", ""), Some("disk full".to_string()));
    assert!(matches!(r.status, ImportStatus::Error(ref m) if m == "disk full"));
}

#[test]
fn versions_newest_first_and_picked() {
    let v = |t: &str| VersionEntry { timestamp: t.to_string(), path: format!("h/{}.md", t), size: 1 };
    let sorted = sort_versions(vec![v("2026-01-01T00-00-00"), v("2026-03-01T00-00-00"), v("2026-02-01T00-00-00")]);
    let ts: Vec<&str> = sorted.iter().map(|e| e.timestamp.as_str()).collect();
    assert_eq!(ts, vec!["2026-03-01T00-00-00", "2026-02-01T00-00-00", "2026-01-01T00-00-00"]);
    assert_eq!(pick_version(None, &sorted).unwrap(), "2026-03-01T00-00-00");
    assert_eq!(pick_version(Some("x"), &sorted).unwrap(), "x");
    assert!(matches!(pick_version(None, &[]), Err(ParcError::ValidationError(m)) if m == "no history versions available"));
}

#[test]
fn diff_shows_changed_lines() {
    let d = diff_texts("01ABCDEFGHIJ", "2026-01-01", "a\nb\nc\n", "a\nB\nc\n");
    assert_eq!(d, "--- 01ABCDEF (2026-01-01)\n+++ 01ABCDEF (current)\n@@ -1,3 +1,3 @@ a\n-b\n+B\n c\n");
}

struct Upcase;

impl HookRunner for Upcase {
    fn run_pre_hook(&self, _script: &HookScript, fragment: &Fragment) -> Result<Option<Fragment>, ParcError> {
        if fragment.title == "stop" {
            return Err(ParcError::ValidationError("refused".into()));
        }
        let mut f = todo(&fragment.id, &fragment.title.to_uppercase(), &fragment.body);
        f.tags = fragment.tags.clone();
        Ok(Some(f))
    }
    fn run_post_hook(&self, _script: &HookScript, _fragment: &Fragment) -> Result<(), ParcError> {
        Ok(())
    }
}

#[test]
fn hooks_found_and_run_in_order() {
    let entries = vec!["pre-create".to_string(), "pre-create.todo".to_string(), "post-create".to_string()];
    let hooks = discover_hooks("/v/hooks", HookEvent::PreCreate, "todo", &entries);
    assert_eq!(hooks.len(), 2);
    assert_eq!(hooks[0].path, "/v/hooks/pre-create");
    assert_eq!(hooks[1].path, "/v/hooks/pre-create.todo");
    assert_eq!(hooks[1].type_filter.as_deref(), Some("todo"));
    assert!(discover_hooks("/v/hooks", HookEvent::PreCreate, "../x", &entries).len() == 1);
    assert!(is_safe_type_filter("my_type-2") && !is_safe_type_filter("a/b") && !is_safe_type_filter(""));
    let out = run_pre_hooks(&Upcase, &hooks, todo("01X", "quiet", "")).unwrap();
    assert_eq!(out.title, "QUIET");
    assert!(run_pre_hooks(&Upcase, &hooks, todo("01X", "stop", "")).is_err());
    assert!(check_hook_script("/v/hooks/pre-create", false, true, 1000, 1000, 0o700).is_ok());
    assert!(check_hook_script("/v/hooks/pre-create", true, true, 1000, 1000, 0o700).is_err());
    assert!(check_hook_script("/v/hooks/pre-create", false, true, 1000, 1000, 0o722).is_err());
    assert!(check_hook_script("/v/hooks/pre-create", false, true, 1001, 1000, 0o700).is_err());
}

#[test]
fn config_settings_replace_defaults() {
    let raw = RawConfig {
        user: Some("alice".into()),
        editor: None,
        default_tags: vec![],
        date_format: "iso".into(),
        id_display_length: 12,
        color: "sometimes".into(),
        aliases: vec![],
        history_enabled: Some(false),
        hooks_enabled: Some(true),
        server: None,
        resurfacing: Some(RawResurfacing { stale_days: Some(7), review_window: None, today_section_limit: None }),
        plugins: vec![("echo".into(), "{\"x\":1}".into())],
    };
    let c = config_from_raw(raw);
    assert_eq!(c.user.as_deref(), Some("alice"));
    assert_eq!(c.date_format, DateFormat::Iso);
    assert_eq!(c.color, ColorMode::Auto);
    assert_eq!(c.id_display_length, 12);
    assert!(!c.history_enabled);
    assert!(c.hooks.enabled);
    assert!(!Config::default().hooks.enabled);
    assert_eq!(c.resurfacing.stale_days, 7);
    assert_eq!(c.resurfacing.review_window, "this-week");
    assert_eq!(c.server.transport, "stdio");
    assert_eq!(c.aliases.len(), 5);
    assert_eq!(plugin_config_json(&c, "echo"), "{\"x\":1}");
    assert_eq!(plugin_config_json(&c, "other"), "{}");
    assert_eq!(get_editor(&c, Some("nano".into())), "nano");
    assert_eq!(get_editor(&c, None), "vim");
    let mut d = Config::default();
    d.editor = Some("code".into());
    assert_eq!(get_editor(&d, Some("nano".into())), "code");
}

#[test]
fn fuzzy_helpers() {
    let item = FuzzyItem {
        id: "1".into(),
        title: "héllo".into(),
        body: "world".into(),
        fragment_type: "note".into(),
        status: None,
        tags: vec![],
        created_at: String::new(),
        updated_at: String::new(),
    };
    assert_eq!(item.haystack(), "héllo\nworld");
    assert_eq!(item.title_char_count(), 5);
    assert_eq!(title_match_indices(&[7, 1, 4, 1, 5], 5), vec![1, 4]);
    assert_eq!(hit_count(10, 3), 3);
    assert_eq!(hit_count(2, 3), 2);
}

fn manifest(name: &str, wasm: &str, cli: Vec<&str>) -> PluginManifest {
    PluginManifest {
        plugin: PluginMeta { name: name.into(), version: "0.1.0".into(), description: "d".into(), wasm: wasm.into() },
        capabilities: PluginCapabilities { extend_cli: cli.into_iter().map(String::from).collect(), ..Default::default() },
    }
}

#[test]
fn plugin_paths_commands_and_ranges() {
    assert_eq!(plugin_manifest_filename("echo").unwrap(), "echo.toml");
    assert!(plugin_manifest_filename("../x").is_err());
    assert_eq!(resolve_plugin_wasm_path(&manifest("echo", "echo.wasm", vec![]), "/v/plugins").unwrap(), "/v/plugins/echo.wasm");
    assert!(resolve_plugin_wasm_path(&manifest("echo", "../echo.wasm", vec![]), "/v/plugins").is_err());
    let cmds = list_commands(&[manifest("a", "a.wasm", vec!["x", "y"]), manifest("b", "b.wasm", vec!["z"])]);
    let names: Vec<(&str, &str)> = cmds.iter().map(|c| (c.plugin_name.as_str(), c.command.as_str())).collect();
    assert_eq!(names, vec![("a", "x"), ("a", "y"), ("b", "z")]);
    assert_eq!(tag_validation_errors("p", &["bad".to_string()]), vec!["[p] bad"]);
    assert_eq!(guest_range(4, 6, 10), Some((4, 10)));
    assert_eq!(guest_range(5, 6, 10), None);
    assert_eq!(guest_range(-1, 2, 10), None);
    assert_eq!(guest_range(0, -2, 10), None);
}

#[test]
fn schema_words() {
    assert!(matches!(parse_field_type("date", vec![]), FieldType::Date));
    assert!(matches!(parse_field_type("enum", vec!["a".into()]), FieldType::Enum(v) if v == vec!["a"]));
    assert!(matches!(parse_field_type("list", vec![]), FieldType::ListOfStrings));
    assert!(matches!(parse_field_type("whatever", vec![]), FieldType::String));
    assert!(validate_schema_name("my-type").is_ok());
    assert!(validate_schema_name("../evil").is_err());
}

#[test]
fn index_rows_hold_what_search_reads() {
    let f = todo("01ABCDEFGH", "T", "#ops here");
    let row = index_row(&f);
    assert_eq!(row.status.as_deref(), Some("open"));
    assert_eq!(row.priority, None);
    assert_eq!(row.attachment_count, 1);
    assert_eq!(row.created_at, "2026-02-21T10:30:00+00:00");
    let (tags, joined) = index_tags(&f);
    assert_eq!(tags, vec!["backend", "ops"]);
    assert_eq!(joined, "backend ops");
}
