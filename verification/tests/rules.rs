use parc::attachment::validate_attachment_filename;
use parc::hook::HookEvent;
use parc::plugin::{validate_manifest_metadata, PluginCapabilities, PluginManifest, PluginMeta};
use parc::tag::{extract_inline_tags, merge_tags};

#[test]
fn test_validate_attachment_filename() {
    assert!(validate_attachment_filename("ok.txt").is_ok());
    assert!(validate_attachment_filename("with space.png").is_ok());
    assert!(validate_attachment_filename("").is_err());
    assert!(validate_attachment_filename(".").is_err());
    assert!(validate_attachment_filename("..").is_err());
    assert!(validate_attachment_filename("../sibling.txt").is_err());
    assert!(validate_attachment_filename("a/b.txt").is_err());
    assert!(validate_attachment_filename("a\\b.txt").is_err());
}

#[test]
fn test_hook_event_prefix() {
    assert_eq!(HookEvent::PreCreate.prefix(), "pre-create");
    assert_eq!(HookEvent::PostCreate.prefix(), "post-create");
    assert_eq!(HookEvent::PreUpdate.prefix(), "pre-update");
    assert_eq!(HookEvent::PostUpdate.prefix(), "post-update");
    assert_eq!(HookEvent::PreDelete.prefix(), "pre-delete");
    assert_eq!(HookEvent::PostDelete.prefix(), "post-delete");
}

#[test]
fn test_validate_manifest_rejects_path_traversal() {
    let manifest = PluginManifest {
        plugin: PluginMeta {
            name: "../evil".into(),
            version: "0.1.0".into(),
            description: "".into(),
            wasm: "../evil.wasm".into(),
        },
        capabilities: PluginCapabilities::default(),
    };
    assert!(validate_manifest_metadata(&manifest).is_err());
}

#[test]
fn test_capability_hook_filtering() {
    let manifest = PluginManifest {
        plugin: PluginMeta {
            name: "test".into(),
            version: "0.1.0".into(),
            description: "".into(),
            wasm: "test.wasm".into(),
        },
        capabilities: PluginCapabilities {
            hooks: vec!["post-create".into()],
            render: vec!["note".into()],
            validate: vec!["*".into()],
            ..Default::default()
        },
    };

    assert!(manifest.capabilities.allows_hook("post-create"));
    assert!(!manifest.capabilities.allows_hook("pre-create"));
    assert!(!manifest.capabilities.allows_hook("post-update"));

    assert!(manifest.capabilities.allows_render("note"));
    assert!(!manifest.capabilities.allows_render("todo"));

    assert!(manifest.capabilities.allows_validate("note"));
    assert!(manifest.capabilities.allows_validate("todo"));
    assert!(manifest.capabilities.allows_validate("anything"));
}

#[test]
fn test_merge_tags() {
    let frontmatter = vec!["backend".to_string(), "Search".to_string()];
    let inline = vec!["backend".to_string(), "newone".to_string()];
    let merged = merge_tags(&frontmatter, &inline);
    assert_eq!(merged, vec!["backend", "search", "newone"]);
}

// ── further cases ────────────────────────────────────────────────────

#[test]
fn manifest_with_plain_names_is_accepted() {
    let manifest = PluginManifest {
        plugin: PluginMeta {
            name: "echo".into(),
            version: "0.1.0".into(),
            description: "".into(),
            wasm: "echo.wasm".into(),
        },
        capabilities: PluginCapabilities::default(),
    };
    assert!(validate_manifest_metadata(&manifest).is_ok());
}

#[test]
fn test_ignore_link_fragment() {
    let tags = extract_inline_tags("Click [here](#section) for more. And #real-tag.");
    assert!(!tags.contains(&"section".to_string()));
    assert!(tags.contains(&"real-tag".to_string()));
}

#[test]
fn merge_tags_lowercases_and_dedups_inline() {
    let merged = merge_tags(&["A".to_string(), "a".to_string()], &["B".to_string(), "b".to_string()]);
    assert_eq!(merged, vec!["a", "b"]);
}
