use parc::link::{
    merge_links, parse_wiki_links, resolve_link_target, resolve_prefix, FragmentRef,
    ResolveOutcome, WikiLink,
};

#[test]
fn test_simple_link() {
    let links = parse_wiki_links("See [[01JQ7V4Y]] for details.");
    assert_eq!(links.len(), 1);
    assert_eq!(links[0].target, "01JQ7V4Y");
    assert_eq!(links[0].display_text, None);
}

#[test]
fn test_link_with_display_text() {
    let links = parse_wiki_links("See [[01JQ7V4Y|Decision about SQLite]] for details.");
    assert_eq!(links.len(), 1);
    assert_eq!(links[0].target, "01JQ7V4Y");
    assert_eq!(links[0].display_text, Some("Decision about SQLite".to_string()));
}

#[test]
fn test_multiple_links() {
    let links = parse_wiki_links("Link [[AAA]] and [[BBB|text]] here.");
    assert_eq!(links.len(), 2);
    assert_eq!(links[0].target, "AAA");
    assert_eq!(links[1].target, "BBB");
}

#[test]
fn link_test_ignore_code_block() {
    let md = "Normal [[VISIBLE]] text\n\n```\n[[IGNORED]] in code\n```\n";
    let links = parse_wiki_links(md);
    assert_eq!(links.len(), 1);
    assert_eq!(links[0].target, "VISIBLE");
}

#[test]
fn link_test_ignore_inline_code() {
    let links = parse_wiki_links("Normal [[VISIBLE]] and `[[IGNORED]]` code.");
    assert_eq!(links.len(), 1);
    assert_eq!(links[0].target, "VISIBLE");
}

#[test]
fn test_empty_link_ignored() {
    let links = parse_wiki_links("Empty [[]] link.");
    assert_eq!(links.len(), 0);
}

#[test]
fn test_dedup_same_target() {
    let links = parse_wiki_links("Link [[AAA]] and again [[AAA|other text]].");
    assert_eq!(links.len(), 1);
    assert_eq!(links[0].target, "AAA");
}

#[test]
fn test_dedup_case_insensitive() {
    let links = parse_wiki_links("Link [[aaa]] and [[AAA]].");
    assert_eq!(links.len(), 1);
}

#[test]
fn test_merge_links() {
    let fm = vec!["FULL_ID_A".to_string(), "FULL_ID_B".to_string()];
    let body = vec![
        WikiLink { target: "PREFIX_C".to_string(), display_text: None },
        WikiLink { target: "PREFIX_A".to_string(), display_text: None },
    ];
    let merged = merge_links(&fm, &body, |prefix| match prefix {
        "PREFIX_C" => Some("FULL_ID_C".to_string()),
        "PREFIX_A" => Some("FULL_ID_A".to_string()),
        _ => None,
    });
    assert_eq!(merged, vec!["FULL_ID_A", "FULL_ID_B", "FULL_ID_C"]);
}

#[test]
fn test_merge_links_unresolvable_skipped() {
    let fm = vec!["FULL_ID_A".to_string()];
    let body = vec![WikiLink { target: "UNKNOWN".to_string(), display_text: None }];
    let merged = merge_links(&fm, &body, |_| None);
    assert_eq!(merged, vec!["FULL_ID_A"]);
}

fn two_candidates() -> Vec<FragmentRef> {
    vec![
        FragmentRef {
            id: "01JQ7V3XKP5GQZ2N8R6T1WBMVH".to_string(),
            title: "Auth refactor".to_string(),
        },
        FragmentRef {
            id: "01JQ7V4YAB1234567890ABCDEF".to_string(),
            title: "Database notes".to_string(),
        },
    ]
}

#[test]
fn test_resolve_link_target_id_prefix() {
    let candidates = two_candidates();
    assert_eq!(
        resolve_link_target("01jq7v3x", &candidates),
        ResolveOutcome::Unique("01JQ7V3XKP5GQZ2N8R6T1WBMVH".to_string())
    );
    assert!(matches!(
        resolve_link_target("01JQ7V", &candidates),
        ResolveOutcome::Ambiguous(matches) if matches.len() == 2
    ));
}

#[test]
fn test_resolve_link_target_title_exact_and_prefix() {
    let candidates = two_candidates();
    assert_eq!(
        resolve_link_target("auth REFACTOR", &candidates),
        ResolveOutcome::Unique("01JQ7V3XKP5GQZ2N8R6T1WBMVH".to_string())
    );
    assert_eq!(
        resolve_link_target("Database", &candidates),
        ResolveOutcome::Unique("01JQ7V4YAB1234567890ABCDEF".to_string())
    );
    assert_eq!(resolve_link_target("notes", &candidates), ResolveOutcome::NotFound);
}

#[test]
fn test_resolve_prefix() {
    let ids = vec![
        "01JQ7V3XKP5GQZ2N8R6T1WBMVH".to_string(),
        "01JQ7V4YAB1234567890ABCDEF".to_string(),
    ];
    assert_eq!(
        resolve_prefix("01JQ7V3X", &ids),
        Some("01JQ7V3XKP5GQZ2N8R6T1WBMVH".to_string())
    );
    assert_eq!(resolve_prefix("01JQ7V", &ids), None);
    assert_eq!(resolve_prefix("ZZZZZ", &ids), None);
}

// ── further cases ────────────────────────────────────────────────────

#[test]
fn resolve_prefix_is_case_insensitive() {
    let ids = vec!["01JQ7V3XKP5GQZ2N8R6T1WBMVH".to_string()];
    assert_eq!(
        resolve_prefix("01jq7v3x", &ids),
        Some("01JQ7V3XKP5GQZ2N8R6T1WBMVH".to_string())
    );
}

#[test]
fn resolve_link_target_blank_is_not_found() {
    let candidates = two_candidates();
    assert_eq!(resolve_link_target("   ", &candidates), ResolveOutcome::NotFound);
}

#[test]
fn resolve_link_target_title_prefix_ambiguous() {
    let candidates = vec![
        FragmentRef { id: "A1".to_string(), title: "Plan alpha".to_string() },
        FragmentRef { id: "B2".to_string(), title: "Plan beta".to_string() },
    ];
    assert!(matches!(
        resolve_link_target("plan", &candidates),
        ResolveOutcome::Ambiguous(m) if m.len() == 2
    ));
}

#[test]
fn wiki_link_display_text_is_trimmed_and_unclosed_ignored() {
    let links = parse_wiki_links("A [[ X1 | shown ]] and [[never closed");
    assert_eq!(links.len(), 1);
    assert_eq!(links[0].target, "X1");
    assert_eq!(links[0].display_text, Some("shown".to_string()));
}

#[test]
fn merge_links_frontmatter_first_no_duplicates() {
    let fm = vec!["B".to_string(), "A".to_string(), "B".to_string()];
    let body = vec![
        WikiLink { target: "x".to_string(), display_text: None },
        WikiLink { target: "y".to_string(), display_text: None },
    ];
    let merged = merge_links(&fm, &body, |p| match p {
        "x" => Some("C".to_string()),
        "y" => Some("A".to_string()),
        _ => None,
    });
    assert_eq!(merged, vec!["B", "A", "C"]);
}
