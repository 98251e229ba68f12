use parc::error::ParcError;
use parc::vault::{
    discover_vault_from, fragment_count, fragment_ids_from, gitignore_change, gitignore_entry,
    resolve_global_vault, validate_safe_vault, vault_path_for, vault_scope, vaults_to_report, Ancestor,
    GitignoreChange, VaultCandidate, VaultScope,
};

fn cand(path: &str, is_vault: bool) -> VaultCandidate {
    VaultCandidate { path: path.to_string(), is_vault }
}

#[test]
fn vault_path_appends_parc_once() {
    assert_eq!(vault_path_for("/home/a/proj"), "/home/a/proj/.parc");
    assert_eq!(vault_path_for("/home/a/proj/.parc"), "/home/a/proj/.parc");
}

#[test]
fn nearest_local_vault_shadows_global() {
    let local = vec![cand("/a/b/.parc", false), cand("/a/.parc", true), cand("/.parc", true)];
    let r = discover_vault_from("/a/b", &local, Ok(cand("/home/u/.parc", true)));
    assert_eq!(r.unwrap(), "/a/.parc");
}

#[test]
fn global_vault_is_the_fallback() {
    let local = vec![cand("/a/.parc", false), cand("/.parc", false)];
    assert_eq!(discover_vault_from("/a", &local, Ok(cand("/home/u/.parc", true))).unwrap(), "/home/u/.parc");
    let r = discover_vault_from("/a", &local, Ok(cand("/home/u/.parc", false)));
    assert!(matches!(r, Err(ParcError::VaultNotFound(p)) if p == "/a"));
    let r = discover_vault_from("/a", &local, Err(ParcError::Io("HOME directory not found".into())));
    assert!(matches!(r, Err(ParcError::Io(m)) if m == "HOME directory not found"));
}

#[test]
fn global_vault_must_exist() {
    assert_eq!(resolve_global_vault(Ok(cand("/h/.parc", true))).unwrap(), "/h/.parc");
    assert!(matches!(resolve_global_vault(Ok(cand("/h/.parc", false))), Err(ParcError::VaultNotFound(p)) if p == "/h/.parc"));
}

#[test]
fn scope_and_report() {
    assert_eq!(vault_scope("/h/.parc", Some("/h/.parc")), VaultScope::Global);
    assert_eq!(vault_scope("/p/.parc", Some("/h/.parc")), VaultScope::Local);
    assert_eq!(vault_scope("/p/.parc", None), VaultScope::Local);
    assert_eq!(VaultScope::Global.name(), "global");
    assert_eq!(
        vaults_to_report(Some("/p/.parc".into()), "/h/.parc".into(), true),
        vec!["/p/.parc", "/h/.parc"]
    );
    assert_eq!(vaults_to_report(Some("/h/.parc".into()), "/h/.parc".into(), true), vec!["/h/.parc"]);
    assert_eq!(vaults_to_report(None, "/h/.parc".into(), false), Vec::<String>::new());
}

#[test]
fn fragment_files_are_counted_and_sorted() {
    let names = vec!["B.md".to_string(), "notes.txt".to_string(), "A.md".to_string(), "dir".to_string()];
    assert_eq!(fragment_count(&names), 2);
    assert_eq!(fragment_ids_from(&names), vec!["A", "B"]);
}

#[test]
fn unsafe_ancestors_are_refused() {
    let uid = 1000;
    let safe = vec![
        Ancestor { path: "/home/u/p/.parc".into(), owner: uid, mode: 0o700 },
        Ancestor { path: "/home/u/p".into(), owner: uid, mode: 0o755 },
        Ancestor { path: "/home/u".into(), owner: uid, mode: 0o755 },
    ];
    assert!(validate_safe_vault("/home/u/p/.parc", &safe, uid, Some("/home/u")).is_ok());

    let world = vec![
        Ancestor { path: "/tmp/x/.parc".into(), owner: uid, mode: 0o700 },
        Ancestor { path: "/tmp/x".into(), owner: uid, mode: 0o777 },
    ];
    let r = validate_safe_vault("/tmp/x/.parc", &world, uid, None);
    assert!(matches!(r, Err(ParcError::ValidationError(m)) if m == "refusing unsafe vault '/tmp/x/.parc': ancestor '/tmp/x' is not owner-controlled"));

    let sticky_tmp = vec![
        Ancestor { path: "/tmp/x/.parc".into(), owner: uid, mode: 0o700 },
        Ancestor { path: "/tmp".into(), owner: 0, mode: 0o1777 },
        Ancestor { path: "/".into(), owner: 0, mode: 0o755 },
    ];
    assert!(validate_safe_vault("/tmp/x/.parc", &sticky_tmp, uid, None).is_ok());

    let other_user = vec![
        Ancestor { path: "/srv/v/.parc".into(), owner: uid, mode: 0o700 },
        Ancestor { path: "/srv/v".into(), owner: 2000, mode: 0o755 },
    ];
    assert!(validate_safe_vault("/srv/v/.parc", &other_user, uid, None).is_err());
}

#[test]
fn gitignore_lines() {
    assert!(matches!(gitignore_change(None, ".parc/index.db"), GitignoreChange::Create(t) if t == ".parc/index.db\n"));
    assert!(matches!(gitignore_change(Some("a\n  .parc/index.db  \n"), ".parc/index.db"), GitignoreChange::Keep));
    assert!(matches!(gitignore_change(Some("a"), ".parc/index.db"), GitignoreChange::Append(t) if t == "\n.parc/index.db\n"));
    assert!(matches!(gitignore_change(Some("a\n"), ".parc/index.db"), GitignoreChange::Append(t) if t == ".parc/index.db\n"));
    assert_eq!(gitignore_entry("/repo/sub/.parc", "/repo"), "sub/.parc/index.db");
    assert_eq!(gitignore_entry("/elsewhere/.parc", "/repo"), "/elsewhere/.parc/index.db");
}
