use parc::error::ParcError;
use parc::hook::{trusted_hooks, HookEvent, HookMeta, HookScript};
use parc::schema::{plan_schema_add, FieldDef, FieldType, Schema, SchemaRegistry};

fn script(path: &str) -> HookScript {
    HookScript { path: path.into(), event: HookEvent::PreCreate, type_filter: None }
}

fn ok_meta(mode: u32) -> Result<HookMeta, ParcError> {
    Ok(HookMeta { is_symlink: false, is_file: true, owner: 1000, mode })
}

#[test]
fn hooks_run_only_when_enabled() {
    let hooks = vec![script("/v/hooks/pre-create")];
    let r = trusted_hooks(false, hooks, vec![ok_meta(0o700)], 1000).unwrap();
    assert!(r.is_empty());
    let hooks = vec![script("/v/hooks/pre-create"), script("/v/hooks/pre-create.todo")];
    let r = trusted_hooks(true, hooks, vec![ok_meta(0o700), ok_meta(0o755)], 1000).unwrap();
    assert_eq!(r.len(), 2);
    assert_eq!(r[1].path, "/v/hooks/pre-create.todo");
}

#[test]
fn first_untrusted_hook_refuses_all() {
    let hooks = vec![script("/v/hooks/a"), script("/v/hooks/b"), script("/v/hooks/c")];
    let metas = vec![ok_meta(0o700), ok_meta(0o720), Err(ParcError::Io("gone".into()))];
    let e = trusted_hooks(true, hooks, metas, 1000).unwrap_err();
    assert_eq!(e, ParcError::ValidationError("refusing to run group/world-writable hook '/v/hooks/b'".into()));
    let hooks = vec![script("/v/hooks/a"), script("/v/hooks/b")];
    let metas = vec![Err(ParcError::Io("gone".into())), ok_meta(0o720)];
    assert_eq!(trusted_hooks(true, hooks, metas, 1000).unwrap_err(), ParcError::Io("gone".into()));
    let hooks = vec![script("/v/hooks/a")];
    let symlink = Ok(HookMeta { is_symlink: true, is_file: false, owner: 1000, mode: 0o700 });
    assert_eq!(
        trusted_hooks(true, hooks, vec![symlink], 1000).unwrap_err(),
        ParcError::ValidationError("refusing to run symlinked hook '/v/hooks/a'".into())
    );
    let hooks = vec![script("/v/hooks/a")];
    assert_eq!(
        trusted_hooks(true, hooks, vec![ok_meta(0o600)], 1000).unwrap_err(),
        ParcError::ValidationError("refusing to run hook '/v/hooks/a' without owner execute permission".into())
    );
}

fn schema(name: &str) -> Schema {
    Schema {
        name: name.into(),
        alias: None,
        editor_skip: false,
        fields: vec![FieldDef { name: "x".into(), field_type: FieldType::String, required: false, default: None }],
    }
}

#[test]
fn adding_a_schema() {
    let reg = SchemaRegistry::new(vec![schema("note")]);
    let a = plan_schema_add(&schema("meeting"), &reg).unwrap();
    assert_eq!(a.schema_file, "meeting.yml");
    assert_eq!(a.template_file, "meeting.md");
    assert_eq!(a.template, "---\ntype: meeting\ntitle: \"\"\n---\n\n");
    assert_eq!(
        plan_schema_add(&schema("note"), &reg).unwrap_err(),
        ParcError::ValidationError("schema 'note' already exists in vault".into())
    );
    assert_eq!(
        plan_schema_add(&schema("../config"), &reg).unwrap_err(),
        ParcError::ValidationError("schema name '../config' must start with a letter".into())
    );
}
