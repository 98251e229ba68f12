//! Plugin manifests: capabilities and the rules a manifest must obey.

use vstd::prelude::*;

use crate::error::ParcError;
use crate::text::{
    all_ident_chars, all_ident_chars_exec, char_is_ascii_alnum, chars_of, concat3, ends_with,
    eq_str, has_suffix, is_ascii_alnum, join_path, join_path_exec, push_chars, push_decimal,
    push_str, string_of, utf8_len, decimal, lemma_ident_utf8_len,
};

verus! {

pub const MAX_PLUGIN_NAME_LEN: usize = 64;
pub const MAX_PLUGIN_CAPABILITY_NAME_LEN: usize = 64;

/// Plugin manifest parsed from a TOML file alongside the .wasm binary.
#[derive(Debug, Clone)]
pub struct PluginManifest {
    pub plugin: PluginMeta,
    pub capabilities: PluginCapabilities,
}

#[derive(Debug, Clone)]
pub struct PluginMeta {
    pub name: String,
    pub version: String,
    pub description: String,
    /// Path to .wasm file, relative to the manifest file's directory.
    pub wasm: String,
}

#[derive(Debug, Clone)]
pub struct PluginCapabilities {
    pub read_fragments: bool,
    pub write_fragments: bool,
    pub extend_cli: Vec<String>,
    pub hooks: Vec<String>,
    pub render: Vec<String>,
    pub validate: Vec<String>,
}

/// A discovered plugin: its manifest and where its files live.
#[derive(Debug, Clone)]
pub struct DiscoveredPlugin {
    pub manifest: PluginManifest,
    pub manifest_path: String,
    pub wasm_path: String,
}

/// `list` names `x` or holds the wildcard `*`.
pub open spec fn allows(list: Seq<String>, x: Seq<char>) -> bool {
    exists|i: int| 0 <= i < list.len() && (list[i]@ == x || list[i]@ == "*"@)
}

fn allows_exec(list: &Vec<String>, x: &str) -> (b: bool)
    ensures
        b == allows(list@, x@),
{
    let xc = chars_of(x);
    let mut i: usize = 0;
    while i < list.len()
        invariant
            i <= list.len(),
            xc@ == x@,
            forall|j: int| 0 <= j < i ==> !(list@[j]@ == x@ || list@[j]@ == "*"@),
        decreases list.len() - i,
    {
        let e = chars_of(list[i].as_str());
        if crate::text::eq_str_chars(&e, &xc) || eq_str(&e, "*") {
            return true;
        }
        i = i + 1;
    }
    false
}

impl Default for PluginCapabilities {
    /// No capabilities at all.
    fn default() -> (c: PluginCapabilities)
        ensures
            !c.read_fragments,
            !c.write_fragments,
            c.extend_cli@.len() == 0,
            c.hooks@.len() == 0,
            c.render@.len() == 0,
            c.validate@.len() == 0,
    {
        PluginCapabilities::new()
    }
}

impl PluginCapabilities {
    /// An empty capability set.
    pub fn new() -> (c: PluginCapabilities)
        ensures
            !c.read_fragments,
            !c.write_fragments,
            c.extend_cli@.len() == 0,
            c.hooks@.len() == 0,
            c.render@.len() == 0,
            c.validate@.len() == 0,
    {
        PluginCapabilities {
            read_fragments: false,
            write_fragments: false,
            extend_cli: Vec::new(),
            hooks: Vec::new(),
            render: Vec::new(),
            validate: Vec::new(),
        }
    }

    /// Check if this plugin wants to handle the given hook event.
    pub fn allows_hook(&self, event: &str) -> (b: bool)
        ensures
            b == allows(self.hooks@, event@),
    {
        allows_exec(&self.hooks, event)
    }

    /// Check if this plugin can render the given fragment type.
    pub fn allows_render(&self, kind_name: &str) -> (b: bool)
        ensures
            b == allows(self.render@, kind_name@),
    {
        allows_exec(&self.render, kind_name)
    }

    /// Check if this plugin can validate the given fragment type.
    pub fn allows_validate(&self, kind_name: &str) -> (b: bool)
        ensures
            b == allows(self.validate@, kind_name@),
    {
        allows_exec(&self.validate, kind_name)
    }
}

/// The message `validate_identifier` rejects a value with, if any.
pub open spec fn identifier_error(value: Seq<char>, label: Seq<char>, max_len: usize) -> Option<
    Seq<char>,
> {
    if value.len() == 0 || utf8_len(value) > max_len {
        Some(label + " must be 1-"@ + decimal(max_len as nat) + " characters"@)
    } else if !is_ascii_alnum(value[0]) {
        Some(label + " '"@ + value + "' must start with a letter or digit"@)
    } else if !all_ident_chars(value) {
        Some(label + " '"@ + value + "' must contain only letters, digits, '_' or '-'"@)
    } else {
        None
    }
}

/// Ok exactly when the spec gives no message; otherwise a plugin error carrying it.
pub open spec fn plugin_result(e: Option<Seq<char>>, r: Result<(), ParcError>) -> bool {
    match e {
        None => r is Ok,
        Some(m) => r matches Err(ParcError::PluginError(x)) && x@ == m,
    }
}

fn validate_identifier(value: &str, label: &str, max_len: usize) -> (r: Result<(), ParcError>)
    ensures
        plugin_result(identifier_error(value@, label@, max_len), r),
{
    let v = chars_of(value);
    let l = chars_of(label);
    if v.len() == 0 || crate::text::utf8_longer_than(&v, max_len) {
        let mut out: Vec<char> = Vec::new();
        push_chars(&mut out, &l);
        push_str(&mut out, " must be 1-");
        push_decimal(&mut out, max_len);
        push_str(&mut out, " characters");
        assert(out@ =~= label@ + " must be 1-"@ + decimal(max_len as nat) + " characters"@);
        return Err(ParcError::PluginError(string_of(&out)));
    }
    if !char_is_ascii_alnum(v[0]) {
        let mut out: Vec<char> = Vec::new();
        push_chars(&mut out, &l);
        push_str(&mut out, " '");
        push_chars(&mut out, &v);
        push_str(&mut out, "' must start with a letter or digit");
        assert(out@ =~= label@ + " '"@ + value@ + "' must start with a letter or digit"@);
        return Err(ParcError::PluginError(string_of(&out)));
    }
    if !all_ident_chars_exec(&v) {
        let mut out: Vec<char> = Vec::new();
        push_chars(&mut out, &l);
        push_str(&mut out, " '");
        push_chars(&mut out, &v);
        push_str(&mut out, "' must contain only letters, digits, '_' or '-'");
        assert(out@ =~= label@ + " '"@ + value@ + "' must contain only letters, digits, '_' or '-'"@);
        return Err(ParcError::PluginError(string_of(&out)));
    }
    Ok(())
}

/// The message a plugin name is rejected with, if any.
pub open spec fn plugin_name_error(name: Seq<char>) -> Option<Seq<char>> {
    identifier_error(name, "plugin name"@, MAX_PLUGIN_NAME_LEN)
}

fn validate_plugin_name(name: &str) -> (r: Result<(), ParcError>)
    ensures
        plugin_result(plugin_name_error(name@), r),
{
    validate_identifier(name, "plugin name", MAX_PLUGIN_NAME_LEN)
}

/// The message a capability name is rejected with, if any (`*` is always allowed).
pub open spec fn capability_filter_error(value: Seq<char>, label: Seq<char>) -> Option<Seq<char>> {
    if value == "*"@ {
        None
    } else {
        identifier_error(value, label, MAX_PLUGIN_CAPABILITY_NAME_LEN)
    }
}

fn validate_capability_filter(value: &str, label: &str) -> (r: Result<(), ParcError>)
    ensures
        plugin_result(capability_filter_error(value@, label@), r),
{
    let v = chars_of(value);
    if eq_str(&v, "*") {
        return Ok(());
    }
    validate_capability_name(value, label)
}

fn validate_capability_name(value: &str, label: &str) -> (r: Result<(), ParcError>)
    ensures
        plugin_result(identifier_error(value@, label@, MAX_PLUGIN_CAPABILITY_NAME_LEN), r),
{
    validate_identifier(value, label, MAX_PLUGIN_CAPABILITY_NAME_LEN)
}

/// The message a wasm file name is rejected with, if any: it must be a
/// plain file name (no separator, NUL, `.` or `..`) ending in `.wasm`
/// after a non-empty stem.
pub open spec fn wasm_filename_error(w: Seq<char>) -> Option<Seq<char>> {
    if w.len() == 0 {
        Some("plugin wasm path cannot be empty"@)
    } else if w.contains('/') || w.contains('\\') || w.contains('\0') {
        Some("plugin wasm '"@ + w + "' must be a file name, not a path"@)
    } else if w == "."@ || w == ".."@ {
        Some("invalid plugin wasm file name '"@ + w + "'"@)
    } else if !(has_suffix(w, ".wasm"@) && w.len() > 5) {
        Some("plugin wasm '"@ + w + "' must end with .wasm"@)
    } else {
        None
    }
}

fn validate_wasm_filename(wasm: &str) -> (r: Result<(), ParcError>)
    ensures
        plugin_result(wasm_filename_error(wasm@), r),
{
    proof {
        reveal_strlit(".wasm");
    }
    let w = chars_of(wasm);
    if w.len() == 0 {
        return Err(ParcError::PluginError(string_of(&chars_of("plugin wasm path cannot be empty"))));
    }
    if crate::text::contains_char(&w, '/') || crate::text::contains_char(&w, '\\')
        || crate::text::contains_char(&w, '\0') {
        return Err(
            ParcError::PluginError(concat3("plugin wasm '", &w, "' must be a file name, not a path")),
        );
    }
    if eq_str(&w, ".") || eq_str(&w, "..") {
        return Err(ParcError::PluginError(concat3("invalid plugin wasm file name '", &w, "'")));
    }
    if !(ends_with(&w, ".wasm") && w.len() > 5) {
        return Err(ParcError::PluginError(concat3("plugin wasm '", &w, "' must end with .wasm")));
    }
    Ok(())
}

/// The hook event names a manifest may list.
pub open spec fn is_valid_hook_name(h: Seq<char>) -> bool {
    ||| h == "pre-create"@
    ||| h == "post-create"@
    ||| h == "pre-update"@
    ||| h == "post-update"@
    ||| h == "pre-delete"@
    ||| h == "post-delete"@
    ||| h == "*"@
}

/// First failure among `list[k..]` under `f`.
pub open spec fn first_error(list: Seq<String>, k: int, label: Seq<char>, kind: u8) -> Option<
    Seq<char>,
>
    decreases list.len() - k,
{
    if 0 <= k < list.len() {
        let e = if kind == 0 {
            if is_valid_hook_name(list[k]@) {
                None
            } else {
                Some("invalid hook event: "@ + list[k]@)
            }
        } else if kind == 1 {
            identifier_error(list[k]@, label, MAX_PLUGIN_CAPABILITY_NAME_LEN)
        } else {
            capability_filter_error(list[k]@, label)
        };
        match e {
            Some(m) => Some(m),
            None => first_error(list, k + 1, label, kind),
        }
    } else {
        None
    }
}

/// The first rule a manifest breaks, in the order they are checked.
pub open spec fn manifest_error(m: PluginManifest) -> Option<Seq<char>> {
    match plugin_name_error(m.plugin.name@) {
        Some(e) => Some(e),
        None => match wasm_filename_error(m.plugin.wasm@) {
            Some(e) => Some(e),
            None => match first_error(m.capabilities.hooks@, 0, ""@, 0) {
                Some(e) => Some(e),
                None => match first_error(m.capabilities.extend_cli@, 0, "CLI command"@, 1) {
                    Some(e) => Some(e),
                    None => match first_error(m.capabilities.render@, 0, "render"@, 2) {
                        Some(e) => Some(e),
                        None => first_error(m.capabilities.validate@, 0, "validate"@, 2),
                    },
                },
            },
        },
    }
}

fn is_valid_hook_name_exec(h: &str) -> (b: bool)
    ensures
        b == is_valid_hook_name(h@),
{
    let v = chars_of(h);
    eq_str(&v, "pre-create") || eq_str(&v, "post-create") || eq_str(&v, "pre-update") || eq_str(
        &v,
        "post-update",
    ) || eq_str(&v, "pre-delete") || eq_str(&v, "post-delete") || eq_str(&v, "*")
}

fn check_list(list: &Vec<String>, label: &str, kind: u8) -> (r: Result<(), ParcError>)
    ensures
        plugin_result(first_error(list@, 0, label@, kind), r),
{
    let mut k: usize = 0;
    while k < list.len()
        invariant
            k <= list.len(),
            first_error(list@, 0, label@, kind) == first_error(list@, k as int, label@, kind),
        decreases list.len() - k,
    {
        if kind == 0 {
            if !is_valid_hook_name_exec(list[k].as_str()) {
                let hc = chars_of(list[k].as_str());
                let mut out: Vec<char> = Vec::new();
                push_str(&mut out, "invalid hook event: ");
                push_chars(&mut out, &hc);
                return Err(ParcError::PluginError(string_of(&out)));
            }
        } else if kind == 1 {
            let r = validate_capability_name(list[k].as_str(), label);
            if r.is_err() {
                return r;
            }
        } else {
            let r = validate_capability_filter(list[k].as_str(), label);
            if r.is_err() {
                return r;
            }
        }
        k = k + 1;
    }
    Ok(())
}

/// Validate a manifest's metadata: safe identifiers, a plain `.wasm` file
/// name, known hook names.
pub fn validate_manifest_metadata(manifest: &PluginManifest) -> (r: Result<(), ParcError>)
    ensures
        plugin_result(manifest_error(*manifest), r),
{
    validate_plugin_name(manifest.plugin.name.as_str())?;
    validate_wasm_filename(manifest.plugin.wasm.as_str())?;
    check_list(&manifest.capabilities.hooks, "", 0)?;
    check_list(&manifest.capabilities.extend_cli, "CLI command", 1)?;
    check_list(&manifest.capabilities.render, "render", 2)?;
    check_list(&manifest.capabilities.validate, "validate", 2)?;
    Ok(())
}

/// The manifest file name of a plugin: `<name>.toml`.
pub fn plugin_manifest_filename(name: &str) -> (r: Result<String, ParcError>)
    ensures
        match plugin_name_error(name@) {
            None => r matches Ok(f) && f@ == name@ + ".toml"@,
            Some(m) => r matches Err(ParcError::PluginError(x)) && x@ == m,
        },
{
    validate_plugin_name(name)?;
    let v = chars_of(name);
    let mut out: Vec<char> = Vec::new();
    push_chars(&mut out, &v);
    push_str(&mut out, ".toml");
    Ok(string_of(&out))
}

/// Where a plugin's wasm file lives: its file name under the plugins directory.
pub fn resolve_plugin_wasm_path(manifest: &PluginManifest, plugins_dir: &str) -> (r: Result<
    String,
    ParcError,
>)
    ensures
        match wasm_filename_error(manifest.plugin.wasm@) {
            None => r matches Ok(p) && p@ == join_path(plugins_dir@, manifest.plugin.wasm@),
            Some(m) => r matches Err(ParcError::PluginError(x)) && x@ == m,
        },
{
    validate_wasm_filename(manifest.plugin.wasm.as_str())?;
    let w = chars_of(manifest.plugin.wasm.as_str());
    Ok(join_path_exec(plugins_dir, &w))
}


// ── Laws ─────────────────────────────────────────────────────────────

/// A safe identifier: 1 to `max` characters, the first an ASCII letter
/// or digit, all ASCII letters, digits, `_` or `-`.
pub open spec fn identifier_ok(v: Seq<char>, max: int) -> bool {
    &&& 1 <= v.len() <= max
    &&& is_ascii_alnum(v[0])
    &&& all_ident_chars(v)
}

proof fn lemma_identifier(v: Seq<char>, label: Seq<char>, max: usize)
    ensures
        identifier_error(v, label, max).is_none() <==> identifier_ok(v, max as int),
{
    if all_ident_chars(v) {
        lemma_ident_utf8_len(v);
    }
}

/// What a manifest list accepts: hook event names; command names that
/// are safe identifiers; render and validate types that are `*` or safe
/// identifiers.
pub open spec fn list_item_ok(x: Seq<char>, kind: u8) -> bool {
    if kind == 0 {
        is_valid_hook_name(x)
    } else if kind == 1 {
        identifier_ok(x, 64)
    } else {
        x == "*"@ || identifier_ok(x, 64)
    }
}

proof fn lemma_first_error(list: Seq<String>, k: int, label: Seq<char>, kind: u8)
    requires
        0 <= k,
    ensures
        first_error(list, k, label, kind).is_none() <==> forall|i: int|
            k <= i < list.len() ==> list_item_ok(#[trigger] list[i]@, kind),
    decreases list.len() - k,
{
    if k < list.len() {
        lemma_identifier(list[k]@, label, MAX_PLUGIN_CAPABILITY_NAME_LEN);
        lemma_first_error(list, k + 1, label, kind);
        if forall|i: int| k + 1 <= i < list.len() ==> list_item_ok(#[trigger] list[i]@, kind) {
            if list_item_ok(list[k]@, kind) {
                assert forall|i: int| k <= i < list.len() implies list_item_ok(#[trigger] list[i]@, kind) by {
                    if i > k {
                        assert(k + 1 <= i);
                    }
                }
            }
        }
    }
}

/// A manifest's metadata is accepted exactly when the plugin name is a
/// safe identifier of at most 64 characters, the wasm file is a plain
/// file name ending in `.wasm`, every hook is a known event or `*`,
/// every command is a safe identifier, and every render and validate
/// type is `*` or a safe identifier; every refusal is a plugin error.
pub proof fn manifest_rule(m: PluginManifest)
    ensures
        manifest_error(m).is_none() <==> ({
            &&& identifier_ok(m.plugin.name@, 64)
            &&& wasm_filename_error(m.plugin.wasm@).is_none()
            &&& forall|i: int| 0 <= i < m.capabilities.hooks@.len() ==> list_item_ok(#[trigger] m.capabilities.hooks@[i]@, 0)
            &&& forall|i: int|
                0 <= i < m.capabilities.extend_cli@.len() ==> list_item_ok(#[trigger] m.capabilities.extend_cli@[i]@, 1)
            &&& forall|i: int| 0 <= i < m.capabilities.render@.len() ==> list_item_ok(#[trigger] m.capabilities.render@[i]@, 2)
            &&& forall|i: int|
                0 <= i < m.capabilities.validate@.len() ==> list_item_ok(#[trigger] m.capabilities.validate@[i]@, 2)
        }),
{
    lemma_identifier(m.plugin.name@, "plugin name"@, MAX_PLUGIN_NAME_LEN);
    lemma_first_error(m.capabilities.hooks@, 0, ""@, 0);
    lemma_first_error(m.capabilities.extend_cli@, 0, "CLI command"@, 1);
    lemma_first_error(m.capabilities.render@, 0, "render"@, 2);
    lemma_first_error(m.capabilities.validate@, 0, "validate"@, 2);
}

/// A wasm file name is accepted exactly when it is longer than `.wasm`,
/// ends in `.wasm`, and holds no `/`, `\` or NUL; an accepted one lies
/// directly in the plugins directory: the path is the directory, a `/`
/// (unless the directory is empty or already ends in one), then the name.
pub proof fn wasm_path_rule(dir: Seq<char>, w: Seq<char>)
    ensures
        wasm_filename_error(w).is_none() <==> (w.len() > 5 && has_suffix(w, ".wasm"@) && !w.contains('/')
            && !w.contains('\\') && !w.contains('\0')),
        wasm_filename_error(w).is_none() ==> ({
            let p = join_path(dir, w);
            &&& p.len() >= w.len()
            &&& p.subrange(p.len() - w.len(), p.len() as int) == w
            &&& p.subrange(0, p.len() - w.len()) == dir || p.subrange(0, p.len() - w.len()) == dir + seq!['/']
        }),
{
    reveal_strlit(".");
    reveal_strlit("..");
    reveal_strlit(".wasm");
    let p = join_path(dir, w);
    if dir.len() == 0 {
        assert(p.subrange(0, p.len() - w.len()) =~= dir);
    } else if dir.last() == '/' {
        assert(p.subrange(0, p.len() - w.len()) =~= dir);
    } else {
        assert(p.subrange(0, p.len() - w.len()) =~= dir + seq!['/']);
    }
    assert(p.subrange(p.len() - w.len(), p.len() as int) =~= w);
}

// ── Loaded plugins ───────────────────────────────────────────────────

/// Describes a command provided by a plugin.
#[derive(Debug, Clone)]
pub struct PluginCommand {
    pub plugin_name: String,
    pub command: String,
    pub description: String,
}

/// The commands of one plugin, as (plugin, command, description).
pub open spec fn commands_of(m: PluginManifest) -> Seq<(Seq<char>, Seq<char>, Seq<char>)> {
    m.capabilities.extend_cli@.map_values(
        |c: String| (m.plugin.name@, c@, m.plugin.description@),
    )
}

/// The commands of the plugins, in plugin order.
pub open spec fn all_commands(ms: Seq<PluginManifest>) -> Seq<(Seq<char>, Seq<char>, Seq<char>)>
    decreases ms.len(),
{
    if ms.len() == 0 {
        Seq::empty()
    } else {
        all_commands(ms.drop_last()) + commands_of(ms.last())
    }
}

pub open spec fn command_view(c: PluginCommand) -> (Seq<char>, Seq<char>, Seq<char>) {
    (c.plugin_name@, c.command@, c.description@)
}

/// List all commands provided by the loaded plugins, each with its
/// plugin's name and description.
pub fn list_commands(manifests: &[PluginManifest]) -> (r: Vec<PluginCommand>)
    ensures
        r@.map_values(|c: PluginCommand| command_view(c)) == all_commands(manifests@),
{
    let mut out: Vec<PluginCommand> = Vec::new();
    let mut k: usize = 0;
    while k < manifests.len()
        invariant
            k <= manifests.len(),
            out@.map_values(|c: PluginCommand| command_view(c)) =~= all_commands(
                manifests@.subrange(0, k as int),
            ),
        decreases manifests.len() - k,
    {
        assert(manifests@.subrange(0, k + 1).drop_last() =~= manifests@.subrange(0, k as int));
        let m = &manifests[k];
        let ghost start = out@.map_values(|c: PluginCommand| command_view(c));
        let mut i: usize = 0;
        while i < m.capabilities.extend_cli.len()
            invariant
                i <= m.capabilities.extend_cli.len(),
                out@.map_values(|c: PluginCommand| command_view(c)) =~= start + commands_of(*m).subrange(
                    0,
                    i as int,
                ),
            decreases m.capabilities.extend_cli.len() - i,
        {
            let ghost before = out@;
            out.push(
                PluginCommand {
                    plugin_name: m.plugin.name.clone(),
                    command: m.capabilities.extend_cli[i].clone(),
                    description: m.plugin.description.clone(),
                },
            );
            assert(out@.map_values(|c: PluginCommand| command_view(c)) =~= before.map_values(
                |c: PluginCommand| command_view(c),
            ).push(commands_of(*m)[i as int]));
            i = i + 1;
        }
        assert(commands_of(*m).subrange(0, commands_of(*m).len() as int) =~= commands_of(*m));
        k = k + 1;
    }
    assert(manifests@.subrange(0, manifests@.len() as int) =~= manifests@);
    out
}

/// A plugin's validation errors, each tagged with the plugin's name.
pub fn tag_validation_errors(plugin_name: &str, errors: &[String]) -> (r: Vec<String>)
    ensures
        crate::text::texts(r@) == crate::text::texts(errors@).map_values(
            |e: Seq<char>| "["@ + plugin_name@ + "] "@ + e,
        ),
{
    let mut out: Vec<String> = Vec::new();
    let mut i: usize = 0;
    while i < errors.len()
        invariant
            i <= errors.len(),
            crate::text::texts(out@) =~= crate::text::texts(errors@).subrange(0, i as int).map_values(
                |e: Seq<char>| "["@ + plugin_name@ + "] "@ + e,
            ),
        decreases errors.len() - i,
    {
        let mut t = chars_of("[");
        push_str(&mut t, plugin_name);
        push_str(&mut t, "] ");
        push_chars(&mut t, &chars_of(errors[i].as_str()));
        let ghost before = out@;
        out.push(string_of(&t));
        assert(crate::text::texts(out@) =~= crate::text::texts(before).push(
            "["@ + plugin_name@ + "] "@ + errors@[i as int]@,
        ));
        i = i + 1;
    }
    assert(crate::text::texts(errors@).subrange(0, errors@.len() as int) =~= crate::text::texts(errors@));
    out
}

/// Bounds-check a (ptr, len) pair from guest WebAssembly: the byte range
/// `start..end`, only when both are non-negative and it fits in `mem_len`.
pub fn guest_range(ptr: i32, len: i32, mem_len: usize) -> (r: Option<(usize, usize)>)
    ensures
        match r {
            Some((start, end)) => ptr >= 0 && len >= 0 && start == ptr && end == ptr + len && end
                <= mem_len,
            None => ptr < 0 || len < 0 || ptr + len > mem_len,
        },
{
    if ptr < 0 || len < 0 {
        return None;
    }
    let start = ptr as usize;
    let l = len as usize;
    if l > mem_len || start > mem_len - l {
        return None;
    }
    Some((start, start + l))
}

} // verus!
