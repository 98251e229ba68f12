//! Lifecycle hooks: which scripts run for an event, and which may run at all.

use vstd::prelude::*;

use crate::error::ParcError;
use crate::fragment::Fragment;
use crate::text::{
    all_ident_chars, all_ident_chars_exec, chars_of, concat3, decimal, join_path, join_path_exec,
    push_chars, push_decimal, push_str, string_of,
};

verus! {

#[derive(Debug, Clone, Copy, PartialEq, Eq)]
pub enum HookEvent {
    PreCreate,
    PostCreate,
    PreUpdate,
    PostUpdate,
    PreDelete,
    PostDelete,
}

/// The file-name prefix of an event's hooks.
pub open spec fn event_prefix(e: HookEvent) -> Seq<char> {
    match e {
        HookEvent::PreCreate => "pre-create"@,
        HookEvent::PostCreate => "post-create"@,
        HookEvent::PreUpdate => "pre-update"@,
        HookEvent::PostUpdate => "post-update"@,
        HookEvent::PreDelete => "pre-delete"@,
        HookEvent::PostDelete => "post-delete"@,
    }
}

impl HookEvent {
    pub fn prefix(&self) -> (r: &'static str)
        ensures
            r@ == event_prefix(*self),
    {
        match self {
            HookEvent::PreCreate => "pre-create",
            HookEvent::PostCreate => "post-create",
            HookEvent::PreUpdate => "pre-update",
            HookEvent::PostUpdate => "post-update",
            HookEvent::PreDelete => "pre-delete",
            HookEvent::PostDelete => "post-delete",
        }
    }
}

#[derive(Debug, Clone)]
pub struct HookScript {
    pub path: String,
    pub event: HookEvent,
    pub type_filter: Option<String>,
}

/// A type name may appear in a hook file name: non-empty ASCII letters,
/// digits, `_` and `-`.
pub open spec fn safe_type_filter(t: Seq<char>) -> bool {
    t.len() > 0 && all_ident_chars(t)
}

/// Whether a fragment type may be used in a hook file name.
pub fn is_safe_type_filter(fragment_type: &str) -> (b: bool)
    ensures
        b == safe_type_filter(fragment_type@),
{
    let v = chars_of(fragment_type);
    v.len() > 0 && all_ident_chars_exec(&v)
}

pub open spec fn listed(entries: Seq<String>, name: Seq<char>) -> bool {
    exists|i: int| 0 <= i < entries.len() && entries[i]@ == name
}

fn listed_exec(entries: &[String], name: &Vec<char>) -> (b: bool)
    ensures
        b == listed(entries@, name@),
{
    let mut i: usize = 0;
    while i < entries.len()
        invariant
            i <= entries.len(),
            forall|j: int| 0 <= j < i ==> entries@[j]@ != name@,
        decreases entries.len() - i,
    {
        let e = chars_of(entries[i].as_str());
        if crate::text::eq_str_chars(&e, name) {
            return true;
        }
        i = i + 1;
    }
    false
}

/// The hooks that run for `event` on a fragment of type `t`, given the file
/// names present in the hooks directory: the generic `<event>` hook first,
/// then the typed `<event>.<type>` hook.
pub open spec fn hooks_spec(dir: Seq<char>, event: HookEvent, t: Seq<char>, entries: Seq<String>) -> Seq<
    (Seq<char>, Option<Seq<char>>),
> {
    let p = event_prefix(event);
    let generic: Seq<(Seq<char>, Option<Seq<char>>)> = if listed(entries, p) {
        seq![(join_path(dir, p), None)]
    } else {
        Seq::empty()
    };
    let typed_name = p + seq!['.'] + t;
    if safe_type_filter(t) && listed(entries, typed_name) {
        generic.push((join_path(dir, typed_name), Some(t)))
    } else {
        generic
    }
}

/// At most two hooks run for an event: the generic `<event>` hook, when
/// its file is present, before the typed `<event>.<type>` hook, which runs
/// only for a type name that is a safe file-name part and when its file is
/// present; each is the file of that name in the hooks directory.
pub proof fn hook_discovery_rule(dir: Seq<char>, event: HookEvent, t: Seq<char>, entries: Seq<String>)
    ensures
        ({
            let r = hooks_spec(dir, event, t, entries);
            let p = event_prefix(event);
            let typed = p + seq!['.'] + t;
            &&& r.len() <= 2
            &&& forall|i: int|
                0 <= i < r.len() ==> match (#[trigger] r[i]).1 {
                    None => i == 0 && listed(entries, p) && r[i].0 == join_path(dir, p),
                    Some(x) => i == r.len() - 1 && x == t && safe_type_filter(t) && listed(entries, typed)
                        && r[i].0 == join_path(dir, typed),
                }
            &&& (listed(entries, p) ==> r.len() >= 1 && r[0] == (join_path(dir, p), None::<Seq<char>>))
            &&& (safe_type_filter(t) && listed(entries, typed) ==> r.len() >= 1 && r[r.len() - 1] == (
                join_path(dir, typed),
                Some(t),
            ))
        }),
{
}

pub open spec fn hook_view(h: HookScript) -> (Seq<char>, Option<Seq<char>>) {
    (
        h.path@,
        match h.type_filter {
            Some(t) => Some(t@),
            None => None,
        },
    )
}

/// Discover hooks for a given event and fragment type among the files of
/// the hooks directory. Returns generic hooks first, then type-specific
/// hooks. Hook files are named `<event>` (generic) or `<event>.<type>`.
pub fn discover_hooks(hooks_dir: &str, event: HookEvent, fragment_type: &str, entries: &[String]) -> (r:
    Vec<HookScript>)
    ensures
        r@.map_values(|h: HookScript| hook_view(h)) == hooks_spec(
            hooks_dir@,
            event,
            fragment_type@,
            entries@,
        ),
        forall|i: int| 0 <= i < r@.len() ==> (#[trigger] r@[i]).event == event,
{
    let prefix = chars_of(event.prefix());
    let mut hooks: Vec<HookScript> = Vec::new();
    if listed_exec(entries, &prefix) {
        hooks.push(HookScript { path: join_path_exec(hooks_dir, &prefix), event, type_filter: None });
    }
    let ghost g = hooks@.map_values(|h: HookScript| hook_view(h));
    assert(g =~= (if listed(entries@, prefix@) {
        seq![(join_path(hooks_dir@, prefix@), None::<Seq<char>>)]
    } else {
        Seq::empty()
    }));
    if is_safe_type_filter(fragment_type) {
        let t = chars_of(fragment_type);
        let mut name: Vec<char> = Vec::new();
        push_chars(&mut name, &prefix);
        name.push('.');
        push_chars(&mut name, &t);
        assert(name@ =~= prefix@ + seq!['.'] + t@);
        if listed_exec(entries, &name) {
            hooks.push(
                HookScript {
                    path: join_path_exec(hooks_dir, &name),
                    event,
                    type_filter: Some(string_of(&t)),
                },
            );
            assert(hooks@.map_values(|h: HookScript| hook_view(h)) =~= g.push(
                (join_path(hooks_dir@, name@), Some(t@)),
            ));
        }
    }
    hooks
}

/// Why a hook may not run, given what the file system says of it; `None`
/// when it may.
pub open spec fn hook_rejection(
    path: Seq<char>,
    is_symlink: bool,
    is_file: bool,
    owner: u32,
    current_user: u32,
    mode: u32,
) -> Option<Seq<char>> {
    if is_symlink {
        Some("refusing to run symlinked hook '"@ + path + "'"@)
    } else if !is_file {
        Some("refusing to run non-file hook '"@ + path + "'"@)
    } else if owner != current_user {
        Some("refusing to run hook '"@ + path + "' owned by uid "@ + decimal(owner as nat))
    } else if mode & 0o022 != 0 {
        Some("refusing to run group/world-writable hook '"@ + path + "'"@)
    } else if mode & 0o100 == 0 {
        Some("refusing to run hook '"@ + path + "' without owner execute permission"@)
    } else {
        None
    }
}

/// Hooks are arbitrary programs, so only owner-controlled regular files
/// that the owner may execute and nobody else may write are run.
pub fn check_hook_script(
    path: &str,
    is_symlink: bool,
    is_file: bool,
    owner: u32,
    current_user: u32,
    mode: u32,
) -> (r: Result<(), ParcError>)
    ensures
        match hook_rejection(path@, is_symlink, is_file, owner, current_user, mode) {
            None => r is Ok,
            Some(m) => r matches Err(ParcError::ValidationError(x)) && x@ == m,
        },
{
    let p = chars_of(path);
    if is_symlink {
        return Err(ParcError::ValidationError(concat3("refusing to run symlinked hook '", &p, "'")));
    }
    if !is_file {
        return Err(ParcError::ValidationError(concat3("refusing to run non-file hook '", &p, "'")));
    }
    if owner != current_user {
        let mut out: Vec<char> = Vec::new();
        push_str(&mut out, "refusing to run hook '");
        push_chars(&mut out, &p);
        push_str(&mut out, "' owned by uid ");
        push_decimal(&mut out, owner as usize);
        assert(out@ =~= "refusing to run hook '"@ + path@ + "' owned by uid "@ + decimal(owner as nat));
        return Err(ParcError::ValidationError(string_of(&out)));
    }
    if mode & 0o022 != 0 {
        return Err(
            ParcError::ValidationError(concat3("refusing to run group/world-writable hook '", &p, "'")),
        );
    }
    if mode & 0o100 == 0 {
        return Err(
            ParcError::ValidationError(
                concat3("refusing to run hook '", &p, "' without owner execute permission"),
            ),
        );
    }
    Ok(())
}


/// What the file system says of a hook file.
#[derive(Debug, Clone, Copy)]
pub struct HookMeta {
    pub is_symlink: bool,
    pub is_file: bool,
    pub owner: u32,
    pub mode: u32,
}

/// Whether a hook may not run: its file could not be read, or the file
/// is one `check_hook_script` refuses.
pub open spec fn untrusted(h: HookScript, meta: Result<HookMeta, ParcError>, user: u32) -> bool {
    match meta {
        Err(_) => true,
        Ok(m) => hook_rejection(h.path@, m.is_symlink, m.is_file, m.owner, user, m.mode).is_some(),
    }
}

/// The first hook, from position `i` on, that may not run.
pub open spec fn first_untrusted(
    hooks: Seq<HookScript>,
    metas: Seq<Result<HookMeta, ParcError>>,
    user: u32,
    i: int,
) -> Option<int>
    decreases hooks.len() - i,
{
    if i < 0 || i >= hooks.len() || i >= metas.len() {
        None
    } else if untrusted(hooks[i], metas[i], user) {
        Some(i)
    } else {
        first_untrusted(hooks, metas, user, i + 1)
    }
}

/// The hooks that may run for an event, given what the file system says
/// of each hook file (`metas`, in the hooks' order) and the current user:
/// none when hooks are off in the configuration; else all of them when
/// every file could be read and passes `check_hook_script`, and otherwise
/// the refusal of the first that does not.
pub fn trusted_hooks(
    enabled: bool,
    hooks: Vec<HookScript>,
    mut metas: Vec<Result<HookMeta, ParcError>>,
    current_user: u32,
) -> (r: Result<Vec<HookScript>, ParcError>)
    requires
        metas@.len() == hooks@.len(),
    ensures
        !enabled ==> (r matches Ok(v) && v@.len() == 0),
        enabled ==> match first_untrusted(hooks@, metas@, current_user, 0) {
            None => r matches Ok(v) && v@ == hooks@,
            Some(i) => match metas@[i] {
                Err(e) => r == Err::<Vec<HookScript>, ParcError>(e),
                Ok(m) => r matches Err(ParcError::ValidationError(x)) && hook_rejection(
                    hooks@[i].path@,
                    m.is_symlink,
                    m.is_file,
                    m.owner,
                    current_user,
                    m.mode,
                ) == Some(x@),
            },
        },
{
    if !enabled {
        return Ok(Vec::new());
    }
    let ghost ms = metas@;
    let mut found: Option<usize> = None;
    let mut i: usize = 0;
    while i < hooks.len() && found.is_none()
        invariant
            i <= hooks.len(),
            ms.len() == hooks@.len(),
            metas@ == ms,
            found.is_none() ==> first_untrusted(hooks@, ms, current_user, 0) == first_untrusted(
                hooks@,
                ms,
                current_user,
                i as int,
            ),
            found matches Some(j) ==> j < hooks@.len() && first_untrusted(hooks@, ms, current_user, 0) == Some(
                j as int,
            ) && untrusted(hooks@[j as int], ms[j as int], current_user),
        decreases 2 * (hooks.len() - i) + if found is None {
            1int
        } else {
            0int
        },
    {
        let bad = match &metas[i] {
            Err(_) => true,
            Ok(m) => check_hook_script(hooks[i].path.as_str(), m.is_symlink, m.is_file, m.owner, current_user, m.mode).is_err(),
        };
        if bad {
            found = Some(i);
        } else {
            i = i + 1;
        }
    }
    match found {
        None => {
            assert(first_untrusted(hooks@, ms, current_user, i as int) == None::<int>);
            Ok(hooks)
        },
        Some(j) => {
            let taken = metas.remove(j);
            match taken {
                Err(e) => Err(e),
                Ok(m) => match check_hook_script(
                    hooks[j].path.as_str(),
                    m.is_symlink,
                    m.is_file,
                    m.owner,
                    current_user,
                    m.mode,
                ) {
                    Ok(()) => Ok(hooks),
                    Err(e) => Err(e),
                },
            }
        },
    }
}

/// Runs hook scripts. The library decides which hooks run and in what
/// order; the caller runs them.
pub trait HookRunner {
    /// Run a pre-hook: `Some(fragment)` when the hook changed the fragment,
    /// `None` when it ran and changed nothing, an error when it failed.
    fn run_pre_hook(&self, script: &HookScript, fragment: &Fragment) -> Result<Option<Fragment>, ParcError>;

    /// Run a post-hook; a failure is only a warning.
    fn run_post_hook(&self, script: &HookScript, fragment: &Fragment) -> Result<(), ParcError>;
}

/// The fragment after one pre-hook: what the hook made of it, the same
/// fragment when the hook changed nothing, or the hook's failure.
pub fn apply_pre_hook(current: Fragment, outcome: Result<Option<Fragment>, ParcError>) -> (r: Result<
    Fragment,
    ParcError,
>)
    ensures
        match outcome {
            Ok(Some(m)) => r == Ok::<Fragment, ParcError>(m),
            Ok(None) => r == Ok::<Fragment, ParcError>(current),
            Err(e) => r == Err::<Fragment, ParcError>(e),
        },
{
    match outcome {
        Ok(Some(m)) => Ok(m),
        Ok(None) => Ok(current),
        Err(e) => Err(e),
    }
}

/// Run the pre-hooks in order, each on what the one before made of the
/// fragment; the first failure stops the run and is returned.
pub fn run_pre_hooks<R: HookRunner>(runner: &R, hooks: &[HookScript], fragment: Fragment) -> (r: Result<
    Fragment,
    ParcError,
>)
    ensures
        hooks@.len() == 0 ==> r == Ok::<Fragment, ParcError>(fragment),
{
    let mut current = fragment;
    let mut i: usize = 0;
    while i < hooks.len()
        invariant
            i <= hooks.len(),
            hooks@.len() == 0 ==> current == fragment,
        decreases hooks.len() - i,
    {
        let outcome = runner.run_pre_hook(&hooks[i], &current);
        current = match apply_pre_hook(current, outcome) {
            Ok(f) => f,
            Err(e) => {
                return Err(e);
            },
        };
        i = i + 1;
    }
    Ok(current)
}

/// Run the post-hooks in order; their failures are the runner's to report.
pub fn run_post_hooks<R: HookRunner>(runner: &R, hooks: &[HookScript], fragment: &Fragment) {
    let mut i: usize = 0;
    while i < hooks.len()
        invariant
            i <= hooks.len(),
        decreases hooks.len() - i,
    {
        let _ = runner.run_post_hook(&hooks[i], fragment);
        i = i + 1;
    }
}

} // verus!
