//! Vaults: where they are, which are safe to open, what they hold.

use vstd::prelude::*;

use crate::error::ParcError;
use crate::text::{
    chars_of, concat3, has_suffix, push_chars, push_str, str_less, str_lt, string_of, texts, trim,
    trim_chars,
};

verus! {

// ── Paths (std::path) ────────────────────────────────────────────────

/// `Path::new(p).ends_with(child)`: the last components of `p` are those of `child`.
pub uninterp spec fn path_ends_with_spec(p: Seq<char>, child: Seq<char>) -> bool;

/// `Path::new(p).join(q)`, as text.
pub uninterp spec fn path_join_spec(p: Seq<char>, q: Seq<char>) -> Seq<char>;

/// `Path::new(a) == Path::new(b)`: the same components.
pub uninterp spec fn path_eq_spec(a: Seq<char>, b: Seq<char>) -> bool;

/// `Path::new(p).strip_prefix(base)`, as text.
pub uninterp spec fn path_strip_prefix_spec(p: Seq<char>, base: Seq<char>) -> Option<Seq<char>>;

/// `Path::new(p).extension()`, as text.
pub uninterp spec fn path_extension_spec(p: Seq<char>) -> Option<Seq<char>>;

/// `Path::new(p).file_stem()`, as text.
pub uninterp spec fn path_file_stem_spec(p: Seq<char>) -> Option<Seq<char>>;

/// `std::path::Path::ends_with`.
#[verifier::external_body]
fn path_ends_with(p: &str, child: &str) -> (r: bool)
    ensures
        r == path_ends_with_spec(p@, child@),
{
    std::path::Path::new(p).ends_with(child)
}

/// `std::path::Path::join`, as text.
#[verifier::external_body]
pub(crate) fn path_join(p: &str, q: &str) -> (r: String)
    ensures
        r@ == path_join_spec(p@, q@),
{
    std::path::Path::new(p).join(q).to_string_lossy().into_owned()
}

/// `==` on `std::path::Path`.
#[verifier::external_body]
fn path_eq(a: &str, b: &str) -> (r: bool)
    ensures
        r == path_eq_spec(a@, b@),
{
    std::path::Path::new(a) == std::path::Path::new(b)
}

/// `std::path::Path::strip_prefix`, as text.
#[verifier::external_body]
fn path_strip_prefix(p: &str, base: &str) -> (r: Option<String>)
    ensures
        match path_strip_prefix_spec(p@, base@) {
            Some(x) => r matches Some(s) && s@ == x,
            None => r.is_none(),
        },
{
    match std::path::Path::new(p).strip_prefix(base) {
        Ok(rest) => Some(rest.to_string_lossy().into_owned()),
        Err(_) => None,
    }
}

/// `std::path::Path::extension`, as text.
#[verifier::external_body]
fn path_extension(p: &str) -> (r: Option<String>)
    ensures
        match path_extension_spec(p@) {
            Some(x) => r matches Some(s) && s@ == x,
            None => r.is_none(),
        },
{
    std::path::Path::new(p).extension().map(|e| e.to_string_lossy().into_owned())
}

/// `std::path::Path::file_stem`, as text.
#[verifier::external_body]
fn path_file_stem(p: &str) -> (r: Option<String>)
    ensures
        match path_file_stem_spec(p@) {
            Some(x) => r matches Some(s) && s@ == x,
            None => r.is_none(),
        },
{
    std::path::Path::new(p).file_stem().map(|e| e.to_string_lossy().into_owned())
}

// ── Locating ─────────────────────────────────────────────────────────

/// The vault a path names: the path itself when it ends in a `.parc`
/// component, else its `.parc` child.
pub open spec fn vault_path_spec(p: Seq<char>) -> Seq<char> {
    if path_ends_with_spec(p, ".parc"@) {
        p
    } else {
        path_join_spec(p, ".parc"@)
    }
}

/// The vault a path names: the path itself when it ends with `.parc`,
/// otherwise its `.parc` child.
pub fn vault_path_for(path: &str) -> (r: String)
    ensures
        r@ == vault_path_spec(path@),
{
    if path_ends_with(path, ".parc") {
        string_of(&chars_of(path))
    } else {
        path_join(path, ".parc")
    }
}

#[derive(Debug, Clone, Copy, PartialEq, Eq)]
pub enum VaultScope {
    Local,
    Global,
}

impl VaultScope {
    /// `local` or `global`.
    pub fn name(&self) -> (r: String)
        ensures
            r@ == (match self {
                VaultScope::Local => "local"@,
                VaultScope::Global => "global"@,
            }),
    {
        match self {
            VaultScope::Local => string_of(&chars_of("local")),
            VaultScope::Global => string_of(&chars_of("global")),
        }
    }
}

#[derive(Debug, Clone)]
pub struct VaultInfo {
    pub path: String,
    pub scope: VaultScope,
    pub fragment_count: usize,
}

/// A vault is global when it is the global vault's path (`~/.parc`).
pub fn vault_scope(vault_path: &str, global: Option<&str>) -> (r: VaultScope)
    ensures
        r == (match global {
            Some(g) => if path_eq_spec(vault_path@, g@) {
                VaultScope::Global
            } else {
                VaultScope::Local
            },
            None => VaultScope::Local,
        }),
{
    match global {
        Some(g) => if path_eq(vault_path, g) {
            VaultScope::Global
        } else {
            VaultScope::Local
        },
        None => VaultScope::Local,
    }
}

/// The vaults `discover_all_vaults` reports: the local one (when it is not
/// also the global one), then the global one, each if it exists.
pub fn vaults_to_report(local: Option<String>, global: String, global_exists: bool) -> (r: Vec<String>)
    ensures
        texts(r@) == (match local {
            Some(l) => if !global_exists || !path_eq_spec(l@, global@) {
                seq![l@]
            } else {
                Seq::empty()
            },
            None => Seq::empty(),
        }) + (if global_exists {
            seq![global@]
        } else {
            Seq::empty()
        }),
{
    let mut out: Vec<String> = Vec::new();
    match local {
        Some(l) => {
            if !global_exists || !path_eq(l.as_str(), global.as_str()) {
                out.push(l);
            }
        },
        None => {},
    }
    let ghost before = out@;
    if global_exists {
        out.push(global);
    }
    assert(texts(out@) =~= texts(before) + (if global_exists {
        seq![global@]
    } else {
        Seq::empty()
    }));
    out
}

/// A place where a vault may be, and whether one is there (a
/// `config.yml` beside a `fragments/` directory).
#[derive(Debug, Clone)]
pub struct VaultCandidate {
    pub path: String,
    pub is_vault: bool,
}

/// The global vault, if the home directory is known and a vault is there.
pub open spec fn global_spec(global: Result<VaultCandidate, ParcError>) -> Result<Seq<char>, ParcError> {
    match global {
        Err(e) => Err(e),
        Ok(g) => if g.is_vault {
            Ok(g.path@)
        } else {
            Err(ParcError::VaultNotFound(g.path))
        },
    }
}

/// The first local candidate from `k` on that holds a vault; failing
/// that, the global vault. `Err(None)`: no vault at all; `Err(Some(e))`:
/// the home directory could not be found.
pub open spec fn discover_spec(
    local: Seq<VaultCandidate>,
    global: Result<VaultCandidate, ParcError>,
    k: int,
) -> Result<Seq<char>, Option<ParcError>>
    decreases local.len() - k,
{
    if k < 0 || k >= local.len() {
        match global {
            Err(e) => Err(Some(e)),
            Ok(g) => if g.is_vault {
                Ok(g.path@)
            } else {
                Err(None)
            },
        }
    } else if local[k].is_vault {
        Ok(local[k].path@)
    } else {
        discover_spec(local, global, k + 1)
    }
}

/// Pick the vault for a directory: `local` holds the `.parc` child of
/// each of its ancestors, nearest first; the first that is a vault wins,
/// else the global vault (`~/.parc`); else no vault is found for
/// `start_dir`.
pub fn discover_vault_from(start_dir: &str, local: &[VaultCandidate], global: Result<VaultCandidate, ParcError>) -> (r:
    Result<String, ParcError>)
    ensures
        match discover_spec(local@, global, 0) {
            Ok(p) => r matches Ok(x) && x@ == p,
            Err(Some(e)) => r == Err::<String, ParcError>(e),
            Err(None) => r matches Err(ParcError::VaultNotFound(x)) && x@ == start_dir@,
        },
{
    let mut k: usize = 0;
    while k < local.len()
        invariant
            k <= local.len(),
            discover_spec(local@, global, 0) == discover_spec(local@, global, k as int),
        decreases local.len() - k,
    {
        if local[k].is_vault {
            return Ok(local[k].path.clone());
        }
        k = k + 1;
    }
    match global {
        Err(e) => Err(e),
        Ok(g) => if g.is_vault {
            Ok(g.path)
        } else {
            Err(ParcError::VaultNotFound(string_of(&chars_of(start_dir))))
        },
    }
}

proof fn lemma_discover_reaches(local: Seq<VaultCandidate>, global: Result<VaultCandidate, ParcError>, k: int, i: int)
    requires
        0 <= k <= i < local.len(),
        local[i].is_vault,
        forall|j: int| k <= j < i ==> !(#[trigger] local[j]).is_vault,
    ensures
        discover_spec(local, global, k) == Ok::<Seq<char>, Option<ParcError>>(local[i].path@),
    decreases i - k,
{
    if k < i {
        lemma_discover_reaches(local, global, k + 1, i);
    }
}

/// Project-local vaults shadow the global one: when some ancestor holds a
/// vault, the nearest such ancestor's vault is chosen, whatever the global
/// vault is.
pub proof fn local_vault_shadows_global(local: Seq<VaultCandidate>, global: Result<VaultCandidate, ParcError>, i: int)
    requires
        0 <= i < local.len(),
        local[i].is_vault,
        forall|j: int| 0 <= j < i ==> !(#[trigger] local[j]).is_vault,
    ensures
        discover_spec(local, global, 0) == Ok::<Seq<char>, Option<ParcError>>(local[i].path@),
{
    lemma_discover_reaches(local, global, 0, i);
}

proof fn lemma_discover_falls_through(local: Seq<VaultCandidate>, global: Result<VaultCandidate, ParcError>, k: int)
    requires
        0 <= k,
        forall|j: int| k <= j < local.len() ==> !(#[trigger] local[j]).is_vault,
    ensures
        discover_spec(local, global, k) == discover_spec(local, global, local.len() as int),
    decreases local.len() - k,
{
    if k < local.len() {
        lemma_discover_reaches_none(local, k);
        lemma_discover_falls_through(local, global, k + 1);
    }
}

proof fn lemma_discover_reaches_none(local: Seq<VaultCandidate>, k: int)
    requires
        0 <= k < local.len(),
        forall|j: int| k <= j < local.len() ==> !(#[trigger] local[j]).is_vault,
    ensures
        !local[k].is_vault,
{
}

/// With no vault among the ancestors, the global vault is chosen when it
/// exists; otherwise no vault is found, or the home directory's error is
/// given when it cannot be found.
pub proof fn no_local_vault_falls_back_to_global(local: Seq<VaultCandidate>, global: Result<VaultCandidate, ParcError>)
    requires
        forall|j: int| 0 <= j < local.len() ==> !(#[trigger] local[j]).is_vault,
    ensures
        discover_spec(local, global, 0) == match global {
            Err(e) => Err(Some(e)),
            Ok(g) => if g.is_vault {
                Ok::<Seq<char>, Option<ParcError>>(g.path@)
            } else {
                Err(None)
            },
        },
{
    lemma_discover_falls_through(local, global, 0);
}

/// The global vault, bypassing local discovery: refused when no vault is
/// there.
pub fn resolve_global_vault(global: Result<VaultCandidate, ParcError>) -> (r: Result<String, ParcError>)
    ensures
        match global_spec(global) {
            Ok(p) => r matches Ok(x) && x@ == p,
            Err(e) => r == Err::<String, ParcError>(e),
        },
{
    match global {
        Err(e) => Err(e),
        Ok(g) => if g.is_vault {
            Ok(g.path)
        } else {
            Err(ParcError::VaultNotFound(g.path))
        },
    }
}

// ── Fragment files ───────────────────────────────────────────────────

/// A fragment file: its extension is `md`.
pub open spec fn is_fragment_file(name: Seq<char>) -> bool {
    path_extension_spec(name) == Some("md"@)
}

fn is_fragment_file_exec(name: &str) -> (r: bool)
    ensures
        r == is_fragment_file(name@),
{
    proof {
        reveal_strlit("md");
    }
    match path_extension(name) {
        Some(e) => crate::text::eq_str(&chars_of(e.as_str()), "md"),
        None => false,
    }
}

/// The number of fragment files among the names of `fragments/`.
pub open spec fn count_fragment_files(names: Seq<Seq<char>>) -> nat
    decreases names.len(),
{
    if names.len() == 0 {
        0
    } else {
        count_fragment_files(names.drop_last()) + if is_fragment_file(names.last()) {
            1nat
        } else {
            0nat
        }
    }
}

/// How many fragment files are among the entries of `fragments/`.
pub fn fragment_count(names: &[String]) -> (r: usize)
    ensures
        r == count_fragment_files(texts(names@)),
{
    let mut n: usize = 0;
    let mut i: usize = 0;
    while i < names.len()
        invariant
            i <= names.len(),
            n == count_fragment_files(texts(names@.subrange(0, i as int))),
            n <= i,
        decreases names.len() - i,
    {
        assert(texts(names@.subrange(0, i + 1)).drop_last() =~= texts(names@.subrange(0, i as int)));
        if is_fragment_file_exec(names[i].as_str()) {
            n = n + 1;
        }
        i = i + 1;
    }
    assert(names@.subrange(0, names@.len() as int) =~= names@);
    n
}

/// The ids of the fragment files among `names`, with repeats.
pub open spec fn fragment_stems(names: Seq<Seq<char>>) -> Seq<Seq<char>>
    decreases names.len(),
{
    if names.len() == 0 {
        Seq::empty()
    } else {
        let r = fragment_stems(names.drop_last());
        let n = names.last();
        if is_fragment_file(n) && path_file_stem_spec(n).is_some() {
            r.push(path_file_stem_spec(n).unwrap())
        } else {
            r
        }
    }
}

/// Texts in non-decreasing order.
pub open spec fn sorted_texts(v: Seq<Seq<char>>) -> bool {
    forall|i: int, j: int| 0 <= i < j < v.len() ==> !str_lt(#[trigger] v[j], #[trigger] v[i])
}

/// The fragment ids of a listing of `fragments/`: the stems of the `.md`
/// files, sorted.
pub fn fragment_ids_from(names: &[String]) -> (r: Vec<String>)
    ensures
        sorted_texts(texts(r@)),
        texts(r@).to_multiset() == fragment_stems(texts(names@)).to_multiset(),
{
    broadcast use vstd::seq_lib::group_to_multiset_ensures, vstd::multiset::group_multiset_axioms;
    let mut out: Vec<String> = Vec::new();
    let mut k: usize = 0;
    while k < names.len()
        invariant
            k <= names.len(),
            sorted_texts(texts(out@)),
            texts(out@).to_multiset() == fragment_stems(texts(names@.subrange(0, k as int))).to_multiset(),
        decreases names.len() - k,
    {
        assert(texts(names@.subrange(0, k + 1)).drop_last() =~= texts(names@.subrange(0, k as int)));
        assert(texts(names@.subrange(0, k + 1)).last() == names@[k as int]@);
        let stem = if is_fragment_file_exec(names[k].as_str()) {
            path_file_stem(names[k].as_str())
        } else {
            None
        };
        match stem {
            Some(x) => {
                let xv = chars_of(x.as_str());
                let mut i: usize = 0;
                while i < out.len()
                    invariant
                        i <= out.len(),
                        xv@ == x@,
                        forall|j: int| 0 <= j < i ==> !str_lt(x@, #[trigger] texts(out@)[j]),
                    ensures
                        i <= out.len(),
                        forall|j: int| 0 <= j < i ==> !str_lt(x@, #[trigger] texts(out@)[j]),
                        i < out.len() ==> str_lt(x@, texts(out@)[i as int]),
                    decreases out.len() - i,
                {
                    let o = chars_of(out[i].as_str());
                    if str_less(&xv, &o) {
                        break;
                    }
                    i = i + 1;
                }
                let ghost before = texts(out@);
                out.insert(i, x);
                proof {
                    let after = texts(out@);
                    assert(after =~= before.insert(i as int, x@));
                    vstd::seq_lib::to_multiset_insert(before, i as int, x@);
                    vstd::seq_lib::to_multiset_build(
                        fragment_stems(texts(names@.subrange(0, k as int))),
                        x@,
                    );
                    assert forall|a: int, b: int| 0 <= a < b < after.len() implies !str_lt(
                        #[trigger] after[b],
                        #[trigger] after[a],
                    ) by {
                        if b < i {
                            assert(!str_lt(before[b], before[a]));
                        } else if b == i {
                            assert(!str_lt(x@, before[a]));
                        } else if a < i {
                            assert(!str_lt(before[b - 1], before[a]));
                        } else if a == i {
                            if str_lt(before[b - 1], x@) {
                                if b - 1 == i {
                                    crate::text::lemma_str_lt_transitive(before[b - 1], x@, before[b - 1]);
                                    crate::text::lemma_str_lt_irreflexive(before[b - 1]);
                                } else {
                                    assert(!str_lt(before[b - 1], before[i as int]));
                                    crate::text::lemma_str_lt_transitive(before[b - 1], x@, before[i as int]);
                                }
                            }
                        } else {
                            assert(!str_lt(before[b - 1], before[a - 1]));
                        }
                    }
                }
            },
            None => {},
        }
        k = k + 1;
    }
    assert(names@.subrange(0, names@.len() as int) =~= names@);
    out
}

// ── Safety ───────────────────────────────────────────────────────────

/// An ancestor of a vault directory (the vault itself first, then each
/// parent up to the root), with its owner and permission bits.
#[derive(Debug, Clone)]
pub struct Ancestor {
    pub path: String,
    pub owner: u32,
    pub mode: u32,
}

/// What one ancestor decides.
#[derive(Debug)]
pub enum AncestorVerdict {
    /// Look at the next ancestor.
    Next,
    /// The vault is safe: stop here.
    Safe,
    /// The vault is not safe.
    Unsafe(ParcError),
}

/// Group- or world-writable without the sticky bit.
pub open spec fn writable_without_sticky(mode: u32) -> bool {
    mode & 0o022 != 0 && mode & 0o1000 == 0
}

/// The refusal for a vault with an unsafe ancestor.
pub open spec fn unsafe_vault_msg(canonical: Seq<char>, ancestor: Seq<char>) -> Seq<char> {
    "refusing unsafe vault '"@ + canonical + "': ancestor '"@ + ancestor
        + "' is not owner-controlled"@
}

/// What an ancestor decides: one writable by others without the sticky
/// bit is unsafe; inside the home directory, one owned by someone else
/// is unsafe unless it is the home directory; outside it, one owned by
/// another user (not root, not `nobody`) without the sticky bit is
/// unsafe; reaching the home directory ends the walk.
pub open spec fn ancestor_spec(
    canonical: Seq<char>,
    a: Ancestor,
    uid: u32,
    home: Option<Seq<char>>,
) -> Option<Result<(), Seq<char>>> {
    let at_home = match home {
        Some(h) => path_eq_spec(h, a.path@),
        None => false,
    };
    if a.owner == uid {
        if writable_without_sticky(a.mode) {
            Some(Err(unsafe_vault_msg(canonical, a.path@)))
        } else if at_home {
            Some(Ok(()))
        } else {
            None
        }
    } else if writable_without_sticky(a.mode) {
        Some(Err(unsafe_vault_msg(canonical, a.path@)))
    } else if home.is_some() {
        if path_eq_spec(a.path@, home.unwrap()) {
            Some(Ok(()))
        } else {
            Some(Err(unsafe_vault_msg(canonical, a.path@)))
        }
    } else if a.owner != 0 && a.owner != 65534 && a.mode & 0o1000 == 0 {
        Some(Err(unsafe_vault_msg(canonical, a.path@)))
    } else {
        None
    }
}

fn unsafe_vault_error(canonical: &str, ancestor: &str) -> (r: ParcError)
    ensures
        r matches ParcError::ValidationError(x) && x@ == unsafe_vault_msg(canonical@, ancestor@),
{
    let mut out = chars_of("refusing unsafe vault '");
    push_str(&mut out, canonical);
    push_str(&mut out, "': ancestor '");
    push_str(&mut out, ancestor);
    push_str(&mut out, "' is not owner-controlled");
    ParcError::ValidationError(string_of(&out))
}

/// What one ancestor of a vault decides about its safety; `home` is the
/// canonical home directory when the vault lies inside it.
pub fn check_ancestor(canonical: &str, a: &Ancestor, uid: u32, home: Option<&str>) -> (r: AncestorVerdict)
    ensures
        match ancestor_spec(
            canonical@,
            *a,
            uid,
            match home {
                Some(h) => Some(h@),
                None => None,
            },
        ) {
            None => r is Next,
            Some(Ok(())) => r is Safe,
            Some(Err(m)) => r matches AncestorVerdict::Unsafe(ParcError::ValidationError(x)) && x@ == m,
        },
{
    let wws = a.mode & 0o022 != 0 && a.mode & 0o1000 == 0;
    let at_home = match home {
        Some(h) => path_eq(h, a.path.as_str()),
        None => false,
    };
    if a.owner == uid {
        if wws {
            AncestorVerdict::Unsafe(unsafe_vault_error(canonical, a.path.as_str()))
        } else if at_home {
            AncestorVerdict::Safe
        } else {
            AncestorVerdict::Next
        }
    } else if wws {
        AncestorVerdict::Unsafe(unsafe_vault_error(canonical, a.path.as_str()))
    } else if home.is_some() {
        let h = home.unwrap();
        if path_eq(a.path.as_str(), h) {
            AncestorVerdict::Safe
        } else {
            AncestorVerdict::Unsafe(unsafe_vault_error(canonical, a.path.as_str()))
        }
    } else if a.owner != 0 && a.owner != 65534 && a.mode & 0o1000 == 0 {
        AncestorVerdict::Unsafe(unsafe_vault_error(canonical, a.path.as_str()))
    } else {
        AncestorVerdict::Next
    }
}

/// The verdict of the ancestors from `k` on.
pub open spec fn ancestors_spec(
    canonical: Seq<char>,
    ancestors: Seq<Ancestor>,
    uid: u32,
    home: Option<Seq<char>>,
    k: int,
) -> Result<(), Seq<char>>
    decreases ancestors.len() - k,
{
    if k < 0 || k >= ancestors.len() {
        Ok(())
    } else {
        match ancestor_spec(canonical, ancestors[k], uid, home) {
            None => ancestors_spec(canonical, ancestors, uid, home, k + 1),
            Some(v) => v,
        }
    }
}

proof fn lemma_owned_ancestors_safe(c: Seq<char>, a: Seq<Ancestor>, uid: u32, home: Option<Seq<char>>, k: int)
    requires
        0 <= k,
        forall|j: int| k <= j < a.len() ==> (#[trigger] a[j]).owner == uid && !writable_without_sticky(a[j].mode),
    ensures
        ancestors_spec(c, a, uid, home, k) is Ok,
    decreases a.len() - k,
{
    if k < a.len() {
        assert(a[k].owner == uid && !writable_without_sticky(a[k].mode));
        lemma_owned_ancestors_safe(c, a, uid, home, k + 1);
    }
}

proof fn lemma_writable_ancestor_unsafe(
    c: Seq<char>,
    a: Seq<Ancestor>,
    uid: u32,
    home: Option<Seq<char>>,
    k: int,
    i: int,
)
    requires
        0 <= k <= i < a.len(),
        writable_without_sticky(a[i].mode),
        forall|j: int| k <= j < i ==> ancestor_spec(c, #[trigger] a[j], uid, home).is_none(),
    ensures
        ancestors_spec(c, a, uid, home, k) == Err::<(), Seq<char>>(unsafe_vault_msg(c, a[i].path@)),
    decreases i - k,
{
    if k < i {
        assert(ancestor_spec(c, a[k], uid, home).is_none());
        lemma_writable_ancestor_unsafe(c, a, uid, home, k + 1, i);
    }
}

/// A vault whose ancestors are all its user's and none writable by
/// others without the sticky bit is safe; a group- or world-writable
/// directory without the sticky bit, reached before the walk ends, makes
/// it unsafe, with that directory named.
pub proof fn safe_vault_rule(c: Seq<char>, a: Seq<Ancestor>, uid: u32, home: Option<Seq<char>>, i: int)
    ensures
        (forall|j: int| 0 <= j < a.len() ==> (#[trigger] a[j]).owner == uid && !writable_without_sticky(a[j].mode))
            ==> ancestors_spec(c, a, uid, home, 0) is Ok,
        (0 <= i < a.len() && writable_without_sticky(a[i].mode) && forall|j: int|
            0 <= j < i ==> ancestor_spec(c, #[trigger] a[j], uid, home).is_none()) ==> ancestors_spec(
            c,
            a,
            uid,
            home,
            0,
        ) == Err::<(), Seq<char>>(unsafe_vault_msg(c, a[i].path@)),
{
    if forall|j: int| 0 <= j < a.len() ==> (#[trigger] a[j]).owner == uid && !writable_without_sticky(a[j].mode) {
        lemma_owned_ancestors_safe(c, a, uid, home, 0);
    }
    if 0 <= i < a.len() && writable_without_sticky(a[i].mode) && forall|j: int|
        0 <= j < i ==> ancestor_spec(c, #[trigger] a[j], uid, home).is_none() {
        lemma_writable_ancestor_unsafe(c, a, uid, home, 0, i);
    }
}

/// Reject a vault that lives under directories controlled by another
/// non-root user or writable by a group or the world without sticky-bit
/// protection, walking its ancestors from the vault up to the root (or to
/// the home directory, when the vault lies inside it).
pub fn validate_safe_vault(canonical: &str, ancestors: &[Ancestor], uid: u32, home: Option<&str>) -> (r: Result<
    (),
    ParcError,
>)
    ensures
        match ancestors_spec(
            canonical@,
            ancestors@,
            uid,
            match home {
                Some(h) => Some(h@),
                None => None,
            },
            0,
        ) {
            Ok(()) => r is Ok,
            Err(m) => r matches Err(ParcError::ValidationError(x)) && x@ == m,
        },
{
    let ghost hv = match home {
        Some(h) => Some(h@),
        None => None,
    };
    let mut k: usize = 0;
    while k < ancestors.len()
        invariant
            k <= ancestors.len(),
            hv == (match home {
                Some(h) => Some(h@),
                None => None,
            }),
            ancestors_spec(canonical@, ancestors@, uid, hv, 0) == ancestors_spec(
                canonical@,
                ancestors@,
                uid,
                hv,
                k as int,
            ),
        decreases ancestors.len() - k,
    {
        match check_ancestor(canonical, &ancestors[k], uid, home) {
            AncestorVerdict::Next => {},
            AncestorVerdict::Safe => {
                return Ok(());
            },
            AncestorVerdict::Unsafe(e) => {
                return Err(e);
            },
        }
        k = k + 1;
    }
    Ok(())
}

// ── .gitignore ───────────────────────────────────────────────────────

/// What adding a line to `.gitignore` does to the file.
#[derive(Debug)]
pub enum GitignoreChange {
    /// A line already holds the entry.
    Keep,
    /// Append this text to the file.
    Append(String),
    /// Create the file with this text.
    Create(String),
}

/// Some line, trimmed, is the entry.
pub open spec fn has_entry_line(contents: Seq<char>, entry: Seq<char>) -> bool {
    let ls = crate::attachment::lines_from(contents, 0);
    exists|i: int| 0 <= i < ls.len() && trim(#[trigger] ls[i]) == entry
}

/// Add an entry to a `.gitignore` whose current text is `contents`
/// (`None` when there is no file): nothing when a line already is the
/// entry, else the entry on a line of its own.
pub fn gitignore_change(contents: Option<&str>, entry: &str) -> (r: GitignoreChange)
    ensures
        match contents {
            None => r matches GitignoreChange::Create(t) && t@ == entry@ + "\n"@,
            Some(c) => if has_entry_line(c@, entry@) {
                r is Keep
            } else {
                r matches GitignoreChange::Append(t) && t@ == (if c@.len() == 0 || c@.last() == '\n' {
                    ""@
                } else {
                    "\n"@
                }) + entry@ + "\n"@
            },
        },
{
    proof {
        reveal_strlit("");
        reveal_strlit("\n");
    }
    let e = chars_of(entry);
    match contents {
        None => {
            let mut t = e.clone();
            push_str(&mut t, "\n");
            GitignoreChange::Create(string_of(&t))
        },
        Some(c) => {
            let v = chars_of(c);
            let ghost ls = crate::attachment::lines_from(v@, 0);
            let mut i: usize = 0;
            let ghost mut k: int = 0;
            while i < v.len()
                invariant
                    i <= v.len(),
                    contents == Some(c),
                    v@ == c@,
                    e@ == entry@,
                    ls == crate::attachment::lines_from(v@, 0),
                    0 <= k <= ls.len(),
                    crate::attachment::lines_from(v@, i as int) == ls.subrange(k, ls.len() as int),
                    forall|j: int| 0 <= j < k ==> trim(#[trigger] ls[j]) != entry@,
                decreases v.len() - i,
            {
                let end = crate::text::find_char_at(&v, '\n', i);
                let piece = crate::text::slice_vec(&v, i, end);
                let line = if end < v.len() && piece.len() > 0 && piece[piece.len() - 1] == '\r' {
                    let t = crate::text::slice_vec(&piece, 0, piece.len() - 1);
                    assert(t@ =~= piece@.drop_last());
                    t
                } else {
                    piece
                };
                proof {
                    crate::text::lemma_find_from_bounds(v@, '\n', i as int);
                    assert(crate::attachment::lines_from(v@, i as int) == seq![line@]
                        + crate::attachment::lines_from(v@, end + 1));
                    assert(ls.subrange(k, ls.len() as int).len() > 0);
                    assert(k < ls.len());
                    assert(ls.subrange(k, ls.len() as int)[0] == line@);
                    assert(ls[k] == line@);
                    assert(ls.subrange(k, ls.len() as int).drop_first() =~= ls.subrange(
                        k + 1,
                        ls.len() as int,
                    ));
                }
                let t = trim_chars(&line);
                if crate::text::eq_str_chars(&t, &e) {
                    assert(trim(ls[k]) == entry@);
                    assert(has_entry_line(c@, entry@));
                    return GitignoreChange::Keep;
                }
                proof {
                    k = k + 1;
                }
                if end >= v.len() {
                    i = v.len();
                } else {
                    i = end + 1;
                }
            }
            assert(ls.subrange(k, ls.len() as int).len() == 0);
            let mut t: Vec<char> = Vec::new();
            if v.len() > 0 && v[v.len() - 1] != '\n' {
                t.push('\n');
            }
            push_chars(&mut t, &e);
            push_str(&mut t, "\n");
            GitignoreChange::Append(string_of(&t))
        },
    }
}

/// The `.gitignore` line for a vault inside a git repository: the vault's
/// path relative to the repository (as it is when it is not inside),
/// with `/` separators, then `/index.db`.
pub fn gitignore_entry(vault: &str, git_root: &str) -> (r: String)
    ensures
        r@ == crate::vault::backslashes_to_slashes(
            match path_strip_prefix_spec(vault@, git_root@) {
                Some(rel) => rel,
                None => vault@,
            },
        ) + "/index.db"@,
{
    let rel = match path_strip_prefix(vault, git_root) {
        Some(r) => chars_of(r.as_str()),
        None => chars_of(vault),
    };
    let mut out: Vec<char> = Vec::new();
    let mut i: usize = 0;
    while i < rel.len()
        invariant
            i <= rel.len(),
            out@ == backslashes_to_slashes(rel@.subrange(0, i as int)),
        decreases rel.len() - i,
    {
        assert(rel@.subrange(0, i + 1).drop_last() =~= rel@.subrange(0, i as int));
        if rel[i] == '\\' {
            out.push('/');
        } else {
            out.push(rel[i]);
        }
        i = i + 1;
    }
    assert(rel@.subrange(0, rel@.len() as int) =~= rel@);
    push_str(&mut out, "/index.db");
    string_of(&out)
}

/// Each `\` made a `/`.
pub open spec fn backslashes_to_slashes(s: Seq<char>) -> Seq<char>
    decreases s.len(),
{
    if s.len() == 0 {
        s
    } else {
        backslashes_to_slashes(s.drop_last()).push(if s.last() == '\\' {
            '/'
        } else {
            s.last()
        })
    }
}

} // verus!
