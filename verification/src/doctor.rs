//! Vault health checks: broken links, orphans, schema violations,
//! attachment mismatches, size.

use vstd::prelude::*;

use crate::attachment::{attachment_refs_spec, parse_attachment_refs, SRef};
use crate::error::{error_message, ParcError};
use crate::fragment::{validate_fragment, validate_spec, Fragment};
use crate::link::{ids_starting_with, ids_with_prefix, parse_wiki_links, wiki_links_spec, SLink};
use crate::schema::{first_aliased, first_named, Schema, SchemaRegistry};
use crate::text::{chars_of, concat3, has_prefix, string_of, texts, upper, upper_chars};

verus! {

#[derive(Debug)]
pub enum DoctorFinding {
    BrokenLink { source_id: String, source_title: String, target_ref: String },
    OrphanFragment { id: String, title: String },
    SchemaViolation { id: String, title: String, message: String },
    AttachmentMismatch { fragment_id: String, detail: String },
    VaultSizeWarning { total_bytes: u64 },
    PluginIssue { plugin_name: String, detail: String },
}

/// A finding, as plain text.
pub enum SFinding {
    BrokenLink { source_id: Seq<char>, source_title: Seq<char>, target_ref: Seq<char> },
    OrphanFragment { id: Seq<char>, title: Seq<char> },
    SchemaViolation { id: Seq<char>, title: Seq<char>, message: Seq<char> },
    AttachmentMismatch { fragment_id: Seq<char>, detail: Seq<char> },
    VaultSizeWarning { total_bytes: u64 },
    PluginIssue { plugin_name: Seq<char>, detail: Seq<char> },
}

impl View for DoctorFinding {
    type V = SFinding;

    open spec fn view(&self) -> SFinding {
        match self {
            DoctorFinding::BrokenLink { source_id, source_title, target_ref } => SFinding::BrokenLink {
                source_id: source_id@,
                source_title: source_title@,
                target_ref: target_ref@,
            },
            DoctorFinding::OrphanFragment { id, title } => SFinding::OrphanFragment {
                id: id@,
                title: title@,
            },
            DoctorFinding::SchemaViolation { id, title, message } => SFinding::SchemaViolation {
                id: id@,
                title: title@,
                message: message@,
            },
            DoctorFinding::AttachmentMismatch { fragment_id, detail } => SFinding::AttachmentMismatch {
                fragment_id: fragment_id@,
                detail: detail@,
            },
            DoctorFinding::VaultSizeWarning { total_bytes } => SFinding::VaultSizeWarning {
                total_bytes: *total_bytes,
            },
            DoctorFinding::PluginIssue { plugin_name, detail } => SFinding::PluginIssue {
                plugin_name: plugin_name@,
                detail: detail@,
            },
        }
    }
}

pub open spec fn findings_view(v: Seq<DoctorFinding>) -> Seq<SFinding> {
    v.map_values(|f: DoctorFinding| f@)
}

#[derive(Debug)]
pub struct DoctorReport {
    pub findings: Vec<DoctorFinding>,
    pub fragments_checked: usize,
}

impl DoctorReport {
    /// A vault is healthy when no check found anything.
    pub fn is_healthy(&self) -> (r: bool)
        ensures
            r == (self.findings@.len() == 0),
    {
        self.findings.len() == 0
    }
}

// ── Broken links ─────────────────────────────────────────────────────

/// Some id starts with the link target, upper-cased.
pub open spec fn target_found(ids: Seq<Seq<char>>, target: Seq<char>) -> bool {
    ids_with_prefix(ids, upper(target)).len() > 0
}

/// The frontmatter links of a fragment that no id starts with.
pub open spec fn broken_frontmatter(links: Seq<Seq<char>>, ids: Seq<Seq<char>>) -> Seq<Seq<char>>
    decreases links.len(),
{
    if links.len() == 0 {
        Seq::empty()
    } else {
        let r = broken_frontmatter(links.drop_last(), ids);
        if target_found(ids, links.last()) {
            r
        } else {
            r.push(links.last())
        }
    }
}

/// The wiki-links of a body that no id starts with, as `[[target]]`.
pub open spec fn broken_wiki(links: Seq<SLink>, ids: Seq<Seq<char>>) -> Seq<Seq<char>>
    decreases links.len(),
{
    if links.len() == 0 {
        Seq::empty()
    } else {
        let r = broken_wiki(links.drop_last(), ids);
        if target_found(ids, links.last().target) {
            r
        } else {
            r.push("[["@ + links.last().target + "]]"@)
        }
    }
}

pub open spec fn broken_link_finding(f: Fragment, target_ref: Seq<char>) -> SFinding {
    SFinding::BrokenLink { source_id: f.id@, source_title: f.title@, target_ref }
}

/// The broken links of one fragment: frontmatter ones, then body ones.
pub open spec fn broken_links_of(f: Fragment, ids: Seq<Seq<char>>) -> Seq<SFinding> {
    (broken_frontmatter(texts(f.links@), ids) + broken_wiki(wiki_links_spec(f.body@), ids)).map_values(
        |t: Seq<char>| broken_link_finding(f, t),
    )
}

/// The broken links of the fragments, in order.
pub open spec fn broken_links_spec(fs: Seq<Fragment>, ids: Seq<Seq<char>>) -> Seq<SFinding>
    decreases fs.len(),
{
    if fs.len() == 0 {
        Seq::empty()
    } else {
        broken_links_spec(fs.drop_last(), ids) + broken_links_of(fs.last(), ids)
    }
}

proof fn lemma_ids_with_prefix(ids: Seq<Seq<char>>, u: Seq<char>)
    ensures
        ids_with_prefix(ids, u).len() > 0 <==> exists|i: int| 0 <= i < ids.len() && has_prefix(#[trigger] ids[i], u),
    decreases ids.len(),
{
    if ids.len() > 0 {
        lemma_ids_with_prefix(ids.drop_last(), u);
        if exists|i: int| 0 <= i < ids.drop_last().len() && has_prefix(#[trigger] ids.drop_last()[i], u) {
            let i = choose|i: int| 0 <= i < ids.drop_last().len() && has_prefix(#[trigger] ids.drop_last()[i], u);
            assert(ids[i] == ids.drop_last()[i]);
        }
        if exists|i: int| 0 <= i < ids.len() && has_prefix(#[trigger] ids[i], u) {
            let i = choose|i: int| 0 <= i < ids.len() && has_prefix(#[trigger] ids[i], u);
            if i < ids.len() - 1 {
                assert(ids.drop_last()[i] == ids[i]);
            }
        }
    }
}

proof fn lemma_broken_frontmatter(links: Seq<Seq<char>>, ids: Seq<Seq<char>>)
    ensures
        broken_frontmatter(links, ids) == links.filter(|l: Seq<char>| !target_found(ids, l)),
    decreases links.len(),
{
    reveal(Seq::filter);
    if links.len() > 0 {
        lemma_broken_frontmatter(links.drop_last(), ids);
    }
}

proof fn lemma_broken_wiki(links: Seq<SLink>, ids: Seq<Seq<char>>)
    ensures
        broken_wiki(links, ids) == links.filter(|w: SLink| !target_found(ids, w.target)).map_values(
            |w: SLink| "[["@ + w.target + "]]"@,
        ),
    decreases links.len(),
{
    reveal(Seq::filter);
    if links.len() > 0 {
        lemma_broken_wiki(links.drop_last(), ids);
        let pred = |w: SLink| !target_found(ids, w.target);
        let wrap = |w: SLink| "[["@ + w.target + "]]"@;
        let sub = links.drop_last().filter(pred);
        if pred(links.last()) {
            assert(sub.push(links.last()).map_values(wrap) =~= sub.map_values(wrap).push(wrap(links.last())));
        }
    }
}

/// A link is broken exactly when no fragment id starts with its target,
/// upper-cased. The broken links of a fragment are its frontmatter links
/// that are broken, in order, then its body's wiki-links that are broken,
/// written `[[target]]`, in order; each is reported with the fragment's
/// id and title.
pub proof fn broken_links_rule(f: Fragment, ids: Seq<Seq<char>>, t: Seq<char>)
    ensures
        !target_found(ids, t) <==> forall|i: int| 0 <= i < ids.len() ==> !has_prefix(#[trigger] ids[i], upper(t)),
        broken_links_of(f, ids) == (texts(f.links@).filter(|l: Seq<char>| !target_found(ids, l)) + wiki_links_spec(
            f.body@,
        ).filter(|w: SLink| !target_found(ids, w.target)).map_values(|w: SLink| "[["@ + w.target + "]]"@)).map_values(
            |x: Seq<char>| broken_link_finding(f, x),
        ),
{
    lemma_ids_with_prefix(ids, upper(t));
    lemma_broken_frontmatter(texts(f.links@), ids);
    lemma_broken_wiki(wiki_links_spec(f.body@), ids);
}

fn found_exec(all_ids: &[String], target: &str) -> (r: bool)
    ensures
        r == target_found(texts(all_ids@), target@),
{
    let t = chars_of(target);
    let u = upper_chars(&t);
    let m = ids_starting_with(all_ids, &u);
    m.len() > 0
}

fn push_broken(out: &mut Vec<DoctorFinding>, f: &Fragment, target_ref: String)
    ensures
        findings_view(final(out)@) == findings_view(old(out)@).push(broken_link_finding(*f, target_ref@)),
{
    let ghost before = out@;
    out.push(
        DoctorFinding::BrokenLink {
            source_id: f.id.clone(),
            source_title: f.title.clone(),
            target_ref,
        },
    );
    assert(findings_view(out@) =~= findings_view(before).push(broken_link_finding(*f, target_ref@)));
}

/// Check for broken links: frontmatter links and body wiki-links whose
/// upper-cased target no fragment id starts with.
pub fn check_broken_links(fragments: &[Fragment], all_ids: &[String]) -> (r: Vec<DoctorFinding>)
    ensures
        findings_view(r@) == broken_links_spec(fragments@, texts(all_ids@)),
{
    let ghost ids = texts(all_ids@);
    let mut out: Vec<DoctorFinding> = Vec::new();
    let mut k: usize = 0;
    while k < fragments.len()
        invariant
            k <= fragments.len(),
            ids == texts(all_ids@),
            findings_view(out@) =~= broken_links_spec(fragments@.subrange(0, k as int), ids),
        decreases fragments.len() - k,
    {
        let f = &fragments[k];
        assert(fragments@.subrange(0, k + 1).drop_last() =~= fragments@.subrange(0, k as int));
        let ghost start = findings_view(out@);
        let ghost links = texts(f.links@);
        let mut i: usize = 0;
        while i < f.links.len()
            invariant
                i <= f.links.len(),
                ids == texts(all_ids@),
                links == texts(f.links@),
                findings_view(out@) =~= start + broken_frontmatter(links.subrange(0, i as int), ids).map_values(
                    |t: Seq<char>| broken_link_finding(*f, t),
                ),
            decreases f.links.len() - i,
        {
            assert(links.subrange(0, i + 1).drop_last() =~= links.subrange(0, i as int));
            assert(links.subrange(0, i + 1).last() == f.links@[i as int]@);
            if !found_exec(all_ids, f.links[i].as_str()) {
                push_broken(&mut out, f, f.links[i].clone());
            }
            i = i + 1;
        }
        assert(links.subrange(0, links.len() as int) =~= links);
        let ghost mid = findings_view(out@);
        let wl = parse_wiki_links(f.body.as_str());
        let ghost wls = wiki_links_spec(f.body@);
        let mut j: usize = 0;
        while j < wl.len()
            invariant
                j <= wl.len(),
                ids == texts(all_ids@),
                crate::link::links_view(wl@) == wls,
                findings_view(out@) =~= mid + broken_wiki(wls.subrange(0, j as int), ids).map_values(
                    |t: Seq<char>| broken_link_finding(*f, t),
                ),
            decreases wl.len() - j,
        {
            assert(wls.subrange(0, j + 1).drop_last() =~= wls.subrange(0, j as int));
            assert(wls.subrange(0, j + 1).last() == wl@[j as int]@);
            if !found_exec(all_ids, wl[j].target.as_str()) {
                let tv = chars_of(wl[j].target.as_str());
                push_broken(&mut out, f, concat3("[[", &tv, "]]"));
            }
            j = j + 1;
        }
        assert(wls.subrange(0, wls.len() as int) =~= wls);
        assert(findings_view(out@) =~= broken_links_spec(fragments@.subrange(0, k + 1), ids));
        k = k + 1;
    }
    assert(fragments@.subrange(0, fragments@.len() as int) =~= fragments@);
    out
}

// ── Orphans ──────────────────────────────────────────────────────────

/// The one id a link target resolves to, if exactly one starts with it.
pub open spec fn resolved(ids: Seq<Seq<char>>, target: Seq<char>) -> Option<Seq<char>> {
    let m = ids_with_prefix(ids, upper(target));
    if m.len() == 1 {
        Some(m[0])
    } else {
        None
    }
}

/// The targets a fragment links to: frontmatter links, then body ones.
pub open spec fn link_targets(f: Fragment) -> Seq<Seq<char>> {
    texts(f.links@) + wiki_links_spec(f.body@).map_values(|l: SLink| l.target)
}

/// `x` takes part in a link among the fragments: it is a fragment with a
/// link that resolves, or the id such a link resolves to.
pub open spec fn is_linked(fs: Seq<Fragment>, ids: Seq<Seq<char>>, x: Seq<char>) -> bool {
    exists|k: int, t: int|
        0 <= k < fs.len() && 0 <= t < link_targets(fs[k]).len() && #[trigger] joins(
            ids,
            link_targets(fs[k])[t],
            fs[k].id@,
            x,
        )
}

proof fn lemma_orphans_filter(fs: Seq<Fragment>, all: Seq<Fragment>, ids: Seq<Seq<char>>)
    ensures
        orphans_spec(fs, all, ids) == fs.filter(|f: Fragment| !is_linked(all, ids, f.id@)).map_values(
            |f: Fragment| SFinding::OrphanFragment { id: f.id@, title: f.title@ },
        ),
    decreases fs.len(),
{
    reveal(Seq::filter);
    if fs.len() > 0 {
        lemma_orphans_filter(fs.drop_last(), all, ids);
        let pred = |f: Fragment| !is_linked(all, ids, f.id@);
        let out = |f: Fragment| SFinding::OrphanFragment { id: f.id@, title: f.title@ };
        let sub = fs.drop_last().filter(pred);
        if pred(fs.last()) {
            assert(sub.push(fs.last()).map_values(out) =~= sub.map_values(out).push(out(fs.last())));
        }
    }
}

/// The orphans are the fragments, in order, whose id takes part in no
/// link that resolves (neither as the fragment linking nor as the one
/// linked to), each reported with its id and title.
pub proof fn orphans_rule(fs: Seq<Fragment>, ids: Seq<Seq<char>>)
    ensures
        orphans_spec(fs, fs, ids) == fs.filter(|f: Fragment| !is_linked(fs, ids, f.id@)).map_values(
            |f: Fragment| SFinding::OrphanFragment { id: f.id@, title: f.title@ },
        ),
{
    lemma_orphans_filter(fs, fs, ids);
}

/// A link from fragment `from` to `target` resolves, and `x` is one of its ends.
pub open spec fn joins(ids: Seq<Seq<char>>, target: Seq<char>, from: Seq<char>, x: Seq<char>) -> bool {
    match resolved(ids, target) {
        Some(r) => x == from || x == r,
        None => false,
    }
}

/// The fragments that are not linked, in order.
pub open spec fn orphans_spec(fs: Seq<Fragment>, all: Seq<Fragment>, ids: Seq<Seq<char>>) -> Seq<SFinding>
    decreases fs.len(),
{
    if fs.len() == 0 {
        Seq::empty()
    } else {
        let r = orphans_spec(fs.drop_last(), all, ids);
        let f = fs.last();
        if is_linked(all, ids, f.id@) {
            r
        } else {
            r.push(SFinding::OrphanFragment { id: f.id@, title: f.title@ })
        }
    }
}

fn resolved_exec(all_ids: &[String], target: &str) -> (r: Option<String>)
    ensures
        match resolved(texts(all_ids@), target@) {
            Some(x) => r matches Some(s) && s@ == x,
            None => r.is_none(),
        },
{
    let t = chars_of(target);
    let u = upper_chars(&t);
    let m = ids_starting_with(all_ids, &u);
    if m.len() == 1 {
        Some(m[0].clone())
    } else {
        None
    }
}

fn contains_text(v: &Vec<String>, x: &String) -> (r: bool)
    ensures
        r == texts(v@).contains(x@),
{
    let xv = chars_of(x.as_str());
    let mut i: usize = 0;
    while i < v.len()
        invariant
            i <= v.len(),
            xv@ == x@,
            forall|j: int| 0 <= j < i ==> v@[j]@ != x@,
        decreases v.len() - i,
    {
        let c = chars_of(v[i].as_str());
        if crate::text::eq_str_chars(&c, &xv) {
            assert(texts(v@)[i as int] == x@);
            return true;
        }
        i = i + 1;
    }
    assert forall|j: int| 0 <= j < texts(v@).len() implies texts(v@)[j] != x@ by {
        assert(v@[j]@ != x@);
    }
    false
}

/// Check for orphan fragments: fragments with no inbound or outbound
/// link that resolves to exactly one id.
pub fn check_orphans(fragments: &[Fragment], all_ids: &[String]) -> (r: Vec<DoctorFinding>)
    ensures
        findings_view(r@) == orphans_spec(fragments@, fragments@, texts(all_ids@)),
{
    let ghost ids = texts(all_ids@);
    let ghost fs = fragments@;
    // The ids that take part in a link.
    let mut linked: Vec<String> = Vec::new();
    let mut k: usize = 0;
    while k < fragments.len()
        invariant
            k <= fragments.len(),
            ids == texts(all_ids@),
            fs == fragments@,
            forall|x: Seq<char>| #[trigger] texts(linked@).contains(x) <==> is_linked(
                fs.subrange(0, k as int),
                ids,
                x,
            ),
        decreases fragments.len() - k,
    {
        let f = &fragments[k];
        let ghost before_k = texts(linked@);
        let ghost targets = link_targets(*f);
        let wl = parse_wiki_links(f.body.as_str());
        let mut targets_exec: Vec<String> = Vec::new();
        let mut i: usize = 0;
        while i < f.links.len()
            invariant
                i <= f.links.len(),
                texts(targets_exec@) =~= texts(f.links@).subrange(0, i as int),
            decreases f.links.len() - i,
        {
            let ghost tb = texts(targets_exec@);
            targets_exec.push(f.links[i].clone());
            assert(texts(targets_exec@) =~= tb.push(f.links@[i as int]@));
            assert(texts(f.links@).subrange(0, i + 1) =~= texts(f.links@).subrange(0, i as int).push(
                f.links@[i as int]@,
            ));
            i = i + 1;
        }
        let mut j: usize = 0;
        while j < wl.len()
            invariant
                j <= wl.len(),
                i == f.links.len(),
                crate::link::links_view(wl@) == wiki_links_spec(f.body@),
                texts(targets_exec@) =~= texts(f.links@) + wiki_links_spec(f.body@).subrange(
                    0,
                    j as int,
                ).map_values(|l: SLink| l.target),
            decreases wl.len() - j,
        {
            let ghost tb = texts(targets_exec@);
            targets_exec.push(wl[j].target.clone());
            assert(texts(targets_exec@) =~= tb.push(wl@[j as int].target@));
            assert(wl@[j as int]@ == wiki_links_spec(f.body@)[j as int]);
            assert(wiki_links_spec(f.body@).subrange(0, j + 1).map_values(|l: SLink| l.target)
                =~= wiki_links_spec(f.body@).subrange(0, j as int).map_values(|l: SLink| l.target).push(
                wl@[j as int].target@,
            ));
            j = j + 1;
        }
        assert(wiki_links_spec(f.body@).subrange(0, wiki_links_spec(f.body@).len() as int)
            =~= wiki_links_spec(f.body@));
        assert(texts(targets_exec@) =~= targets);
        let mut t: usize = 0;
        while t < targets_exec.len()
            invariant
                t <= targets_exec.len(),
                ids == texts(all_ids@),
                fs == fragments@,
                k < fragments@.len(),
                texts(targets_exec@) == link_targets(fragments@[k as int]),
                forall|x: Seq<char>| #[trigger] texts(linked@).contains(x) <==> (before_k.contains(x) || exists|q: int|
                    0 <= q < t && #[trigger] joins(ids, link_targets(fs[k as int])[q], fs[k as int].id@, x)),
            decreases targets_exec.len() - t,
        {
            let ghost prev = texts(linked@);
            let res = resolved_exec(all_ids, targets_exec[t].as_str());
            assert(targets_exec@[t as int]@ == link_targets(fs[k as int])[t as int]);
            match res {
                Some(target) => {
                    linked.push(fragments[k].id.clone());
                    linked.push(target);
                    assert(texts(linked@) =~= prev.push(fs[k as int].id@).push(
                        resolved(ids, link_targets(fs[k as int])[t as int]).unwrap(),
                    ));
                },
                None => {},
            }
            let ghost id_k = fs[k as int].id@;
            let ghost tg = link_targets(fs[k as int])[t as int];
            assert forall|x: Seq<char>| #[trigger] texts(linked@).contains(x) <==> (prev.contains(x)
                || joins(ids, tg, id_k, x)) by {
                let n = texts(linked@).len();
                if texts(linked@).contains(x) && !prev.contains(x) {
                    let pos = choose|pos: int| 0 <= pos < n && texts(linked@)[pos] == x;
                    if pos < prev.len() {
                        assert(prev[pos] == x);
                    }
                }
                if prev.contains(x) {
                    let pos = choose|pos: int| 0 <= pos < prev.len() && prev[pos] == x;
                    assert(texts(linked@)[pos] == x);
                }
                if joins(ids, tg, id_k, x) {
                    if x == id_k {
                        assert(texts(linked@)[n - 2] == x);
                    } else {
                        assert(texts(linked@)[n - 1] == x);
                    }
                }
            }
            assert forall|x: Seq<char>| #[trigger] texts(linked@).contains(x) <==> (before_k.contains(x)
                || exists|q: int|
                0 <= q < t + 1 && #[trigger] joins(ids, link_targets(fs[k as int])[q], fs[k as int].id@, x)) by {
                if joins(ids, tg, id_k, x) {
                    assert(joins(ids, link_targets(fs[k as int])[t as int], fs[k as int].id@, x));
                }
                if exists|q: int|
                    0 <= q < t + 1 && #[trigger] joins(ids, link_targets(fs[k as int])[q], fs[k as int].id@, x) {
                    let q = choose|q: int|
                        0 <= q < t + 1 && #[trigger] joins(ids, link_targets(fs[k as int])[q], fs[k as int].id@, x);
                    if q < t {
                        assert(prev.contains(x));
                    }
                }
            }
            t = t + 1;
        }
        assert forall|x: Seq<char>| #[trigger] texts(linked@).contains(x) <==> is_linked(
            fs.subrange(0, k + 1),
            ids,
            x,
        ) by {
            let sub = fs.subrange(0, k + 1);
            let pre = fs.subrange(0, k as int);
            if is_linked(sub, ids, x) {
                let (kk, tt) = choose|kk: int, tt: int|
                    0 <= kk < sub.len() && 0 <= tt < link_targets(sub[kk]).len() && #[trigger] joins(
                        ids,
                        link_targets(sub[kk])[tt],
                        sub[kk].id@,
                        x,
                    );
                if kk < k {
                    assert(pre[kk] == sub[kk]);
                    assert(joins(ids, link_targets(pre[kk])[tt], pre[kk].id@, x));
                    assert(is_linked(pre, ids, x));
                } else {
                    assert(sub[kk] == fs[k as int]);
                    assert(joins(ids, link_targets(fs[k as int])[tt], fs[k as int].id@, x));
                }
            }
            if texts(linked@).contains(x) {
                if before_k.contains(x) {
                    let (kk, tt) = choose|kk: int, tt: int|
                        0 <= kk < pre.len() && 0 <= tt < link_targets(pre[kk]).len() && #[trigger] joins(
                            ids,
                            link_targets(pre[kk])[tt],
                            pre[kk].id@,
                            x,
                        );
                    assert(sub[kk] == pre[kk]);
                    assert(joins(ids, link_targets(sub[kk])[tt], sub[kk].id@, x));
                } else {
                    let q = choose|q: int|
                        0 <= q < targets_exec@.len() && #[trigger] joins(
                            ids,
                            link_targets(fs[k as int])[q],
                            fs[k as int].id@,
                            x,
                        );
                    assert(sub[k as int] == fs[k as int]);
                    assert(joins(ids, link_targets(sub[k as int])[q], sub[k as int].id@, x));
                }
            }
        }
        k = k + 1;
    }
    assert(fs.subrange(0, fs.len() as int) =~= fs);
    // The fragments no link touches.
    let mut out: Vec<DoctorFinding> = Vec::new();
    let mut m: usize = 0;
    while m < fragments.len()
        invariant
            m <= fragments.len(),
            fs == fragments@,
            forall|x: Seq<char>| #[trigger] texts(linked@).contains(x) <==> is_linked(fs, texts(all_ids@), x),
            findings_view(out@) =~= orphans_spec(fs.subrange(0, m as int), fs, texts(all_ids@)),
        decreases fragments.len() - m,
    {
        assert(fs.subrange(0, m + 1).drop_last() =~= fs.subrange(0, m as int));
        let f = &fragments[m];
        if !contains_text(&linked, &f.id) {
            let ghost before = out@;
            out.push(DoctorFinding::OrphanFragment { id: f.id.clone(), title: f.title.clone() });
            assert(findings_view(out@) =~= findings_view(before).push(
                SFinding::OrphanFragment { id: f.id@, title: f.title@ },
            ));
        }
        m = m + 1;
    }
    assert(fs.subrange(0, fs.len() as int) =~= fs);
    out
}

// ── Schema violations ────────────────────────────────────────────────

/// The schema a type name resolves to: by name, else by alias.
pub open spec fn resolve_spec(schemas: Seq<Schema>, name: Seq<char>) -> Option<Schema> {
    let k = first_named(schemas, name, 0);
    let a = first_aliased(schemas, name, 0);
    if k < schemas.len() {
        Some(schemas[k])
    } else if a < schemas.len() {
        Some(schemas[a])
    } else {
        None
    }
}

/// The schema violations of the fragments, in order.
pub open spec fn violations_spec(fs: Seq<Fragment>, schemas: Seq<Schema>) -> Seq<SFinding>
    decreases fs.len(),
{
    if fs.len() == 0 {
        Seq::empty()
    } else {
        let r = violations_spec(fs.drop_last(), schemas);
        let f = fs.last();
        match resolve_spec(schemas, f.fragment_type@) {
            Some(s) => match validate_spec(s.fields@, f.extra_fields@) {
                Some(e) => r.push(
                    SFinding::SchemaViolation { id: f.id@, title: f.title@, message: "validation error: "@ + e },
                ),
                None => r,
            },
            None => r,
        }
    }
}

/// Check each fragment whose type has a schema against it.
pub fn check_schema_violations(fragments: &[Fragment], schemas: &SchemaRegistry) -> (r: Vec<DoctorFinding>)
    ensures
        findings_view(r@) == violations_spec(fragments@, schemas.schemas@),
{
    let mut out: Vec<DoctorFinding> = Vec::new();
    let mut k: usize = 0;
    while k < fragments.len()
        invariant
            k <= fragments.len(),
            findings_view(out@) =~= violations_spec(fragments@.subrange(0, k as int), schemas.schemas@),
        decreases fragments.len() - k,
    {
        assert(fragments@.subrange(0, k + 1).drop_last() =~= fragments@.subrange(0, k as int));
        let f = &fragments[k];
        match schemas.resolve(f.fragment_type.as_str()) {
            Some(schema) => {
                match validate_fragment(f, schema) {
                    Err(e) => {
                        let ghost before = out@;
                        let msg = e.message();
                        out.push(
                            DoctorFinding::SchemaViolation {
                                id: f.id.clone(),
                                title: f.title.clone(),
                                message: msg,
                            },
                        );
                        assert(findings_view(out@) =~= findings_view(before).push(
                            SFinding::SchemaViolation { id: f.id@, title: f.title@, message: msg@ },
                        ));
                    },
                    Ok(()) => {},
                }
            },
            None => {},
        }
        k = k + 1;
    }
    assert(fragments@.subrange(0, fragments@.len() as int) =~= fragments@);
    out
}

// ── Size ─────────────────────────────────────────────────────────────

/// Vaults above this many bytes get a warning: 500 MiB.
pub const VAULT_SIZE_WARNING_BYTES: u64 = 524288000;

/// The finding for a vault of `total_bytes`: a warning above 500 MiB.
pub fn check_vault_size(total_bytes: u64) -> (r: Vec<DoctorFinding>)
    ensures
        total_bytes > 500 * 1024 * 1024 ==> findings_view(r@) == seq![
            SFinding::VaultSizeWarning { total_bytes },
        ],
        total_bytes <= 500 * 1024 * 1024 ==> r@.len() == 0,
{
    let mut out: Vec<DoctorFinding> = Vec::new();
    if total_bytes > VAULT_SIZE_WARNING_BYTES {
        out.push(DoctorFinding::VaultSizeWarning { total_bytes });
        assert(findings_view(out@) =~= seq![SFinding::VaultSizeWarning { total_bytes }]);
    }
    out
}


// ── Plugins ──────────────────────────────────────────────────────────

/// What the vault showed of one discovered plugin: its name, what
/// validating its manifest against the vault gave, where its wasm file
/// should be and whether a file is there.
#[derive(Debug)]
pub struct PluginStatus {
    pub name: String,
    pub validation: Result<(), ParcError>,
    pub wasm_path: String,
    pub wasm_exists: bool,
}

/// The finding for one plugin, if any: its manifest's error, else a
/// missing wasm file.
pub open spec fn plugin_finding(p: PluginStatus) -> Option<SFinding> {
    match p.validation {
        Err(e) => Some(SFinding::PluginIssue { plugin_name: p.name@, detail: error_message(e) }),
        Ok(()) => if p.wasm_exists {
            None
        } else {
            Some(
                SFinding::PluginIssue {
                    plugin_name: p.name@,
                    detail: "wasm file not found: "@ + p.wasm_path@,
                },
            )
        },
    }
}

/// The findings for a list of plugins, in order.
pub open spec fn plugin_findings(ps: Seq<PluginStatus>) -> Seq<SFinding>
    decreases ps.len(),
{
    if ps.len() == 0 {
        Seq::empty()
    } else {
        let r = plugin_findings(ps.drop_last());
        match plugin_finding(ps.last()) {
            Some(f) => r.push(f),
            None => r,
        }
    }
}

/// Check the discovered plugins: one finding for each whose manifest is
/// invalid or whose wasm file is missing.
pub fn check_plugins(plugins: &[PluginStatus]) -> (r: Vec<DoctorFinding>)
    ensures
        findings_view(r@) == plugin_findings(plugins@),
{
    let mut out: Vec<DoctorFinding> = Vec::new();
    let mut k: usize = 0;
    while k < plugins.len()
        invariant
            k <= plugins.len(),
            findings_view(out@) =~= plugin_findings(plugins@.subrange(0, k as int)),
        decreases plugins.len() - k,
    {
        assert(plugins@.subrange(0, k + 1).drop_last() =~= plugins@.subrange(0, k as int));
        let p = &plugins[k];
        let ghost before = out@;
        match &p.validation {
            Err(e) => {
                out.push(DoctorFinding::PluginIssue { plugin_name: p.name.clone(), detail: e.message() });
                assert(findings_view(out@) =~= findings_view(before).push(plugin_finding(*p).unwrap()));
            },
            Ok(()) => {
                if !p.wasm_exists {
                    let detail = concat3("wasm file not found: ", &chars_of(p.wasm_path.as_str()), "");
                    proof {
                        reveal_strlit("");
                    }
                    out.push(DoctorFinding::PluginIssue { plugin_name: p.name.clone(), detail });
                    assert(findings_view(out@) =~= findings_view(before).push(plugin_finding(*p).unwrap()));
                }
            },
        }
        k = k + 1;
    }
    assert(plugins@.subrange(0, plugins@.len() as int) =~= plugins@);
    out
}

// ── Attachments ──────────────────────────────────────────────────────

/// An attachment directory on disk, `attachments/<fragment_id>/`, and the
/// names of the entries in it, in listing order.
#[derive(Debug)]
pub struct AttachmentDir {
    pub fragment_id: String,
    pub files: Vec<String>,
}

/// The names in the first directory of fragment `id`, if it has one.
pub open spec fn dir_files(dirs: Seq<AttachmentDir>, id: Seq<char>) -> Option<Seq<Seq<char>>>
    decreases dirs.len(),
{
    if dirs.len() == 0 {
        None
    } else if dirs[0].fragment_id@ == id {
        Some(texts(dirs[0].files@))
    } else {
        dir_files(dirs.drop_first(), id)
    }
}

/// A file of that name is in the fragment's directory.
pub open spec fn on_disk(files: Option<Seq<Seq<char>>>, name: Seq<char>) -> bool {
    match files {
        Some(f) => f.contains(name),
        None => false,
    }
}

pub open spec fn mismatch(id: Seq<char>, detail: Seq<char>) -> SFinding {
    SFinding::AttachmentMismatch { fragment_id: id, detail }
}

/// Frontmatter attachments missing on disk.
pub open spec fn missing_listed(id: Seq<char>, listed: Seq<Seq<char>>, files: Option<Seq<Seq<char>>>) -> Seq<SFinding>
    decreases listed.len(),
{
    if listed.len() == 0 {
        Seq::empty()
    } else {
        let r = missing_listed(id, listed.drop_last(), files);
        if on_disk(files, listed.last()) {
            r
        } else {
            r.push(mismatch(id, "frontmatter lists '"@ + listed.last() + "' but file not found on disk"@))
        }
    }
}

/// Body references to files neither on disk nor listed.
pub open spec fn missing_referenced(
    id: Seq<char>,
    refs: Seq<SRef>,
    listed: Seq<Seq<char>>,
    files: Option<Seq<Seq<char>>>,
) -> Seq<SFinding>
    decreases refs.len(),
{
    if refs.len() == 0 {
        Seq::empty()
    } else {
        let r = missing_referenced(id, refs.drop_last(), listed, files);
        let name = refs.last().0;
        if !on_disk(files, name) && !listed.contains(name) {
            r.push(mismatch(id, "body references ![[attach:"@ + name + "]] but file not found"@))
        } else {
            r
        }
    }
}

/// Files on disk the frontmatter does not list.
pub open spec fn unlisted_files(id: Seq<char>, on: Seq<Seq<char>>, listed: Seq<Seq<char>>) -> Seq<SFinding>
    decreases on.len(),
{
    if on.len() == 0 {
        Seq::empty()
    } else {
        let r = unlisted_files(id, on.drop_last(), listed);
        if listed.contains(on.last()) {
            r
        } else {
            r.push(mismatch(id, "file '"@ + on.last() + "' on disk but not listed in frontmatter"@))
        }
    }
}

/// The attachment findings of one fragment.
pub open spec fn attachment_findings_of(f: Fragment, dirs: Seq<AttachmentDir>) -> Seq<SFinding> {
    let files = dir_files(dirs, f.id@);
    let listed = texts(f.attachments@);
    missing_listed(f.id@, listed, files) + missing_referenced(
        f.id@,
        attachment_refs_spec(f.body@),
        listed,
        files,
    ) + match files {
        Some(on) => unlisted_files(f.id@, on, listed),
        None => Seq::empty(),
    }
}

pub open spec fn attachment_findings(fs: Seq<Fragment>, dirs: Seq<AttachmentDir>) -> Seq<SFinding>
    decreases fs.len(),
{
    if fs.len() == 0 {
        Seq::empty()
    } else {
        attachment_findings(fs.drop_last(), dirs) + attachment_findings_of(fs.last(), dirs)
    }
}

/// Directories of fragments that do not exist.
pub open spec fn stray_dirs(dirs: Seq<AttachmentDir>, ids: Seq<Seq<char>>) -> Seq<SFinding>
    decreases dirs.len(),
{
    if dirs.len() == 0 {
        Seq::empty()
    } else {
        let r = stray_dirs(dirs.drop_last(), ids);
        let d = dirs.last();
        if ids.contains(d.fragment_id@) {
            r
        } else {
            r.push(mismatch(d.fragment_id@, "attachment directory exists but fragment not found"@))
        }
    }
}

proof fn lemma_missing_listed(id: Seq<char>, listed: Seq<Seq<char>>, files: Option<Seq<Seq<char>>>)
    ensures
        missing_listed(id, listed, files) == listed.filter(|n: Seq<char>| !on_disk(files, n)).map_values(
            |n: Seq<char>| mismatch(id, "frontmatter lists '"@ + n + "' but file not found on disk"@),
        ),
    decreases listed.len(),
{
    reveal(Seq::filter);
    if listed.len() > 0 {
        lemma_missing_listed(id, listed.drop_last(), files);
        let pred = |n: Seq<char>| !on_disk(files, n);
        let out = |n: Seq<char>| mismatch(id, "frontmatter lists '"@ + n + "' but file not found on disk"@);
        let sub = listed.drop_last().filter(pred);
        if pred(listed.last()) {
            assert(sub.push(listed.last()).map_values(out) =~= sub.map_values(out).push(out(listed.last())));
        }
    }
}

proof fn lemma_missing_referenced(
    id: Seq<char>,
    refs: Seq<SRef>,
    listed: Seq<Seq<char>>,
    files: Option<Seq<Seq<char>>>,
)
    ensures
        missing_referenced(id, refs, listed, files) == refs.filter(
            |x: SRef| !on_disk(files, x.0) && !listed.contains(x.0),
        ).map_values(|x: SRef| mismatch(id, "body references ![[attach:"@ + x.0 + "]] but file not found"@)),
    decreases refs.len(),
{
    reveal(Seq::filter);
    if refs.len() > 0 {
        lemma_missing_referenced(id, refs.drop_last(), listed, files);
        let pred = |x: SRef| !on_disk(files, x.0) && !listed.contains(x.0);
        let out = |x: SRef| mismatch(id, "body references ![[attach:"@ + x.0 + "]] but file not found"@);
        let sub = refs.drop_last().filter(pred);
        if pred(refs.last()) {
            assert(sub.push(refs.last()).map_values(out) =~= sub.map_values(out).push(out(refs.last())));
        }
    }
}

proof fn lemma_unlisted_files(id: Seq<char>, on: Seq<Seq<char>>, listed: Seq<Seq<char>>)
    ensures
        unlisted_files(id, on, listed) == on.filter(|n: Seq<char>| !listed.contains(n)).map_values(
            |n: Seq<char>| mismatch(id, "file '"@ + n + "' on disk but not listed in frontmatter"@),
        ),
    decreases on.len(),
{
    reveal(Seq::filter);
    if on.len() > 0 {
        lemma_unlisted_files(id, on.drop_last(), listed);
        let pred = |n: Seq<char>| !listed.contains(n);
        let out = |n: Seq<char>| mismatch(id, "file '"@ + n + "' on disk but not listed in frontmatter"@);
        let sub = on.drop_last().filter(pred);
        if pred(on.last()) {
            assert(sub.push(on.last()).map_values(out) =~= sub.map_values(out).push(out(on.last())));
        }
    }
}

proof fn lemma_stray_dirs(dirs: Seq<AttachmentDir>, ids: Seq<Seq<char>>)
    ensures
        stray_dirs(dirs, ids) == dirs.filter(|d: AttachmentDir| !ids.contains(d.fragment_id@)).map_values(
            |d: AttachmentDir| mismatch(d.fragment_id@, "attachment directory exists but fragment not found"@),
        ),
    decreases dirs.len(),
{
    reveal(Seq::filter);
    if dirs.len() > 0 {
        lemma_stray_dirs(dirs.drop_last(), ids);
        let pred = |d: AttachmentDir| !ids.contains(d.fragment_id@);
        let out = |d: AttachmentDir| mismatch(d.fragment_id@, "attachment directory exists but fragment not found"@);
        let sub = dirs.drop_last().filter(pred);
        if pred(dirs.last()) {
            assert(sub.push(dirs.last()).map_values(out) =~= sub.map_values(out).push(out(dirs.last())));
        }
    }
}

/// A fragment's attachment findings are, in order: each listed
/// attachment with no file of that name in its directory; each body
/// reference `![[attach:name]]` to a file neither on disk nor listed; and,
/// where the fragment has a directory, each file in it that is not
/// listed. After all fragments come the directories of fragments that do
/// not exist.
pub proof fn attachments_rule(f: Fragment, dirs: Seq<AttachmentDir>, ids: Seq<Seq<char>>)
    ensures
        ({
            let id = f.id@;
            let files = dir_files(dirs, id);
            let listed = texts(f.attachments@);
            attachment_findings_of(f, dirs) == listed.filter(|n: Seq<char>| !on_disk(files, n)).map_values(
                |n: Seq<char>| mismatch(id, "frontmatter lists '"@ + n + "' but file not found on disk"@),
            ) + attachment_refs_spec(f.body@).filter(
                |x: SRef| !on_disk(files, x.0) && !listed.contains(x.0),
            ).map_values(|x: SRef| mismatch(id, "body references ![[attach:"@ + x.0 + "]] but file not found"@))
                + match files {
                Some(on) => on.filter(|n: Seq<char>| !listed.contains(n)).map_values(
                    |n: Seq<char>| mismatch(id, "file '"@ + n + "' on disk but not listed in frontmatter"@),
                ),
                None => Seq::empty(),
            }
        }),
        stray_dirs(dirs, ids) == dirs.filter(|d: AttachmentDir| !ids.contains(d.fragment_id@)).map_values(
            |d: AttachmentDir| mismatch(d.fragment_id@, "attachment directory exists but fragment not found"@),
        ),
{
    let id = f.id@;
    let files = dir_files(dirs, id);
    let listed = texts(f.attachments@);
    lemma_missing_listed(id, listed, files);
    lemma_missing_referenced(id, attachment_refs_spec(f.body@), listed, files);
    match files {
        Some(on) => lemma_unlisted_files(id, on, listed),
        None => {},
    }
    lemma_stray_dirs(dirs, ids);
}

pub open spec fn fragment_ids(fs: Seq<Fragment>) -> Seq<Seq<char>> {
    fs.map_values(|f: Fragment| f.id@)
}

fn dir_files_exec<'a>(dirs: &'a [AttachmentDir], id: &str) -> (r: Option<&'a Vec<String>>)
    ensures
        match dir_files(dirs@, id@) {
            Some(f) => r matches Some(v) && texts(v@) == f,
            None => r.is_none(),
        },
{
    let iv = chars_of(id);
    assert(dirs@.subrange(0, dirs@.len() as int) =~= dirs@);
    let mut i: usize = 0;
    while i < dirs.len()
        invariant
            i <= dirs.len(),
            iv@ == id@,
            dir_files(dirs@, id@) == dir_files(dirs@.subrange(i as int, dirs@.len() as int), id@),
        decreases dirs.len() - i,
    {
        let ghost sub = dirs@.subrange(i as int, dirs@.len() as int);
        assert(sub.drop_first() =~= dirs@.subrange(i + 1, dirs@.len() as int));
        let d = chars_of(dirs[i].fragment_id.as_str());
        if crate::text::eq_str_chars(&d, &iv) {
            return Some(&dirs[i].files);
        }
        i = i + 1;
    }
    None
}

fn on_disk_exec(files: Option<&Vec<String>>, name: &String) -> (r: bool)
    ensures
        r == on_disk(
            match files {
                Some(v) => Some(texts(v@)),
                None => None,
            },
            name@,
        ),
{
    match files {
        Some(v) => contains_text(v, name),
        None => false,
    }
}

fn push_mismatch(out: &mut Vec<DoctorFinding>, id: &String, detail: Vec<char>)
    ensures
        findings_view(final(out)@) == findings_view(old(out)@).push(mismatch(id@, detail@)),
{
    let ghost before = out@;
    out.push(DoctorFinding::AttachmentMismatch { fragment_id: id.clone(), detail: string_of(&detail) });
    assert(findings_view(out@) =~= findings_view(before).push(mismatch(id@, detail@)));
}

fn attachment_findings_exec(out: &mut Vec<DoctorFinding>, f: &Fragment, dirs: &[AttachmentDir])
    ensures
        findings_view(final(out)@) =~= findings_view(old(out)@) + attachment_findings_of(*f, dirs@),
{
    let files = dir_files_exec(dirs, f.id.as_str());
    let ghost fv = match files {
        Some(v) => Some(texts(v@)),
        None => None,
    };
    let ghost listed = texts(f.attachments@);
    let ghost start = findings_view(out@);
    let mut i: usize = 0;
    while i < f.attachments.len()
        invariant
            i <= f.attachments.len(),
            listed == texts(f.attachments@),
            fv == (match files {
                Some(v) => Some(texts(v@)),
                None => None,
            }),
            findings_view(out@) =~= start + missing_listed(f.id@, listed.subrange(0, i as int), fv),
        decreases f.attachments.len() - i,
    {
        assert(listed.subrange(0, i + 1).drop_last() =~= listed.subrange(0, i as int));
        assert(listed.subrange(0, i + 1).last() == f.attachments@[i as int]@);
        if !on_disk_exec(files, &f.attachments[i]) {
            let mut d = chars_of("frontmatter lists '");
            crate::text::push_str(&mut d, f.attachments[i].as_str());
            crate::text::push_str(&mut d, "' but file not found on disk");
            push_mismatch(out, &f.id, d);
        }
        i = i + 1;
    }
    assert(listed.subrange(0, listed.len() as int) =~= listed);
    let ghost mid = findings_view(out@);
    let refs = parse_attachment_refs(f.body.as_str());
    let ghost rs = attachment_refs_spec(f.body@);
    let mut j: usize = 0;
    while j < refs.len()
        invariant
            j <= refs.len(),
            listed == texts(f.attachments@),
            crate::attachment::refs_view(refs@) == rs,
            fv == (match files {
                Some(v) => Some(texts(v@)),
                None => None,
            }),
            findings_view(out@) =~= mid + missing_referenced(f.id@, rs.subrange(0, j as int), listed, fv),
        decreases refs.len() - j,
    {
        assert(rs.subrange(0, j + 1).drop_last() =~= rs.subrange(0, j as int));
        assert(rs.subrange(0, j + 1).last() == refs@[j as int]@);
        if !on_disk_exec(files, &refs[j].filename) && !contains_text(&f.attachments, &refs[j].filename) {
            let mut d = chars_of("body references ![[attach:");
            crate::text::push_str(&mut d, refs[j].filename.as_str());
            crate::text::push_str(&mut d, "]] but file not found");
            push_mismatch(out, &f.id, d);
        }
        j = j + 1;
    }
    assert(rs.subrange(0, rs.len() as int) =~= rs);
    let ghost end = findings_view(out@);
    match files {
        Some(v) => {
            let ghost on = texts(v@);
            let mut k: usize = 0;
            while k < v.len()
                invariant
                    k <= v.len(),
                    on == texts(v@),
                    listed == texts(f.attachments@),
                    findings_view(out@) =~= end + unlisted_files(f.id@, on.subrange(0, k as int), listed),
                decreases v.len() - k,
            {
                assert(on.subrange(0, k + 1).drop_last() =~= on.subrange(0, k as int));
                assert(on.subrange(0, k + 1).last() == v@[k as int]@);
                if !contains_text(&f.attachments, &v[k]) {
                    let mut d = chars_of("file '");
                    crate::text::push_str(&mut d, v[k].as_str());
                    crate::text::push_str(&mut d, "' on disk but not listed in frontmatter");
                    push_mismatch(out, &f.id, d);
                }
                k = k + 1;
            }
            assert(on.subrange(0, on.len() as int) =~= on);
        },
        None => {},
    }
}

/// Check attachments against what is on disk: frontmatter entries and
/// body references with no file, files the frontmatter does not list,
/// and directories of fragments that do not exist. `dirs` lists the
/// directories under `attachments/`, each with its entries.
pub fn check_attachments_with(fragments: &[Fragment], dirs: &[AttachmentDir]) -> (r: Vec<DoctorFinding>)
    ensures
        findings_view(r@) == attachment_findings(fragments@, dirs@) + stray_dirs(
            dirs@,
            fragment_ids(fragments@),
        ),
{
    let mut out: Vec<DoctorFinding> = Vec::new();
    let mut ids: Vec<String> = Vec::new();
    let mut k: usize = 0;
    while k < fragments.len()
        invariant
            k <= fragments.len(),
            findings_view(out@) =~= attachment_findings(fragments@.subrange(0, k as int), dirs@),
            texts(ids@) =~= fragment_ids(fragments@.subrange(0, k as int)),
        decreases fragments.len() - k,
    {
        assert(fragments@.subrange(0, k + 1).drop_last() =~= fragments@.subrange(0, k as int));
        attachment_findings_exec(&mut out, &fragments[k], dirs);
        let ghost before = ids@;
        ids.push(fragments[k].id.clone());
        assert(texts(ids@) =~= texts(before).push(fragments@[k as int].id@));
        k = k + 1;
    }
    assert(fragments@.subrange(0, fragments@.len() as int) =~= fragments@);
    let ghost mid = findings_view(out@);
    let mut d: usize = 0;
    while d < dirs.len()
        invariant
            d <= dirs.len(),
            texts(ids@) == fragment_ids(fragments@),
            findings_view(out@) =~= mid + stray_dirs(dirs@.subrange(0, d as int), texts(ids@)),
        decreases dirs.len() - d,
    {
        assert(dirs@.subrange(0, d + 1).drop_last() =~= dirs@.subrange(0, d as int));
        if !contains_text(&ids, &dirs[d].fragment_id) {
            push_mismatch(&mut out, &dirs[d].fragment_id, chars_of("attachment directory exists but fragment not found"));
        }
        d = d + 1;
    }
    assert(dirs@.subrange(0, dirs@.len() as int) =~= dirs@);
    out
}

} // verus!
