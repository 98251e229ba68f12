//! What the search index stores of a fragment.

use vstd::prelude::*;

use crate::export::{field_text, fragment_tags, merged_tags_of};
use crate::fields::lookup;
use crate::fragment::{get_str, opt_view, str_field, Fragment};
use crate::json::JsonValue;
use crate::link::{
    links_view, merge_resolved_links, merge_spec, options_view, parse_wiki_links, resolve_link_target,
    resolve_spec, wiki_links_spec, FragmentRef, ResolveOutcome, SLink, SOutcome,
};
use crate::text::{join_strings, join_with, texts};
use crate::time::rfc3339_full;

verus! {

/// The `fragments` row of a fragment.
#[derive(Debug)]
pub struct IndexRow {
    pub id: String,
    pub fragment_type: String,
    pub title: String,
    pub status: Option<String>,
    pub priority: Option<String>,
    pub due: Option<String>,
    pub assignee: Option<String>,
    pub created_by: Option<String>,
    pub created_at: String,
    pub updated_at: String,
    pub body: String,
    pub attachment_count: i64,
    pub archived: bool,
}

/// The `archived` field, when it is a boolean; else not archived.
pub open spec fn archived_spec(f: Fragment) -> bool {
    match lookup(f.extra_fields@, "archived"@) {
        Some(JsonValue::Bool(b)) => b,
        _ => false,
    }
}

/// The row a fragment is indexed as: its envelope fields, the text of its
/// `status`, `priority`, `due` and `assignee` fields when they are strings,
/// its timestamps in RFC 3339, how many attachments it lists, and whether
/// it is archived.
pub fn index_row(f: &Fragment) -> (r: IndexRow)
    ensures
        r.id == f.id,
        r.fragment_type == f.fragment_type,
        r.title == f.title,
        opt_view(r.status) == str_field(f.extra_fields@, "status"@),
        opt_view(r.priority) == str_field(f.extra_fields@, "priority"@),
        opt_view(r.due) == str_field(f.extra_fields@, "due"@),
        opt_view(r.assignee) == str_field(f.extra_fields@, "assignee"@),
        r.created_by == f.created_by,
        r.created_at@ == rfc3339_full(f.created_at.secs_spec(), f.created_at.nanos_spec()),
        r.updated_at@ == rfc3339_full(f.updated_at.secs_spec(), f.updated_at.nanos_spec()),
        r.body == f.body,
        r.attachment_count == f.attachments@.len() as i64,
        r.archived == archived_spec(*f),
{
    let archived = match crate::fields::field_get(&f.extra_fields, "archived") {
        Some(JsonValue::Bool(b)) => *b,
        _ => false,
    };
    IndexRow {
        id: f.id.clone(),
        fragment_type: f.fragment_type.clone(),
        title: f.title.clone(),
        status: get_str(&f.extra_fields, "status"),
        priority: get_str(&f.extra_fields, "priority"),
        due: get_str(&f.extra_fields, "due"),
        assignee: get_str(&f.extra_fields, "assignee"),
        created_by: f.created_by.clone(),
        created_at: f.created_at.to_rfc3339(),
        updated_at: f.updated_at.to_rfc3339(),
        body: f.body.clone(),
        attachment_count: f.attachments.len() as i64,
        archived,
    }
}

/// The id a link target resolves to among the candidates, if exactly one.
pub open spec fn unique_target(t: Seq<char>, c: Seq<FragmentRef>) -> Option<Seq<char>> {
    match resolve_spec(t, c) {
        SOutcome::Unique(id) => Some(id),
        _ => None,
    }
}

/// The links a fragment is indexed with: its frontmatter links, then the
/// ids its body's wiki-links resolve to, upper-case duplicates dropped.
pub open spec fn index_links_spec(f: Fragment, c: Seq<FragmentRef>) -> Seq<Seq<char>> {
    merge_spec(
        texts(f.links@),
        wiki_links_spec(f.body@).map_values(|l: SLink| unique_target(l.target, c)),
    )
}

/// The links a fragment is indexed with.
pub fn index_links(f: &Fragment, candidates: &[FragmentRef]) -> (r: Vec<String>)
    ensures
        texts(r@) == index_links_spec(*f, candidates@),
{
    let body_links = parse_wiki_links(f.body.as_str());
    let ghost wl = wiki_links_spec(f.body@);
    let mut resolved: Vec<Option<String>> = Vec::new();
    let mut i: usize = 0;
    while i < body_links.len()
        invariant
            i <= body_links.len(),
            links_view(body_links@) == wl,
            options_view(resolved@) =~= wl.subrange(0, i as int).map_values(
                |l: SLink| unique_target(l.target, candidates@),
            ),
        decreases body_links.len() - i,
    {
        assert(body_links@[i as int]@ == wl[i as int]);
        let o = match resolve_link_target(body_links[i].target.as_str(), candidates) {
            ResolveOutcome::Unique(id) => Some(id),
            _ => None,
        };
        let ghost before = resolved@;
        resolved.push(o);
        assert(options_view(resolved@) =~= options_view(before).push(
            unique_target(wl[i as int].target, candidates@),
        ));
        i = i + 1;
    }
    assert(wl.subrange(0, wl.len() as int) =~= wl);
    merge_resolved_links(f.links.as_slice(), resolved.as_slice())
}

/// The tags a fragment is indexed with, and their text for full-text
/// search: joined by spaces.
pub fn index_tags(f: &Fragment) -> (r: (Vec<String>, String))
    ensures
        texts(r.0@) == merged_tags_of(*f),
        r.1@ == join_with(merged_tags_of(*f), " "@),
{
    let tags = fragment_tags(f);
    let text = join_strings(tags.as_slice(), " ");
    (tags, text)
}

/// A fragment that links to another, as backlink queries list it.
#[derive(Debug, Clone)]
pub struct BacklinkInfo {
    pub source_id: String,
    pub source_type: String,
    pub source_title: String,
}

} // verus!
