//! Fragment history: snapshots taken before each change, and diffs.

use vstd::prelude::*;

use crate::error::ParcError;
use crate::export::{byte_prefix, cut_on_boundary};
use crate::text::{chars_of, push_chars, push_str, str_less, str_lt, string_of, texts, utf8_len};

verus! {

#[derive(Debug, Clone)]
pub struct VersionEntry {
    pub timestamp: String,
    pub path: String,
    pub size: u64,
}

/// Newest first: timestamps in non-increasing order.
pub open spec fn newest_first(v: Seq<VersionEntry>) -> bool {
    forall|i: int, j: int| 0 <= i < j < v.len() ==> !str_lt(#[trigger] v[i].timestamp@, #[trigger] v[j].timestamp@)
}

/// Order versions newest first (by timestamp text, which sorts as time).
pub fn sort_versions(v: Vec<VersionEntry>) -> (r: Vec<VersionEntry>)
    ensures
        newest_first(r@),
        r@.to_multiset() == v@.to_multiset(),
{
    broadcast use vstd::seq_lib::group_to_multiset_ensures, vstd::multiset::group_multiset_axioms;
    let ghost all = v@;
    let mut rest = v;
    let mut out: Vec<VersionEntry> = Vec::new();
    while rest.len() > 0
        invariant
            newest_first(out@),
            out@.to_multiset().add(rest@.to_multiset()) == all.to_multiset(),
        decreases rest.len(),
    {
        let ghost rest_before = rest@;
        let ghost out_before = out@;
        let x = rest.pop().unwrap();
        assert(rest_before =~= rest@.push(x));
        proof {
            vstd::seq_lib::to_multiset_build(rest@, x);
        }
        let xv = chars_of(x.timestamp.as_str());
        let mut i: usize = 0;
        while i < out.len()
            invariant
                i <= out.len(),
                xv@ == x.timestamp@,
                forall|j: int| 0 <= j < i ==> !str_lt(#[trigger] out@[j].timestamp@, x.timestamp@),
            ensures
                i <= out.len(),
                forall|j: int| 0 <= j < i ==> !str_lt(#[trigger] out@[j].timestamp@, x.timestamp@),
                i < out.len() ==> str_lt(out@[i as int].timestamp@, x.timestamp@),
            decreases out.len() - i,
        {
            let o = chars_of(out[i].timestamp.as_str());
            if str_less(&o, &xv) {
                break;
            }
            i = i + 1;
        }
        let ghost before = out@;
        out.insert(i, x);
        proof {
            vstd::seq_lib::to_multiset_insert(before, i as int, x);
            assert(out@ == before.insert(i as int, x));
            assert(out@.to_multiset().add(rest@.to_multiset()) =~= out_before.to_multiset().add(
                rest_before.to_multiset(),
            ));
            assert forall|a: int, b: int| 0 <= a < b < out@.len() implies !str_lt(
                #[trigger] out@[a].timestamp@,
                #[trigger] out@[b].timestamp@,
            ) by {
                if b < i {
                    assert(!str_lt(before[a].timestamp@, before[b].timestamp@));
                } else if b == i {
                    assert(!str_lt(before[a].timestamp@, x.timestamp@));
                } else if a < i {
                    assert(!str_lt(before[a].timestamp@, before[b - 1].timestamp@));
                } else if a == i {
                    if str_lt(x.timestamp@, before[b - 1].timestamp@) {
                        if b - 1 == i {
                            crate::text::lemma_str_lt_transitive(
                                x.timestamp@,
                                before[b - 1].timestamp@,
                                x.timestamp@,
                            );
                            crate::text::lemma_str_lt_irreflexive(x.timestamp@);
                        } else {
                            assert(!str_lt(before[i as int].timestamp@, before[b - 1].timestamp@));
                            crate::text::lemma_str_lt_transitive(
                                before[i as int].timestamp@,
                                x.timestamp@,
                                before[b - 1].timestamp@,
                            );
                        }
                    }
                } else {
                    assert(!str_lt(before[a - 1].timestamp@, before[b - 1].timestamp@));
                }
            }
        }
    }
    out
}

/// The version to compare with: the one asked for, else the newest.
pub fn pick_version(timestamp: Option<&str>, versions: &[VersionEntry]) -> (r: Result<String, ParcError>)
    ensures
        match timestamp {
            Some(t) => r matches Ok(s) && s@ == t@,
            None => if versions@.len() == 0 {
                r matches Err(ParcError::ValidationError(m)) && m@ == "no history versions available"@
            } else {
                r matches Ok(s) && s@ == versions@[0].timestamp@
            },
        },
{
    match timestamp {
        Some(t) => Ok(string_of(&chars_of(t))),
        None => {
            if versions.len() == 0 {
                Err(ParcError::ValidationError(string_of(&chars_of("no history versions available"))))
            } else {
                Ok(versions[0].timestamp.clone())
            }
        },
    }
}

/// The error for a version that is not there.
pub fn version_not_found(timestamp: &str) -> (r: ParcError)
    ensures
        r matches ParcError::ValidationError(m) && m@ == "version '"@ + timestamp@ + "' not found"@,
{
    let mut out = chars_of("version '");
    push_str(&mut out, timestamp);
    push_str(&mut out, "' not found");
    ParcError::ValidationError(string_of(&out))
}

/// The error for a version that is not there, naming the fragment by the
/// first eight bytes of its id.
pub fn version_not_found_for(timestamp: &str, fragment_id: &str) -> (r: ParcError)
    requires
        cut_on_boundary(fragment_id@, 8),
    ensures
        r matches ParcError::ValidationError(m) && m@ == "version '"@ + timestamp@ + "' not found for fragment '"@
            + byte_prefix(fragment_id@, 8) + "'"@,
{
    let mut out = chars_of("version '");
    push_str(&mut out, timestamp);
    push_str(&mut out, "' not found for fragment '");
    let short = crate::export::byte_prefix_exec(&chars_of(fragment_id), 8);
    push_chars(&mut out, &short);
    push_str(&mut out, "'");
    ParcError::ValidationError(string_of(&out))
}

// ── Diffs ────────────────────────────────────────────────────────────

/// What a line of a diff does.
#[derive(Debug, Clone, Copy, PartialEq, Eq, Structural)]
pub enum DiffTag {
    Equal,
    Delete,
    Insert,
}

/// A line of a hunk: what it does, its text as `similar` prints a change
/// (a newline added when the line had none), and whether it had none.
#[derive(Debug)]
pub struct DiffLine {
    pub tag: DiffTag,
    pub text: String,
    pub missing_newline: bool,
}

/// A hunk of a unified diff: its `@@ -a,b +c,d @@` header and its lines.
#[derive(Debug)]
pub struct DiffHunk {
    pub header: String,
    pub lines: Vec<DiffLine>,
}

pub struct SDiffLine {
    pub tag: DiffTag,
    pub text: Seq<char>,
    pub missing_newline: bool,
}

pub struct SDiffHunk {
    pub header: Seq<char>,
    pub lines: Seq<SDiffLine>,
}

pub open spec fn line_view(l: DiffLine) -> SDiffLine {
    SDiffLine { tag: l.tag, text: l.text@, missing_newline: l.missing_newline }
}

pub open spec fn hunk_view(h: DiffHunk) -> SDiffHunk {
    SDiffHunk { header: h.header@, lines: h.lines@.map_values(|l: DiffLine| line_view(l)) }
}

/// The hunks of `similar`'s line diff of two texts, as a unified diff
/// with three lines of context.
pub uninterp spec fn line_diff_hunks(old: Seq<char>, new: Seq<char>) -> Seq<SDiffHunk>;

/// `similar::ChangeTag`, carried through unread.
#[verifier::external_type_specification]
#[verifier::external_body]
pub struct ExChangeTag(similar::ChangeTag);

/// `similar::ChangeTag` as the library holds it.
#[verifier::external_body]
fn diff_tag(t: similar::ChangeTag) -> DiffTag {
    match t {
        similar::ChangeTag::Equal => DiffTag::Equal,
        similar::ChangeTag::Delete => DiffTag::Delete,
        similar::ChangeTag::Insert => DiffTag::Insert,
    }
}

/// `similar::TextDiff::from_lines(old, new).unified_diff()` with a context
/// radius of 3: its hunks, each with its header and changes.
#[verifier::external_body]
fn unified_hunks(old: &str, new: &str) -> (r: Vec<DiffHunk>)
    ensures
        r@.map_values(|h: DiffHunk| hunk_view(h)) == line_diff_hunks(old@, new@),
{
    let diff = similar::TextDiff::from_lines(old, new);
    let mut udiff = diff.unified_diff();
    udiff.context_radius(3).iter_hunks().map(|h| DiffHunk {
        header: h.header().to_string(),
        lines: h.iter_changes().map(|c| DiffLine {
            tag: diff_tag(c.tag()),
            text: c.to_string(),
            missing_newline: c.missing_newline(),
        }).collect(),
    }).collect()
}

pub open spec fn sign(t: DiffTag) -> Seq<char> {
    match t {
        DiffTag::Delete => "-"@,
        DiffTag::Insert => "+"@,
        DiffTag::Equal => " "@,
    }
}

pub open spec fn line_text(l: SDiffLine) -> Seq<char> {
    sign(l.tag) + l.text + (if l.missing_newline {
        "\n"@
    } else {
        ""@
    })
}

pub open spec fn lines_text(ls: Seq<SDiffLine>) -> Seq<char>
    decreases ls.len(),
{
    if ls.len() == 0 {
        Seq::empty()
    } else {
        lines_text(ls.drop_last()) + line_text(ls.last())
    }
}

pub open spec fn hunks_text(hs: Seq<SDiffHunk>) -> Seq<char>
    decreases hs.len(),
{
    if hs.len() == 0 {
        Seq::empty()
    } else {
        hunks_text(hs.drop_last()) + hs.last().header + lines_text(hs.last().lines)
    }
}

/// The diff between a snapshot and the current text, as `parc diff`
/// prints it: two header lines naming the fragment by the first eight
/// bytes of its id, then each hunk's header and its signed lines.
pub open spec fn diff_text(id: Seq<char>, ts: Seq<char>, old: Seq<char>, new: Seq<char>) -> Seq<char> {
    "--- "@ + byte_prefix(id, 8) + " ("@ + ts + ")\n"@ + "+++ "@ + byte_prefix(id, 8) + " (current)\n"@
        + hunks_text(line_diff_hunks(old, new))
}

/// Generate a unified diff between a historical version (`old`, taken at
/// `timestamp`) and the current text of fragment `full_id`.
pub fn diff_texts(full_id: &str, timestamp: &str, old: &str, current: &str) -> (r: String)
    requires
        utf8_len(full_id@) >= 8,
        cut_on_boundary(full_id@, 8),
    ensures
        r@ == diff_text(full_id@, timestamp@, old@, current@),
{
    proof {
        reveal_strlit("");
        reveal_strlit("\n");
    }
    let short = crate::export::byte_prefix_exec(&chars_of(full_id), 8);
    let mut out = chars_of("--- ");
    push_chars(&mut out, &short);
    push_str(&mut out, " (");
    push_str(&mut out, timestamp);
    push_str(&mut out, ")\n");
    push_str(&mut out, "+++ ");
    push_chars(&mut out, &short);
    push_str(&mut out, " (current)\n");
    let ghost head = out@;
    let hunks = unified_hunks(old, current);
    let ghost hv = hunks@.map_values(|h: DiffHunk| hunk_view(h));
    let mut k: usize = 0;
    while k < hunks.len()
        invariant
            k <= hunks.len(),
            hv == hunks@.map_values(|h: DiffHunk| hunk_view(h)),
            out@ == head + hunks_text(hv.subrange(0, k as int)),
        decreases hunks.len() - k,
    {
        assert(hv.subrange(0, k + 1).drop_last() =~= hv.subrange(0, k as int));
        let h = &hunks[k];
        push_chars(&mut out, &chars_of(h.header.as_str()));
        let ghost mid = out@;
        let ghost lv = h.lines@.map_values(|l: DiffLine| line_view(l));
        let mut i: usize = 0;
        while i < h.lines.len()
            invariant
                i <= h.lines.len(),
                lv == h.lines@.map_values(|l: DiffLine| line_view(l)),
                out@ == mid + lines_text(lv.subrange(0, i as int)),
            decreases h.lines.len() - i,
        {
            proof {
                reveal_strlit("");
                reveal_strlit("\n");
            }
            assert(lv.subrange(0, i + 1).drop_last() =~= lv.subrange(0, i as int));
            let l = &h.lines[i];
            match l.tag {
                DiffTag::Delete => push_str(&mut out, "-"),
                DiffTag::Insert => push_str(&mut out, "+"),
                DiffTag::Equal => push_str(&mut out, " "),
            }
            push_chars(&mut out, &chars_of(l.text.as_str()));
            if l.missing_newline {
                push_str(&mut out, "\n");
            }
            assert(out@ =~= mid + lines_text(lv.subrange(0, i + 1)));
            i = i + 1;
        }
        assert(lv.subrange(0, lv.len() as int) =~= lv);
        assert(out@ =~= head + hunks_text(hv.subrange(0, k + 1)));
        k = k + 1;
    }
    assert(hv.subrange(0, hv.len() as int) =~= hv);
    string_of(&out)
}

} // verus!
