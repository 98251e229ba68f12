//! Attachments: file names that stay inside a fragment's attachment directory.

use vstd::prelude::*;

use crate::error::ParcError;
use crate::fragment::Fragment;
use crate::text::{str_less, str_lt, texts};
use crate::text::{
    chars_of, concat3, contains_char, eq_str, find_char_at, find_from, has_prefix, slice_vec,
    starts_with_at, string_of, trim, trim_chars, lemma_find_from_bounds,
};

verus! {

#[derive(Debug, Clone)]
pub struct AttachmentInfo {
    pub filename: String,
    pub size: u64,
    pub path: String,
}

#[derive(Debug, Clone)]
pub struct AttachmentRef {
    pub filename: String,
    pub display_text: Option<String>,
}

/// Why an attachment file name is refused, if it is.
pub open spec fn attachment_name_error(name: Seq<char>) -> Option<Seq<char>> {
    if name.len() == 0 {
        Some("attachment filename cannot be empty"@)
    } else if name == "."@ || name == ".."@ {
        Some("invalid attachment filename '"@ + name + "'"@)
    } else if name.contains('/') || name.contains('\\') || name.contains('\0') {
        Some("attachment filename '"@ + name + "' must not contain path separators"@)
    } else {
        None
    }
}

/// Reject filenames that could escape the per-fragment attachment directory.
/// Filenames must be a single path component with no separators or `..`.
pub fn validate_attachment_filename(name: &str) -> (r: Result<(), ParcError>)
    ensures
        match attachment_name_error(name@) {
            None => r is Ok,
            Some(m) => r matches Err(ParcError::ValidationError(x)) && x@ == m,
        },
{
    let v = chars_of(name);
    if v.len() == 0 {
        return Err(
            ParcError::ValidationError(string_of(&chars_of("attachment filename cannot be empty"))),
        );
    }
    if eq_str(&v, ".") || eq_str(&v, "..") {
        return Err(ParcError::ValidationError(concat3("invalid attachment filename '", &v, "'")));
    }
    if contains_char(&v, '/') || contains_char(&v, '\\') || contains_char(&v, '\0') {
        return Err(
            ParcError::ValidationError(
                concat3("attachment filename '", &v, "' must not contain path separators"),
            ),
        );
    }
    Ok(())
}


// ── References in a body ─────────────────────────────────────────────

/// `str::lines` from index `i`: pieces split at `\n`, a `\r` before the
/// `\n` dropped, no piece after a final `\n`.
pub open spec fn lines_from(s: Seq<char>, i: int) -> Seq<Seq<char>>
    decreases s.len() + 1 - i,
{
    if i < 0 || i >= s.len() {
        Seq::empty()
    } else {
        proof {
            lemma_find_from_bounds(s, '\n', i);
        }
        let e = find_from(s, '\n', i);
        let piece = s.subrange(i, e);
        let line = if e < s.len() && piece.len() > 0 && piece.last() == '\r' {
            piece.drop_last()
        } else {
            piece
        };
        seq![line] + lines_from(s, e + 1)
    }
}

/// The text of a line with its inline code spans (`` `...` `` with at
/// least one character inside) removed, from index `i`.
pub open spec fn strip_inline_code(s: Seq<char>, i: int) -> Seq<char>
    decreases s.len() - i,
{
    if i < 0 || i >= s.len() {
        Seq::empty()
    } else if s[i] == '`' && find_from(s, '`', i + 1) < s.len() && find_from(s, '`', i + 1) > i + 1 {
        strip_inline_code(s, find_from(s, '`', i + 1) + 1)
    } else {
        seq![s[i]] + strip_inline_code(s, i + 1)
    }
}

/// The first index at or after `i` holding `a` or `b`, or the length.
pub open spec fn find_either(s: Seq<char>, a: char, b: char, i: int) -> int
    decreases s.len() - i,
{
    if 0 <= i < s.len() && s[i] != a && s[i] != b {
        find_either(s, a, b, i + 1)
    } else {
        i
    }
}

/// A reference as plain text: the file name and the display text.
pub type SRef = (Seq<char>, Option<Seq<char>>);

/// The reference `![[attach:name]]` or `![[attach:name|text]]` starting at
/// `p`, with where it ends: the name runs to the first `]` or `|` and is
/// not empty; a display text runs to the first `]` and is not empty; `]]`
/// closes.
pub open spec fn ref_at(c: Seq<char>, p: int) -> Option<(int, SRef)> {
    let a = p + 10;
    if !(0 <= p && a <= c.len() && c.subrange(p, a) == "![[attach:"@) {
        None
    } else {
        let e = find_either(c, ']', '|', a);
        if e <= a || e >= c.len() {
            None
        } else if c[e] == ']' {
            if e + 1 < c.len() && c[e + 1] == ']' {
                Some((e + 2, (c.subrange(a, e), None)))
            } else {
                None
            }
        } else {
            let b = e + 1;
            let f = find_from(c, ']', b);
            if f > b && f + 1 < c.len() && c[f + 1] == ']' {
                Some((f + 2, (c.subrange(a, e), Some(c.subrange(b, f)))))
            } else {
                None
            }
        }
    }
}

/// The references of a line, left to right, not overlapping.
pub open spec fn refs_from(c: Seq<char>, i: int) -> Seq<SRef>
    decreases c.len() - i,
{
    if i < 0 || i >= c.len() {
        Seq::empty()
    } else {
        match ref_at(c, i) {
            Some((end, r)) => if end > i {
                seq![r] + refs_from(c, end)
            } else {
                Seq::empty()
            },
            None => refs_from(c, i + 1),
        }
    }
}

/// A reference with its name and display text trimmed.
pub open spec fn trimmed_ref(r: SRef) -> SRef {
    (trim(r.0), match r.1 {
        Some(d) => Some(trim(d)),
        None => None,
    })
}

/// A line that opens or closes a fenced code block.
pub open spec fn is_fence(line: Seq<char>) -> bool {
    has_prefix(trim(line), "```"@) || has_prefix(trim(line), "~~~"@)
}

/// The references of the lines from `k`, inside a fence or not.
pub open spec fn refs_of_lines(lines: Seq<Seq<char>>, k: int, fenced: bool) -> Seq<SRef>
    decreases lines.len() - k,
{
    if k < 0 || k >= lines.len() {
        Seq::empty()
    } else if is_fence(lines[k]) {
        refs_of_lines(lines, k + 1, !fenced)
    } else if fenced {
        refs_of_lines(lines, k + 1, fenced)
    } else {
        refs_from(strip_inline_code(lines[k], 0), 0).map_values(|r: SRef| trimmed_ref(r))
            + refs_of_lines(lines, k + 1, fenced)
    }
}

/// The references of a body.
pub open spec fn attachment_refs_spec(body: Seq<char>) -> Seq<SRef> {
    refs_of_lines(lines_from(body, 0), 0, false)
}

impl View for AttachmentRef {
    type V = SRef;

    open spec fn view(&self) -> SRef {
        (self.filename@, match self.display_text {
            Some(d) => Some(d@),
            None => None,
        })
    }
}

pub open spec fn refs_view(v: Seq<AttachmentRef>) -> Seq<SRef> {
    v.map_values(|r: AttachmentRef| r@)
}

fn find_either_exec(s: &[char], a: char, b: char, i: usize) -> (r: usize)
    requires
        i <= s.len(),
    ensures
        r == find_either(s@, a, b, i as int),
        i <= r <= s.len(),
{
    let mut k = i;
    while k < s.len() && s[k] != a && s[k] != b
        invariant
            i <= k <= s.len(),
            find_either(s@, a, b, i as int) == find_either(s@, a, b, k as int),
        decreases s.len() - k,
    {
        k = k + 1;
    }
    k
}

fn ref_at_exec(c: &[char], p: usize) -> (r: Option<(usize, AttachmentRef)>)
    requires
        p <= c.len(),
    ensures
        match ref_at(c@, p as int) {
            None => r.is_none(),
            Some((end, x)) => r matches Some((e2, y)) && e2 == end && y@ == x,
        },
{
    proof {
        reveal_strlit("![[attach:");
    }
    if c.len() - p < 10 || !starts_with_at(c, p, "![[attach:") {
        proof {
            if p + 10 <= c@.len() && c@.subrange(p as int, p + 10) == "![[attach:"@ {
                assert(c@.subrange(p as int, c@.len() as int).subrange(0, 10) =~= c@.subrange(
                    p as int,
                    p + 10,
                ));
            }
        }
        return None;
    }
    assert(c@.subrange(p as int, c@.len() as int).subrange(0, 10) =~= c@.subrange(p as int, p + 10));
    let a = p + 10;
    let e = find_either_exec(c, ']', '|', a);
    if e <= a || e >= c.len() {
        return None;
    }
    if c[e] == ']' {
        if e + 1 < c.len() && c[e + 1] == ']' {
            let name = slice_vec(c, a, e);
            return Some((e + 2, AttachmentRef { filename: string_of(&name), display_text: None }));
        }
        return None;
    }
    let b = e + 1;
    let f = find_char_at(c, ']', b);
    if f > b && f < c.len() && c.len() - f > 1 && c[f + 1] == ']' {
        let name = slice_vec(c, a, e);
        let disp = slice_vec(c, b, f);
        return Some(
            (f + 2, AttachmentRef { filename: string_of(&name), display_text: Some(string_of(&disp)) }),
        );
    }
    None
}

/// A line with its inline code spans removed.
pub fn remove_inline_code(line: &[char]) -> (r: Vec<char>)
    ensures
        r@ == strip_inline_code(line@, 0),
{
    let mut out: Vec<char> = Vec::new();
    let mut i: usize = 0;
    while i < line.len()
        invariant
            i <= line.len(),
            out@ + strip_inline_code(line@, i as int) == strip_inline_code(line@, 0),
        decreases line.len() - i,
    {
        if line[i] == '`' {
            let q = find_char_at(line, '`', i + 1);
            if q < line.len() && q > i + 1 {
                i = q + 1;
                continue;
            }
        }
        let ghost before = out@;
        out.push(line[i]);
        assert(before + strip_inline_code(line@, i as int) =~= out@ + strip_inline_code(
            line@,
            i + 1,
        ));
        i = i + 1;
    }
    assert(out@ + strip_inline_code(line@, i as int) =~= out@);
    out
}

/// Parse `![[attach:filename]]` and `![[attach:filename|display text]]`
/// references from Markdown body text, ignoring references inside fenced
/// code blocks and inline code; names and display texts are trimmed.
pub fn parse_attachment_refs(body: &str) -> (r: Vec<AttachmentRef>)
    ensures
        refs_view(r@) == attachment_refs_spec(body@),
{
    proof {
        reveal_strlit("```");
        reveal_strlit("~~~");
    }
    let s = chars_of(body);
    let ghost lines = lines_from(s@, 0);
    let mut out: Vec<AttachmentRef> = Vec::new();
    let mut fenced = false;
    let mut i: usize = 0;
    let ghost mut k: int = 0;
    while i < s.len()
        invariant
            i <= s.len(),
            s@ == body@,
            lines == lines_from(s@, 0),
            0 <= k <= lines.len(),
            lines_from(s@, i as int) == lines.subrange(k, lines.len() as int),
            refs_view(out@) + refs_of_lines(lines, k, fenced) == attachment_refs_spec(body@),
        decreases s.len() - i,
    {
        let e = find_char_at(&s, '\n', i);
        let piece = slice_vec(&s, i, e);
        let line = if e < s.len() && piece.len() > 0 && piece[piece.len() - 1] == '\r' {
            let t = slice_vec(&piece, 0, piece.len() - 1);
            assert(t@ =~= piece@.drop_last());
            t
        } else {
            piece
        };
        let ghost rest = lines.subrange(k, lines.len() as int);
        assert(rest[0] == line@);
        assert(rest.drop_first() =~= lines.subrange(k + 1, lines.len() as int));
        assert(lines[k] == line@);
        let trimmed = trim_chars(&line);
        let fence = (trimmed.len() >= 3 && starts_with_at(&trimmed, 0, "```")) || (trimmed.len() >= 3
            && starts_with_at(&trimmed, 0, "~~~"));
        proof {
            reveal_strlit("```");
            reveal_strlit("~~~");
            assert(trimmed@.subrange(0, trimmed@.len() as int) =~= trimmed@);
            assert(fence == is_fence(line@));
            lemma_find_from_bounds(s@, '\n', i as int);
            assert(lines_from(s@, i as int) == seq![line@] + lines_from(s@, e + 1));
        }
        let ghost out0 = refs_view(out@);
        let ghost fenced0 = fenced;
        if fence {
            fenced = !fenced;
        } else if !fenced {
            let cleaned = remove_inline_code(&line);
            let ghost before = refs_view(out@);
            let mut p: usize = 0;
            while p < cleaned.len()
                invariant
                    p <= cleaned.len(),
                    refs_view(out@) + refs_from(cleaned@, p as int).map_values(|r: SRef| trimmed_ref(r))
                        == before + refs_from(cleaned@, 0).map_values(|r: SRef| trimmed_ref(r)),
                decreases cleaned.len() - p,
            {
                match ref_at_exec(&cleaned, p) {
                    Some((end, x)) => {
                        let ghost b2 = refs_view(out@);
                        let name = trim_chars(&chars_of(x.filename.as_str()));
                        let disp = match &x.display_text {
                            Some(d) => Some(string_of(&trim_chars(&chars_of(d.as_str())))),
                            None => None,
                        };
                        let y = AttachmentRef { filename: string_of(&name), display_text: disp };
                        assert(y@ == trimmed_ref(x@));
                        out.push(y);
                        assert(refs_view(out@) =~= b2.push(trimmed_ref(x@)));
                        assert(refs_from(cleaned@, p as int) =~= seq![x@] + refs_from(cleaned@, end as int));
                        assert((seq![x@] + refs_from(cleaned@, end as int)).map_values(
                            |r: SRef| trimmed_ref(r),
                        ) =~= seq![trimmed_ref(x@)] + refs_from(cleaned@, end as int).map_values(
                            |r: SRef| trimmed_ref(r),
                        ));
                        p = end;
                    },
                    None => {
                        p = p + 1;
                    },
                }
            }
            assert(refs_from(cleaned@, p as int).map_values(|r: SRef| trimmed_ref(r)) =~= Seq::<SRef>::empty());
            assert(refs_view(out@) =~= out0 + refs_from(strip_inline_code(line@, 0), 0).map_values(
                |r: SRef| trimmed_ref(r),
            ));
        }
        proof {
            assert(refs_view(out@) + refs_of_lines(lines, k + 1, fenced) == out0 + refs_of_lines(
                lines,
                k,
                fenced0,
            ));
            k = k + 1;
        }
        if e >= s.len() {
            i = s.len();
        } else {
            i = e + 1;
        }
    }
    assert(lines.subrange(k, lines.len() as int).len() == 0);
    out
}


// ── The frontmatter list ─────────────────────────────────────────────

/// Record an attached file in the fragment's frontmatter, once.
pub fn add_attachment(fragment: &mut Fragment, filename: String)
    ensures
        texts(final(fragment).attachments@) == (if texts(old(fragment).attachments@).contains(filename@) {
            texts(old(fragment).attachments@)
        } else {
            texts(old(fragment).attachments@).push(filename@)
        }),
        final(fragment).id == old(fragment).id,
        final(fragment).extra_fields == old(fragment).extra_fields,
        final(fragment).body == old(fragment).body,
{
    let fv = chars_of(filename.as_str());
    let mut i: usize = 0;
    while i < fragment.attachments.len()
        invariant
            i <= fragment.attachments.len(),
            fv@ == filename@,
            forall|j: int| 0 <= j < i ==> fragment.attachments@[j]@ != filename@,
        decreases fragment.attachments.len() - i,
    {
        let a = chars_of(fragment.attachments[i].as_str());
        if crate::text::eq_str_chars(&a, &fv) {
            assert(texts(fragment.attachments@)[i as int] == filename@);
            return;
        }
        i = i + 1;
    }
    assert(!texts(fragment.attachments@).contains(filename@)) by {
        if texts(fragment.attachments@).contains(filename@) {
            let j = choose|j: int| 0 <= j < texts(fragment.attachments@).len() && texts(fragment.attachments@)[j] == filename@;
            assert(fragment.attachments@[j]@ == filename@);
        }
    }
    let ghost before = fragment.attachments@;
    fragment.attachments.push(filename);
    assert(texts(fragment.attachments@) =~= texts(before).push(filename@));
}

/// The names other than `name`, in order.
pub open spec fn without(v: Seq<Seq<char>>, name: Seq<char>) -> Seq<Seq<char>>
    decreases v.len(),
{
    if v.len() == 0 {
        v
    } else if v.last() == name {
        without(v.drop_last(), name)
    } else {
        without(v.drop_last(), name).push(v.last())
    }
}

/// Drop a file from the fragment's frontmatter list.
pub fn remove_attachment(fragment: &mut Fragment, filename: &str)
    ensures
        texts(final(fragment).attachments@) == without(texts(old(fragment).attachments@), filename@),
        final(fragment).id == old(fragment).id,
        final(fragment).extra_fields == old(fragment).extra_fields,
        final(fragment).body == old(fragment).body,
{
    let fv = chars_of(filename);
    let ghost old_t = texts(fragment.attachments@);
    let mut kept: Vec<String> = Vec::new();
    let mut i: usize = 0;
    while i < fragment.attachments.len()
        invariant
            i <= fragment.attachments.len(),
            fv@ == filename@,
            old_t == texts(fragment.attachments@),
            texts(kept@) == without(old_t.subrange(0, i as int), filename@),
        decreases fragment.attachments.len() - i,
    {
        assert(old_t.subrange(0, i + 1).drop_last() =~= old_t.subrange(0, i as int));
        let a = chars_of(fragment.attachments[i].as_str());
        if !crate::text::eq_str_chars(&a, &fv) {
            let ghost before = kept@;
            kept.push(fragment.attachments[i].clone());
            assert(texts(kept@) =~= texts(before).push(fragment.attachments@[i as int]@));
        }
        i = i + 1;
    }
    assert(old_t.subrange(0, old_t.len() as int) =~= old_t);
    fragment.attachments = kept;
}

/// The message when a file of that name is already attached.
pub fn attachment_exists_error(filename: &str, short_id: &str) -> (r: ParcError)
    ensures
        r matches ParcError::ValidationError(x) && x@ == "attachment '"@ + filename@
            + "' already exists for fragment '"@ + short_id@ + "'"@,
{
    let mut out: Vec<char> = chars_of("attachment '");
    crate::text::push_str(&mut out, filename);
    crate::text::push_str(&mut out, "' already exists for fragment '");
    crate::text::push_str(&mut out, short_id);
    crate::text::push_str(&mut out, "'");
    ParcError::ValidationError(string_of(&out))
}

/// Sorted by file name, ties kept in order.
pub open spec fn sorted_by_name(v: Seq<AttachmentInfo>) -> bool {
    forall|i: int, j: int| 0 <= i < j < v.len() ==> !str_lt(#[trigger] v[j].filename@, #[trigger] v[i].filename@)
}

/// The attachments listed for a fragment, sorted by file name.
pub fn sort_attachments(v: Vec<AttachmentInfo>) -> (r: Vec<AttachmentInfo>)
    ensures
        sorted_by_name(r@),
        r@.to_multiset() == v@.to_multiset(),
{
    broadcast use vstd::seq_lib::group_to_multiset_ensures, vstd::multiset::group_multiset_axioms;
    let ghost all = v@;
    let mut rest = v;
    let mut out: Vec<AttachmentInfo> = Vec::new();
    while rest.len() > 0
        invariant
            sorted_by_name(out@),
            out@.to_multiset().add(rest@.to_multiset()) == all.to_multiset(),
        decreases rest.len(),
    {
        let ghost rest_before = rest@;
        let ghost out_before = out@;
        let x = rest.pop().unwrap();
        assert(rest_before =~= rest@.push(x));
        proof {
            vstd::seq_lib::to_multiset_build(rest@, x);
        }
        assert(rest_before.to_multiset() =~= rest@.to_multiset().insert(x));
        let xv = chars_of(x.filename.as_str());
        let mut i: usize = 0;
        while i < out.len()
            invariant
                i <= out.len(),
                xv@ == x.filename@,
                forall|j: int| 0 <= j < i ==> !str_lt(x.filename@, #[trigger] out@[j].filename@),
            ensures
                i <= out.len(),
                forall|j: int| 0 <= j < i ==> !str_lt(x.filename@, #[trigger] out@[j].filename@),
                i < out.len() ==> str_lt(x.filename@, out@[i as int].filename@),
            decreases out.len() - i,
        {
            let o = chars_of(out[i].filename.as_str());
            if str_less(&xv, &o) {
                break;
            }
            i = i + 1;
        }
        let ghost before = out@;
        out.insert(i, x);
        proof {
            vstd::seq_lib::to_multiset_insert(before, i as int, x);
            assert(out@ == before.insert(i as int, x));
            assert(out@.to_multiset().add(rest@.to_multiset()) =~= out_before.to_multiset().add(
                rest_before.to_multiset(),
            ));
            assert forall|a: int, b: int| 0 <= a < b < out@.len() implies !str_lt(
                #[trigger] out@[b].filename@,
                #[trigger] out@[a].filename@,
            ) by {
                if b < i {
                    assert(!str_lt(before[b].filename@, before[a].filename@));
                } else if b == i {
                    assert(!str_lt(x.filename@, before[a].filename@));
                } else if a < i {
                    assert(!str_lt(before[b - 1].filename@, before[a].filename@));
                } else if a == i {
                    if str_lt(before[b - 1].filename@, x.filename@) {
                        if b - 1 == i {
                            crate::text::lemma_str_lt_transitive(
                                before[b - 1].filename@,
                                x.filename@,
                                before[b - 1].filename@,
                            );
                            crate::text::lemma_str_lt_irreflexive(before[b - 1].filename@);
                        } else {
                            assert(!str_lt(before[b - 1].filename@, before[i as int].filename@));
                            crate::text::lemma_str_lt_transitive(
                                before[b - 1].filename@,
                                x.filename@,
                                before[i as int].filename@,
                            );
                        }
                    }
                } else {
                    assert(!str_lt(before[b - 1].filename@, before[a - 1].filename@));
                }
            }
        }
    }
    out
}

} // verus!
