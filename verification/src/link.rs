//! Wiki-links: `[[id-prefix]]`, `[[Title|display text]]`, their resolution
//! against known fragments, and merging with frontmatter links.

use vstd::prelude::*;

use crate::text::{
    find_char_at, find_from, has_prefix, lemma_find_from_bounds, slice_vec, starts_with_at,
    string_of, texts, trim, trim_chars, upper, upper_chars, lower, lower_chars, chars_of, is_ascii_alnum,
};

verus! {

#[derive(Debug, Clone, PartialEq, Eq)]
pub struct WikiLink {
    pub target: String,
    pub display_text: Option<String>,
}

#[derive(Debug, Clone, PartialEq, Eq)]
pub struct FragmentRef {
    pub id: String,
    pub title: String,
}

#[derive(Debug, Clone, PartialEq, Eq)]
pub enum ResolveOutcome {
    Unique(String),
    Ambiguous(Vec<String>),
    NotFound,
}

/// A wiki-link as text: its target and optional display text.
pub struct SLink {
    pub target: Seq<char>,
    pub display: Option<Seq<char>>,
}

impl View for WikiLink {
    type V = SLink;

    open spec fn view(&self) -> SLink {
        SLink {
            target: self.target@,
            display: match self.display_text {
                Some(d) => Some(d@),
                None => None,
            },
        }
    }
}

pub open spec fn links_view(v: Seq<WikiLink>) -> Seq<SLink> {
    v.map_values(|l: WikiLink| l@)
}

// ── Scanning ─────────────────────────────────────────────────────────

/// The three patterns scanned for in a body.
#[derive(Clone, Copy)]
pub enum Pattern {
    /// `\[\[([^\]|]+?)(?:\|([^\]]+?))?\]\]`
    Wiki,
    /// `(?s)```[^\n]*\n.*?```` (a fenced code block)
    Fenced,
    /// `` `[^`]+` `` (inline code)
    Inline,
}

/// Index of the first `]` or `|` at or after `i` (or the end).
pub open spec fn stop_from(s: Seq<char>, i: int) -> int
    decreases s.len() - i,
{
    if 0 <= i < s.len() && s[i] != ']' && s[i] != '|' {
        stop_from(s, i + 1)
    } else {
        i
    }
}

/// Whether "```" stands at `i`.
pub open spec fn fence_at(s: Seq<char>, i: int) -> bool {
    0 <= i && i + 3 <= s.len() && s[i] == '`' && s[i + 1] == '`' && s[i + 2] == '`'
}

/// Index of the first "```" at or after `i` (or the end).
pub open spec fn fence_from(s: Seq<char>, i: int) -> int
    decreases s.len() - i,
{
    if 0 <= i < s.len() && !fence_at(s, i) {
        fence_from(s, i + 1)
    } else {
        i
    }
}

/// Where a match of the pattern starting at `p` ends, if one starts there.
pub open spec fn match_end(k: Pattern, s: Seq<char>, p: int) -> Option<int> {
    match k {
        Pattern::Wiki => if 0 <= p && p + 1 < s.len() && s[p] == '[' && s[p + 1] == '[' {
            let q = stop_from(s, p + 2);
            if q == p + 2 || q >= s.len() {
                None
            } else if s[q] == '|' {
                let r = find_from(s, ']', q + 1);
                if r > q + 1 && r + 1 < s.len() && s[r + 1] == ']' {
                    Some(r + 2)
                } else {
                    None
                }
            } else if q + 1 < s.len() && s[q + 1] == ']' {
                Some(q + 2)
            } else {
                None
            }
        } else {
            None
        },
        Pattern::Fenced => if fence_at(s, p) {
            let n = find_from(s, '\n', p + 3);
            if n >= s.len() {
                None
            } else {
                let e = fence_from(s, n + 1);
                if e >= s.len() {
                    None
                } else {
                    Some(e + 3)
                }
            }
        } else {
            None
        },
        Pattern::Inline => if 0 <= p < s.len() && s[p] == '`' {
            let e = find_from(s, '`', p + 1);
            if e < s.len() && e > p + 1 {
                Some(e + 1)
            } else {
                None
            }
        } else {
            None
        },
    }
}

/// Leftmost-first, non-overlapping matches of the pattern in `s[i..]`, as
/// (start, end) pairs.
pub open spec fn scan(k: Pattern, s: Seq<char>, i: int) -> Seq<(int, int)>
    decreases s.len() - i,
{
    if 0 <= i < s.len() {
        match match_end(k, s, i) {
            Some(e) => if i < e <= s.len() {
                seq![(i, e)] + scan(k, s, e)
            } else {
                scan(k, s, i + 1)
            },
            None => scan(k, s, i + 1),
        }
    } else {
        Seq::empty()
    }
}

/// Each element of a scan is a match of the pattern at its start.
pub proof fn lemma_scan_elems(k: Pattern, s: Seq<char>, i: int)
    ensures
        forall|j: int|
            0 <= j < scan(k, s, i).len() ==> 0 <= #[trigger] scan(k, s, i)[j].0 && match_end(
                k,
                s,
                scan(k, s, i)[j].0,
            ) == Some(scan(k, s, i)[j].1),
    decreases s.len() - i,
{
    if 0 <= i < s.len() {
        match match_end(k, s, i) {
            Some(e) => if i < e <= s.len() {
                lemma_scan_elems(k, s, e);
                assert forall|j: int| 0 <= j < scan(k, s, i).len() implies 0 <= #[trigger] scan(
                    k,
                    s,
                    i,
                )[j].0 && match_end(k, s, scan(k, s, i)[j].0) == Some(scan(k, s, i)[j].1) by {
                    if j > 0 {
                        assert(scan(k, s, i)[j] == scan(k, s, e)[j - 1]);
                    }
                }
            } else {
                lemma_scan_elems(k, s, i + 1);
            },
            None => {
                lemma_scan_elems(k, s, i + 1);
            },
        }
    }
}

pub proof fn lemma_stop_from_bounds(s: Seq<char>, i: int)
    requires
        0 <= i <= s.len(),
    ensures
        i <= stop_from(s, i) <= s.len(),
    decreases s.len() - i,
{
    if i < s.len() && s[i] != ']' && s[i] != '|' {
        lemma_stop_from_bounds(s, i + 1);
    }
}

pub proof fn lemma_fence_from_bounds(s: Seq<char>, i: int)
    requires
        0 <= i <= s.len(),
    ensures
        i <= fence_from(s, i) <= s.len(),
        fence_from(s, i) < s.len() ==> fence_at(s, fence_from(s, i)),
    decreases s.len() - i,
{
    if i < s.len() && !fence_at(s, i) {
        lemma_fence_from_bounds(s, i + 1);
    }
}

fn stop_at(s: &[char], i: usize) -> (r: usize)
    requires
        i <= s.len(),
    ensures
        r == stop_from(s@, i as int),
        i <= r <= s.len(),
{
    proof { lemma_stop_from_bounds(s@, i as int); }
    let mut j = i;
    while j < s.len() && s[j] != ']' && s[j] != '|'
        invariant
            i <= j <= s.len(),
            stop_from(s@, i as int) == stop_from(s@, j as int),
        decreases s.len() - j,
    {
        j = j + 1;
    }
    j
}

fn is_fence_at(s: &[char], i: usize) -> (b: bool)
    ensures
        b == fence_at(s@, i as int),
{
    i < s.len() && s.len() - i >= 3 && s[i] == '`' && s[i + 1] == '`' && s[i + 2] == '`'
}

fn fence_at_or_after(s: &[char], i: usize) -> (r: usize)
    requires
        i <= s.len(),
    ensures
        r == fence_from(s@, i as int),
        i <= r <= s.len(),
{
    proof { lemma_fence_from_bounds(s@, i as int); }
    let mut j = i;
    while j < s.len() && !is_fence_at(s, j)
        invariant
            i <= j <= s.len(),
            fence_from(s@, i as int) == fence_from(s@, j as int),
        decreases s.len() - j,
    {
        j = j + 1;
    }
    j
}

fn match_end_exec(k: Pattern, s: &[char], p: usize) -> (r: Option<usize>)
    requires
        p < s.len(),
    ensures
        match r {
            Some(e) => match_end(k, s@, p as int) == Some(e as int) && p < e <= s.len(),
            None => match_end(k, s@, p as int).is_none(),
        },
{
    match k {
        Pattern::Wiki => {
            if p + 1 < s.len() && s[p] == '[' && s[p + 1] == '[' {
                let q = stop_at(s, p + 2);
                if q == p + 2 || q >= s.len() {
                    None
                } else if s[q] == '|' {
                    let r = find_char_at(s, ']', q + 1);
                    if r > q + 1 && r < s.len() && s.len() - r > 1 && s[r + 1] == ']' {
                        Some(r + 2)
                    } else {
                        None
                    }
                } else if q + 1 < s.len() && s[q + 1] == ']' {
                    Some(q + 2)
                } else {
                    None
                }
            } else {
                None
            }
        },
        Pattern::Fenced => {
            if is_fence_at(s, p) {
                let n = find_char_at(s, '\n', p + 3);
                if n >= s.len() {
                    None
                } else {
                    let e = fence_at_or_after(s, n + 1);
                    if e >= s.len() {
                        None
                    } else {
                        proof { lemma_fence_from_bounds(s@, n + 1); }
                        assert(fence_at(s@, e as int));
                        Some(e + 3)
                    }
                }
            } else {
                None
            }
        },
        Pattern::Inline => {
            if s[p] == '`' {
                let e = find_char_at(s, '`', p + 1);
                if e < s.len() && e > p + 1 {
                    Some(e + 1)
                } else {
                    None
                }
            } else {
                None
            }
        },
    }
}

pub open spec fn pairs_view(v: Seq<(usize, usize)>) -> Seq<(int, int)> {
    v.map_values(|x: (usize, usize)| (x.0 as int, x.1 as int))
}

/// All matches of a pattern in `s`.
pub fn scan_all(k: Pattern, s: &[char]) -> (r: Vec<(usize, usize)>)
    ensures
        pairs_view(r@) == scan(k, s@, 0),
        forall|j: int| 0 <= j < r@.len() ==> (#[trigger] r@[j]).0 < r@[j].1 <= s@.len(),
{
    let mut out: Vec<(usize, usize)> = Vec::new();
    let mut i: usize = 0;
    while i < s.len()
        invariant
            i <= s.len(),
            scan(k, s@, 0) == pairs_view(out@) + scan(k, s@, i as int),
            forall|j: int| 0 <= j < out@.len() ==> (#[trigger] out@[j]).0 < out@[j].1 <= s@.len(),
        decreases s.len() - i,
    {
        let ghost before = pairs_view(out@);
        match match_end_exec(k, s, i) {
            Some(e) => {
                out.push((i, e));
                assert(pairs_view(out@) =~= before + seq![(i as int, e as int)]);
                assert(before + (seq![(i as int, e as int)] + scan(k, s@, e as int)) =~= pairs_view(
                    out@,
                ) + scan(k, s@, e as int));
                i = e;
            },
            None => {
                i = i + 1;
            },
        }
    }
    assert(pairs_view(out@) + Seq::<(int, int)>::empty() =~= pairs_view(out@));
    out
}

/// Whether position `p` lies inside one of the ranges.
pub open spec fn in_ranges(rs: Seq<(int, int)>, p: int) -> bool {
    exists|j: int| 0 <= j < rs.len() && rs[j].0 <= p && p < #[trigger] rs[j].1
}

fn in_ranges_exec(rs: &Vec<(usize, usize)>, p: usize) -> (b: bool)
    ensures
        b == in_ranges(pairs_view(rs@), p as int),
{
    let mut j: usize = 0;
    while j < rs.len()
        invariant
            j <= rs.len(),
            forall|t: int| 0 <= t < j ==> !(rs@[t].0 <= p && p < rs@[t].1),
        decreases rs.len() - j,
    {
        if rs[j].0 <= p && p < rs[j].1 {
            assert(pairs_view(rs@)[j as int] == (rs@[j as int].0 as int, rs@[j as int].1 as int));
            return true;
        }
        j = j + 1;
    }
    assert forall|t: int| 0 <= t < pairs_view(rs@).len() implies !(pairs_view(rs@)[t].0 <= p && p
        < #[trigger] pairs_view(rs@)[t].1) by {
        assert(pairs_view(rs@)[t] == (rs@[t].0 as int, rs@[t].1 as int));
    }
    false
}

/// Whether position `p` of a body lies inside a fenced code block or an
/// inline code span.
pub open spec fn in_code(s: Seq<char>, p: int) -> bool {
    in_ranges(scan(Pattern::Fenced, s, 0), p) || in_ranges(scan(Pattern::Inline, s, 0), p)
}

/// The link that the wiki match starting at `p` reads as (before trimming).
pub open spec fn raw_link(s: Seq<char>, p: int) -> SLink {
    let q = stop_from(s, p + 2);
    if q < s.len() && s[q] == '|' {
        let r = find_from(s, ']', q + 1);
        SLink { target: s.subrange(p + 2, q), display: Some(trim(s.subrange(q + 1, r))) }
    } else {
        SLink { target: s.subrange(p + 2, q), display: None }
    }
}

/// The links read from matches `ms[k..]`: those outside code, with a
/// non-blank target, first occurrence per uppercased target.
pub open spec fn collect_links(
    s: Seq<char>,
    ms: Seq<(int, int)>,
    k: int,
    seen: Seq<Seq<char>>,
) -> Seq<SLink>
    decreases ms.len() - k,
{
    if 0 <= k < ms.len() {
        let p = ms[k].0;
        let l = raw_link(s, p);
        let t = trim(l.target);
        if in_code(s, p) || t.len() == 0 || seen.contains(upper(t)) {
            collect_links(s, ms, k + 1, seen)
        } else {
            seq![SLink { target: t, display: l.display }] + collect_links(
                s,
                ms,
                k + 1,
                seen.push(upper(t)),
            )
        }
    } else {
        Seq::empty()
    }
}

/// The wiki-links of a Markdown body.
pub open spec fn wiki_links_spec(body: Seq<char>) -> Seq<SLink> {
    collect_links(body, scan(Pattern::Wiki, body, 0), 0, Seq::empty())
}

fn seen_contains(seen: &Vec<Vec<char>>, x: &Vec<char>) -> (b: bool)
    ensures
        b == seen@.map_values(|v: Vec<char>| v@).contains(x@),
{
    let ghost sv = seen@.map_values(|v: Vec<char>| v@);
    let mut j: usize = 0;
    while j < seen.len()
        invariant
            j <= seen.len(),
            sv == seen@.map_values(|v: Vec<char>| v@),
            forall|t: int| 0 <= t < j ==> sv[t] != x@,
        decreases seen.len() - j,
    {
        if crate::text::eq_str_chars(&seen[j], x) {
            assert(sv[j as int] == x@);
            return true;
        }
        j = j + 1;
    }
    false
}

/// Parse wiki-links from Markdown body, ignoring code blocks and inline code.
/// Supports `[[id-prefix]]` and `[[id-prefix|display text]]`.
pub fn parse_wiki_links(body: &str) -> (r: Vec<WikiLink>)
    ensures
        links_view(r@) == wiki_links_spec(body@),
{
    let s = chars_of(body);
    let ms = scan_all(Pattern::Wiki, &s);
    let fenced = scan_all(Pattern::Fenced, &s);
    let inline = scan_all(Pattern::Inline, &s);
    let mut seen: Vec<Vec<char>> = Vec::new();
    let mut links: Vec<WikiLink> = Vec::new();
    let mut k: usize = 0;
    let ghost ms_v = pairs_view(ms@);
    assert(seen@.map_values(|v: Vec<char>| v@) =~= Seq::<Seq<char>>::empty());
    while k < ms.len()
        invariant
            k <= ms.len(),
            ms_v == pairs_view(ms@),
            ms_v == scan(Pattern::Wiki, s@, 0),
            pairs_view(fenced@) == scan(Pattern::Fenced, s@, 0),
            pairs_view(inline@) == scan(Pattern::Inline, s@, 0),
            s@ == body@,
            forall|j: int| 0 <= j < ms@.len() ==> (#[trigger] ms@[j]).0 < ms@[j].1 <= s@.len(),
            wiki_links_spec(body@) == links_view(links@) + collect_links(
                s@,
                ms_v,
                k as int,
                seen@.map_values(|v: Vec<char>| v@),
            ),
        decreases ms.len() - k,
    {
        let ghost sv = seen@.map_values(|v: Vec<char>| v@);
        let ghost before = links_view(links@);
        let p = ms[k].0;
        assert(ms_v[k as int].0 == p as int);
        proof {
            lemma_scan_elems(Pattern::Wiki, s@, 0);
            assert(match_end(Pattern::Wiki, s@, p as int).is_some());
        }
        let inside = in_ranges_exec(&fenced, p) || in_ranges_exec(&inline, p);
        if !inside {
            let q = stop_at(&s, p + 2);
            let raw_t = slice_vec(&s, p + 2, q);
            let t = trim_chars(&raw_t);
            if t.len() > 0 {
                let u = upper_chars(&t);
                if !seen_contains(&seen, &u) {
                    let display = if q < s.len() && s[q] == '|' {
                        let r = find_char_at(&s, ']', q + 1);
                        let raw_d = slice_vec(&s, q + 1, r);
                        let d = trim_chars(&raw_d);
                        Some(string_of(&d))
                    } else {
                        None
                    };
                    let link = WikiLink { target: string_of(&t), display_text: display };
                    let ghost lv = link@;
                    assert(lv == SLink { target: trim(raw_link(s@, p as int).target), display: raw_link(s@, p as int).display });
                    seen.push(u);
                    assert(seen@.map_values(|v: Vec<char>| v@) =~= sv.push(upper(t@)));
                    links.push(link);
                    assert(links_view(links@) =~= before + seq![lv]);
                    assert(before + (seq![lv] + collect_links(s@, ms_v, k + 1, sv.push(upper(t@))))
                        =~= links_view(links@) + collect_links(s@, ms_v, k + 1, sv.push(upper(t@))));
                }
            }
        }
        k = k + 1;
    }
    links
}

} // verus!

verus! {

// ── Resolution ───────────────────────────────────────────────────────

pub enum SOutcome {
    Unique(Seq<char>),
    Ambiguous(Seq<Seq<char>>),
    NotFound,
}

impl View for ResolveOutcome {
    type V = SOutcome;

    open spec fn view(&self) -> SOutcome {
        match self {
            ResolveOutcome::Unique(id) => SOutcome::Unique(id@),
            ResolveOutcome::Ambiguous(ids) => SOutcome::Ambiguous(texts(ids@)),
            ResolveOutcome::NotFound => SOutcome::NotFound,
        }
    }
}

/// How a candidate is compared with the (folded) target.
#[derive(Clone, Copy)]
pub enum MatchKind {
    /// The candidate's id starts with the key.
    IdPrefix,
    /// The candidate's lowercased title equals the key.
    TitleEq,
    /// The candidate's lowercased title starts with the key.
    TitlePrefix,
}

pub open spec fn candidate_matches(kind: MatchKind, c: FragmentRef, key: Seq<char>) -> bool {
    match kind {
        MatchKind::IdPrefix => has_prefix(c.id@, key),
        MatchKind::TitleEq => lower(c.title@) == key,
        MatchKind::TitlePrefix => has_prefix(lower(c.title@), key),
    }
}

/// Ids of the candidates that match, in candidate order.
pub open spec fn selected_ids(kind: MatchKind, c: Seq<FragmentRef>, key: Seq<char>) -> Seq<Seq<char>>
    decreases c.len(),
{
    if c.len() == 0 {
        Seq::empty()
    } else {
        let r = selected_ids(kind, c.drop_last(), key);
        if candidate_matches(kind, c.last(), key) {
            r.push(c.last().id@)
        } else {
            r
        }
    }
}

fn select_ids(kind: MatchKind, c: &[FragmentRef], key: &Vec<char>) -> (r: Vec<String>)
    ensures
        texts(r@) == selected_ids(kind, c@, key@),
{
    let mut out: Vec<String> = Vec::new();
    let mut i: usize = 0;
    while i < c.len()
        invariant
            i <= c.len(),
            texts(out@) == selected_ids(kind, c@.subrange(0, i as int), key@),
        decreases c.len() - i,
    {
        assert(c@.subrange(0, i + 1).drop_last() =~= c@.subrange(0, i as int));
        assert(c@.subrange(0, i + 1).last() == c@[i as int]);
        let hit = match kind {
            MatchKind::IdPrefix => {
                let id = chars_of(c[i].id.as_str());
                crate::text::starts_with_chars(&id, key)
            },
            MatchKind::TitleEq => {
                let t = chars_of(c[i].title.as_str());
                let l = lower_chars(&t);
                crate::text::eq_str_chars(&l, key)
            },
            MatchKind::TitlePrefix => {
                let t = chars_of(c[i].title.as_str());
                let l = lower_chars(&t);
                crate::text::starts_with_chars(&l, key)
            },
        };
        if hit {
            let ghost before = texts(out@);
            out.push(c[i].id.clone());
            assert(texts(out@) =~= before.push(c@[i as int].id@));
        }
        i = i + 1;
    }
    assert(c@.subrange(0, c@.len() as int) =~= c@);
    out
}

/// `^[0-9A-Za-z]{4,}$`: what a ULID prefix looks like.
pub open spec fn looks_like_id_prefix(t: Seq<char>) -> bool {
    t.len() >= 4 && forall|i: int| 0 <= i < t.len() ==> is_ascii_alnum(#[trigger] t[i])
}

fn looks_like_id_prefix_exec(t: &Vec<char>) -> (b: bool)
    ensures
        b == looks_like_id_prefix(t@),
{
    if t.len() < 4 {
        return false;
    }
    let mut i: usize = 0;
    while i < t.len()
        invariant
            i <= t.len(),
            forall|j: int| 0 <= j < i ==> is_ascii_alnum(#[trigger] t@[j]),
        decreases t.len() - i,
    {
        let ch = t[i];
        if !(('0' <= ch && ch <= '9') || ('A' <= ch && ch <= 'Z') || ('a' <= ch && ch <= 'z')) {
            assert(!is_ascii_alnum(t@[i as int]));
            return false;
        }
        i = i + 1;
    }
    true
}

pub open spec fn outcome_of(ids: Seq<Seq<char>>) -> SOutcome {
    if ids.len() == 0 {
        SOutcome::NotFound
    } else if ids.len() == 1 {
        SOutcome::Unique(ids[0])
    } else {
        SOutcome::Ambiguous(ids)
    }
}

/// Resolution order is ULID prefix, exact title, then unique title prefix.
pub open spec fn resolve_spec(target: Seq<char>, c: Seq<FragmentRef>) -> SOutcome {
    let t = trim(target);
    if t.len() == 0 {
        SOutcome::NotFound
    } else {
        let by_id = if looks_like_id_prefix(t) {
            selected_ids(MatchKind::IdPrefix, c, upper(t))
        } else {
            Seq::empty()
        };
        if by_id.len() > 0 {
            outcome_of(by_id)
        } else {
            let f = lower(t);
            let exact = selected_ids(MatchKind::TitleEq, c, f);
            if exact.len() > 0 {
                outcome_of(exact)
            } else {
                outcome_of(selected_ids(MatchKind::TitlePrefix, c, f))
            }
        }
    }
}

fn outcome_exec(ids: Vec<String>) -> (r: ResolveOutcome)
    ensures
        r@ == outcome_of(texts(ids@)),
{
    if ids.len() == 0 {
        ResolveOutcome::NotFound
    } else if ids.len() == 1 {
        ResolveOutcome::Unique(ids[0].clone())
    } else {
        ResolveOutcome::Ambiguous(ids)
    }
}

/// Resolve a wiki-link target against known fragment IDs and titles.
///
/// Resolution order is ULID prefix, exact title, then unique title prefix.
pub fn resolve_link_target(target: &str, candidates: &[FragmentRef]) -> (r: ResolveOutcome)
    ensures
        r@ == resolve_spec(target@, candidates@),
{
    let raw = chars_of(target);
    let t = trim_chars(&raw);
    if t.len() == 0 {
        return ResolveOutcome::NotFound;
    }
    if looks_like_id_prefix_exec(&t) {
        let u = upper_chars(&t);
        let by_id = select_ids(MatchKind::IdPrefix, candidates, &u);
        if by_id.len() > 0 {
            return outcome_exec(by_id);
        }
    }
    let f = lower_chars(&t);
    let exact = select_ids(MatchKind::TitleEq, candidates, &f);
    if exact.len() > 0 {
        return outcome_exec(exact);
    }
    let prefix = select_ids(MatchKind::TitlePrefix, candidates, &f);
    outcome_exec(prefix)
}

} // verus!

verus! {

// ── Merging ──────────────────────────────────────────────────────────

/// Frontmatter links then resolved body links, keeping the first of each
/// uppercased value; `k` walks the concatenation of both.
pub open spec fn merge_from(
    fm: Seq<Seq<char>>,
    res: Seq<Option<Seq<char>>>,
    k: int,
    seen: Seq<Seq<char>>,
) -> Seq<Seq<char>>
    decreases fm.len() + res.len() - k,
{
    if k < 0 || k >= fm.len() + res.len() {
        Seq::empty()
    } else {
        let item: Option<Seq<char>> = if k < fm.len() { Some(fm[k]) } else { res[k - fm.len()] };
        match item {
            None => merge_from(fm, res, k + 1, seen),
            Some(x) => if seen.contains(upper(x)) {
                merge_from(fm, res, k + 1, seen)
            } else {
                seq![x] + merge_from(fm, res, k + 1, seen.push(upper(x)))
            },
        }
    }
}

/// The merged link list.
pub open spec fn merge_spec(fm: Seq<Seq<char>>, res: Seq<Option<Seq<char>>>) -> Seq<Seq<char>> {
    merge_from(fm, res, 0, Seq::empty())
}

pub open spec fn options_view(v: Seq<Option<String>>) -> Seq<Option<Seq<char>>> {
    v.map_values(
        |o: Option<String>|
            match o {
                Some(s) => Some(s@),
                None => None,
            },
    )
}

fn merge_step(
    out: &mut Vec<String>,
    seen: &mut Vec<Vec<char>>,
    item: Option<&String>,
    Ghost(fm): Ghost<Seq<Seq<char>>>,
    Ghost(res): Ghost<Seq<Option<Seq<char>>>>,
    Ghost(k): Ghost<int>,
)
    requires
        0 <= k < fm.len() + res.len(),
        (if k < fm.len() { Some(fm[k]) } else { res[k - fm.len()] }) == match item {
            Some(x) => Some(x@),
            None => None,
        },
        merge_spec(fm, res) == texts(old(out)@) + merge_from(
            fm,
            res,
            k,
            old(seen)@.map_values(|v: Vec<char>| v@),
        ),
    ensures
        merge_spec(fm, res) == texts(final(out)@) + merge_from(
            fm,
            res,
            k + 1,
            final(seen)@.map_values(|v: Vec<char>| v@),
        ),
{
    let ghost sv = seen@.map_values(|v: Vec<char>| v@);
    let ghost before = texts(out@);
    match item {
        None => {},
        Some(x) => {
            let xc = chars_of(x.as_str());
            let u = upper_chars(&xc);
            if !seen_contains(seen, &u) {
                seen.push(u);
                assert(seen@.map_values(|v: Vec<char>| v@) =~= sv.push(upper(x@)));
                out.push(x.clone());
                assert(texts(out@) =~= before.push(x@));
                assert(before + (seq![x@] + merge_from(fm, res, k + 1, sv.push(upper(x@))))
                    =~= texts(out@) + merge_from(fm, res, k + 1, sv.push(upper(x@))));
            }
        },
    }
}

/// Merges frontmatter links with already-resolved body links.
pub fn merge_resolved_links(frontmatter_links: &[String], resolved: &[Option<String>]) -> (r: Vec<
    String,
>)
    ensures
        texts(r@) == merge_spec(texts(frontmatter_links@), options_view(resolved@)),
{
    let ghost fm = texts(frontmatter_links@);
    let ghost res = options_view(resolved@);
    let mut seen: Vec<Vec<char>> = Vec::new();
    let mut out: Vec<String> = Vec::new();
    assert(seen@.map_values(|v: Vec<char>| v@) =~= Seq::<Seq<char>>::empty());
    let mut k: usize = 0;
    while k < frontmatter_links.len()
        invariant
            k <= frontmatter_links.len(),
            fm == texts(frontmatter_links@),
            res == options_view(resolved@),
            merge_spec(fm, res) == texts(out@) + merge_from(
                fm,
                res,
                k as int,
                seen@.map_values(|v: Vec<char>| v@),
            ),
        decreases frontmatter_links.len() - k,
    {
        merge_step(&mut out, &mut seen, Some(&frontmatter_links[k]), Ghost(fm), Ghost(res), Ghost(k as int));
        k = k + 1;
    }
    let mut j: usize = 0;
    while j < resolved.len()
        invariant
            j <= resolved.len(),
            fm == texts(frontmatter_links@),
            res == options_view(resolved@),
            merge_spec(fm, res) == texts(out@) + merge_from(
                fm,
                res,
                fm.len() + j,
                seen@.map_values(|v: Vec<char>| v@),
            ),
        decreases resolved.len() - j,
    {
        let item: Option<&String> = match &resolved[j] {
            Some(s) => Some(s),
            None => None,
        };
        merge_step(&mut out, &mut seen, item, Ghost(fm), Ghost(res), Ghost(fm.len() + j));
        j = j + 1;
    }
    assert(texts(out@) + Seq::<Seq<char>>::empty() =~= texts(out@));
    out
}

/// `f` may return `o` when called on a string whose characters are `t`.
pub open spec fn resolves_to<F: Fn(&str) -> Option<String>>(
    f: F,
    t: Seq<char>,
    o: Option<String>,
) -> bool {
    exists|a: &str| a@ == t && call_ensures(f, (a,), o)
}

/// Merge frontmatter links with wiki-links extracted from the body.
/// Frontmatter links come first. Deduplicates by uppercase comparison.
/// `resolve_fn` maps a target string to an optional full ID.
pub fn merge_links<F>(frontmatter_links: &[String], body_links: &[WikiLink], resolve_fn: F) -> (r:
    Vec<String>) where F: Fn(&str) -> Option<String>
    requires
        forall|a: &str| call_requires(resolve_fn, (a,)),
    ensures
        exists|res: Seq<Option<String>>|
            {
                &&& res.len() == body_links@.len()
                &&& forall|i: int|
                    0 <= i < res.len() ==> resolves_to(resolve_fn, body_links@[i].target@, res[i])
                &&& texts(r@) == merge_spec(
                    texts(frontmatter_links@),
                    options_view(res),
                )
            },
{
    let mut resolved: Vec<Option<String>> = Vec::new();
    let mut i: usize = 0;
    while i < body_links.len()
        invariant
            i <= body_links.len(),
            resolved@.len() == i,
            forall|a: &str| call_requires(resolve_fn, (a,)),
            forall|j: int|
                0 <= j < i ==> resolves_to(resolve_fn, body_links@[j].target@, #[trigger] resolved@[j]),
        decreases body_links.len() - i,
    {
        let a = body_links[i].target.as_str();
        let o = resolve_fn(a);
        resolved.push(o);
        i = i + 1;
    }
    merge_resolved_links(frontmatter_links, &resolved)
}

/// Resolve a prefix against a list of known IDs.
/// Returns Some(full_id) if exactly one match, None otherwise.
pub fn resolve_prefix(prefix: &str, all_ids: &[String]) -> (r: Option<String>)
    ensures
        ({
            let m = ids_with_prefix(texts(all_ids@), upper(prefix@));
            match r {
                Some(id) => m.len() == 1 && id@ == m[0],
                None => m.len() != 1,
            }
        }),
{
    let p = chars_of(prefix);
    let u = upper_chars(&p);
    let m = ids_starting_with(all_ids, &u);
    if m.len() == 1 {
        Some(m[0].clone())
    } else {
        None
    }
}

/// The ids that start with `u`, in order.
pub open spec fn ids_with_prefix(ids: Seq<Seq<char>>, u: Seq<char>) -> Seq<Seq<char>>
    decreases ids.len(),
{
    if ids.len() == 0 {
        Seq::empty()
    } else {
        let r = ids_with_prefix(ids.drop_last(), u);
        if has_prefix(ids.last(), u) {
            r.push(ids.last())
        } else {
            r
        }
    }
}

/// The ids that start with `u`, in order.
pub fn ids_starting_with(ids: &[String], u: &Vec<char>) -> (r: Vec<String>)
    ensures
        texts(r@) == ids_with_prefix(texts(ids@), u@),
{
    let mut out: Vec<String> = Vec::new();
    let mut i: usize = 0;
    while i < ids.len()
        invariant
            i <= ids.len(),
            texts(out@) == ids_with_prefix(texts(ids@.subrange(0, i as int)), u@),
        decreases ids.len() - i,
    {
        assert(texts(ids@.subrange(0, i + 1)).drop_last() =~= texts(
            ids@.subrange(0, i as int),
        ));
        assert(texts(ids@.subrange(0, i + 1)).last() == ids@[i as int]@);
        let idc = chars_of(ids[i].as_str());
        if crate::text::starts_with_chars(&idc, u) {
            let ghost before = texts(out@);
            out.push(ids[i].clone());
            assert(texts(out@) =~= before.push(ids@[i as int]@));
        }
        i = i + 1;
    }
    assert(ids@.subrange(0, ids@.len() as int) =~= ids@);
    out
}

// ── Laws ─────────────────────────────────────────────────────────────

proof fn lemma_collect_links(s: Seq<char>, ms: Seq<(int, int)>, k: int, seen: Seq<Seq<char>>)
    ensures
        ({
            let r = collect_links(s, ms, k, seen);
            &&& forall|i: int| 0 <= i < r.len() ==> !seen.contains(upper(#[trigger] r[i].target))
            &&& forall|i: int| 0 <= i < r.len() ==> (#[trigger] r[i]).target.len() > 0
            &&& forall|i: int, j: int|
                0 <= i < j < r.len() ==> upper(#[trigger] r[i].target) != upper(#[trigger] r[j].target)
        }),
    decreases ms.len() - k,
{
    if 0 <= k < ms.len() {
        let p = ms[k].0;
        let l = raw_link(s, p);
        let t = trim(l.target);
        if in_code(s, p) || t.len() == 0 || seen.contains(upper(t)) {
            lemma_collect_links(s, ms, k + 1, seen);
        } else {
            let u = upper(t);
            let rest = collect_links(s, ms, k + 1, seen.push(u));
            lemma_collect_links(s, ms, k + 1, seen.push(u));
            let r = collect_links(s, ms, k, seen);
            assert(r == seq![SLink { target: t, display: l.display }] + rest);
            assert(seen.push(u)[seen.len() as int] == u);
            assert forall|i: int| 0 <= i < r.len() implies !seen.contains(upper(#[trigger] r[i].target)) by {
                if i > 0 {
                    assert(r[i] == rest[i - 1]);
                    if seen.contains(upper(r[i].target)) {
                        let q = choose|q: int| 0 <= q < seen.len() && seen[q] == upper(r[i].target);
                        assert(seen.push(u)[q] == upper(r[i].target));
                    }
                }
            }
            assert forall|i: int| 0 <= i < r.len() implies (#[trigger] r[i]).target.len() > 0 by {
                if i > 0 {
                    assert(r[i] == rest[i - 1]);
                }
            }
            assert forall|i: int, j: int| 0 <= i < j < r.len() implies upper(#[trigger] r[i].target) != upper(
                #[trigger] r[j].target,
            ) by {
                assert(r[j] == rest[j - 1]);
                if i > 0 {
                    assert(r[i] == rest[i - 1]);
                }
            }
        }
    }
}

proof fn lemma_collect_sources(s: Seq<char>, ms: Seq<(int, int)>, k: int, seen: Seq<Seq<char>>)
    requires
        0 <= k,
    ensures
        ({
            let r = collect_links(s, ms, k, seen);
            forall|i: int|
                0 <= i < r.len() ==> exists|m: int|
                    k <= m < ms.len() && !in_code(s, ms[m].0) && (#[trigger] r[i]).target == trim(
                        raw_link(s, ms[m].0).target,
                    ) && r[i].display == raw_link(s, ms[m].0).display
        }),
    decreases ms.len() - k,
{
    if 0 <= k < ms.len() {
        let p = ms[k].0;
        let l = raw_link(s, p);
        let t = trim(l.target);
        let r = collect_links(s, ms, k, seen);
        if in_code(s, p) || t.len() == 0 || seen.contains(upper(t)) {
            lemma_collect_sources(s, ms, k + 1, seen);
            let rest = collect_links(s, ms, k + 1, seen);
            assert(r == rest);
            assert forall|i: int| 0 <= i < r.len() implies exists|m: int|
                k <= m < ms.len() && !in_code(s, ms[m].0) && (#[trigger] r[i]).target == trim(
                    raw_link(s, ms[m].0).target,
                ) && r[i].display == raw_link(s, ms[m].0).display by {
                assert(rest[i] == r[i]);
                let m = choose|m: int|
                    k + 1 <= m < ms.len() && !in_code(s, ms[m].0) && (#[trigger] rest[i]).target == trim(
                        raw_link(s, ms[m].0).target,
                    ) && rest[i].display == raw_link(s, ms[m].0).display;
                assert(k <= m);
            }
        } else {
            let u = upper(t);
            lemma_collect_sources(s, ms, k + 1, seen.push(u));
            let rest = collect_links(s, ms, k + 1, seen.push(u));
            assert(r == seq![SLink { target: t, display: l.display }] + rest);
            assert forall|i: int| 0 <= i < r.len() implies exists|m: int|
                k <= m < ms.len() && !in_code(s, ms[m].0) && (#[trigger] r[i]).target == trim(
                    raw_link(s, ms[m].0).target,
                ) && r[i].display == raw_link(s, ms[m].0).display by {
                if i == 0 {
                    assert(r[0].target == t && r[0].display == l.display);
                    assert(k <= k < ms.len() && !in_code(s, ms[k].0));
                } else {
                    assert(r[i] == rest[i - 1]);
                    let m = choose|m: int|
                        k + 1 <= m < ms.len() && !in_code(s, ms[m].0) && (#[trigger] rest[i - 1]).target == trim(
                            raw_link(s, ms[m].0).target,
                        ) && rest[i - 1].display == raw_link(s, ms[m].0).display;
                    assert(k <= m);
                }
            }
        }
    }
}

/// A body's wiki-links have non-blank targets, and no two of them name
/// the same target up to case; each is a `[[...]]` of the body that does
/// not start inside code, with its target text trimmed.
pub proof fn wiki_links_law(body: Seq<char>)
    ensures
        ({
            let r = wiki_links_spec(body);
            let ms = scan(Pattern::Wiki, body, 0);
            &&& forall|i: int| 0 <= i < r.len() ==> (#[trigger] r[i]).target.len() > 0
            &&& forall|i: int, j: int|
                0 <= i < j < r.len() ==> upper(#[trigger] r[i].target) != upper(#[trigger] r[j].target)
            &&& forall|i: int|
                0 <= i < r.len() ==> exists|m: int|
                    0 <= m < ms.len() && !in_code(body, ms[m].0) && (#[trigger] r[i]).target == trim(
                        raw_link(body, ms[m].0).target,
                    )
        }),
{
    lemma_collect_links(body, scan(Pattern::Wiki, body, 0), 0, Seq::empty());
    lemma_collect_sources(body, scan(Pattern::Wiki, body, 0), 0, Seq::empty());
}

proof fn lemma_merge_from(fm: Seq<Seq<char>>, res: Seq<Option<Seq<char>>>, k: int, seen: Seq<Seq<char>>)
    requires
        0 <= k,
    ensures
        ({
            let r = merge_from(fm, res, k, seen);
            &&& forall|i: int| 0 <= i < r.len() ==> !seen.contains(upper(#[trigger] r[i]))
            &&& forall|i: int, j: int| 0 <= i < j < r.len() ==> upper(#[trigger] r[i]) != upper(#[trigger] r[j])
            &&& forall|j: int|
                k <= j < fm.len() ==> seen.contains(upper(#[trigger] fm[j])) || exists|i: int|
                    0 <= i < r.len() && upper(#[trigger] r[i]) == upper(fm[j])
        }),
    decreases fm.len() + res.len() - k,
{
    if k < fm.len() + res.len() {
        let item: Option<Seq<char>> = if k < fm.len() { Some(fm[k]) } else { res[k - fm.len()] };
        let r = merge_from(fm, res, k, seen);
        match item {
            None => {
                lemma_merge_from(fm, res, k + 1, seen);
                assert(r == merge_from(fm, res, k + 1, seen));
            },
            Some(x) => if seen.contains(upper(x)) {
                lemma_merge_from(fm, res, k + 1, seen);
                assert(r == merge_from(fm, res, k + 1, seen));
            } else {
                let u = upper(x);
                let rest = merge_from(fm, res, k + 1, seen.push(u));
                lemma_merge_from(fm, res, k + 1, seen.push(u));
                assert(r == seq![x] + rest);
                assert(seen.push(u)[seen.len() as int] == u);
                assert forall|i: int| 0 <= i < r.len() implies !seen.contains(upper(#[trigger] r[i])) by {
                    if i > 0 {
                        assert(r[i] == rest[i - 1]);
                        if seen.contains(upper(r[i])) {
                            let q = choose|q: int| 0 <= q < seen.len() && seen[q] == upper(r[i]);
                            assert(seen.push(u)[q] == upper(r[i]));
                        }
                    }
                }
                assert forall|i: int, j: int| 0 <= i < j < r.len() implies upper(#[trigger] r[i]) != upper(
                    #[trigger] r[j],
                ) by {
                    assert(r[j] == rest[j - 1]);
                    if i > 0 {
                        assert(r[i] == rest[i - 1]);
                    }
                }
                assert forall|j: int| k <= j < fm.len() implies seen.contains(upper(#[trigger] fm[j])) || exists|i: int|
                    0 <= i < r.len() && upper(#[trigger] r[i]) == upper(fm[j]) by {
                    if j == k {
                        assert(upper(r[0]) == upper(fm[j]));
                    } else if seen.push(u).contains(upper(fm[j])) {
                        let q = choose|q: int| 0 <= q < seen.len() + 1 && seen.push(u)[q] == upper(fm[j]);
                        if q == seen.len() {
                            assert(upper(r[0]) == upper(fm[j]));
                        } else {
                            assert(seen[q] == upper(fm[j]));
                        }
                    } else {
                        let i = choose|i: int| 0 <= i < rest.len() && upper(#[trigger] rest[i]) == upper(fm[j]);
                        assert(r[i + 1] == rest[i]);
                    }
                }
            },
        }
    }
}

proof fn lemma_merge_split(fm: Seq<Seq<char>>, res: Seq<Option<Seq<char>>>, k: int, seen: Seq<Seq<char>>)
    requires
        0 <= k <= fm.len(),
    ensures
        ({
            let e = Seq::<Option<Seq<char>>>::empty();
            let a = merge_from(fm, e, k, seen);
            merge_from(fm, res, k, seen) == a + merge_from(
                fm,
                res,
                fm.len() as int,
                seen + a.map_values(|x: Seq<char>| upper(x)),
            )
        }),
    decreases fm.len() - k,
{
    let e = Seq::<Option<Seq<char>>>::empty();
    if k == fm.len() {
        let a = merge_from(fm, e, k, seen);
        assert(seen + a.map_values(|x: Seq<char>| upper(x)) =~= seen);
    } else {
        let u = upper(fm[k]);
        if seen.contains(u) {
            lemma_merge_split(fm, res, k + 1, seen);
        } else {
            lemma_merge_split(fm, res, k + 1, seen.push(u));
            let m = merge_from(fm, e, k + 1, seen.push(u));
            let a = merge_from(fm, e, k, seen);
            assert(a == seq![fm[k]] + m);
            assert(seen + a.map_values(|x: Seq<char>| upper(x)) =~= seen.push(u) + m.map_values(
                |x: Seq<char>| upper(x),
            ));
            let tail = merge_from(fm, res, fm.len() as int, seen.push(u) + m.map_values(|x: Seq<char>| upper(x)));
            assert(seq![fm[k]] + (m + tail) =~= a + tail);
        }
    }
}

/// From position `k` on, the present items (`Some`), each kept unless an
/// item equal to it up to case was kept before (or is in `seen`).
pub open spec fn first_ci(items: Seq<Option<Seq<char>>>, k: int, seen: Seq<Seq<char>>) -> Seq<Seq<char>>
    decreases items.len() - k,
{
    if k < 0 || k >= items.len() {
        Seq::empty()
    } else {
        match items[k] {
            None => first_ci(items, k + 1, seen),
            Some(x) => if seen.contains(upper(x)) {
                first_ci(items, k + 1, seen)
            } else {
                seq![x] + first_ci(items, k + 1, seen.push(upper(x)))
            },
        }
    }
}

/// The frontmatter links, then what each body link resolved to.
pub open spec fn link_items(fm: Seq<Seq<char>>, res: Seq<Option<Seq<char>>>) -> Seq<Option<Seq<char>>> {
    fm.map_values(|x: Seq<char>| Some(x)) + res
}

proof fn lemma_merge_is_first_ci(fm: Seq<Seq<char>>, res: Seq<Option<Seq<char>>>, k: int, seen: Seq<Seq<char>>)
    requires
        0 <= k,
    ensures
        merge_from(fm, res, k, seen) == first_ci(link_items(fm, res), k, seen),
    decreases fm.len() + res.len() - k,
{
    if k < fm.len() + res.len() {
        let items = link_items(fm, res);
        if k < fm.len() {
            assert(items[k] == Some(fm[k]));
        } else {
            assert(items[k] == res[k - fm.len()]);
        }
        match items[k] {
            None => lemma_merge_is_first_ci(fm, res, k + 1, seen),
            Some(x) => if seen.contains(upper(x)) {
                lemma_merge_is_first_ci(fm, res, k + 1, seen);
            } else {
                lemma_merge_is_first_ci(fm, res, k + 1, seen.push(upper(x)));
            },
        }
    }
}

/// Merging links keeps, in order, the frontmatter links and then the ids
/// the body links resolved to (those that resolved), each unless one
/// equal to it up to case came before; spelling is kept.
pub proof fn merge_links_first_occurrences(fm: Seq<Seq<char>>, res: Seq<Option<Seq<char>>>)
    ensures
        merge_spec(fm, res) == first_ci(link_items(fm, res), 0, Seq::empty()),
{
    lemma_merge_is_first_ci(fm, res, 0, Seq::empty());
}

/// Merged links hold no two ids equal up to case; every frontmatter link
/// is there up to case; the frontmatter links come first, as they would
/// alone.
pub proof fn merge_links_law(fm: Seq<Seq<char>>, res: Seq<Option<Seq<char>>>)
    ensures
        ({
            let r = merge_spec(fm, res);
            let alone = merge_spec(fm, Seq::empty());
            &&& forall|i: int, j: int| 0 <= i < j < r.len() ==> upper(#[trigger] r[i]) != upper(#[trigger] r[j])
            &&& forall|j: int|
                0 <= j < fm.len() ==> exists|i: int| 0 <= i < r.len() && upper(#[trigger] r[i]) == upper(#[trigger] fm[j])
            &&& alone.len() <= r.len() && r.subrange(0, alone.len() as int) == alone
        }),
{
    let e = Seq::<Seq<char>>::empty();
    lemma_merge_from(fm, res, 0, e);
    lemma_merge_split(fm, res, 0, e);
    let r = merge_spec(fm, res);
    let alone = merge_spec(fm, Seq::empty());
    assert(r.subrange(0, alone.len() as int) =~= alone);
}

proof fn lemma_selected_ids(kind: MatchKind, c: Seq<FragmentRef>, key: Seq<char>)
    ensures
        forall|i: int|
            0 <= i < selected_ids(kind, c, key).len() ==> exists|j: int|
                0 <= j < c.len() && (#[trigger] c[j]).id@ == #[trigger] selected_ids(kind, c, key)[i]
                    && candidate_matches(kind, c[j], key),
    decreases c.len(),
{
    if c.len() > 0 {
        lemma_selected_ids(kind, c.drop_last(), key);
        let r = selected_ids(kind, c.drop_last(), key);
        let sel = selected_ids(kind, c, key);
        assert forall|i: int| 0 <= i < sel.len() implies exists|j: int|
            0 <= j < c.len() && (#[trigger] c[j]).id@ == #[trigger] sel[i] && candidate_matches(kind, c[j], key) by {
            if i < r.len() {
                assert(sel[i] == r[i]);
                let j = choose|j: int|
                    0 <= j < c.drop_last().len() && (#[trigger] c.drop_last()[j]).id@ == r[i]
                        && candidate_matches(kind, c.drop_last()[j], key);
                assert(c[j] == c.drop_last()[j]);
            } else {
                assert(c[c.len() - 1] == c.last());
            }
        }
    }
}

proof fn lemma_selected_filter(kind: MatchKind, c: Seq<FragmentRef>, key: Seq<char>)
    ensures
        selected_ids(kind, c, key) == c.filter(|f: FragmentRef| candidate_matches(kind, f, key)).map_values(
            |f: FragmentRef| f.id@,
        ),
    decreases c.len(),
{
    reveal(Seq::filter);
    if c.len() > 0 {
        lemma_selected_filter(kind, c.drop_last(), key);
        let pred = |f: FragmentRef| candidate_matches(kind, f, key);
        let id = |f: FragmentRef| f.id@;
        let sub = c.drop_last().filter(pred);
        if pred(c.last()) {
            assert(sub.push(c.last()).map_values(id) =~= sub.map_values(id).push(id(c.last())));
        }
    }
}

/// How a link target resolves among candidates: a blank target resolves
/// to nothing; otherwise, with `t` the trimmed target, the ids of the
/// candidates (in candidate order) whose id starts with `t` upper-cased,
/// when `t` is at least four ASCII letters or digits and there are any;
/// else those whose lowercased title equals `t` lowercased, when there
/// are any; else those whose lowercased title starts with it. None is
/// not found, one is that id, more are ambiguous.
pub proof fn resolve_order_rule(target: Seq<char>, c: Seq<FragmentRef>)
    ensures
        ({
            let t = trim(target);
            let by_id = c.filter(|f: FragmentRef| has_prefix(f.id@, upper(t))).map_values(|f: FragmentRef| f.id@);
            let exact = c.filter(|f: FragmentRef| lower(f.title@) == lower(t)).map_values(|f: FragmentRef| f.id@);
            let prefix = c.filter(|f: FragmentRef| has_prefix(lower(f.title@), lower(t))).map_values(
                |f: FragmentRef| f.id@,
            );
            resolve_spec(target, c) == if t.len() == 0 {
                SOutcome::NotFound
            } else if looks_like_id_prefix(t) && by_id.len() > 0 {
                outcome_of(by_id)
            } else if exact.len() > 0 {
                outcome_of(exact)
            } else {
                outcome_of(prefix)
            }
        }),
{
    let t = trim(target);
    lemma_selected_filter(MatchKind::IdPrefix, c, upper(t));
    lemma_selected_filter(MatchKind::TitleEq, c, lower(t));
    lemma_selected_filter(MatchKind::TitlePrefix, c, lower(t));
    let p1 = |f: FragmentRef| candidate_matches(MatchKind::IdPrefix, f, upper(t));
    let q1 = |f: FragmentRef| has_prefix(f.id@, upper(t));
    assert(p1 =~= q1);
    let p2 = |f: FragmentRef| candidate_matches(MatchKind::TitleEq, f, lower(t));
    let q2 = |f: FragmentRef| lower(f.title@) == lower(t);
    assert(p2 =~= q2);
    let p3 = |f: FragmentRef| candidate_matches(MatchKind::TitlePrefix, f, lower(t));
    let q3 = |f: FragmentRef| has_prefix(lower(f.title@), lower(t));
    assert(p3 =~= q3);
}

/// A link target resolves only to ids of the candidates it was resolved
/// among: a unique match is one candidate's id, an ambiguous one lists two
/// or more candidates' ids.
pub proof fn resolved_ids_are_candidates(target: Seq<char>, c: Seq<FragmentRef>)
    ensures
        match resolve_spec(target, c) {
            SOutcome::Unique(x) => exists|j: int| 0 <= j < c.len() && (#[trigger] c[j]).id@ == x,
            SOutcome::Ambiguous(ids) => ids.len() >= 2 && forall|i: int|
                0 <= i < ids.len() ==> exists|j: int| 0 <= j < c.len() && (#[trigger] c[j]).id@ == #[trigger] ids[i],
            SOutcome::NotFound => true,
        },
{
    let t = trim(target);
    lemma_selected_ids(MatchKind::IdPrefix, c, upper(t));
    lemma_selected_ids(MatchKind::TitleEq, c, lower(t));
    lemma_selected_ids(MatchKind::TitlePrefix, c, lower(t));
    match resolve_spec(target, c) {
        SOutcome::Unique(x) => {
            let ids = if looks_like_id_prefix(t) && selected_ids(MatchKind::IdPrefix, c, upper(t)).len() > 0 {
                selected_ids(MatchKind::IdPrefix, c, upper(t))
            } else if selected_ids(MatchKind::TitleEq, c, lower(t)).len() > 0 {
                selected_ids(MatchKind::TitleEq, c, lower(t))
            } else {
                selected_ids(MatchKind::TitlePrefix, c, lower(t))
            };
            assert(ids[0] == x);
        },
        _ => {},
    }
}

} // verus!
