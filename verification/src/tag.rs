//! Tags: frontmatter `tags:` merged with inline `#hashtags`.

use vstd::prelude::*;

use crate::text::texts;
use crate::text::{
    char_is_ws, chars_of, eq_str_chars, is_ascii_alnum, is_ascii_alpha, is_ws, lower, lower_chars,
    slice_vec, sorted_insert, strictly_sorted, string_of,
};

verus! {

/// The lowercased tags of `fm` then `inl`, keeping the first of each;
/// `k` walks the concatenation of both.
pub open spec fn merge_tags_from(
    fm: Seq<Seq<char>>,
    inl: Seq<Seq<char>>,
    k: int,
    seen: Seq<Seq<char>>,
) -> Seq<Seq<char>>
    decreases fm.len() + inl.len() - k,
{
    if k < 0 || k >= fm.len() + inl.len() {
        Seq::empty()
    } else {
        let x = lower(if k < fm.len() { fm[k] } else { inl[k - fm.len()] });
        if seen.contains(x) {
            merge_tags_from(fm, inl, k + 1, seen)
        } else {
            seq![x] + merge_tags_from(fm, inl, k + 1, seen.push(x))
        }
    }
}

/// The merged tag list.
pub open spec fn merge_tags_spec(fm: Seq<Seq<char>>, inl: Seq<Seq<char>>) -> Seq<Seq<char>> {
    merge_tags_from(fm, inl, 0, Seq::empty())
}

fn seen_has(seen: &Vec<Vec<char>>, x: &Vec<char>) -> (b: bool)
    ensures
        b == seen@.map_values(|v: Vec<char>| v@).contains(x@),
{
    let ghost sv = seen@.map_values(|v: Vec<char>| v@);
    let mut j: usize = 0;
    while j < seen.len()
        invariant
            j <= seen.len(),
            sv == seen@.map_values(|v: Vec<char>| v@),
            forall|t: int| 0 <= t < j ==> sv[t] != x@,
        decreases seen.len() - j,
    {
        if eq_str_chars(&seen[j], x) {
            assert(sv[j as int] == x@);
            return true;
        }
        j = j + 1;
    }
    false
}

fn tag_step(
    out: &mut Vec<String>,
    seen: &mut Vec<Vec<char>>,
    tag: &String,
    Ghost(fm): Ghost<Seq<Seq<char>>>,
    Ghost(inl): Ghost<Seq<Seq<char>>>,
    Ghost(k): Ghost<int>,
)
    requires
        0 <= k < fm.len() + inl.len(),
        (if k < fm.len() { fm[k] } else { inl[k - fm.len()] }) == tag@,
        merge_tags_spec(fm, inl) == texts(old(out)@) + merge_tags_from(
            fm,
            inl,
            k,
            old(seen)@.map_values(|v: Vec<char>| v@),
        ),
    ensures
        merge_tags_spec(fm, inl) == texts(final(out)@) + merge_tags_from(
            fm,
            inl,
            k + 1,
            final(seen)@.map_values(|v: Vec<char>| v@),
        ),
{
    let ghost sv = seen@.map_values(|v: Vec<char>| v@);
    let ghost before = texts(out@);
    let tc = chars_of(tag.as_str());
    let l = lower_chars(&tc);
    if !seen_has(seen, &l) {
        let ls = string_of(&l);
        seen.push(l);
        assert(seen@.map_values(|v: Vec<char>| v@) =~= sv.push(lower(tag@)));
        out.push(ls);
        assert(texts(out@) =~= before.push(lower(tag@)));
        assert(before + (seq![lower(tag@)] + merge_tags_from(fm, inl, k + 1, sv.push(lower(tag@))))
            =~= texts(out@) + merge_tags_from(fm, inl, k + 1, sv.push(lower(tag@))));
    }
}

/// Merge frontmatter tags and inline tags, deduplicated, case-insensitive.
pub fn merge_tags(frontmatter_tags: &[String], inline_tags: &[String]) -> (r: Vec<String>)
    ensures
        texts(r@) == merge_tags_spec(texts(frontmatter_tags@), texts(inline_tags@)),
{
    let ghost fm = texts(frontmatter_tags@);
    let ghost inl = texts(inline_tags@);
    let mut seen: Vec<Vec<char>> = Vec::new();
    let mut out: Vec<String> = Vec::new();
    assert(seen@.map_values(|v: Vec<char>| v@) =~= Seq::<Seq<char>>::empty());
    let mut k: usize = 0;
    while k < frontmatter_tags.len()
        invariant
            k <= frontmatter_tags.len(),
            fm == texts(frontmatter_tags@),
            inl == texts(inline_tags@),
            merge_tags_spec(fm, inl) == texts(out@) + merge_tags_from(
                fm,
                inl,
                k as int,
                seen@.map_values(|v: Vec<char>| v@),
            ),
        decreases frontmatter_tags.len() - k,
    {
        tag_step(&mut out, &mut seen, &frontmatter_tags[k], Ghost(fm), Ghost(inl), Ghost(k as int));
        k = k + 1;
    }
    let mut j: usize = 0;
    while j < inline_tags.len()
        invariant
            j <= inline_tags.len(),
            fm == texts(frontmatter_tags@),
            inl == texts(inline_tags@),
            merge_tags_spec(fm, inl) == texts(out@) + merge_tags_from(
                fm,
                inl,
                fm.len() + j,
                seen@.map_values(|v: Vec<char>| v@),
            ),
        decreases inline_tags.len() - j,
    {
        tag_step(&mut out, &mut seen, &inline_tags[j], Ghost(fm), Ghost(inl), Ghost(fm.len() + j));
        j = j + 1;
    }
    assert(texts(out@) + Seq::<Seq<char>>::empty() =~= texts(out@));
    out
}


// ── Inline hashtags ──────────────────────────────────────────────────

/// What a node of a parsed Markdown document is, as far as tags go.
#[derive(Debug, Clone, Copy, PartialEq, Eq, Structural)]
pub enum MdKind {
    CodeBlock,
    Code,
    Link,
    Text,
    Other,
}

/// A node of a parsed Markdown document, in document order: its kind,
/// the position of the node that contains it (its own for the document),
/// and its text for a text node.
#[derive(Debug)]
pub struct MdNode {
    pub kind: MdKind,
    pub parent: usize,
    pub text: String,
}

pub struct SMdNode {
    pub kind: MdKind,
    pub parent: nat,
    pub text: Seq<char>,
}

impl View for MdNode {
    type V = SMdNode;

    open spec fn view(&self) -> SMdNode {
        SMdNode { kind: self.kind, parent: self.parent as nat, text: self.text@ }
    }
}

/// The nodes comrak's `parse_document` (default options) makes of a
/// Markdown text, in document order (`descendants()`).
pub uninterp spec fn markdown_nodes(md: Seq<char>) -> Seq<SMdNode>;

/// comrak's node value, carried through unread.
#[verifier::external_type_specification]
#[verifier::external_body]
pub struct ExNodeValue(comrak::nodes::NodeValue);

/// The kind of a comrak node value.
#[verifier::external_body]
fn md_kind(v: &comrak::nodes::NodeValue) -> MdKind {
    match v {
        comrak::nodes::NodeValue::CodeBlock(_) => MdKind::CodeBlock,
        comrak::nodes::NodeValue::Code(_) => MdKind::Code,
        comrak::nodes::NodeValue::Link(_) => MdKind::Link,
        comrak::nodes::NodeValue::Text(_) => MdKind::Text,
        _ => MdKind::Other,
    }
}

/// The text of a comrak text node; empty for any other node.
#[verifier::external_body]
fn md_text(v: &comrak::nodes::NodeValue) -> String {
    match v {
        comrak::nodes::NodeValue::Text(t) => t.to_string(),
        _ => String::new(),
    }
}

/// `comrak::parse_document` with default options, its nodes listed in
/// document order with the position of each one's parent: named
/// `markdown_nodes(md)`.
#[verifier::external_body]
fn markdown_outline(md: &str) -> (r: Vec<MdNode>)
    ensures
        r@.map_values(|n: MdNode| n@) == markdown_nodes(md@),
{
    let arena = comrak::Arena::new();
    let root = comrak::parse_document(&arena, md, &comrak::Options::default());
    let all: Vec<_> = root.descendants().collect();
    all.iter().enumerate().map(|(i, n)| MdNode {
        kind: md_kind(&n.data.borrow().value),
        parent: n.parent().and_then(|p| all.iter().position(|q| std::ptr::eq(*q, p))).unwrap_or(i),
        text: md_text(&n.data.borrow().value),
    }).collect()
}

/// Whether node `j` lies inside code, and whether inside a link.
pub open spec fn enclosing(nodes: Seq<SMdNode>, j: int) -> (bool, bool)
    decreases j,
{
    if 0 <= j < nodes.len() && nodes[j].parent < j {
        let p = nodes[j].parent as int;
        let up = enclosing(nodes, p);
        (
            up.0 || nodes[p].kind == MdKind::Code || nodes[p].kind == MdKind::CodeBlock,
            up.1 || nodes[p].kind == MdKind::Link,
        )
    } else {
        (false, false)
    }
}

/// A text node outside code and links: where hashtags count.
pub open spec fn tag_text_node(nodes: Seq<SMdNode>, j: int) -> bool {
    &&& 0 <= j < nodes.len()
    &&& nodes[j].kind == MdKind::Text
    &&& !enclosing(nodes, j).0
    &&& !enclosing(nodes, j).1
}

pub open spec fn is_tag_char(c: char) -> bool {
    is_ascii_alnum(c) || c == '_' || c == '-'
}

/// The end of the run of tag characters from `i`.
pub open spec fn tag_end(s: Seq<char>, i: int) -> int
    decreases s.len() - i,
{
    if 0 <= i < s.len() && is_tag_char(s[i]) {
        tag_end(s, i + 1)
    } else {
        i
    }
}

/// A `#` that starts the text or follows whitespace, then a letter.
pub open spec fn hashtag_at(s: Seq<char>, i: int) -> bool {
    &&& 0 <= i
    &&& i + 1 < s.len()
    &&& s[i] == '#'
    &&& (i == 0 || is_ws(s[i - 1]))
    &&& is_ascii_alpha(s[i + 1])
}

/// The tag of the hashtag at `i`: letters, digits, `_` and `-` after `#`.
pub open spec fn hashtag(s: Seq<char>, i: int) -> Seq<char> {
    s.subrange(i + 1, tag_end(s, i + 1))
}

/// `x` is a hashtag of the document, lowercased.
pub open spec fn is_inline_tag(nodes: Seq<SMdNode>, x: Seq<char>) -> bool {
    exists|j: int, i: int|
        tag_text_node(nodes, j) && #[trigger] hashtag_at(nodes[j].text, i) && x == lower(
            hashtag(nodes[j].text, i),
        )
}

fn tag_end_exec(s: &[char], i: usize) -> (r: usize)
    requires
        i <= s.len(),
    ensures
        r == tag_end(s@, i as int),
        i <= r <= s.len(),
{
    let mut k = i;
    while k < s.len() && (('0' <= s[k] && s[k] <= '9') || ('A' <= s[k] && s[k] <= 'Z') || ('a' <= s[k]
        && s[k] <= 'z') || s[k] == '_' || s[k] == '-')
        invariant
            i <= k <= s.len(),
            tag_end(s@, i as int) == tag_end(s@, k as int),
        decreases s.len() - k,
    {
        k = k + 1;
    }
    k
}

/// The sorted set of the hashtags of a Markdown text.
pub open spec fn inline_tags_spec(md: Seq<char>) -> Seq<Seq<char>> {
    choose|s: Seq<Seq<char>>|
        strictly_sorted(s) && forall|x: Seq<char>| #[trigger] s.contains(x) <==> is_inline_tag(
            markdown_nodes(md),
            x,
        )
}

/// Extract hashtags from Markdown body, ignoring code blocks, inline code
/// and link text: each `#tag` that starts a text or follows whitespace,
/// lowercased, once each, sorted.
pub fn extract_inline_tags(markdown: &str) -> (r: Vec<String>)
    ensures
        strictly_sorted(texts(r@)),
        forall|x: Seq<char>| #[trigger] texts(r@).contains(x) <==> is_inline_tag(markdown_nodes(markdown@), x),
        texts(r@) == inline_tags_spec(markdown@),
{
    let nodes = markdown_outline(markdown);
    let ghost ns = markdown_nodes(markdown@);
    assert(nodes@.len() == ns.len());
    let mut flags: Vec<(bool, bool)> = Vec::new();
    let mut out: Vec<String> = Vec::new();
    let mut j: usize = 0;
    while j < nodes.len()
        invariant
            j <= nodes.len(),
            ns == nodes@.map_values(|n: MdNode| n@),
            flags@.len() == j,
            forall|q: int| 0 <= q < j ==> #[trigger] flags@[q] == enclosing(ns, q),
            strictly_sorted(texts(out@)),
            forall|x: Seq<char>| #[trigger] texts(out@).contains(x) <==> exists|q: int, i: int|
                0 <= q < j && tag_text_node(ns, q) && #[trigger] hashtag_at(ns[q].text, i) && x
                    == lower(hashtag(ns[q].text, i)),
        decreases nodes.len() - j,
    {
        let node = &nodes[j];
        assert(ns[j as int] == node@);
        let f = if node.parent < j {
            let p = node.parent;
            let (c, l) = flags[p];
            (c || nodes[p].kind == MdKind::Code || nodes[p].kind == MdKind::CodeBlock, l || nodes[p].kind
                == MdKind::Link)
        } else {
            (false, false)
        };
        assert(f == enclosing(ns, j as int));
        flags.push(f);
        let ghost before = texts(out@);
        if node.kind == MdKind::Text && !f.0 && !f.1 {
            let t = chars_of(node.text.as_str());
            let mut i: usize = 0;
            while i < t.len()
                invariant
                    i <= t.len(),
                    t@ == ns[j as int].text,
                    tag_text_node(ns, j as int),
                    strictly_sorted(texts(out@)),
                    forall|x: Seq<char>| #[trigger] texts(out@).contains(x) <==> (before.contains(x) || exists|k: int|
                        0 <= k < i && #[trigger] hashtag_at(t@, k) && x == lower(hashtag(t@, k))),
                decreases t.len() - i,
            {
                let starts = t[i] == '#' && (i == 0 || char_is_ws(t[i - 1])) && i + 1 < t.len() && (('A'
                    <= t[i + 1] && t[i + 1] <= 'Z') || ('a' <= t[i + 1] && t[i + 1] <= 'z'));
                let ghost prev = texts(out@);
                if starts {
                    let e = tag_end_exec(&t, i + 1);
                    let tag = slice_vec(&t, i + 1, e);
                    let low = lower_chars(&tag);
                    let ghost x0 = low@;
                    assert(x0 == lower(hashtag(t@, i as int)));
                    sorted_insert(&mut out, string_of(&low));
                    assert forall|x: Seq<char>| #[trigger] texts(out@).contains(x) <==> (before.contains(x)
                        || exists|k: int| 0 <= k < i + 1 && #[trigger] hashtag_at(t@, k) && x == lower(
                        hashtag(t@, k),
                    )) by {
                        if x == x0 {
                            assert(hashtag_at(t@, i as int));
                        }
                        if exists|k: int| 0 <= k < i + 1 && #[trigger] hashtag_at(t@, k) && x == lower(
                            hashtag(t@, k),
                        ) {
                            let k = choose|k: int| 0 <= k < i + 1 && #[trigger] hashtag_at(t@, k) && x
                                == lower(hashtag(t@, k));
                            if k < i {
                                assert(prev.contains(x));
                            }
                        }
                    }
                } else {
                    assert(!hashtag_at(t@, i as int));
                    assert forall|x: Seq<char>| #[trigger] texts(out@).contains(x) <==> (before.contains(x)
                        || exists|k: int| 0 <= k < i + 1 && #[trigger] hashtag_at(t@, k) && x == lower(
                        hashtag(t@, k),
                    )) by {
                        if exists|k: int| 0 <= k < i + 1 && #[trigger] hashtag_at(t@, k) && x == lower(
                            hashtag(t@, k),
                        ) {
                            let k = choose|k: int| 0 <= k < i + 1 && #[trigger] hashtag_at(t@, k) && x
                                == lower(hashtag(t@, k));
                            assert(k < i);
                        }
                    }
                }
                i = i + 1;
            }
            assert forall|x: Seq<char>| #[trigger] texts(out@).contains(x) <==> exists|q: int, i: int|
                0 <= q < j + 1 && tag_text_node(ns, q) && #[trigger] hashtag_at(ns[q].text, i) && x
                    == lower(hashtag(ns[q].text, i)) by {
                if exists|q: int, i: int|
                    0 <= q < j + 1 && tag_text_node(ns, q) && #[trigger] hashtag_at(ns[q].text, i) && x
                        == lower(hashtag(ns[q].text, i)) {
                    let (q, k) = choose|q: int, i: int|
                        0 <= q < j + 1 && tag_text_node(ns, q) && #[trigger] hashtag_at(ns[q].text, i)
                            && x == lower(hashtag(ns[q].text, i));
                    if q == j {
                        assert(hashtag_at(t@, k));
                        assert(0 <= k < t@.len());
                    }
                }
                if texts(out@).contains(x) && !before.contains(x) {
                    let k = choose|k: int| 0 <= k < t@.len() && #[trigger] hashtag_at(t@, k) && x == lower(hashtag(t@, k));
                    assert(hashtag_at(ns[j as int].text, k));
                }
            }
        } else {
            assert(!tag_text_node(ns, j as int));
            assert forall|x: Seq<char>| #[trigger] texts(out@).contains(x) <==> exists|q: int, i: int|
                0 <= q < j + 1 && tag_text_node(ns, q) && #[trigger] hashtag_at(ns[q].text, i) && x
                    == lower(hashtag(ns[q].text, i)) by {
                if exists|q: int, i: int|
                    0 <= q < j + 1 && tag_text_node(ns, q) && #[trigger] hashtag_at(ns[q].text, i) && x
                        == lower(hashtag(ns[q].text, i)) {
                    let (q, k) = choose|q: int, i: int|
                        0 <= q < j + 1 && tag_text_node(ns, q) && #[trigger] hashtag_at(ns[q].text, i)
                            && x == lower(hashtag(ns[q].text, i));
                    assert(q != j);
                }
            }
        }
        j = j + 1;
    }
    proof {
        let s = inline_tags_spec(markdown@);
        assert(strictly_sorted(texts(out@)) && forall|x: Seq<char>| #[trigger] texts(out@).contains(x)
            <==> is_inline_tag(markdown_nodes(markdown@), x));
        crate::text::lemma_sorted_sets_equal(s, texts(out@));
    }
    out
}

// ── Laws ─────────────────────────────────────────────────────────────

/// The `k`-th tag of the concatenation of both lists.
pub open spec fn tag_at(fm: Seq<Seq<char>>, inl: Seq<Seq<char>>, k: int) -> Seq<char> {
    if k < fm.len() {
        fm[k]
    } else {
        inl[k - fm.len()]
    }
}

/// Every tag of both lists, lowercased, in order.
pub open spec fn lowered_tags(fm: Seq<Seq<char>>, inl: Seq<Seq<char>>) -> Seq<Seq<char>> {
    Seq::new(fm.len() + inl.len(), |j: int| lower(tag_at(fm, inl, j)))
}

proof fn lemma_merge_tags_from(fm: Seq<Seq<char>>, inl: Seq<Seq<char>>, k: int, seen: Seq<Seq<char>>)
    requires
        0 <= k <= fm.len() + inl.len(),
    ensures
        ({
            let r = merge_tags_from(fm, inl, k, seen);
            let all = lowered_tags(fm, inl);
            &&& forall|i: int, j: int| 0 <= i < j < r.len() ==> r[i] != r[j]
            &&& forall|i: int| 0 <= i < r.len() ==> !seen.contains(#[trigger] r[i])
            &&& forall|i: int| 0 <= i < r.len() ==> all.subrange(k, all.len() as int).contains(#[trigger] r[i])
            &&& forall|j: int| k <= j < all.len() ==> seen.contains(#[trigger] all[j]) || r.contains(all[j])
        }),
    decreases fm.len() + inl.len() - k,
{
    let all = lowered_tags(fm, inl);
    let r = merge_tags_from(fm, inl, k, seen);
    if k < fm.len() + inl.len() {
        let x = lower(tag_at(fm, inl, k));
        assert(all[k] == x);
        if seen.contains(x) {
            lemma_merge_tags_from(fm, inl, k + 1, seen);
            assert(r == merge_tags_from(fm, inl, k + 1, seen));
            assert forall|i: int| 0 <= i < r.len() implies all.subrange(k, all.len() as int).contains(
                #[trigger] r[i],
            ) by {
                let t = choose|t: int| 0 <= t < all.len() - (k + 1) && #[trigger] all.subrange(k + 1, all.len() as int)[t] == r[i];
                assert(all.subrange(k, all.len() as int)[t + 1] == r[i]);
            }
        } else {
            let rest = merge_tags_from(fm, inl, k + 1, seen.push(x));
            lemma_merge_tags_from(fm, inl, k + 1, seen.push(x));
            assert(r == seq![x] + rest);
            assert forall|i: int| 0 <= i < r.len() implies !seen.contains(#[trigger] r[i]) by {
                if i > 0 {
                    assert(r[i] == rest[i - 1]);
                    assert(!seen.push(x).contains(rest[i - 1]));
                    if seen.contains(r[i]) {
                        let t = choose|t: int| 0 <= t < seen.len() && seen[t] == r[i];
                        assert(seen.push(x)[t] == r[i]);
                    }
                }
            }
            assert forall|i: int, j: int| 0 <= i < j < r.len() implies r[i] != r[j] by {
                if i == 0 {
                    assert(r[j] == rest[j - 1]);
                    assert(seen.push(x)[seen.len() as int] == x);
                } else {
                    assert(r[i] == rest[i - 1] && r[j] == rest[j - 1]);
                }
            }
            assert forall|i: int| 0 <= i < r.len() implies all.subrange(k, all.len() as int).contains(
                #[trigger] r[i],
            ) by {
                if i == 0 {
                    assert(all.subrange(k, all.len() as int)[0] == x);
                } else {
                    assert(r[i] == rest[i - 1]);
                    let t = choose|t: int| 0 <= t < all.len() - (k + 1) && #[trigger] all.subrange(k + 1, all.len() as int)[t] == rest[i - 1];
                    assert(all.subrange(k, all.len() as int)[t + 1] == r[i]);
                }
            }
            assert forall|j: int| k <= j < all.len() implies seen.contains(#[trigger] all[j]) || r.contains(
                all[j],
            ) by {
                let y = all[j];
                if j == k {
                    assert(r[0] == y);
                } else if seen.push(x).contains(y) {
                    let t = choose|t: int| 0 <= t < seen.len() + 1 && seen.push(x)[t] == y;
                    if t == seen.len() {
                        assert(r[0] == y);
                    } else {
                        assert(seen[t] == y);
                    }
                } else {
                    let t = choose|t: int| 0 <= t < rest.len() && rest[t] == y;
                    assert(r[t + 1] == y);
                }
            }
        }
    }
}

proof fn lemma_merge_tags_split(fm: Seq<Seq<char>>, inl: Seq<Seq<char>>, k: int, seen: Seq<Seq<char>>)
    requires
        0 <= k <= fm.len(),
    ensures
        merge_tags_from(fm, inl, k, seen) == merge_tags_from(fm, Seq::empty(), k, seen)
            + merge_tags_from(fm, inl, fm.len() as int, seen + merge_tags_from(fm, Seq::empty(), k, seen)),
    decreases fm.len() - k,
{
    let e = Seq::<Seq<char>>::empty();
    if k == fm.len() {
        assert(seen + merge_tags_from(fm, e, k, seen) =~= seen);
    } else {
        let x = lower(fm[k]);
        if seen.contains(x) {
            lemma_merge_tags_split(fm, inl, k + 1, seen);
        } else {
            lemma_merge_tags_split(fm, inl, k + 1, seen.push(x));
            let m = merge_tags_from(fm, e, k + 1, seen.push(x));
            assert(seen + (seq![x] + m) =~= seen.push(x) + m);
            assert(seq![x] + m + merge_tags_from(fm, inl, fm.len() as int, seen.push(x) + m) =~= seq![x]
                + (m + merge_tags_from(fm, inl, fm.len() as int, seen.push(x) + m)));
        }
    }
}

proof fn lemma_tag_end(s: Seq<char>, i: int)
    requires
        0 <= i,
    ensures
        i <= tag_end(s, i),
        tag_end(s, i) <= s.len() || tag_end(s, i) == i,
        forall|j: int| i <= j < tag_end(s, i) ==> is_tag_char(#[trigger] s[j]),
    decreases s.len() - i,
{
    if 0 <= i < s.len() && is_tag_char(s[i]) {
        lemma_tag_end(s, i + 1);
    }
}

/// Every inline tag is the lowercase form of a word that starts with an
/// ASCII letter and holds only ASCII letters, digits, `_` and `-`, written
/// after a `#` that starts a text or follows whitespace, in text that is
/// neither code nor a link.
pub proof fn inline_tag_shape(nodes: Seq<SMdNode>, x: Seq<char>)
    requires
        is_inline_tag(nodes, x),
    ensures
        exists|h: Seq<char>|
            h.len() >= 1 && is_ascii_alpha(h[0]) && (forall|j: int| 0 <= j < h.len() ==> is_tag_char(#[trigger] h[j]))
                && x == lower(h),
{
    let (j, i) = choose|j: int, i: int|
        tag_text_node(nodes, j) && #[trigger] hashtag_at(nodes[j].text, i) && x == lower(hashtag(nodes[j].text, i));
    let s = nodes[j].text;
    lemma_tag_end(s, i + 1);
    assert(is_tag_char(s[i + 1]));
    let h = hashtag(s, i);
    assert(tag_end(s, i + 1) == tag_end(s, i + 2));
    lemma_tag_end(s, i + 2);
    assert(h.len() >= 1);
    assert(h[0] == s[i + 1]);
    assert forall|k: int| 0 <= k < h.len() implies is_tag_char(#[trigger] h[k]) by {
        assert(h[k] == s[i + 1 + k]);
    }
}

/// The first occurrence of each item of `s[k..]` not in `seen`, in order.
pub open spec fn first_occurrences(s: Seq<Seq<char>>, k: int, seen: Seq<Seq<char>>) -> Seq<Seq<char>>
    decreases s.len() - k,
{
    if k < 0 || k >= s.len() {
        Seq::empty()
    } else if seen.contains(s[k]) {
        first_occurrences(s, k + 1, seen)
    } else {
        seq![s[k]] + first_occurrences(s, k + 1, seen.push(s[k]))
    }
}

proof fn lemma_merge_is_first_occurrences(fm: Seq<Seq<char>>, inl: Seq<Seq<char>>, k: int, seen: Seq<Seq<char>>)
    requires
        0 <= k,
    ensures
        merge_tags_from(fm, inl, k, seen) == first_occurrences(lowered_tags(fm, inl), k, seen),
    decreases fm.len() + inl.len() - k,
{
    if k < fm.len() + inl.len() {
        let x = lower(tag_at(fm, inl, k));
        assert(lowered_tags(fm, inl)[k] == x);
        if seen.contains(x) {
            lemma_merge_is_first_occurrences(fm, inl, k + 1, seen);
        } else {
            lemma_merge_is_first_occurrences(fm, inl, k + 1, seen.push(x));
        }
    }
}

/// Merging tags lowercases every frontmatter tag, then every inline tag,
/// and keeps the first occurrence of each, in order.
pub proof fn merge_tags_first_occurrences(fm: Seq<Seq<char>>, inl: Seq<Seq<char>>)
    ensures
        merge_tags_spec(fm, inl) == first_occurrences(lowered_tags(fm, inl), 0, Seq::empty()),
{
    lemma_merge_is_first_occurrences(fm, inl, 0, Seq::empty());
}

/// Merged tags are lowercase and case-insensitively unique: no tag occurs
/// twice, each is some input tag lowercased, every input tag lowercased is
/// there, and the frontmatter tags come first, as they would alone.
pub proof fn merge_tags_law(fm: Seq<Seq<char>>, inl: Seq<Seq<char>>)
    ensures
        ({
            let r = merge_tags_spec(fm, inl);
            let all = lowered_tags(fm, inl);
            let alone = merge_tags_spec(fm, Seq::empty());
            &&& forall|i: int, j: int| 0 <= i < j < r.len() ==> r[i] != r[j]
            &&& forall|i: int| 0 <= i < r.len() ==> all.contains(#[trigger] r[i])
            &&& forall|j: int| 0 <= j < all.len() ==> r.contains(#[trigger] all[j])
            &&& alone.len() <= r.len() && r.subrange(0, alone.len() as int) == alone
        }),
{
    let e = Seq::<Seq<char>>::empty();
    lemma_merge_tags_from(fm, inl, 0, e);
    lemma_merge_tags_split(fm, inl, 0, e);
    let r = merge_tags_spec(fm, inl);
    let all = lowered_tags(fm, inl);
    let alone = merge_tags_spec(fm, e);
    assert(all.subrange(0, all.len() as int) =~= all);
    assert(r.subrange(0, alone.len() as int) =~= alone);
}

} // verus!
