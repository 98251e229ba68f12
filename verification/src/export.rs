//! Exporting fragments as CSV and as HTML pages.

use vstd::prelude::*;

use crate::error::ParcError;
use crate::fields::lookup;
use crate::fragment::{str_field, Fragment};
use crate::json::as_str_spec;
use crate::tag::{extract_inline_tags, inline_tags_spec, merge_tags, merge_tags_spec};
use crate::text::{
    chars_of, join_strings, join_with, push_chars, push_str, string_of, texts, utf8_len,
    utf8_width,
};
use crate::time::rfc3339_full;

verus! {

// ── CSV ──────────────────────────────────────────────────────────────

/// A field CSV must quote: one with a comma, a double quote or a newline.
pub open spec fn needs_csv_quotes(s: Seq<char>) -> bool {
    s.contains(',') || s.contains('"') || s.contains('\n')
}

/// Each `"` doubled.
pub open spec fn double_quotes(s: Seq<char>) -> Seq<char>
    decreases s.len(),
{
    if s.len() == 0 {
        Seq::empty()
    } else {
        double_quotes(s.drop_last()) + (if s.last() == '"' {
            seq!['"', '"']
        } else {
            seq![s.last()]
        })
    }
}

/// A CSV field: quoted, with quotes doubled, when it must be.
pub open spec fn csv_escape_spec(s: Seq<char>) -> Seq<char> {
    if needs_csv_quotes(s) {
        seq!['"'] + double_quotes(s) + seq!['"']
    } else {
        s
    }
}

/// A text as a CSV field.
pub fn csv_escape(s: &str) -> (r: String)
    ensures
        r@ == csv_escape_spec(s@),
{
    let v = chars_of(s);
    let mut quote = false;
    let mut out: Vec<char> = Vec::new();
    out.push('"');
    let mut i: usize = 0;
    while i < v.len()
        invariant
            i <= v.len(),
            v@ == s@,
            out@ == seq!['"'] + double_quotes(v@.subrange(0, i as int)),
            quote == exists|j: int| 0 <= j < i && (v@[j] == ',' || v@[j] == '"' || v@[j] == '\n'),
        decreases v.len() - i,
    {
        assert(v@.subrange(0, i + 1).drop_last() =~= v@.subrange(0, i as int));
        let c = v[i];
        if c == ',' || c == '"' || c == '\n' {
            quote = true;
        }
        if c == '"' {
            out.push('"');
            out.push('"');
        } else {
            out.push(c);
        }
        assert(out@ =~= seq!['"'] + double_quotes(v@.subrange(0, i + 1)));
        i = i + 1;
    }
    assert(v@.subrange(0, v@.len() as int) =~= v@);
    if quote {
        out.push('"');
        string_of(&out)
    } else {
        assert(!needs_csv_quotes(s@)) by {
            if s@.contains(',') {
                let j = choose|j: int| 0 <= j < s@.len() && s@[j] == ',';
                assert(v@[j] == ',');
            }
            if s@.contains('"') {
                let j = choose|j: int| 0 <= j < s@.len() && s@[j] == '"';
                assert(v@[j] == '"');
            }
            if s@.contains('\n') {
                let j = choose|j: int| 0 <= j < s@.len() && s@[j] == '\n';
                assert(v@[j] == '\n');
            }
        }
        string_of(&v)
    }
}

/// The tags a fragment is listed under: its own, then its hashtags.
pub open spec fn merged_tags_of(f: Fragment) -> Seq<Seq<char>> {
    merge_tags_spec(texts(f.tags@), inline_tags_spec(f.body@))
}

/// The text of a string field, or nothing.
pub open spec fn field_text(f: Fragment, k: Seq<char>) -> Seq<char> {
    match str_field(f.extra_fields@, k) {
        Some(t) => t,
        None => Seq::empty(),
    }
}

/// One fragment as a CSV row.
pub open spec fn csv_row(f: Fragment) -> Seq<char> {
    join_with(
        seq![
            csv_escape_spec(f.id@),
            csv_escape_spec(f.fragment_type@),
            csv_escape_spec(f.title@),
            csv_escape_spec(join_with(merged_tags_of(f), ";"@)),
            csv_escape_spec(field_text(f, "status"@)),
            csv_escape_spec(field_text(f, "priority"@)),
            csv_escape_spec(field_text(f, "due"@)),
            csv_escape_spec(rfc3339_full(f.created_at.secs_spec(), f.created_at.nanos_spec())),
            csv_escape_spec(rfc3339_full(f.updated_at.secs_spec(), f.updated_at.nanos_spec())),
        ],
        ","@,
    ) + "\n"@
}

/// The rows of the fragments, in order.
pub open spec fn csv_rows(fs: Seq<Fragment>) -> Seq<char>
    decreases fs.len(),
{
    if fs.len() == 0 {
        Seq::empty()
    } else {
        csv_rows(fs.drop_last()) + csv_row(fs.last())
    }
}

pub open spec fn csv_header() -> Seq<char> {
    "id,type,title,tags,status,priority,due,created_at,updated_at\n"@
}

/// The merged tags of a fragment.
pub fn fragment_tags(f: &Fragment) -> (r: Vec<String>)
    ensures
        texts(r@) == merged_tags_of(*f),
{
    let inline = extract_inline_tags(f.body.as_str());
    merge_tags(f.tags.as_slice(), inline.as_slice())
}

fn field_text_exec(f: &Fragment, k: &str) -> (r: Vec<char>)
    ensures
        r@ == field_text(*f, k@),
{
    match crate::fragment::get_str(&f.extra_fields, k) {
        Some(s) => chars_of(s.as_str()),
        None => Vec::new(),
    }
}

fn csv_row_exec(f: &Fragment) -> (r: Vec<char>)
    ensures
        r@ == csv_row(*f),
{
    let mut cells: Vec<String> = Vec::new();
    cells.push(csv_escape(f.id.as_str()));
    cells.push(csv_escape(f.fragment_type.as_str()));
    cells.push(csv_escape(f.title.as_str()));
    let tags = fragment_tags(f);
    let joined = join_strings(tags.as_slice(), ";");
    cells.push(csv_escape(joined.as_str()));
    let st = string_of(&field_text_exec(f, "status"));
    cells.push(csv_escape(st.as_str()));
    let pr = string_of(&field_text_exec(f, "priority"));
    cells.push(csv_escape(pr.as_str()));
    let du = string_of(&field_text_exec(f, "due"));
    cells.push(csv_escape(du.as_str()));
    let c = f.created_at.to_rfc3339();
    cells.push(csv_escape(c.as_str()));
    let u = f.updated_at.to_rfc3339();
    cells.push(csv_escape(u.as_str()));
    assert(texts(cells@) =~= seq![
        csv_escape_spec(f.id@),
        csv_escape_spec(f.fragment_type@),
        csv_escape_spec(f.title@),
        csv_escape_spec(join_with(merged_tags_of(*f), ";"@)),
        csv_escape_spec(field_text(*f, "status"@)),
        csv_escape_spec(field_text(*f, "priority"@)),
        csv_escape_spec(field_text(*f, "due"@)),
        csv_escape_spec(rfc3339_full(f.created_at.secs_spec(), f.created_at.nanos_spec())),
        csv_escape_spec(rfc3339_full(f.updated_at.secs_spec(), f.updated_at.nanos_spec())),
    ]);
    let line = join_strings(cells.as_slice(), ",");
    let mut out = chars_of(line.as_str());
    push_str(&mut out, "\n");
    out
}

/// Export fragments as CSV (metadata only, no body): a header, then one
/// row per fragment with its merged tags joined by `;`.
pub fn export_csv(fragments: &[Fragment]) -> (r: Result<String, ParcError>)
    ensures
        r matches Ok(s) && s@ == csv_header() + csv_rows(fragments@),
{
    let mut out = chars_of("id,type,title,tags,status,priority,due,created_at,updated_at\n");
    let mut i: usize = 0;
    while i < fragments.len()
        invariant
            i <= fragments.len(),
            out@ == csv_header() + csv_rows(fragments@.subrange(0, i as int)),
        decreases fragments.len() - i,
    {
        assert(fragments@.subrange(0, i + 1).drop_last() =~= fragments@.subrange(0, i as int));
        let row = csv_row_exec(&fragments[i]);
        push_chars(&mut out, &row);
        assert(out@ =~= csv_header() + csv_rows(fragments@.subrange(0, i + 1)));
        i = i + 1;
    }
    assert(fragments@.subrange(0, fragments@.len() as int) =~= fragments@);
    Ok(string_of(&out))
}

// ── HTML ─────────────────────────────────────────────────────────────

/// `&`, `<`, `>` and `"` as HTML entities.
pub open spec fn html_escape_spec(s: Seq<char>) -> Seq<char>
    decreases s.len(),
{
    if s.len() == 0 {
        Seq::empty()
    } else {
        let c = s.last();
        html_escape_spec(s.drop_last()) + (if c == '&' {
            "&amp;"@
        } else if c == '<' {
            "&lt;"@
        } else if c == '>' {
            "&gt;"@
        } else if c == '"' {
            "&quot;"@
        } else {
            seq![c]
        })
    }
}

/// A text as HTML.
pub fn html_escape(s: &str) -> (r: String)
    ensures
        r@ == html_escape_spec(s@),
{
    let v = chars_of(s);
    let mut out: Vec<char> = Vec::new();
    let mut i: usize = 0;
    while i < v.len()
        invariant
            i <= v.len(),
            v@ == s@,
            out@ == html_escape_spec(v@.subrange(0, i as int)),
        decreases v.len() - i,
    {
        assert(v@.subrange(0, i + 1).drop_last() =~= v@.subrange(0, i as int));
        let c = v[i];
        if c == '&' {
            push_str(&mut out, "&amp;");
        } else if c == '<' {
            push_str(&mut out, "&lt;");
        } else if c == '>' {
            push_str(&mut out, "&gt;");
        } else if c == '"' {
            push_str(&mut out, "&quot;");
        } else {
            out.push(c);
        }
        i = i + 1;
    }
    assert(v@.subrange(0, v@.len() as int) =~= v@);
    string_of(&out)
}

/// What `comrak::markdown_to_html` with default options renders.
pub uninterp spec fn markdown_html(md: Seq<char>) -> Seq<char>;

/// `comrak::markdown_to_html(md, &Options::default())`.
#[verifier::external_body]
fn markdown_to_html(md: &str) -> (r: String)
    ensures
        r@ == markdown_html(md@),
{
    comrak::markdown_to_html(md, &comrak::Options::default())
}

/// The number of characters of the longest prefix of `s` whose UTF-8
/// encoding fits in `n` bytes, counting from `k`.
pub open spec fn byte_cut_from(s: Seq<char>, n: nat, k: int) -> int
    decreases s.len() - k,
{
    if 0 <= k < s.len() && utf8_len(s.subrange(0, k + 1)) <= n {
        byte_cut_from(s, n, k + 1)
    } else {
        k
    }
}

/// `&s[..n.min(s.len())]`, when `n` bytes end on a character: the first
/// `n` bytes, or all of `s` when it is shorter.
pub open spec fn byte_prefix(s: Seq<char>, n: nat) -> Seq<char> {
    s.subrange(0, byte_cut_from(s, n, 0))
}

/// Cutting `s` after `n` bytes does not split a character.
pub open spec fn cut_on_boundary(s: Seq<char>, n: nat) -> bool {
    utf8_len(s) <= n || utf8_len(byte_prefix(s, n)) == n
}

/// The first `n` bytes of `s`, as characters.
pub(crate) fn byte_prefix_exec(s: &[char], n: usize) -> (r: Vec<char>)
    ensures
        r@ == byte_prefix(s@, n as nat),
{
    let mut total: usize = 0;
    let mut k: usize = 0;
    assert(s@.subrange(0, 0) =~= Seq::<char>::empty());
    while k < s.len()
        invariant
            k <= s.len(),
            total == utf8_len(s@.subrange(0, k as int)),
            total <= n,
            byte_cut_from(s@, n as nat, 0) == byte_cut_from(s@, n as nat, k as int),
        ensures
            k <= s.len(),
            byte_cut_from(s@, n as nat, 0) == k,
        decreases s.len() - k,
    {
        assert(s@.subrange(0, k + 1).drop_last() =~= s@.subrange(0, k as int));
        let c = s[k];
        let w: usize = if (c as u32) < 0x80 {
            1
        } else if (c as u32) < 0x800 {
            2
        } else if (c as u32) < 0x10000 {
            3
        } else {
            4
        };
        assert(w == utf8_width(c));
        if w > n - total {
            break;
        }
        total = total + w;
        k = k + 1;
    }
    crate::text::slice_vec(s, 0, k)
}

/// The short id a page is named by: the first eight bytes of the id.
pub open spec fn short_id(id: Seq<char>) -> Seq<char> {
    byte_prefix(id, 8)
}

pub open spec fn page_head(title: Seq<char>) -> Seq<char> {
    "<!DOCTYPE html>\n<html>\n<head>\n<meta charset=\"utf-8\">\n<title>"@ + title
        + "</title>\n<style>body { font-family: sans-serif; max-width: 800px; margin: 2em auto; padding: 0 1em; }</style>\n</head>\n<body>\n<h1>"@
        + title + "</h1>\n"@
}

/// A fragment's HTML page.
pub open spec fn fragment_page(f: Fragment) -> Seq<char> {
    page_head(html_escape_spec(f.title@)) + "<p><strong>Type:</strong> "@ + html_escape_spec(
        f.fragment_type@,
    ) + " | <strong>ID:</strong> "@ + f.id@ + "</p>\n"@ + markdown_html(f.body@)
        + "\n</body>\n</html>"@
}

/// A fragment's entry in the index page.
pub open spec fn index_entry(f: Fragment) -> Seq<char> {
    "<li><a href=\""@ + short_id(f.id@) + ".html\">"@ + html_escape_spec(f.title@) + "</a> ("@
        + html_escape_spec(f.fragment_type@) + ")</li>\n"@
}

pub open spec fn index_entries(fs: Seq<Fragment>) -> Seq<char>
    decreases fs.len(),
{
    if fs.len() == 0 {
        Seq::empty()
    } else {
        index_entries(fs.drop_last()) + index_entry(fs.last())
    }
}

/// The index page listing the fragments.
pub open spec fn index_page(fs: Seq<Fragment>) -> Seq<char> {
    "<!DOCTYPE html>\n<html>\n<head>\n<meta charset=\"utf-8\">\n<title>Parc Export</title>\n<style>body { font-family: sans-serif; max-width: 800px; margin: 2em auto; padding: 0 1em; }</style>\n</head>\n<body>\n<h1>Parc Export</h1>\n<ul>\n"@
        + index_entries(fs) + "</ul>\n</body>\n</html>"@
}

fn fragment_page_exec(f: &Fragment) -> (r: String)
    ensures
        r@ == fragment_page(*f),
{
    let title = html_escape(f.title.as_str());
    let tv = chars_of(title.as_str());
    let mut out = chars_of("<!DOCTYPE html>\n<html>\n<head>\n<meta charset=\"utf-8\">\n<title>");
    push_chars(&mut out, &tv);
    push_str(
        &mut out,
        "</title>\n<style>body { font-family: sans-serif; max-width: 800px; margin: 2em auto; padding: 0 1em; }</style>\n</head>\n<body>\n<h1>",
    );
    push_chars(&mut out, &tv);
    push_str(&mut out, "</h1>\n");
    push_str(&mut out, "<p><strong>Type:</strong> ");
    let ty = html_escape(f.fragment_type.as_str());
    push_chars(&mut out, &chars_of(ty.as_str()));
    push_str(&mut out, " | <strong>ID:</strong> ");
    push_chars(&mut out, &chars_of(f.id.as_str()));
    push_str(&mut out, "</p>\n");
    let body = markdown_to_html(f.body.as_str());
    push_chars(&mut out, &chars_of(body.as_str()));
    push_str(&mut out, "\n</body>\n</html>");
    string_of(&out)
}

/// Export fragments as HTML files: one page per fragment, named by its
/// short id, then `index.html` listing them all.
pub fn export_html(fragments: &[Fragment]) -> (r: Result<Vec<(String, String)>, ParcError>)
    requires
        forall|i: int| 0 <= i < fragments@.len() ==> cut_on_boundary(#[trigger] fragments@[i].id@, 8),
    ensures
        r matches Ok(files) && files@.len() == fragments@.len() + 1 && (forall|i: int|
            0 <= i < fragments@.len() ==> (#[trigger] files@[i]).0@ == short_id(fragments@[i].id@)
                + ".html"@ && files@[i].1@ == fragment_page(fragments@[i])) && files@.last().0@
            == "index.html"@ && files@.last().1@ == index_page(fragments@),
{
    let mut files: Vec<(String, String)> = Vec::new();
    let mut index = chars_of(
        "<!DOCTYPE html>\n<html>\n<head>\n<meta charset=\"utf-8\">\n<title>Parc Export</title>\n<style>body { font-family: sans-serif; max-width: 800px; margin: 2em auto; padding: 0 1em; }</style>\n</head>\n<body>\n<h1>Parc Export</h1>\n<ul>\n",
    );
    let ghost head = index@;
    let mut i: usize = 0;
    while i < fragments.len()
        invariant
            i <= fragments.len(),
            forall|j: int| 0 <= j < fragments@.len() ==> cut_on_boundary(#[trigger] fragments@[j].id@, 8),
            files@.len() == i,
            forall|j: int|
                0 <= j < i ==> (#[trigger] files@[j]).0@ == short_id(fragments@[j].id@) + ".html"@
                    && files@[j].1@ == fragment_page(fragments@[j]),
            index@ == head + index_entries(fragments@.subrange(0, i as int)),
        decreases fragments.len() - i,
    {
        let f = &fragments[i];
        assert(cut_on_boundary(fragments@[i as int].id@, 8));
        let idc = chars_of(f.id.as_str());
        let short = byte_prefix_exec(&idc, 8);
        let mut name = short.clone();
        push_str(&mut name, ".html");
        let page = fragment_page_exec(f);
        files.push((string_of(&name), page));
        assert(fragments@.subrange(0, i + 1).drop_last() =~= fragments@.subrange(0, i as int));
        push_str(&mut index, "<li><a href=\"");
        push_chars(&mut index, &short);
        push_str(&mut index, ".html\">");
        let t = html_escape(f.title.as_str());
        push_chars(&mut index, &chars_of(t.as_str()));
        push_str(&mut index, "</a> (");
        let ty = html_escape(f.fragment_type.as_str());
        push_chars(&mut index, &chars_of(ty.as_str()));
        push_str(&mut index, ")</li>\n");
        assert(index@ =~= head + index_entries(fragments@.subrange(0, i + 1)));
        i = i + 1;
    }
    assert(fragments@.subrange(0, fragments@.len() as int) =~= fragments@);
    push_str(&mut index, "</ul>\n</body>\n</html>");
    files.push((string_of(&chars_of("index.html")), string_of(&index)));
    Ok(files)
}


// ── Laws ─────────────────────────────────────────────────────────────

/// The CSV columns, in order.
pub open spec fn csv_columns() -> Seq<Seq<char>> {
    seq![
        "id"@,
        "type"@,
        "title"@,
        "tags"@,
        "status"@,
        "priority"@,
        "due"@,
        "created_at"@,
        "updated_at"@,
    ]
}

/// What a fragment holds under a column's name: its id, type, title,
/// merged tags joined by `;` and timestamps, and otherwise the text of
/// the frontmatter field of that name.
pub open spec fn column_value(f: Fragment, name: Seq<char>) -> Seq<char> {
    if name == "id"@ {
        f.id@
    } else if name == "type"@ {
        f.fragment_type@
    } else if name == "title"@ {
        f.title@
    } else if name == "tags"@ {
        join_with(merged_tags_of(f), ";"@)
    } else if name == "created_at"@ {
        rfc3339_full(f.created_at.secs_spec(), f.created_at.nanos_spec())
    } else if name == "updated_at"@ {
        rfc3339_full(f.updated_at.secs_spec(), f.updated_at.nanos_spec())
    } else {
        field_text(f, name)
    }
}

proof fn lemma_join_push(p: Seq<Seq<char>>, x: Seq<char>, sep: Seq<char>)
    requires
        p.len() >= 1,
    ensures
        join_with(p.push(x), sep) == join_with(p, sep) + sep + x,
{
    assert(p.push(x).drop_last() =~= p);
}

/// The rows line up with the header: the header names the columns, and
/// cell `k` of a fragment's row is the value under column `k`, CSV-escaped
/// (so the status, priority and due cells carry those fields' texts).
pub proof fn csv_cells_follow_header(f: Fragment)
    ensures
        csv_header() == join_with(csv_columns(), ","@) + "\n"@,
        csv_row(f) == join_with(
            Seq::new(9, |k: int| csv_escape_spec(column_value(f, csv_columns()[k]))),
            ","@,
        ) + "\n"@,
{
    reveal_strlit("id");
    reveal_strlit("type");
    reveal_strlit("title");
    reveal_strlit("tags");
    reveal_strlit("status");
    reveal_strlit("priority");
    reveal_strlit("due");
    reveal_strlit("created_at");
    reveal_strlit("updated_at");
    reveal_strlit(",");
    reveal_strlit("\n");
    reveal_strlit("id,type,title,tags,status,priority,due,created_at,updated_at\n");
    let c = csv_columns();
    let sep = ","@;
    assert(join_with(seq![c[0]], sep) == c[0]);
    lemma_join_push(seq![c[0]], c[1], sep);
    assert(seq![c[0]].push(c[1]) =~= c.take(2));
    lemma_join_push(c.take(2), c[2], sep);
    assert(c.take(2).push(c[2]) =~= c.take(3));
    lemma_join_push(c.take(3), c[3], sep);
    assert(c.take(3).push(c[3]) =~= c.take(4));
    lemma_join_push(c.take(4), c[4], sep);
    assert(c.take(4).push(c[4]) =~= c.take(5));
    lemma_join_push(c.take(5), c[5], sep);
    assert(c.take(5).push(c[5]) =~= c.take(6));
    lemma_join_push(c.take(6), c[6], sep);
    assert(c.take(6).push(c[6]) =~= c.take(7));
    lemma_join_push(c.take(7), c[7], sep);
    assert(c.take(7).push(c[7]) =~= c.take(8));
    lemma_join_push(c.take(8), c[8], sep);
    assert(c.take(8).push(c[8]) =~= c);
    assert(join_with(c, sep) + "\n"@
        =~= "id,type,title,tags,status,priority,due,created_at,updated_at\n"@);
    assert("type"@[1] != "tags"@[1]);
    assert("created_at"@[0] != "updated_at"@[0]);
    assert(column_value(f, "status"@) == field_text(f, "status"@));
    assert(column_value(f, "priority"@) == field_text(f, "priority"@));
    assert(column_value(f, "due"@) == field_text(f, "due"@));
    assert(column_value(f, "tags"@) == join_with(merged_tags_of(f), ";"@));
    assert(column_value(f, "created_at"@) == rfc3339_full(f.created_at.secs_spec(), f.created_at.nanos_spec()));
    assert(column_value(f, "updated_at"@) == rfc3339_full(f.updated_at.secs_spec(), f.updated_at.nanos_spec()));
    assert(Seq::new(9, |k: int| csv_escape_spec(column_value(f, csv_columns()[k]))) =~= seq![
        csv_escape_spec(f.id@),
        csv_escape_spec(f.fragment_type@),
        csv_escape_spec(f.title@),
        csv_escape_spec(join_with(merged_tags_of(f), ";"@)),
        csv_escape_spec(field_text(f, "status"@)),
        csv_escape_spec(field_text(f, "priority"@)),
        csv_escape_spec(field_text(f, "due"@)),
        csv_escape_spec(rfc3339_full(f.created_at.secs_spec(), f.created_at.nanos_spec())),
        csv_escape_spec(rfc3339_full(f.updated_at.secs_spec(), f.updated_at.nanos_spec())),
    ]);
}

/// Reading a quoted CSV field after its opening quote: the text up to the
/// first quote that is not doubled, each doubled quote read as one, and
/// the index of that closing quote; `None` when no closing quote comes.
pub open spec fn read_csv_quoted(t: Seq<char>) -> Option<(Seq<char>, nat)>
    decreases t.len(),
{
    if t.len() == 0 {
        None
    } else if t[0] == '"' {
        if t.len() >= 2 && t[1] == '"' {
            match read_csv_quoted(t.subrange(2, t.len() as int)) {
                Some((x, k)) => Some((seq!['"'] + x, k + 2)),
                None => None,
            }
        } else {
            Some((Seq::empty(), 0))
        }
    } else {
        match read_csv_quoted(t.drop_first()) {
            Some((x, k)) => Some((seq![t[0]] + x, k + 1)),
            None => None,
        }
    }
}

spec fn doubled_char(c: char) -> Seq<char> {
    if c == '"' {
        seq!['"', '"']
    } else {
        seq![c]
    }
}

proof fn lemma_double_quotes_front(c: char, r: Seq<char>)
    ensures
        double_quotes(seq![c] + r) == doubled_char(c) + double_quotes(r),
    decreases r.len(),
{
    let s = seq![c] + r;
    if r.len() == 0 {
        assert(s.drop_last() =~= Seq::<char>::empty());
        assert(double_quotes(Seq::<char>::empty()) =~= Seq::<char>::empty());
        assert(double_quotes(s) =~= doubled_char(c));
        assert(doubled_char(c) + double_quotes(r) =~= doubled_char(c));
    } else {
        assert(s.drop_last() =~= seq![c] + r.drop_last());
        assert(s.last() == r.last());
        lemma_double_quotes_front(c, r.drop_last());
        assert(double_quotes(s) =~= doubled_char(c) + double_quotes(r));
    }
}

proof fn lemma_read_doubled(s: Seq<char>, rest: Seq<char>)
    requires
        rest.len() == 0 || rest[0] != '"',
    ensures
        read_csv_quoted(double_quotes(s) + seq!['"'] + rest) == Some((s, double_quotes(s).len())),
    decreases s.len(),
{
    let t = double_quotes(s) + seq!['"'] + rest;
    if s.len() == 0 {
        assert(double_quotes(s) =~= Seq::<char>::empty());
        assert(t =~= seq!['"'] + rest);
        assert(t[0] == '"');
        if t.len() >= 2 {
            assert(t[1] == rest[0]);
        }
    } else {
        let c = s[0];
        let tl = s.drop_first();
        assert(s =~= seq![c] + tl);
        lemma_double_quotes_front(c, tl);
        lemma_read_doubled(tl, rest);
        let u = double_quotes(tl) + seq!['"'] + rest;
        assert(t =~= doubled_char(c) + u);
        if c == '"' {
            assert(t.subrange(2, t.len() as int) =~= u);
            assert(t[0] == '"' && t[1] == '"');
        } else {
            assert(t.drop_first() =~= u);
            assert(t[0] == c);
        }
    }
}

/// A CSV field reads back as the text it was made from: a text holding a
/// comma, a quote or a newline comes out quoted, and reading it (doubled
/// quotes as one, up to the closing quote) gives the text back with the
/// closing quote as the field's last character; any other text comes out
/// as it is.
pub proof fn csv_fields_read_back(s: Seq<char>)
    ensures
        (s.contains(',') || s.contains('"') || s.contains('\n')) ==> {
            let r = csv_escape_spec(s);
            &&& r[0] == '"'
            &&& read_csv_quoted(r.drop_first()) == Some((s, (r.len() - 2) as nat))
        },
        !(s.contains(',') || s.contains('"') || s.contains('\n')) ==> csv_escape_spec(s) == s,
{
    lemma_read_doubled(s, Seq::empty());
    let d = double_quotes(s);
    assert((seq!['"'] + d + seq!['"']).drop_first() =~= d + seq!['"'] + Seq::<char>::empty());
}

} // verus!
