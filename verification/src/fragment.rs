//! Fragments: Markdown files with a YAML frontmatter, their reading,
//! writing and validation.

use vstd::prelude::*;

use crate::error::ParcError;
use crate::fields::{field_get, field_insert, fields_sorted, lookup, lookup_last};
use crate::json::{as_str_spec, parse_yaml_value, string_list, strings_of, yaml_json, JsonValue};
use crate::text::{
    chars_of, concat3, find_seq, find_seq_exec, has_prefix, is_ws, join_strings, join_with,
    lemma_find_seq_first, lemma_join_append, lemma_join_prefix, occurs_at,
    push_chars, push_str, skip_two, skip_two_exec, skip_ws, skip_ws_at, starts_with_at,
    string_of, texts,
};
use crate::time::{rfc3339_parsed, rfc3339_secs, Timestamp};
use crate::config::Config;
use crate::link::{ids_starting_with, ids_with_prefix};
use crate::schema::{FieldDef, FieldType, Schema};
use crate::search::{is_ymd_date, ymd_accepted};
use crate::text::{upper, upper_chars};

verus! {

/// A note, task or other record of the vault.
#[derive(Debug)]
pub struct Fragment {
    pub id: String,
    pub fragment_type: String,
    pub title: String,
    pub tags: Vec<String>,
    pub links: Vec<String>,
    pub attachments: Vec<String>,
    pub created_at: Timestamp,
    pub updated_at: Timestamp,
    pub created_by: Option<String>,
    /// The type-specific fields, sorted by name.
    pub extra_fields: Vec<(String, JsonValue)>,
    pub body: String,
}

// ── Frontmatter ──────────────────────────────────────────────────────

/// `s.trim_start()`.
pub open spec fn trim_start(s: Seq<char>) -> Seq<char> {
    s.subrange(skip_ws(s, 0), s.len() as int)
}

/// The frontmatter and the body of a fragment file, or why there are none.
pub open spec fn split_spec(content: Seq<char>) -> Result<(Seq<char>, Seq<char>), Seq<char>> {
    let c = trim_start(content);
    if !has_prefix(c, "---"@) {
        Err("fragment must start with YAML frontmatter (---)"@)
    } else {
        let a0 = c.subrange(3, c.len() as int);
        let a = a0.subrange(skip_two(a0, '\r', '\n', 0), a0.len() as int);
        let p = find_seq(a, "\n---"@, 0);
        if p < 0 {
            Err("no closing --- for frontmatter"@)
        } else {
            let bs = p + 4;
            let body = if bs < a.len() {
                let rest = a.subrange(bs, a.len() as int);
                if rest.len() > 0 && rest[0] == '\n' {
                    rest.drop_first()
                } else {
                    rest
                }
            } else {
                Seq::empty()
            };
            Ok((a.subrange(0, p), body))
        }
    }
}

/// Split a fragment file into its YAML frontmatter and its body: leading
/// whitespace is skipped, the file must open with `---`, and the first
/// `\n---` after it closes the frontmatter; one newline after it is dropped.
pub fn split_frontmatter(content: &str) -> (r: Result<(String, String), ParcError>)
    ensures
        match split_spec(content@) {
            Ok((fm, body)) => r matches Ok((f, b)) && f@ == fm && b@ == body,
            Err(m) => r matches Err(ParcError::ValidationError(x)) && x@ == m,
        },
{
    proof {
        reveal_strlit("---");
        reveal_strlit("\n---");
    }
    let v = chars_of(content);
    let start = skip_ws_at(&v, 0);
    let c = crate::text::slice_vec(&v, start, v.len());
    assert(c@.subrange(0, c@.len() as int) =~= c@);
    if !starts_with_at(&c, 0, "---") {
        return Err(
            ParcError::ValidationError(
                string_of(&chars_of("fragment must start with YAML frontmatter (---)")),
            ),
        );
    }
    let a0 = crate::text::slice_vec(&c, 3, c.len());
    let s = skip_two_exec(&a0, '\r', '\n', 0);
    let a = crate::text::slice_vec(&a0, s, a0.len());
    let pat = chars_of("\n---");
    match find_seq_exec(&a, &pat, 0) {
        None => Err(
            ParcError::ValidationError(string_of(&chars_of("no closing --- for frontmatter"))),
        ),
        Some(p) => {
            proof {
                crate::text::lemma_find_seq_found(a@, pat@, 0);
            }
            let fm = crate::text::slice_vec(&a, 0, p);
            let bs = p + 4;
            let body = if bs < a.len() {
                let rest = crate::text::slice_vec(&a, bs, a.len());
                if rest.len() > 0 && rest[0] == '\n' {
                    let t = crate::text::slice_vec(&rest, 1, rest.len());
                    assert(t@ =~= rest@.drop_first());
                    t
                } else {
                    rest
                }
            } else {
                Vec::new()
            };
            Ok((string_of(&fm), string_of(&body)))
        },
    }
}

// ── Writing ──────────────────────────────────────────────────────────

/// Characters that make a title need quotes, at any place or at the start.
pub open spec fn needs_quotes(s: Seq<char>) -> bool {
    ||| s.len() == 0
    ||| s.contains(':')
    ||| s.contains('#')
    ||| s.contains('\'')
    ||| s.contains('"')
    ||| s.contains('\n')
    ||| s[0] == ' '
    ||| s[0] == '{'
    ||| s[0] == '['
}

/// `\` doubled and `"` preceded by `\`.
pub open spec fn escape_quoted(s: Seq<char>) -> Seq<char>
    decreases s.len(),
{
    if s.len() == 0 {
        Seq::empty()
    } else {
        let c = s.last();
        escape_quoted(s.drop_last()) + (if c == '\\' {
            seq!['\\', '\\']
        } else if c == '"' {
            seq!['\\', '"']
        } else {
            seq![c]
        })
    }
}

/// A title as a YAML scalar: as it is, or double-quoted with `\` and `"`
/// escaped when YAML would read it otherwise.
pub open spec fn yaml_escape_spec(s: Seq<char>) -> Seq<char> {
    if needs_quotes(s) {
        seq!['"'] + escape_quoted(s) + seq!['"']
    } else {
        s
    }
}

/// A title as a YAML scalar.
pub fn yaml_escape_string(s: &str) -> (r: String)
    ensures
        r@ == yaml_escape_spec(s@),
{
    let v = chars_of(s);
    let mut quote = v.len() == 0 || v[0] == ' ' || v[0] == '{' || v[0] == '[';
    let mut out: Vec<char> = Vec::new();
    out.push('"');
    let mut i: usize = 0;
    while i < v.len()
        invariant
            i <= v.len(),
            v@ == s@,
            out@ == seq!['"'] + escape_quoted(v@.subrange(0, i as int)),
            quote == (v@.len() == 0 || v@[0] == ' ' || v@[0] == '{' || v@[0] == '[' || exists|j: int|
                0 <= j < i && (v@[j] == ':' || v@[j] == '#' || v@[j] == '\'' || v@[j] == '"'
                    || v@[j] == '\n')),
        decreases v.len() - i,
    {
        let c = v[i];
        assert(v@.subrange(0, i + 1).drop_last() =~= v@.subrange(0, i as int));
        if c == ':' || c == '#' || c == '\'' || c == '"' || c == '\n' {
            quote = true;
        }
        if c == '\\' {
            out.push('\\');
            out.push('\\');
        } else if c == '"' {
            out.push('\\');
            out.push('"');
        } else {
            out.push(c);
        }
        assert(out@ =~= seq!['"'] + escape_quoted(v@.subrange(0, i + 1)));
        i = i + 1;
    }
    assert(v@.subrange(0, v@.len() as int) =~= v@);
    if quote {
        out.push('"');
        string_of(&out)
    } else {
        assert(!s@.contains(':') && !s@.contains('#') && !s@.contains('\'') && !s@.contains('"')
            && !s@.contains('\n')) by {
            if s@.contains(':') {
                let j = choose|j: int| 0 <= j < s@.len() && s@[j] == ':';
                assert(v@[j] == ':');
            }
            if s@.contains('#') {
                let j = choose|j: int| 0 <= j < s@.len() && s@[j] == '#';
                assert(v@[j] == '#');
            }
            if s@.contains('\'') {
                let j = choose|j: int| 0 <= j < s@.len() && s@[j] == '\'';
                assert(v@[j] == '\'');
            }
            if s@.contains('"') {
                let j = choose|j: int| 0 <= j < s@.len() && s@[j] == '"';
                assert(v@[j] == '"');
            }
            if s@.contains('\n') {
                let j = choose|j: int| 0 <= j < s@.len() && s@[j] == '\n';
                assert(v@[j] == '\n');
            }
        }
        string_of(&v)
    }
}

/// How a value prints after `- ` in a YAML list, or after `key: `: a
/// string as it is, anything else as its JSON text.
pub open spec fn item_text(v: JsonValue) -> Seq<char> {
    match v {
        JsonValue::Null => "null"@,
        JsonValue::Bool(b) => if b {
            "true"@
        } else {
            "false"@
        },
        JsonValue::Number(t) => t@,
        JsonValue::String(s) => s@,
        JsonValue::Array(_, t) => t@,
        JsonValue::Object(_, t) => t@,
    }
}

pub open spec fn list_item(x: Seq<char>) -> Seq<char> {
    "  - "@ + x
}

/// An extra field as frontmatter lines: `key: value`, or a list of items
/// under `key:` for a non-empty array.
pub open spec fn format_field_spec(key: Seq<char>, v: JsonValue) -> Seq<char> {
    match v {
        JsonValue::Null => key + ": null"@,
        JsonValue::Array(items, _) => if items@.len() == 0 {
            key + ": []"@
        } else {
            join_with(
                seq![key + ":"@] + items@.map_values(|x: JsonValue| list_item(item_text(x))),
                "\n"@,
            )
        },
        _ => key + ": "@ + item_text(v),
    }
}

fn item_text_exec(v: &JsonValue) -> (r: Vec<char>)
    ensures
        r@ == item_text(*v),
{
    match v {
        JsonValue::Null => chars_of("null"),
        JsonValue::Bool(b) => if *b {
            chars_of("true")
        } else {
            chars_of("false")
        },
        JsonValue::Number(t) => chars_of(t.as_str()),
        JsonValue::String(s) => chars_of(s.as_str()),
        JsonValue::Array(_, t) => chars_of(t.as_str()),
        JsonValue::Object(_, t) => chars_of(t.as_str()),
    }
}

/// An extra field as frontmatter lines.
pub fn format_yaml_field(key: &str, value: &JsonValue) -> (r: String)
    ensures
        r@ == format_field_spec(key@, *value),
{
    proof {
        reveal_strlit("");
    }
    let k = chars_of(key);
    match value {
        JsonValue::Null => concat3("", &k, ": null"),
        JsonValue::Array(items, _) => {
            if items.len() == 0 {
                concat3("", &k, ": []")
            } else {
                let mut lines: Vec<String> = Vec::new();
                lines.push(concat3("", &k, ":"));
                let mut i: usize = 0;
                while i < items.len()
                    invariant
                        i <= items.len(),
                        k@ == key@,
                        texts(lines@) =~= seq![key@ + ":"@] + items@.subrange(0, i as int).map_values(
                            |x: JsonValue| list_item(item_text(x)),
                        ),
                    decreases items.len() - i,
                {
                    proof {
                        reveal_strlit("");
                    }
                    let t = item_text_exec(&items[i]);
                    let ghost before = lines@;
                    lines.push(concat3("  - ", &t, ""));
                    assert(texts(lines@) =~= texts(before).push(list_item(item_text(items@[i as int]))));
                    i = i + 1;
                }
                assert(items@.subrange(0, items@.len() as int) =~= items@);
                join_strings(&lines, "\n")
            }
        },
        _ => {
            let t = item_text_exec(value);
            let mut out = k;
            push_str(&mut out, ": ");
            push_chars(&mut out, &t);
            string_of(&out)
        },
    }
}

/// A list field: `name: []` when empty, else `name:` and one `  - item` line each.
pub open spec fn list_lines(name: Seq<char>, items: Seq<Seq<char>>) -> Seq<Seq<char>> {
    if items.len() == 0 {
        seq![name + ": []"@]
    } else {
        seq![name + ":"@] + items.map_values(|x: Seq<char>| list_item(x))
    }
}

/// `s.trim_start_matches('\n')`.
pub open spec fn strip_newlines(s: Seq<char>) -> Seq<char> {
    s.subrange(skip_two(s, '\n', '\n', 0), s.len() as int)
}

/// The lines of a fragment file.
pub open spec fn fragment_lines(f: Fragment) -> Seq<Seq<char>> {
    seq!["---"@, "id: "@ + f.id@, "type: "@ + f.fragment_type@, "title: "@ + yaml_escape_spec(
        f.title@,
    )] + list_lines("tags"@, texts(f.tags@)) + list_lines("links"@, texts(f.links@)) + (if f.attachments@.len()
        == 0 {
        Seq::empty()
    } else {
        list_lines("attachments"@, texts(f.attachments@))
    }) + f.extra_fields@.map_values(|e: (String, JsonValue)| format_field_spec(e.0@, e.1)) + seq![
        "created_at: "@ + rfc3339_secs(f.created_at.secs_spec(), f.created_at.nanos_spec()),
        "updated_at: "@ + rfc3339_secs(f.updated_at.secs_spec(), f.updated_at.nanos_spec()),
    ] + (match f.created_by {
        Some(b) => seq!["created_by: "@ + b@],
        None => Seq::empty(),
    }) + seq!["---"@] + (if f.body@.len() == 0 {
        seq![Seq::empty()]
    } else {
        seq![Seq::empty(), strip_newlines(f.body@)]
    })
}

/// A fragment as the text of its file.
pub open spec fn serialize_spec(f: Fragment) -> Seq<char> {
    join_with(fragment_lines(f), "\n"@)
}

/// Append `name: []` or `name:` and one line per item.
fn push_list(lines: &mut Vec<String>, name: &str, items: &Vec<String>)
    ensures
        texts(final(lines)@) =~= texts(old(lines)@) + list_lines(name@, texts(items@)),
{
    proof {
        reveal_strlit("");
    }
    let n = chars_of(name);
    if items.len() == 0 {
        lines.push(concat3("", &n, ": []"));
        return;
    }
    let ghost start = texts(lines@);
    lines.push(concat3("", &n, ":"));
    let mut i: usize = 0;
    while i < items.len()
        invariant
            i <= items.len(),
            n@ == name@,
            texts(lines@) =~= start + seq![name@ + ":"@] + texts(items@).subrange(0, i as int).map_values(
                |x: Seq<char>| list_item(x),
            ),
        decreases items.len() - i,
    {
        proof {
            reveal_strlit("");
        }
        let t = chars_of(items[i].as_str());
        let ghost before = lines@;
        lines.push(concat3("  - ", &t, ""));
        assert(texts(lines@) =~= texts(before).push(list_item(items@[i as int]@)));
        i = i + 1;
    }
    assert(texts(items@).subrange(0, items@.len() as int) =~= texts(items@));
}

/// The fragment as Markdown with a YAML frontmatter: the envelope fields,
/// the extra fields in name order, the timestamps to the second in UTC,
/// then the body after an empty line.
pub fn serialize_fragment(fragment: &Fragment) -> (r: String)
    ensures
        r@ == serialize_spec(*fragment),
{
    proof {
        reveal_strlit("");
    }
    let f = fragment;
    let mut lines: Vec<String> = Vec::new();
    lines.push(string_of(&chars_of("---")));
    let id = chars_of(f.id.as_str());
    lines.push(concat3("id: ", &id, ""));
    let ty = chars_of(f.fragment_type.as_str());
    lines.push(concat3("type: ", &ty, ""));
    let title = yaml_escape_string(f.title.as_str());
    let tv = chars_of(title.as_str());
    lines.push(concat3("title: ", &tv, ""));
    let ghost head = texts(lines@);
    assert(head =~= seq!["---"@, "id: "@ + f.id@, "type: "@ + f.fragment_type@, "title: "@
        + yaml_escape_spec(f.title@)]);
    push_list(&mut lines, "tags", &f.tags);
    push_list(&mut lines, "links", &f.links);
    let ghost s2 = texts(lines@);
    if f.attachments.len() > 0 {
        push_list(&mut lines, "attachments", &f.attachments);
    }
    let ghost s3 = texts(lines@);
    assert(s3 =~= s2 + (if f.attachments@.len() == 0 {
        Seq::empty()
    } else {
        list_lines("attachments"@, texts(f.attachments@))
    }));
    let mut i: usize = 0;
    while i < f.extra_fields.len()
        invariant
            i <= f.extra_fields.len(),
            texts(lines@) =~= s3 + f.extra_fields@.subrange(0, i as int).map_values(
                |e: (String, JsonValue)| format_field_spec(e.0@, e.1),
            ),
        decreases f.extra_fields.len() - i,
    {
        let line = format_yaml_field(f.extra_fields[i].0.as_str(), &f.extra_fields[i].1);
        let ghost before = lines@;
        lines.push(line);
        assert(texts(lines@) =~= texts(before).push(
            format_field_spec(f.extra_fields@[i as int].0@, f.extra_fields@[i as int].1),
        ));
        i = i + 1;
    }
    assert(f.extra_fields@.subrange(0, f.extra_fields@.len() as int) =~= f.extra_fields@);
    let c = f.created_at.to_rfc3339_secs();
    let cv = chars_of(c.as_str());
    lines.push(concat3("created_at: ", &cv, ""));
    let u = f.updated_at.to_rfc3339_secs();
    let uv = chars_of(u.as_str());
    lines.push(concat3("updated_at: ", &uv, ""));
    match &f.created_by {
        Some(by) => {
            let bv = chars_of(by.as_str());
            lines.push(concat3("created_by: ", &bv, ""));
        },
        None => {},
    }
    lines.push(string_of(&chars_of("---")));
    let b = chars_of(f.body.as_str());
    if b.len() == 0 {
        lines.push(string_of(&Vec::new()));
    } else {
        let k = skip_two_exec(&b, '\n', '\n', 0);
        let rest = crate::text::slice_vec(&b, k, b.len());
        lines.push(string_of(&Vec::new()));
        lines.push(string_of(&rest));
    }
    assert(texts(lines@) =~= fragment_lines(*f));
    join_strings(&lines, "\n")
}


// ── Reading ──────────────────────────────────────────────────────────

/// The frontmatter keys that are fragment fields of their own.
pub open spec fn is_envelope_key(k: Seq<char>) -> bool {
    ||| k == "id"@
    ||| k == "type"@
    ||| k == "title"@
    ||| k == "tags"@
    ||| k == "links"@
    ||| k == "attachments"@
    ||| k == "created_at"@
    ||| k == "updated_at"@
    ||| k == "created_by"@
}

fn is_envelope_key_exec(k: &str) -> (r: bool)
    ensures
        r == is_envelope_key(k@),
{
    let v = chars_of(k);
    crate::text::eq_str(&v, "id") || crate::text::eq_str(&v, "type") || crate::text::eq_str(&v, "title")
        || crate::text::eq_str(&v, "tags") || crate::text::eq_str(&v, "links") || crate::text::eq_str(
        &v,
        "attachments",
    ) || crate::text::eq_str(&v, "created_at") || crate::text::eq_str(&v, "updated_at")
        || crate::text::eq_str(&v, "created_by")
}

/// The text of field `k`, when it holds a string.
pub open spec fn str_field(m: Seq<(String, JsonValue)>, k: Seq<char>) -> Option<Seq<char>> {
    match lookup(m, k) {
        Some(v) => as_str_spec(v),
        None => None,
    }
}

/// The instant field `k` gives as RFC 3339 text, else `now`.
pub open spec fn time_field(m: Seq<(String, JsonValue)>, k: Seq<char>, now: Timestamp) -> (int, int) {
    match str_field(m, k) {
        Some(s) => match rfc3339_parsed(s) {
            Some(p) => p,
            None => (now.secs_spec(), now.nanos_spec()),
        },
        None => (now.secs_spec(), now.nanos_spec()),
    }
}

pub open spec fn opt_view(o: Option<String>) -> Option<Seq<char>> {
    match o {
        Some(s) => Some(s@),
        None => None,
    }
}

/// The fragment a frontmatter value and a body make, reading missing
/// timestamps as `now`; or the validation error.
pub open spec fn from_value_spec(v: JsonValue, body: Seq<char>, now: Timestamp, r: Result<Fragment, ParcError>) -> bool {
    match v {
        JsonValue::Object(entries, _) => {
            let m = entries@;
            match str_field(m, "id"@) {
                None => r matches Err(ParcError::ValidationError(x)) && x@ == "missing 'id' in frontmatter"@,
                Some(id) => match str_field(m, "type"@) {
                    None => r matches Err(ParcError::ValidationError(x)) && x@ == "missing 'type' in frontmatter"@,
                    Some(ty) => r matches Ok(f) && {
                        &&& f.id@ == id
                        &&& f.fragment_type@ == ty
                        &&& f.title@ == (match str_field(m, "title"@) {
                            Some(t) => t,
                            None => Seq::empty(),
                        })
                        &&& texts(f.tags@) == string_list(lookup(m, "tags"@))
                        &&& texts(f.links@) == string_list(lookup(m, "links"@))
                        &&& texts(f.attachments@) == string_list(lookup(m, "attachments"@))
                        &&& (f.created_at.secs_spec(), f.created_at.nanos_spec()) == time_field(m, "created_at"@, now)
                        &&& (f.updated_at.secs_spec(), f.updated_at.nanos_spec()) == time_field(m, "updated_at"@, now)
                        &&& opt_view(f.created_by) == str_field(m, "created_by"@)
                        &&& f.body@ == body
                        &&& fields_sorted(f.extra_fields@)
                        &&& forall|k: Seq<char>| #[trigger] lookup(f.extra_fields@, k) == (if is_envelope_key(k) {
                            None
                        } else {
                            lookup_last(m, k)
                        })
                    },
                },
            }
        },
        _ => r matches Err(ParcError::ValidationError(x)) && x@ == "frontmatter must be a YAML mapping"@,
    }
}

fn validation_error(msg: &str) -> (r: ParcError)
    ensures
        r matches ParcError::ValidationError(x) && x@ == msg@,
{
    ParcError::ValidationError(string_of(&chars_of(msg)))
}

/// The text of field `k`, when it holds a string.
pub(crate) fn get_str(m: &Vec<(String, JsonValue)>, k: &str) -> (r: Option<String>)
    ensures
        opt_view(r) == str_field(m@, k@),
{
    match field_get(m, k) {
        Some(v) => match v.as_str() {
            Some(s) => Some(s.clone()),
            None => None,
        },
        None => None,
    }
}

/// The strings of list field `k`.
pub(crate) fn get_list(m: &Vec<(String, JsonValue)>, k: &str) -> (r: Vec<String>)
    ensures
        texts(r@) == string_list(lookup(m@, k@)),
{
    match field_get(m, k) {
        Some(JsonValue::Array(items, _)) => strings_of(items),
        _ => {
            let r: Vec<String> = Vec::new();
            assert(texts(r@) =~= Seq::<Seq<char>>::empty());
            r
        },
    }
}

pub(crate) fn get_time(m: &Vec<(String, JsonValue)>, k: &str, now: Timestamp) -> (r: Timestamp)
    ensures
        (r.secs_spec(), r.nanos_spec()) == time_field(m@, k@, now),
{
    match get_str(m, k) {
        Some(s) => match Timestamp::parse_rfc3339(s.as_str()) {
            Some(t) => t,
            None => now,
        },
        None => now,
    }
}

/// The fields of a frontmatter mapping that are not envelope fields, as
/// a sorted map; where a name occurs twice the later entry wins.
fn extra_fields_of(entries: Vec<(String, JsonValue)>) -> (r: Vec<(String, JsonValue)>)
    ensures
        fields_sorted(r@),
        forall|k: Seq<char>| #[trigger] lookup(r@, k) == (if is_envelope_key(k) {
            None
        } else {
            lookup_last(entries@, k)
        }),
{
    let ghost m = entries@;
    let mut rest = entries;
    let mut extra: Vec<(String, JsonValue)> = Vec::new();
    assert(m.subrange(m.len() as int, m.len() as int) =~= Seq::<(String, JsonValue)>::empty());
    while rest.len() > 0
        invariant
            rest.len() <= m.len(),
            rest@ == m.subrange(0, rest.len() as int),
            fields_sorted(extra@),
            forall|k: Seq<char>| #[trigger] lookup(extra@, k) == (if is_envelope_key(k) {
                None
            } else {
                lookup_last(m.subrange(rest.len() as int, m.len() as int), k)
            }),
        decreases rest.len(),
    {
        let ghost n = rest.len();
        let ghost suffix = m.subrange(n as int, m.len() as int);
        let ghost ext = m.subrange(n - 1, m.len() as int);
        assert(ext.drop_first() =~= suffix);
        let (key, val) = match rest.pop() {
            Some(e) => e,
            None => {
                assert(false);
                return extra;
            },
        };
        assert(ext[0] == (key, val));
        assert(rest@ =~= m.subrange(0, rest.len() as int));
        let ghost key_v = key@;
        let ghost old_extra = extra@;
        if !is_envelope_key_exec(key.as_str()) && field_get(&extra, key.as_str()).is_none() {
            field_insert(&mut extra, key, val);
        }
        assert forall|k: Seq<char>| #[trigger] lookup(extra@, k) == (if is_envelope_key(k) {
            None
        } else {
            lookup_last(ext, k)
        }) by {
            assert(lookup(old_extra, k) == (if is_envelope_key(k) {
                None
            } else {
                lookup_last(suffix, k)
            }));
        }
    }
    assert(m.subrange(0, m.len() as int) =~= m);
    extra
}

/// The fragment a frontmatter value and a body make; a timestamp that is
/// missing or unreadable is `now`.
pub fn fragment_from_value(v: JsonValue, body: String, now: Timestamp) -> (r: Result<Fragment, ParcError>)
    ensures
        from_value_spec(v, body@, now, r),
{
    proof {
        reveal_strlit("id");
        reveal_strlit("type");
        reveal_strlit("");
    }
    let ghost v0 = v;
    let entries = match v {
        JsonValue::Object(entries, _) => entries,
        _ => {
            return Err(validation_error("frontmatter must be a YAML mapping"));
        },
    };
    let id = match get_str(&entries, "id") {
        Some(s) => s,
        None => {
            return Err(validation_error("missing 'id' in frontmatter"));
        },
    };
    let fragment_type = match get_str(&entries, "type") {
        Some(s) => s,
        None => {
            return Err(validation_error("missing 'type' in frontmatter"));
        },
    };
    let title = match get_str(&entries, "title") {
        Some(s) => s,
        None => string_of(&Vec::new()),
    };
    let tags = get_list(&entries, "tags");
    let links = get_list(&entries, "links");
    let attachments = get_list(&entries, "attachments");
    let created_at = get_time(&entries, "created_at", now);
    let updated_at = get_time(&entries, "updated_at", now);
    let created_by = get_str(&entries, "created_by");
    let extra_fields = extra_fields_of(entries);
    Ok(
        Fragment {
            id,
            fragment_type,
            title,
            tags,
            links,
            attachments,
            created_at,
            updated_at,
            created_by,
            extra_fields,
            body,
        },
    )
}

/// What reading a fragment file gives, with timestamps the file lacks
/// read as `now`.
pub open spec fn parse_spec(content: Seq<char>, now: Timestamp, r: Result<Fragment, ParcError>) -> bool {
    match split_spec(content) {
        Err(m) => r matches Err(ParcError::ValidationError(x)) && x@ == m,
        Ok((fm, body)) => match yaml_json(fm) {
            None => r matches Err(e) && (e is Yaml || e is Json),
            Some(v) => from_value_spec(v, body, now, r),
        },
    }
}

/// Parse a fragment from Markdown with YAML frontmatter, timestamps the
/// file lacks read as `now`.
pub fn parse_fragment_at(content: &str, now: Timestamp) -> (r: Result<Fragment, ParcError>)
    ensures
        parse_spec(content@, now, r),
{
    let (fm, body) = match split_frontmatter(content) {
        Ok(p) => p,
        Err(e) => {
            return Err(e);
        },
    };
    let v = match parse_yaml_value(fm.as_str()) {
        Ok(v) => v,
        Err(e) => {
            return Err(e);
        },
    };
    fragment_from_value(v, body, now)
}

/// Parse a fragment from Markdown with YAML frontmatter. Timestamps the
/// file lacks are read as the current time.
pub fn parse_fragment(content: &str) -> (r: Result<Fragment, ParcError>)
    ensures
        exists|now: Timestamp| parse_spec(content@, now, r),
{
    let now = Timestamp::now();
    let r = parse_fragment_at(content, now);
    assert(parse_spec(content@, now, r));
    r
}

// ── Validation ───────────────────────────────────────────────────────

/// What `format!("{:?}", values)` prints for a list of strings.
pub uninterp spec fn debug_strings(v: Seq<Seq<char>>) -> Seq<char>;

/// `format!("{:?}", values)`.
#[verifier::external_body]
fn debug_strings_exec(values: &Vec<String>) -> (r: String)
    ensures
        r@ == debug_strings(texts(values@)),
{
    format!("{:?}", values)
}

/// Why one schema field refuses the fragment's fields, if it does.
pub open spec fn field_error(d: FieldDef, m: Seq<(String, JsonValue)>) -> Option<Seq<char>> {
    let val = lookup(m, d.name@);
    if d.required && val.is_none() && d.default.is_none() {
        Some("required field '"@ + d.name@ + "' is missing"@)
    } else {
        match val {
            Some(v) => match (d.field_type, as_str_spec(v)) {
                (FieldType::Enum(values), Some(s)) => if !texts(values@).contains(s) {
                    Some(
                        "invalid value '"@ + s + "' for field '"@ + d.name@ + "': allowed values are "@
                            + debug_strings(texts(values@)),
                    )
                } else {
                    None
                },
                (FieldType::Date, Some(s)) => if !ymd_accepted(s) {
                    Some("invalid date '"@ + s + "' for field '"@ + d.name@ + "': expected YYYY-MM-DD"@)
                } else {
                    None
                },
                _ => None,
            },
            None => None,
        }
    }
}

/// The first refusal among the schema's fields, in order.
pub open spec fn validate_spec(defs: Seq<FieldDef>, m: Seq<(String, JsonValue)>) -> Option<Seq<char>>
    decreases defs.len(),
{
    if defs.len() == 0 {
        None
    } else {
        match field_error(defs[0], m) {
            Some(e) => Some(e),
            None => validate_spec(defs.drop_first(), m),
        }
    }
}

pub(crate) fn contains_string(values: &Vec<String>, s: &String) -> (r: bool)
    ensures
        r == texts(values@).contains(s@),
{
    let sv = chars_of(s.as_str());
    let mut i: usize = 0;
    while i < values.len()
        invariant
            i <= values.len(),
            sv@ == s@,
            forall|j: int| 0 <= j < i ==> values@[j]@ != s@,
        decreases values.len() - i,
    {
        let x = chars_of(values[i].as_str());
        if crate::text::eq_str_chars(&x, &sv) {
            assert(texts(values@)[i as int] == s@);
            return true;
        }
        i = i + 1;
    }
    assert forall|j: int| 0 <= j < texts(values@).len() implies texts(values@)[j] != s@ by {
        assert(values@[j]@ != s@);
    }
    false
}

fn check_field(d: &FieldDef, m: &Vec<(String, JsonValue)>) -> (r: Result<(), ParcError>)
    ensures
        match field_error(*d, m@) {
            None => r is Ok,
            Some(e) => r matches Err(ParcError::ValidationError(x)) && x@ == e,
        },
{
    let val = field_get(m, d.name.as_str());
    let name = chars_of(d.name.as_str());
    if d.required && val.is_none() && d.default.is_none() {
        return Err(ParcError::ValidationError(concat3("required field '", &name, "' is missing")));
    }
    match val {
        Some(v) => match (&d.field_type, v.as_str()) {
            (FieldType::Enum(values), Some(s)) => {
                if !contains_string(values, s) {
                    let sv = chars_of(s.as_str());
                    let mut out: Vec<char> = Vec::new();
                    push_str(&mut out, "invalid value '");
                    push_chars(&mut out, &sv);
                    push_str(&mut out, "' for field '");
                    push_chars(&mut out, &name);
                    push_str(&mut out, "': allowed values are ");
                    let d = debug_strings_exec(values);
                    let dv = chars_of(d.as_str());
                    push_chars(&mut out, &dv);
                    return Err(ParcError::ValidationError(string_of(&out)));
                }
                Ok(())
            },
            (FieldType::Date, Some(s)) => {
                if !is_ymd_date(s.as_str()) {
                    let sv = chars_of(s.as_str());
                    let mut out: Vec<char> = Vec::new();
                    push_str(&mut out, "invalid date '");
                    push_chars(&mut out, &sv);
                    push_str(&mut out, "' for field '");
                    push_chars(&mut out, &name);
                    push_str(&mut out, "': expected YYYY-MM-DD");
                    return Err(ParcError::ValidationError(string_of(&out)));
                }
                Ok(())
            },
            _ => Ok(()),
        },
        None => Ok(()),
    }
}

/// Validate a fragment against its schema: each required field without a
/// default is present, an enum field's text is one of its values, and a
/// date field's text is a `YYYY-MM-DD` date. The first failure is reported.
pub fn validate_fragment(fragment: &Fragment, schema: &Schema) -> (r: Result<(), ParcError>)
    ensures
        match validate_spec(schema.fields@, fragment.extra_fields@) {
            None => r is Ok,
            Some(e) => r matches Err(ParcError::ValidationError(x)) && x@ == e,
        },
{
    let ghost defs = schema.fields@;
    assert(defs.subrange(0, defs.len() as int) =~= defs);
    let mut i: usize = 0;
    while i < schema.fields.len()
        invariant
            i <= schema.fields.len(),
            defs == schema.fields@,
            validate_spec(defs, fragment.extra_fields@) == validate_spec(
                defs.subrange(i as int, defs.len() as int),
                fragment.extra_fields@,
            ),
        decreases schema.fields.len() - i,
    {
        let ghost sub = defs.subrange(i as int, defs.len() as int);
        assert(sub.drop_first() =~= defs.subrange(i + 1, defs.len() as int));
        assert(sub[0] == defs[i as int]);
        match check_field(&schema.fields[i], &fragment.extra_fields) {
            Ok(()) => {},
            Err(e) => {
                return Err(e);
            },
        }
        i = i + 1;
    }
    assert(defs.subrange(0, defs.len() as int) =~= defs);
    Ok(())
}

// ── Creating ─────────────────────────────────────────────────────────

/// A ULID character: Crockford's base-32 digits, upper case.
pub open spec fn is_ulid_char(c: char) -> bool {
    ('0' <= c <= '9') || ('A' <= c <= 'Z' && c != 'I' && c != 'L' && c != 'O' && c != 'U')
}

/// `ulid::Ulid::new().to_string()`: random, so only its shape is stated,
/// as ulid's source shows it: 26 characters of Crockford's upper-case
/// base-32 alphabet.
#[verifier::external_body]
pub fn new_id() -> (r: String)
    ensures
        r@.len() == 26,
        forall|i: int| 0 <= i < 26 ==> is_ulid_char(#[trigger] r@[i]),
{
    ulid::Ulid::new().to_string()
}

/// Consecutive duplicates collapsed to one (`Vec::dedup`).
pub open spec fn dedup_spec(s: Seq<Seq<char>>) -> Seq<Seq<char>>
    decreases s.len(),
{
    if s.len() == 0 {
        s
    } else {
        let r = dedup_spec(s.drop_last());
        if s.len() >= 2 && s[s.len() - 2] == s.last() {
            r
        } else {
            r.push(s.last())
        }
    }
}

fn dedup_strings(v: &Vec<String>) -> (r: Vec<String>)
    ensures
        texts(r@) == dedup_spec(texts(v@)),
{
    let mut out: Vec<String> = Vec::new();
    let mut i: usize = 0;
    while i < v.len()
        invariant
            i <= v.len(),
            texts(out@) == dedup_spec(texts(v@.subrange(0, i as int))),
        decreases v.len() - i,
    {
        let ghost pre = texts(v@.subrange(0, i + 1));
        assert(pre.drop_last() =~= texts(v@.subrange(0, i as int)));
        let dup = if i > 0 {
            let a = chars_of(v[i - 1].as_str());
            let b = chars_of(v[i].as_str());
            crate::text::eq_str_chars(&a, &b)
        } else {
            false
        };
        if !dup {
            let ghost before = out@;
            out.push(v[i].clone());
            assert(texts(out@) =~= texts(before).push(v@[i as int]@));
        }
        i = i + 1;
    }
    assert(v@.subrange(0, v@.len() as int) =~= v@);
    out
}

/// The defaults a schema gives its fields, as a sorted map.
pub open spec fn defaults_spec(defs: Seq<FieldDef>, m: Seq<(String, JsonValue)>) -> bool {
    &&& fields_sorted(m)
    &&& forall|k: Seq<char>| #[trigger] lookup(m, k) == default_of(defs, k)
}

/// The default of the last field named `k` that has one, as a JSON string.
pub open spec fn default_of(defs: Seq<FieldDef>, k: Seq<char>) -> Option<JsonValue>
    decreases defs.len(),
{
    if defs.len() == 0 {
        None
    } else {
        let d = defs.last();
        if d.name@ == k && d.default.is_some() {
            Some(JsonValue::String(d.default.unwrap()))
        } else {
            default_of(defs.drop_last(), k)
        }
    }
}

/// Create a new fragment with defaults from a schema: a fresh id, the
/// configuration's default tags (consecutive repeats dropped) and user,
/// each schema default as a field, no links or body, both timestamps now.
pub fn new_fragment(fragment_type: &str, title: &str, schema: &Schema, config: &Config) -> (r: Fragment)
    ensures
        r.id@.len() == 26,
        r.fragment_type@ == fragment_type@,
        r.title@ == title@,
        texts(r.tags@) == dedup_spec(texts(config.default_tags@)),
        r.links@.len() == 0,
        r.attachments@.len() == 0,
        r.created_at == r.updated_at,
        opt_view(r.created_by) == opt_view(config.user),
        defaults_spec(schema.fields@, r.extra_fields@),
        r.body@.len() == 0,
{
    let now = Timestamp::now();
    let mut extra: Vec<(String, JsonValue)> = Vec::new();
    let mut i: usize = 0;
    while i < schema.fields.len()
        invariant
            i <= schema.fields.len(),
            defaults_spec(schema.fields@.subrange(0, i as int), extra@),
        decreases schema.fields.len() - i,
    {
        let ghost pre = schema.fields@.subrange(0, i + 1);
        assert(pre.drop_last() =~= schema.fields@.subrange(0, i as int));
        let d = &schema.fields[i];
        match &d.default {
            Some(def) => {
                field_insert(&mut extra, d.name.clone(), JsonValue::String(def.clone()));
            },
            None => {},
        }
        i = i + 1;
    }
    assert(schema.fields@.subrange(0, schema.fields@.len() as int) =~= schema.fields@);
    let tags = dedup_strings(&config.default_tags);
    let user = match &config.user {
        Some(u) => Some(u.clone()),
        None => None,
    };
    let body = string_of(&Vec::new());
    Fragment {
        id: new_id(),
        fragment_type: string_of(&chars_of(fragment_type)),
        title: string_of(&chars_of(title)),
        tags,
        links: Vec::new(),
        attachments: Vec::new(),
        created_at: now,
        updated_at: now,
        created_by: user,
        extra_fields: extra,
        body,
    }
}

// ── Ids ──────────────────────────────────────────────────────────────

/// Resolve an ID prefix to a full ID among the vault's fragment ids: the
/// prefix is upper-cased, and exactly one id must start with it.
pub fn resolve_id(ids: &[String], prefix: &str) -> (r: Result<String, ParcError>)
    ensures
        ({
            let m = ids_with_prefix(texts(ids@), upper(prefix@));
            if m.len() == 0 {
                r matches Err(ParcError::FragmentNotFound(p)) && p@ == prefix@
            } else if m.len() == 1 {
                r matches Ok(id) && id@ == m[0]
            } else {
                r matches Err(ParcError::AmbiguousId(p, n)) && p@ == prefix@ && n == m.len()
            }
        }),
{
    let p = chars_of(prefix);
    let u = upper_chars(&p);
    let m = ids_starting_with(ids, &u);
    if m.len() == 0 {
        Err(ParcError::FragmentNotFound(string_of(&p)))
    } else if m.len() == 1 {
        Ok(m[0].clone())
    } else {
        Err(ParcError::AmbiguousId(string_of(&p), m.len()))
    }
}


// ── Promoting ────────────────────────────────────────────────────────

/// The default of the first field named `k` that has one, if no field of
/// that name was seen before it without one: what filling in missing
/// fields in schema order gives.
pub open spec fn first_default(defs: Seq<FieldDef>, k: Seq<char>) -> Option<JsonValue>
    decreases defs.len(),
{
    if defs.len() == 0 {
        None
    } else if defs[0].name@ == k && defs[0].default.is_some() {
        Some(JsonValue::String(defs[0].default.unwrap()))
    } else {
        first_default(defs.drop_first(), k)
    }
}

/// The fields of a fragment promoted to a schema: the overrides, then the
/// fields it had, then the schema's defaults for what is still missing.
pub open spec fn promoted_fields(
    old_fields: Seq<(String, JsonValue)>,
    overrides: Seq<(String, JsonValue)>,
    defs: Seq<FieldDef>,
    k: Seq<char>,
) -> Option<JsonValue> {
    match lookup_last(overrides, k) {
        Some(v) => Some(v),
        None => match lookup(old_fields, k) {
            Some(v) => Some(v),
            None => first_default(defs, k),
        },
    }
}

/// A sorted map whose fields are those of the promotion.
pub open spec fn promoted_map(
    old_fields: Seq<(String, JsonValue)>,
    overrides: Seq<(String, JsonValue)>,
    defs: Seq<FieldDef>,
    m: Seq<(String, JsonValue)>,
) -> bool {
    &&& fields_sorted(m)
    &&& forall|k: Seq<char>| #[trigger] lookup(m, k) == promoted_fields(old_fields, overrides, defs, k)
}

/// Rewrite a fragment as another schema's type while keeping its content:
/// the type becomes the schema's name, the overrides replace fields, the
/// schema's defaults fill the fields still missing, the result must pass
/// the schema, and it is marked updated at `now`.
pub fn promote_fragment_to(
    fragment: Fragment,
    schema: &Schema,
    overrides: Vec<(String, JsonValue)>,
    now: Timestamp,
) -> (r: Result<Fragment, ParcError>)
    requires
        fields_sorted(fragment.extra_fields@),
    ensures
        match r {
            Ok(f) => {
                &&& promoted_map(fragment.extra_fields@, overrides@, schema.fields@, f.extra_fields@)
                &&& validate_spec(schema.fields@, f.extra_fields@).is_none()
                &&& f.id == fragment.id
                &&& f.fragment_type@ == schema.name@
                &&& f.title == fragment.title
                &&& f.tags == fragment.tags
                &&& f.links == fragment.links
                &&& f.attachments == fragment.attachments
                &&& f.created_at == fragment.created_at
                &&& f.updated_at == now
                &&& f.created_by == fragment.created_by
                &&& f.body == fragment.body
            },
            Err(e) => exists|m: Seq<(String, JsonValue)>|
                #[trigger] promoted_map(fragment.extra_fields@, overrides@, schema.fields@, m)
                    && (validate_spec(schema.fields@, m) matches Some(msg) && (e matches ParcError::ValidationError(x)
                    && x@ == msg)),
        },
{
    let ghost old_fields = fragment.extra_fields@;
    let ghost ov = overrides@;
    let total = overrides.len();
    let Fragment {
        id,
        fragment_type: _,
        title,
        tags,
        links,
        attachments,
        created_at,
        updated_at: _,
        created_by,
        extra_fields,
        body,
    } = fragment;
    let mut fields = extra_fields;
    // Overrides, in order: a later one for the same name wins.
    let mut rest = overrides;
    let mut pending: Vec<(String, JsonValue)> = Vec::new();
    // Reverse them so that the first to insert is the first given.
    while rest.len() > 0
        invariant
            rest@.len() + pending@.len() == ov.len(),
            rest@ == ov.subrange(0, rest@.len() as int),
            forall|j: int| 0 <= j < pending@.len() ==> pending@[j] == ov[ov.len() - 1 - j],
        decreases rest.len(),
    {
        let e = rest.pop().unwrap();
        assert(rest@ =~= ov.subrange(0, rest@.len() as int));
        pending.push(e);
    }
    let ghost n = ov.len();
    let mut k: usize = 0;
    while pending.len() > 0
        invariant
            pending@.len() + k == n,
            n == total,
            n == ov.len(),
            forall|j: int| 0 <= j < pending@.len() ==> pending@[j] == ov[n - 1 - j],
            fields_sorted(fields@),
            forall|key: Seq<char>| #[trigger] lookup(fields@, key) == (match lookup_last(
                ov.subrange(0, k as int),
                key,
            ) {
                Some(v) => Some(v),
                None => lookup(old_fields, key),
            }),
        decreases pending.len(),
    {
        let (key, val) = pending.pop().unwrap();
        assert((key, val) == ov[k as int]);
        let ghost before = fields@;
        let ghost key_v = key@;
        field_insert(&mut fields, key, val);
        proof {
            assert forall|x: Seq<char>| #[trigger] lookup(fields@, x) == (match lookup_last(
                ov.subrange(0, k + 1),
                x,
            ) {
                Some(v) => Some(v),
                None => lookup(old_fields, x),
            }) by {
                lemma_lookup_last_push(ov.subrange(0, k as int), ov[k as int], x);
                assert(ov.subrange(0, k as int).push(ov[k as int]) =~= ov.subrange(0, k + 1));
            }
        }
        k = k + 1;
    }
    assert(ov.subrange(0, n as int) =~= ov);
    // Defaults for the fields still missing, in schema order.
    let mut i: usize = 0;
    while i < schema.fields.len()
        invariant
            i <= schema.fields.len(),
            fields_sorted(fields@),
            forall|key: Seq<char>| #[trigger] lookup(fields@, key) == (match lookup_last(ov, key) {
                Some(v) => Some(v),
                None => match lookup(old_fields, key) {
                    Some(v) => Some(v),
                    None => first_default(schema.fields@.subrange(0, i as int), key),
                },
            }),
        decreases schema.fields.len() - i,
    {
        let d = &schema.fields[i];
        let ghost before = fields@;
        proof {
            assert forall|key: Seq<char>| #[trigger] first_default(schema.fields@.subrange(0, i + 1), key)
                == (match first_default(schema.fields@.subrange(0, i as int), key) {
                Some(v) => Some(v),
                None => if schema.fields@[i as int].name@ == key && schema.fields@[i as int].default.is_some() {
                    Some(JsonValue::String(schema.fields@[i as int].default.unwrap()))
                } else {
                    None
                },
            }) by {
                lemma_first_default_push(schema.fields@.subrange(0, i as int), schema.fields@[i as int], key);
                assert(schema.fields@.subrange(0, i as int).push(schema.fields@[i as int])
                    =~= schema.fields@.subrange(0, i + 1));
            }
        }
        if field_get(&fields, d.name.as_str()).is_none() {
            match &d.default {
                Some(def) => {
                    field_insert(&mut fields, d.name.clone(), JsonValue::String(def.clone()));
                },
                None => {},
            }
        }
        i = i + 1;
    }
    assert(schema.fields@.subrange(0, schema.fields@.len() as int) =~= schema.fields@);
    let promoted = Fragment {
        id,
        fragment_type: schema.name.clone(),
        title,
        tags,
        links,
        attachments,
        created_at,
        updated_at: now,
        created_by,
        extra_fields: fields,
        body,
    };
    assert(promoted_map(old_fields, ov, schema.fields@, promoted.extra_fields@));
    match validate_fragment(&promoted, schema) {
        Ok(()) => Ok(promoted),
        Err(e) => Err(e),
    }
}

/// Looking for the last entry named `k` after one more entry.
pub proof fn lemma_lookup_last_push(m: Seq<(String, JsonValue)>, e: (String, JsonValue), k: Seq<char>)
    ensures
        lookup_last(m.push(e), k) == (if e.0@ == k {
            Some(e.1)
        } else {
            lookup_last(m, k)
        }),
    decreases m.len(),
{
    if m.len() == 0 {
        assert(m.push(e).drop_first() =~= Seq::<(String, JsonValue)>::empty());
        assert(m.push(e)[0] == e);
        assert(lookup_last(m.push(e).drop_first(), k).is_none());
        assert(lookup_last(m, k).is_none());
    } else {
        assert(m.push(e).drop_first() =~= m.drop_first().push(e));
        assert(m.push(e)[0] == m[0]);
        lemma_lookup_last_push(m.drop_first(), e, k);
    }
}

/// The first default after one more schema field.
pub proof fn lemma_first_default_push(defs: Seq<FieldDef>, d: FieldDef, k: Seq<char>)
    ensures
        first_default(defs.push(d), k) == (match first_default(defs, k) {
            Some(v) => Some(v),
            None => if d.name@ == k && d.default.is_some() {
                Some(JsonValue::String(d.default.unwrap()))
            } else {
                None
            },
        }),
    decreases defs.len(),
{
    if defs.len() == 0 {
        assert(defs.push(d).drop_first() =~= Seq::<FieldDef>::empty());
        assert(defs.push(d)[0] == d);
        assert(first_default(defs.push(d).drop_first(), k).is_none());
        assert(first_default(defs, k).is_none());
    } else {
        assert(defs.push(d).drop_first() =~= defs.drop_first().push(d));
        assert(defs.push(d)[0] == defs[0]);
        lemma_first_default_push(defs.drop_first(), d, k);
    }
}

// ── Laws ─────────────────────────────────────────────────────────────

/// The frontmatter lines of a fragment file, between its two `---` lines.
pub open spec fn header_lines(f: Fragment) -> Seq<Seq<char>> {
    seq!["id: "@ + f.id@, "type: "@ + f.fragment_type@, "title: "@ + yaml_escape_spec(f.title@)]
        + list_lines("tags"@, texts(f.tags@)) + list_lines("links"@, texts(f.links@)) + (if f.attachments@.len()
        == 0 {
        Seq::empty()
    } else {
        list_lines("attachments"@, texts(f.attachments@))
    }) + f.extra_fields@.map_values(|e: (String, JsonValue)| format_field_spec(e.0@, e.1)) + seq![
        "created_at: "@ + rfc3339_secs(f.created_at.secs_spec(), f.created_at.nanos_spec()),
        "updated_at: "@ + rfc3339_secs(f.updated_at.secs_spec(), f.updated_at.nanos_spec()),
    ] + (match f.created_by {
        Some(b) => seq!["created_by: "@ + b@],
        None => Seq::empty(),
    })
}

/// The frontmatter text written for a fragment.
pub open spec fn frontmatter_text(f: Fragment) -> Seq<char> {
    join_with(header_lines(f), "\n"@)
}

/// The body read back from a written fragment: empty, or a newline then
/// the body without its leading newlines.
pub open spec fn body_read_back(f: Fragment) -> Seq<char> {
    if f.body@.len() == 0 {
        Seq::empty()
    } else {
        seq!['\n'] + strip_newlines(f.body@)
    }
}

proof fn lemma_serialize_shape(f: Fragment)
    ensures
        serialize_spec(f) == seq!['-', '-', '-', '\n'] + frontmatter_text(f) + seq!['\n', '-', '-', '-', '\n']
            + body_read_back(f),
        frontmatter_text(f).len() > 0,
        frontmatter_text(f)[0] == 'i',
{
    reveal_strlit("---");
    reveal_strlit("\n");
    reveal_strlit("id: ");
    let nl = "\n"@;
    let dash = "---"@;
    let hl = header_lines(f);
    let h = frontmatter_text(f);
    let e = Seq::<char>::empty();
    let tl = if f.body@.len() == 0 {
        seq![e]
    } else {
        seq![e, strip_newlines(f.body@)]
    };
    assert(fragment_lines(f) =~= (seq![dash] + hl) + (seq![dash] + tl));
    lemma_join_append(seq![dash] + hl, seq![dash] + tl, nl);
    lemma_join_append(seq![dash], hl, nl);
    assert(join_with(seq![dash], nl) == dash);
    let b2 = body_read_back(f);
    assert(seq![dash, e].drop_last() =~= seq![dash]);
    assert(join_with(seq![dash, e], nl) == join_with(seq![dash], nl) + nl + e);
    if f.body@.len() == 0 {
        assert(seq![dash] + tl =~= seq![dash, e]);
        assert(join_with(seq![dash] + tl, nl) =~= dash + nl);
    } else {
        let sb = strip_newlines(f.body@);
        assert(seq![dash] + tl =~= seq![dash, e, sb]);
        assert(seq![dash, e, sb].drop_last() =~= seq![dash, e]);
        assert(join_with(seq![dash, e, sb], nl) == join_with(seq![dash, e], nl) + nl + sb);
        assert(join_with(seq![dash] + tl, nl) =~= dash + nl + b2);
    }
    assert(serialize_spec(f) =~= seq!['-', '-', '-', '\n'] + h + seq!['\n', '-', '-', '-', '\n'] + b2);
    lemma_join_prefix(hl, nl);
    assert(hl[0] == "id: "@ + f.id@);
    assert(hl[0][0] == 'i');
    assert(h.subrange(0, hl[0].len() as int)[0] == h[0]);
}

proof fn lemma_split_shape(h: Seq<char>, b2: Seq<char>)
    requires
        h.len() > 0,
        h[0] != '\r' && h[0] != '\n',
        forall|i: int| !occurs_at(h, "\n---"@, i),
    ensures
        split_spec(seq!['-', '-', '-', '\n'] + h + seq!['\n', '-', '-', '-', '\n'] + b2) == Ok::<
            (Seq<char>, Seq<char>),
            Seq<char>,
        >((h, b2)),
{
    reveal_strlit("---");
    reveal_strlit("\n---");
    let t = seq!['-', '-', '-', '\n'] + h + seq!['\n', '-', '-', '-', '\n'] + b2;
    let close = seq!['\n', '-', '-', '-', '\n'];
    assert(t[0] == '-');
    assert(skip_ws(t, 0) == 0);
    assert(trim_start(t) =~= t);
    assert(t.subrange(0, 3) =~= "---"@);
    let a0 = t.subrange(3, t.len() as int);
    assert(a0 =~= seq!['\n'] + h + close + b2);
    assert(a0[1] == h[0]);
    assert(skip_two(a0, '\r', '\n', 1) == 1);
    assert(skip_two(a0, '\r', '\n', 0) == 1);
    let a = a0.subrange(1, a0.len() as int);
    assert(a =~= h + close + b2);
    let pat = "\n---"@;
    assert(a.subrange(h.len() as int, h.len() + 4int) =~= pat);
    assert forall|i: int| 0 <= i < h.len() implies !occurs_at(a, pat, i) by {
        if i + 4 <= h.len() {
            assert(a.subrange(i, i + 4) =~= h.subrange(i, i + 4));
            assert(!occurs_at(h, pat, i));
        } else {
            let d = h.len() - i;
            assert(a.subrange(i, i + 4)[d] == a[h.len() as int]);
            assert(a[h.len() as int] == '\n');
            assert(pat[d] == '-');
        }
    }
    lemma_find_seq_first(a, pat, 0, h.len() as int);
    assert(a.subrange(0, h.len() as int) =~= h);
    let rest = a.subrange(h.len() + 4int, a.len() as int);
    assert(rest =~= seq!['\n'] + b2);
    assert(rest.drop_first() =~= b2);
}

/// What a written fragment reads back as, frontmatter and body apart: the
/// frontmatter text written, and the body (as `body_read_back` says), for
/// every fragment whose frontmatter text holds no line starting with `---`
/// (a value holding a newline followed by `---` would close it early).
/// Reading it is then reading the YAML of that frontmatter with that body.
pub proof fn serialized_fragment_splits_back(f: Fragment)
    requires
        forall|i: int| !occurs_at(frontmatter_text(f), "\n---"@, i),
    ensures
        split_spec(serialize_spec(f)) == Ok::<(Seq<char>, Seq<char>), Seq<char>>(
            (frontmatter_text(f), body_read_back(f)),
        ),
        forall|now: Timestamp, r: Result<Fragment, ParcError>|
            #[trigger] parse_spec(serialize_spec(f), now, r) == match yaml_json(frontmatter_text(f)) {
                None => r matches Err(e) && (e is Yaml || e is Json),
                Some(v) => from_value_spec(v, body_read_back(f), now, r),
            },
{
    lemma_serialize_shape(f);
    lemma_split_shape(frontmatter_text(f), body_read_back(f));
}


/// The text of the fragment's value for schema field `d`, when `d` is a
/// date field and that value is a string.
pub open spec fn date_text(d: FieldDef, m: Seq<(String, JsonValue)>) -> Option<Seq<char>> {
    match (d.field_type, lookup(m, d.name@)) {
        (FieldType::Date, Some(JsonValue::String(s))) => Some(s@),
        _ => None,
    }
}

proof fn lemma_validate_none(defs: Seq<FieldDef>, m: Seq<(String, JsonValue)>)
    requires
        validate_spec(defs, m).is_none(),
    ensures
        forall|i: int| 0 <= i < defs.len() ==> (#[trigger] field_error(defs[i], m)).is_none(),
    decreases defs.len(),
{
    if defs.len() > 0 {
        lemma_validate_none(defs.drop_first(), m);
        assert forall|i: int| 0 <= i < defs.len() implies (#[trigger] field_error(defs[i], m)).is_none() by {
            if i > 0 {
                assert(defs[i] == defs.drop_first()[i - 1]);
            }
        }
    }
}

/// A date field only takes a `YYYY-MM-DD` date: a schema date field whose
/// text is not one is refused with the message that names the text and
/// the field, so a fragment with such a field fails validation; a fragment
/// passes validation only when the text of every date field of its schema
/// is such a date.
pub proof fn date_fields_need_ymd(defs: Seq<FieldDef>, m: Seq<(String, JsonValue)>)
    ensures
        forall|d: FieldDef|
            (#[trigger] date_text(d, m)).is_some() && !ymd_accepted(date_text(d, m).unwrap())
                ==> field_error(d, m) == Some(
                "invalid date '"@ + date_text(d, m).unwrap() + "' for field '"@ + d.name@
                    + "': expected YYYY-MM-DD"@,
            ),
        forall|i: int|
            0 <= i < defs.len() && (#[trigger] date_text(defs[i], m)).is_some() && !ymd_accepted(
                date_text(defs[i], m).unwrap(),
            ) ==> validate_spec(defs, m).is_some(),
        validate_spec(defs, m).is_none() ==> forall|i: int|
            0 <= i < defs.len() && (#[trigger] date_text(defs[i], m)).is_some() ==> ymd_accepted(
                date_text(defs[i], m).unwrap(),
            ),
{
    assert forall|d: FieldDef|
        (#[trigger] date_text(d, m)).is_some() && !ymd_accepted(date_text(d, m).unwrap())
            implies field_error(d, m) == Some(
            "invalid date '"@ + date_text(d, m).unwrap() + "' for field '"@ + d.name@
                + "': expected YYYY-MM-DD"@,
        ) by {
        match lookup(m, d.name@) {
            Some(JsonValue::String(t)) => {
                assert(as_str_spec(JsonValue::String(t)) == Some(t@));
            },
            _ => {},
        }
    }
    if validate_spec(defs, m).is_none() {
        lemma_validate_none(defs, m);
        assert forall|i: int|
            0 <= i < defs.len() && (#[trigger] date_text(defs[i], m)).is_some() implies ymd_accepted(
                date_text(defs[i], m).unwrap(),
            ) by {
            if !ymd_accepted(date_text(defs[i], m).unwrap()) {
                assert(field_error(defs[i], m).is_some());
            }
        }
    }
}

/// What a schema field asks of the fragment's fields: present when it is
/// required and has no default; when its text is given, one of the
/// listed values for an enum field and a `YYYY-MM-DD` date for a date
/// field.
pub open spec fn field_meets(d: FieldDef, m: Seq<(String, JsonValue)>) -> bool {
    &&& (d.required && d.default.is_none() ==> lookup(m, d.name@).is_some())
    &&& match (d.field_type, lookup(m, d.name@)) {
        (FieldType::Enum(values), Some(JsonValue::String(s))) => texts(values@).contains(s@),
        (FieldType::Date, Some(JsonValue::String(s))) => ymd_accepted(s@),
        _ => true,
    }
}

proof fn lemma_field_error_none(d: FieldDef, m: Seq<(String, JsonValue)>)
    ensures
        field_error(d, m).is_none() <==> field_meets(d, m),
{
    match lookup(m, d.name@) {
        Some(JsonValue::String(t)) => {
            assert(as_str_spec(JsonValue::String(t)) == Some(t@));
        },
        _ => {},
    }
}

/// A fragment passes its schema exactly when every field of the schema
/// gets what it asks (see `field_meets`).
pub proof fn valid_fragments_meet_schema(defs: Seq<FieldDef>, m: Seq<(String, JsonValue)>)
    ensures
        validate_spec(defs, m).is_none() <==> forall|i: int|
            0 <= i < defs.len() ==> field_meets(#[trigger] defs[i], m),
    decreases defs.len(),
{
    if defs.len() > 0 {
        valid_fragments_meet_schema(defs.drop_first(), m);
        lemma_field_error_none(defs[0], m);
        if validate_spec(defs, m).is_none() {
            assert forall|i: int| 0 <= i < defs.len() implies field_meets(#[trigger] defs[i], m) by {
                if i > 0 {
                    assert(defs[i] == defs.drop_first()[i - 1]);
                }
            }
        }
        if forall|i: int| 0 <= i < defs.len() ==> field_meets(#[trigger] defs[i], m) {
            assert(field_meets(defs[0], m));
            assert forall|i: int| 0 <= i < defs.drop_first().len() implies field_meets(
                #[trigger] defs.drop_first()[i],
                m,
            ) by {
                assert(defs.drop_first()[i] == defs[i + 1]);
            }
        }
    }
}

/// Titles that YAML would read otherwise are double-quoted: one that is
/// empty, starts with a space, `{` or `[`, or holds a `:`, a comment
/// marker `#`, a quote or a newline comes out between `"` and `"`, with
/// the title's own text in between; any other title comes out as it is.
/// The title line of a fragment's frontmatter carries it so.
pub proof fn yaml_titles_quoted(s: Seq<char>, f: Fragment)
    ensures
        (s.len() == 0 || s.contains(':') || s.contains('#') || s.contains('\'') || s.contains('"')
            || s.contains('\n') || s[0] == ' ' || s[0] == '{' || s[0] == '[') ==> {
            let r = yaml_escape_spec(s);
            &&& r.len() >= s.len() + 2
            &&& r[0] == '"'
            &&& r.last() == '"'
            &&& read_double_quoted(r.drop_first()) == Some((s, (r.len() - 2) as nat))
        },
        !(s.len() == 0 || s.contains(':') || s.contains('#') || s.contains('\'') || s.contains('"')
            || s.contains('\n') || s[0] == ' ' || s[0] == '{' || s[0] == '[') ==> yaml_escape_spec(s)
            == s,
        header_lines(f)[2] == "title: "@ + yaml_escape_spec(f.title@),
{
    lemma_escape_quoted_len(s);
    lemma_read_escaped(s, Seq::empty());
    let e = escape_quoted(s);
    assert((seq!['"'] + e + seq!['"']).drop_first() =~= e + seq!['"'] + Seq::<char>::empty());
}

/// Reading a double-quoted YAML scalar after its opening quote: the text
/// up to the first quote not escaped by `\`, each `\` escape read as the
/// character it escapes, and the index of that closing quote; `None` when
/// no closing quote comes.
pub open spec fn read_double_quoted(t: Seq<char>) -> Option<(Seq<char>, nat)>
    decreases t.len(),
{
    if t.len() == 0 {
        None
    } else if t[0] == '"' {
        Some((Seq::empty(), 0))
    } else if t[0] == '\\' {
        if t.len() < 2 {
            None
        } else {
            match read_double_quoted(t.subrange(2, t.len() as int)) {
                Some((x, k)) => Some((seq![t[1]] + x, k + 2)),
                None => None,
            }
        }
    } else {
        match read_double_quoted(t.drop_first()) {
            Some((x, k)) => Some((seq![t[0]] + x, k + 1)),
            None => None,
        }
    }
}

spec fn escaped_char(c: char) -> Seq<char> {
    if c == '\\' {
        seq!['\\', '\\']
    } else if c == '"' {
        seq!['\\', '"']
    } else {
        seq![c]
    }
}

proof fn lemma_escape_quoted_front(c: char, r: Seq<char>)
    ensures
        escape_quoted(seq![c] + r) == escaped_char(c) + escape_quoted(r),
    decreases r.len(),
{
    let s = seq![c] + r;
    if r.len() == 0 {
        assert(s.drop_last() =~= Seq::<char>::empty());
        assert(s =~= seq![c]);
        assert(escape_quoted(Seq::<char>::empty()) =~= Seq::<char>::empty());
        assert(escape_quoted(s) =~= escaped_char(c));
        assert(r =~= Seq::<char>::empty());
        assert(escaped_char(c) + escape_quoted(r) =~= escaped_char(c));
    } else {
        assert(s.drop_last() =~= seq![c] + r.drop_last());
        assert(s.last() == r.last());
        lemma_escape_quoted_front(c, r.drop_last());
        assert(escape_quoted(s) =~= escaped_char(c) + escape_quoted(r));
    }
}

proof fn lemma_read_escaped(s: Seq<char>, rest: Seq<char>)
    ensures
        read_double_quoted(escape_quoted(s) + seq!['"'] + rest) == Some((s, escape_quoted(s).len())),
    decreases s.len(),
{
    let t = escape_quoted(s) + seq!['"'] + rest;
    if s.len() == 0 {
        assert(escape_quoted(s) =~= Seq::<char>::empty());
        assert(t[0] == '"');
    } else {
        let c = s[0];
        let tl = s.drop_first();
        assert(s =~= seq![c] + tl);
        lemma_escape_quoted_front(c, tl);
        lemma_read_escaped(tl, rest);
        let u = escape_quoted(tl) + seq!['"'] + rest;
        assert(t =~= escaped_char(c) + u);
        if c == '\\' || c == '"' {
            assert(t.subrange(2, t.len() as int) =~= u);
            assert(t[0] == '\\');
            assert(t[1] == c);
        } else {
            assert(t.drop_first() =~= u);
            assert(t[0] == c);
        }
    }
}

proof fn lemma_escape_quoted_len(s: Seq<char>)
    ensures
        escape_quoted(s).len() >= s.len(),
    decreases s.len(),
{
    if s.len() > 0 {
        lemma_escape_quoted_len(s.drop_last());
    }
}

} // verus!
