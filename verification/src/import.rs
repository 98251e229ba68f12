//! Importing fragments from a JSON array, as `export_json` writes one.

use vstd::prelude::*;

use crate::error::ParcError;
use crate::fields::{field_position, fields_sorted, lookup, lookup_last, map_from_entries};
use crate::fragment::{get_list, get_str, get_time, new_id, opt_view, str_field, time_field, Fragment};
use crate::json::{json_array, parse_json_array, string_list, JsonValue};
use crate::text::{chars_of, string_of, texts};
use crate::time::Timestamp;

verus! {

#[derive(Debug, Clone)]
pub enum ImportStatus {
    Created,
    Skipped(String),
    Error(String),
}

#[derive(Debug, Clone)]
pub struct ImportResult {
    pub id: String,
    pub title: String,
    pub status: ImportStatus,
}

/// One entry of an import, before anything is written: the fragment to
/// create, or the result that reports why there is none.
#[derive(Debug)]
pub enum PreparedImport {
    Fragment(Fragment),
    Refused(ImportResult),
}

/// The id an entry keeps: its own, unless it has none or the vault
/// already has it, in which case a fresh one.
pub open spec fn keeps_id(original: Seq<char>, existing: Seq<Seq<char>>) -> bool {
    original.len() > 0 && !existing.contains(original)
}

/// The map an object's entries make, the later of two equal names winning.
pub open spec fn map_of_entries(m: Seq<(String, JsonValue)>, r: Seq<(String, JsonValue)>) -> bool {
    &&& fields_sorted(r)
    &&& forall|k: Seq<char>| #[trigger] lookup(r, k) == lookup_last(m, k)
}

/// What one import entry prepares, with timestamps it lacks read as `now`.
pub open spec fn prepare_spec(
    entry: JsonValue,
    existing: Seq<Seq<char>>,
    now: Timestamp,
    r: PreparedImport,
) -> bool {
    match entry {
        JsonValue::Object(entries, _) => {
            let m = entries@;
            let title = match str_field(m, "title"@) {
                Some(t) => t,
                None => Seq::empty(),
            };
            match str_field(m, "type"@) {
                None => r matches PreparedImport::Refused(res) && res.id@.len() == 0 && res.title@
                    == title && (res.status matches ImportStatus::Error(e) && e@
                    == "missing 'type' field"@),
                Some(ty) => r matches PreparedImport::Fragment(f) && {
                    let original = match str_field(m, "id"@) {
                        Some(i) => i,
                        None => Seq::empty(),
                    };
                    &&& (if keeps_id(original, existing) {
                        f.id@ == original
                    } else {
                        f.id@.len() == 26
                    })
                    &&& f.fragment_type@ == ty
                    &&& f.title@ == title
                    &&& texts(f.tags@) == string_list(lookup(m, "tags"@))
                    &&& texts(f.links@) == string_list(lookup(m, "links"@))
                    &&& texts(f.attachments@) == string_list(lookup(m, "attachments"@))
                    &&& (f.created_at.secs_spec(), f.created_at.nanos_spec()) == time_field(
                        m,
                        "created_at"@,
                        now,
                    )
                    &&& (f.updated_at.secs_spec(), f.updated_at.nanos_spec()) == time_field(
                        m,
                        "updated_at"@,
                        now,
                    )
                    &&& opt_view(f.created_by) == str_field(m, "created_by"@)
                    &&& f.body@ == (match str_field(m, "body"@) {
                        Some(b) => b,
                        None => Seq::empty(),
                    })
                    &&& map_of_entries(
                        match lookup(m, "extra_fields"@) {
                            Some(JsonValue::Object(x, _)) => x@,
                            _ => Seq::empty(),
                        },
                        f.extra_fields@,
                    )
                },
            }
        },
        _ => r matches PreparedImport::Refused(res) && res.id@.len() == 0 && res.title@.len() == 0
            && (res.status matches ImportStatus::Error(e) && e@ == "entry is not an object"@),
    }
}

fn import_error(id: String, title: String, msg: &str) -> (r: PreparedImport)
    ensures
        r matches PreparedImport::Refused(res) && res.id == id && res.title == title
            && (res.status matches ImportStatus::Error(e) && e@ == msg@),
{
    PreparedImport::Refused(
        ImportResult { id, title, status: ImportStatus::Error(string_of(&chars_of(msg))) },
    )
}

fn contains_id(ids: &[String], id: &Vec<char>) -> (r: bool)
    ensures
        r == texts(ids@).contains(id@),
{
    let mut i: usize = 0;
    while i < ids.len()
        invariant
            i <= ids.len(),
            forall|j: int| 0 <= j < i ==> ids@[j]@ != id@,
        decreases ids.len() - i,
    {
        let x = chars_of(ids[i].as_str());
        if crate::text::eq_str_chars(&x, id) {
            assert(texts(ids@)[i as int] == id@);
            return true;
        }
        i = i + 1;
    }
    assert forall|j: int| 0 <= j < texts(ids@).len() implies texts(ids@)[j] != id@ by {
        assert(ids@[j]@ != id@);
    }
    false
}

/// Prepare one import entry: the fragment it describes, with the id it
/// keeps or a fresh one, or why it is refused. Timestamps it lacks or
/// that do not read are `now`.
pub fn prepare_import(entry: JsonValue, existing_ids: &[String], now: Timestamp) -> (r: PreparedImport)
    ensures
        prepare_spec(entry, texts(existing_ids@), now, r),
{
    proof {
        reveal_strlit("");
    }
    let mut entries = match entry {
        JsonValue::Object(entries, _) => entries,
        _ => {
            return import_error(string_of(&Vec::new()), string_of(&Vec::new()), "entry is not an object");
        },
    };
    let ghost m = entries@;
    let title = match get_str(&entries, "title") {
        Some(t) => t,
        None => string_of(&Vec::new()),
    };
    let fragment_type = match get_str(&entries, "type") {
        Some(t) => t,
        None => {
            return import_error(string_of(&Vec::new()), title, "missing 'type' field");
        },
    };
    let original = match get_str(&entries, "id") {
        Some(i) => chars_of(i.as_str()),
        None => Vec::new(),
    };
    let id = if original.len() > 0 && !contains_id(existing_ids, &original) {
        string_of(&original)
    } else {
        new_id()
    };
    let tags = get_list(&entries, "tags");
    let links = get_list(&entries, "links");
    let attachments = get_list(&entries, "attachments");
    let created_at = get_time(&entries, "created_at", now);
    let updated_at = get_time(&entries, "updated_at", now);
    let created_by = get_str(&entries, "created_by");
    let body = match get_str(&entries, "body") {
        Some(b) => b,
        None => string_of(&Vec::new()),
    };
    let extra_value = match field_position(&entries, "extra_fields") {
        Some(k) => Some(entries.remove(k).1),
        None => None,
    };
    assert(extra_value == lookup(m, "extra_fields"@));
    let extra_fields = match extra_value {
        Some(JsonValue::Object(x, _)) => map_from_entries(x),
        _ => {
            let e: Vec<(String, JsonValue)> = Vec::new();
            assert(map_of_entries(Seq::empty(), e@));
            e
        },
    };
    PreparedImport::Fragment(
        Fragment {
            id,
            fragment_type,
            title,
            tags,
            links,
            attachments,
            created_at,
            updated_at,
            created_by,
            extra_fields,
            body,
        },
    )
}

/// Each entry prepared, in order, on the same `now`.
pub open spec fn prepared_all(
    entries: Seq<JsonValue>,
    existing: Seq<Seq<char>>,
    now: Timestamp,
    v: Seq<PreparedImport>,
) -> bool {
    &&& v.len() == entries.len()
    &&& forall|i: int| 0 <= i < entries.len() ==> prepare_spec(entries[i], existing, now, #[trigger] v[i])
}

/// An import entry is refused exactly when it is not an object or has no
/// string `type`; otherwise it becomes a fragment of that type and title,
/// keeping its own id when it has one the vault does not already have,
/// else taking a fresh one.
pub proof fn import_entry_rule(entry: JsonValue, existing: Seq<Seq<char>>, now: Timestamp, r: PreparedImport)
    requires
        prepare_spec(entry, existing, now, r),
    ensures
        r is Refused <==> match entry {
            JsonValue::Object(e, _) => str_field(e@, "type"@) is None,
            _ => true,
        },
        match (entry, r) {
            (JsonValue::Object(e, _), PreparedImport::Fragment(f)) => {
                let original = match str_field(e@, "id"@) {
                    Some(i) => i,
                    None => Seq::empty(),
                };
                &&& Some(f.fragment_type@) == str_field(e@, "type"@)
                &&& (original.len() > 0 && !existing.contains(original) ==> f.id@ == original)
                &&& (original.len() == 0 || existing.contains(original) ==> f.id@.len() == 26)
            },
            _ => true,
        },
{
}

/// Read an import file (a JSON array) and prepare each entry, in order,
/// against the ids the vault already has. Nothing is written: the caller
/// creates each prepared fragment, unless it is a dry run.
pub fn prepare_import_json(json_str: &str, existing_ids: &[String]) -> (r: Result<
    Vec<PreparedImport>,
    ParcError,
>)
    ensures
        match json_array(json_str@) {
            None => r matches Err(ParcError::ParseError(_)),
            Some(entries) => r matches Ok(v) && exists|now: Timestamp|
                #[trigger] prepared_all(entries, texts(existing_ids@), now, v@),
        },
{
    let entries = match parse_json_array(json_str) {
        Ok(e) => e,
        Err(m) => {
            return Err(ParcError::ParseError(m));
        },
    };
    let now = Timestamp::now();
    let ghost all = entries@;
    let mut rest = entries;
    let mut out: Vec<PreparedImport> = Vec::new();
    while rest.len() > 0
        invariant
            out@.len() + rest@.len() == all.len(),
            rest@ == all.subrange(out@.len() as int, all.len() as int),
            forall|j: int|
                0 <= j < out@.len() ==> prepare_spec(
                    all[j],
                    texts(existing_ids@),
                    now,
                    #[trigger] out@[j],
                ),
        decreases rest.len(),
    {
        let e = rest.remove(0);
        assert(rest@ =~= all.subrange(out@.len() + 1int, all.len() as int));
        let p = prepare_import(e, existing_ids, now);
        out.push(p);
    }
    assert(out@.len() == all.len());
    assert(prepared_all(all, texts(existing_ids@), now, out@));
    assert(json_array(json_str@) == Some(all));
    let ghost out_v = out@;
    let r: Result<Vec<PreparedImport>, ParcError> = Ok(out);
    assert(r is Ok);
    assert(r->Ok_0@ == out_v);
    assert(prepared_all(all, texts(existing_ids@), now, out_v));
    assert(exists|t: Timestamp| #[trigger] prepared_all(all, texts(existing_ids@), t, out_v));
    r
}

/// The result an import reports for a prepared fragment, once the caller
/// has created it (`None`) or failed to (`Some(message)`); a dry run
/// creates nothing and reports it created.
pub fn import_result(fragment: &Fragment, write_error: Option<String>) -> (r: ImportResult)
    ensures
        r.id@ == fragment.id@,
        r.title@ == fragment.title@,
        match write_error {
            None => r.status is Created,
            Some(m) => r.status matches ImportStatus::Error(e) && e@ == m@,
        },
{
    ImportResult {
        id: fragment.id.clone(),
        title: fragment.title.clone(),
        status: match write_error {
            None => ImportStatus::Created,
            Some(m) => ImportStatus::Error(m),
        },
    }
}

} // verus!
