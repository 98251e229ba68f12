//! What the desktop app's commands compute: the records they hand the
//! window, the errors they answer with, and the edits they make to a
//! fragment before it is written.

use vstd::prelude::*;

use crate::attachment::AttachmentInfo;
use crate::config::Config;
use crate::doctor::{DoctorFinding, DoctorReport, SFinding};
use crate::edits::{
    build_fragment, created_fragment, due_of, edit_fragment, link_fragments, linked_both, rejected_by,
    resolved_schema, update_due, update_due_value, updated_fragment, CreateParams, CreateRefusal,
};
use crate::error::{error_message, ParcError};
use crate::fields::{field_insert, field_remove, fields_sorted, lookup, lookup_last, map_from_entries};
use crate::fragment::Fragment;
use crate::history::VersionEntry;
use crate::index::BacklinkInfo;
use crate::json::JsonValue;
use crate::schema::{FieldDef, FieldType, Schema, SchemaRegistry};
use crate::search::SearchResult;
use crate::text::{chars_of, decimal, push_decimal_u64, string_of};
use crate::time::{rfc3339_full, Timestamp};
use crate::vault::{path_join, path_join_spec, VaultInfo, VaultScope};

verus! {

// ── Errors ───────────────────────────────────────────────────────────

/// What a command answers when it fails: an error of the library, a file
/// or JSON failure (by its message), or a refusal of the command's own.
#[derive(Debug)]
pub enum GuiError {
    Core(ParcError),
    Io(String),
    Json(String),
    Other(String),
}

/// The message an error prints as.
pub open spec fn gui_error_message(e: GuiError) -> Seq<char> {
    match e {
        GuiError::Core(c) => error_message(c),
        GuiError::Io(m) => m@,
        GuiError::Json(m) => m@,
        GuiError::Other(m) => m@,
    }
}

impl GuiError {
    /// The message this error prints as: that of the error it carries.
    pub fn message(&self) -> (r: String)
        ensures
            r@ == gui_error_message(*self),
    {
        match self {
            GuiError::Core(c) => c.message(),
            GuiError::Io(m) => m.clone(),
            GuiError::Json(m) => m.clone(),
            GuiError::Other(m) => m.clone(),
        }
    }
}

impl From<ParcError> for GuiError {
    fn from(e: ParcError) -> (r: GuiError) {
        GuiError::Core(e)
    }
}

impl vstd::std_specs::convert::FromSpecImpl<ParcError> for GuiError {
    open spec fn obeys_from_spec() -> bool {
        true
    }

    open spec fn from_spec(v: ParcError) -> GuiError {
        GuiError::Core(v)
    }
}

// ── Records ──────────────────────────────────────────────────────────

/// A whole fragment, with its times written out in RFC 3339.
#[derive(Debug)]
pub struct FragmentDto {
    pub id: String,
    pub fragment_type: String,
    pub title: String,
    pub tags: Vec<String>,
    pub links: Vec<String>,
    pub attachments: Vec<String>,
    pub created_at: String,
    pub updated_at: String,
    pub created_by: Option<String>,
    pub extra_fields: Vec<(String, JsonValue)>,
    pub body: String,
}

/// A time as a record writes it.
pub open spec fn stamp_text(t: Timestamp) -> Seq<char> {
    rfc3339_full(t.secs_spec(), t.nanos_spec())
}

impl FragmentDto {
    /// The record of a fragment: its fields as they are, its times in
    /// RFC 3339.
    pub fn from_fragment(f: Fragment) -> (r: FragmentDto)
        ensures
            r.id == f.id,
            r.fragment_type == f.fragment_type,
            r.title == f.title,
            r.tags == f.tags,
            r.links == f.links,
            r.attachments == f.attachments,
            r.created_at@ == stamp_text(f.created_at),
            r.updated_at@ == stamp_text(f.updated_at),
            r.created_by == f.created_by,
            r.extra_fields == f.extra_fields,
            r.body == f.body,
    {
        let created_at = f.created_at.to_rfc3339();
        let updated_at = f.updated_at.to_rfc3339();
        FragmentDto {
            id: f.id,
            fragment_type: f.fragment_type,
            title: f.title,
            tags: f.tags,
            links: f.links,
            attachments: f.attachments,
            created_at,
            updated_at,
            created_by: f.created_by,
            extra_fields: f.extra_fields,
            body: f.body,
        }
    }
}

/// A fragment as a list shows it.
#[derive(Debug)]
pub struct FragmentSummaryDto {
    pub id: String,
    pub fragment_type: String,
    pub title: String,
    pub status: Option<String>,
    pub tags: Vec<String>,
    pub updated_at: String,
}

/// The list entry of a search hit: the hit without its snippet.
pub fn summary_dto(r: SearchResult) -> (d: FragmentSummaryDto)
    ensures
        d.id == r.id,
        d.fragment_type == r.fragment_type,
        d.title == r.title,
        d.status == r.status,
        d.tags == r.tags,
        d.updated_at == r.updated_at,
{
    FragmentSummaryDto {
        id: r.id,
        fragment_type: r.fragment_type,
        title: r.title,
        status: r.status,
        tags: r.tags,
        updated_at: r.updated_at,
    }
}

/// A search hit as the search pane shows it.
#[derive(Debug)]
pub struct SearchResultDto {
    pub id: String,
    pub fragment_type: String,
    pub title: String,
    pub status: Option<String>,
    pub tags: Vec<String>,
    pub updated_at: String,
    pub snippet: Option<String>,
}

/// The record of a search hit: every field of it.
pub fn search_result_dto(r: SearchResult) -> (d: SearchResultDto)
    ensures
        d.id == r.id,
        d.fragment_type == r.fragment_type,
        d.title == r.title,
        d.status == r.status,
        d.tags == r.tags,
        d.updated_at == r.updated_at,
        d.snippet == r.snippet,
{
    SearchResultDto {
        id: r.id,
        fragment_type: r.fragment_type,
        title: r.title,
        status: r.status,
        tags: r.tags,
        updated_at: r.updated_at,
        snippet: r.snippet,
    }
}

/// How many fragments carry a tag.
#[derive(Debug)]
pub struct TagCountDto {
    pub tag: String,
    pub count: usize,
}

/// A vault, as the vault switcher shows it.
#[derive(Debug)]
pub struct VaultInfoDto {
    pub path: String,
    pub scope: String,
    pub fragment_count: usize,
}

/// The record of a vault: its path, `local` or `global`, and how many
/// fragments it holds.
pub fn vault_info_dto(info: VaultInfo) -> (d: VaultInfoDto)
    ensures
        d.path == info.path,
        d.scope@ == (match info.scope {
            VaultScope::Local => "local"@,
            VaultScope::Global => "global"@,
        }),
        d.fragment_count == info.fragment_count,
{
    let scope = info.scope.name();
    VaultInfoDto { path: info.path, scope, fragment_count: info.fragment_count }
}

/// A saved version of a fragment.
#[derive(Debug)]
pub struct VersionEntryDto {
    pub timestamp: String,
    pub size: u64,
}

/// The record of a saved version: its time stamp and size.
pub fn version_dto(v: VersionEntry) -> (d: VersionEntryDto)
    ensures
        d.timestamp == v.timestamp,
        d.size == v.size,
{
    VersionEntryDto { timestamp: v.timestamp, size: v.size }
}

/// An attached file.
#[derive(Debug)]
pub struct AttachmentInfoDto {
    pub filename: String,
    pub size: u64,
    pub path: String,
}

/// The record of an attached file: its name, size and path.
pub fn attachment_dto(a: AttachmentInfo) -> (d: AttachmentInfoDto)
    ensures
        d.filename == a.filename,
        d.size == a.size,
        d.path == a.path,
{
    AttachmentInfoDto { filename: a.filename, size: a.size, path: a.path }
}

/// A fragment that links to the one shown.
#[derive(Debug)]
pub struct BacklinkDto {
    pub id: String,
    pub fragment_type: String,
    pub title: String,
}

/// The record of a backlink: the linking fragment's id, type and title.
pub fn backlink_dto(b: BacklinkInfo) -> (d: BacklinkDto)
    ensures
        d.id == b.source_id,
        d.fragment_type == b.source_type,
        d.title == b.source_title,
{
    BacklinkDto { id: b.source_id, fragment_type: b.source_type, title: b.source_title }
}

/// A diff between two versions, as text.
#[derive(Debug)]
pub struct DiffDto {
    pub diff: String,
}

// ── Schemas ──────────────────────────────────────────────────────────

/// A field of a schema, its type as a word.
#[derive(Debug)]
pub struct SchemaFieldDto {
    pub name: String,
    pub field_type: String,
    pub required: bool,
    pub default: Option<String>,
    pub values: Vec<String>,
}

/// A schema, as the type picker and the editor read it.
#[derive(Debug)]
pub struct SchemaDto {
    pub name: String,
    pub alias: Option<String>,
    pub editor_skip: bool,
    pub fields: Vec<SchemaFieldDto>,
}

/// The word a field type is written as.
pub open spec fn type_word(t: FieldType) -> Seq<char> {
    match t {
        FieldType::String => "string"@,
        FieldType::Date => "date"@,
        FieldType::Enum(_) => "enum"@,
        FieldType::ListOfStrings => "list"@,
    }
}

/// The record of a field: its name, type word, whether it is required,
/// its default, and the values of an enumeration (none for another type).
pub open spec fn field_record(d: FieldDef, r: SchemaFieldDto) -> bool {
    &&& r.name == d.name
    &&& r.field_type@ == type_word(d.field_type)
    &&& r.required == d.required
    &&& r.default == d.default
    &&& r.values@ == (match d.field_type {
        FieldType::Enum(v) => v@,
        _ => Seq::empty(),
    })
}

fn copy_strings(v: &Vec<String>) -> (r: Vec<String>)
    ensures
        r@ == v@,
{
    let mut out: Vec<String> = Vec::new();
    let mut i: usize = 0;
    while i < v.len()
        invariant
            i <= v.len(),
            out@ == v@.subrange(0, i as int),
        decreases v.len() - i,
    {
        out.push(v[i].clone());
        i = i + 1;
    }
    assert(v@.subrange(0, v.len() as int) =~= v@);
    out
}

fn copy_opt(v: &Option<String>) -> (r: Option<String>)
    ensures
        r == *v,
{
    match v {
        Some(s) => Some(s.clone()),
        None => None,
    }
}

fn field_dto(d: &FieldDef) -> (r: SchemaFieldDto)
    ensures
        field_record(*d, r),
{
    let (word, values): (&str, Vec<String>) = match &d.field_type {
        FieldType::String => ("string", Vec::new()),
        FieldType::Date => ("date", Vec::new()),
        FieldType::Enum(vals) => ("enum", copy_strings(vals)),
        FieldType::ListOfStrings => ("list", Vec::new()),
    };
    proof {
        reveal_strlit("string");
        reveal_strlit("date");
        reveal_strlit("enum");
        reveal_strlit("list");
    }
    SchemaFieldDto {
        name: d.name.clone(),
        field_type: string_of(&chars_of(word)),
        required: d.required,
        default: copy_opt(&d.default),
        values,
    }
}

/// The record of a schema: its name, alias and editor setting, and the
/// record of each of its fields, in order.
pub fn schema_to_dto(s: &Schema) -> (r: SchemaDto)
    ensures
        r.name == s.name,
        r.alias == s.alias,
        r.editor_skip == s.editor_skip,
        r.fields@.len() == s.fields@.len(),
        forall|i: int| 0 <= i < s.fields@.len() ==> field_record(s.fields@[i], #[trigger] r.fields@[i]),
{
    let mut fields: Vec<SchemaFieldDto> = Vec::new();
    let mut i: usize = 0;
    while i < s.fields.len()
        invariant
            i <= s.fields.len(),
            fields@.len() == i,
            forall|j: int| 0 <= j < i ==> field_record(s.fields@[j], #[trigger] fields@[j]),
        decreases s.fields.len() - i,
    {
        let f = field_dto(&s.fields[i]);
        fields.push(f);
        i = i + 1;
    }
    SchemaDto { name: s.name.clone(), alias: copy_opt(&s.alias), editor_skip: s.editor_skip, fields }
}

// ── Doctor ───────────────────────────────────────────────────────────

/// A finding: its kind and its details by name.
#[derive(Debug)]
pub struct DoctorFindingDto {
    pub finding_type: String,
    pub details: Vec<(String, JsonValue)>,
}

/// A doctor run: how many fragments it read, whether nothing was found,
/// and what was.
#[derive(Debug)]
pub struct DoctorReportDto {
    pub fragments_checked: usize,
    pub healthy: bool,
    pub findings: Vec<DoctorFindingDto>,
}

/// The word for a kind of finding.
pub open spec fn finding_kind(f: SFinding) -> Seq<char> {
    match f {
        SFinding::BrokenLink { .. } => "broken_link"@,
        SFinding::OrphanFragment { .. } => "orphan"@,
        SFinding::SchemaViolation { .. } => "schema_violation"@,
        SFinding::AttachmentMismatch { .. } => "attachment_mismatch"@,
        SFinding::VaultSizeWarning { .. } => "vault_size_warning"@,
        SFinding::PluginIssue { .. } => "plugin_issue"@,
    }
}

/// The details of a finding, by name in rising order, each with its text;
/// the size of a vault is a number, every other detail a string.
pub open spec fn finding_details(f: SFinding) -> Seq<(Seq<char>, Seq<char>)> {
    match f {
        SFinding::BrokenLink { source_id, source_title, target_ref } => seq![
            ("source_id"@, source_id),
            ("source_title"@, source_title),
            ("target_ref"@, target_ref),
        ],
        SFinding::OrphanFragment { id, title } => seq![("id"@, id), ("title"@, title)],
        SFinding::SchemaViolation { id, title, message } => seq![
            ("id"@, id),
            ("message"@, message),
            ("title"@, title),
        ],
        SFinding::AttachmentMismatch { fragment_id, detail } => seq![
            ("detail"@, detail),
            ("fragment_id"@, fragment_id),
        ],
        SFinding::VaultSizeWarning { total_bytes } => seq![("total_bytes"@, decimal(total_bytes as nat))],
        SFinding::PluginIssue { plugin_name, detail } => seq![("detail"@, detail), ("plugin_name"@, plugin_name)],
    }
}

/// A detail's value: the number for the size of a vault, else the string.
pub open spec fn detail_value(f: SFinding, v: JsonValue, text: Seq<char>) -> bool {
    if f is VaultSizeWarning {
        v matches JsonValue::Number(n) && n@ == text
    } else {
        v matches JsonValue::String(s) && s@ == text
    }
}

/// The record of a finding.
pub open spec fn finding_record(f: SFinding, d: DoctorFindingDto) -> bool {
    &&& d.finding_type@ == finding_kind(f)
    &&& d.details@.len() == finding_details(f).len()
    &&& forall|i: int|
        0 <= i < d.details@.len() ==> (#[trigger] d.details@[i]).0@ == finding_details(f)[i].0 && detail_value(
            f,
            d.details@[i].1,
            finding_details(f)[i].1,
        )
}

fn text_detail(name: &str, value: &String) -> (r: (String, JsonValue))
    ensures
        r.0@ == name@,
        r.1 matches JsonValue::String(s) && s@ == value@,
{
    (string_of(&chars_of(name)), JsonValue::String(value.clone()))
}

/// The record of one finding: its kind and its details.
pub fn finding_dto(f: &DoctorFinding) -> (d: DoctorFindingDto)
    ensures
        finding_record(f@, d),
{
    proof {
        reveal_strlit("broken_link");
        reveal_strlit("orphan");
        reveal_strlit("schema_violation");
        reveal_strlit("attachment_mismatch");
        reveal_strlit("vault_size_warning");
        reveal_strlit("plugin_issue");
    }
    let (kind, details): (&str, Vec<(String, JsonValue)>) = match f {
        DoctorFinding::BrokenLink { source_id, source_title, target_ref } => (
            "broken_link",
            vec![
                text_detail("source_id", source_id),
                text_detail("source_title", source_title),
                text_detail("target_ref", target_ref),
            ],
        ),
        DoctorFinding::OrphanFragment { id, title } => (
            "orphan",
            vec![text_detail("id", id), text_detail("title", title)],
        ),
        DoctorFinding::SchemaViolation { id, title, message } => (
            "schema_violation",
            vec![text_detail("id", id), text_detail("message", message), text_detail("title", title)],
        ),
        DoctorFinding::AttachmentMismatch { fragment_id, detail } => (
            "attachment_mismatch",
            vec![text_detail("detail", detail), text_detail("fragment_id", fragment_id)],
        ),
        DoctorFinding::VaultSizeWarning { total_bytes } => {
            let mut digits: Vec<char> = Vec::new();
            push_decimal_u64(&mut digits, *total_bytes);
            assert(digits@ =~= decimal(*total_bytes as nat));
            ("vault_size_warning", vec![(string_of(&chars_of("total_bytes")), JsonValue::Number(string_of(&digits)))])
        },
        DoctorFinding::PluginIssue { plugin_name, detail } => (
            "plugin_issue",
            vec![text_detail("detail", detail), text_detail("plugin_name", plugin_name)],
        ),
    };
    DoctorFindingDto { finding_type: string_of(&chars_of(kind)), details }
}

/// The record of a doctor run: the count of fragments read, whether it
/// found nothing, and the record of each finding, in order.
pub fn doctor_report_dto(r: &DoctorReport) -> (d: DoctorReportDto)
    ensures
        d.fragments_checked == r.fragments_checked,
        d.healthy == (r.findings@.len() == 0),
        d.findings@.len() == r.findings@.len(),
        forall|i: int| 0 <= i < r.findings@.len() ==> finding_record(r.findings@[i]@, #[trigger] d.findings@[i]),
{
    let mut findings: Vec<DoctorFindingDto> = Vec::new();
    let mut i: usize = 0;
    while i < r.findings.len()
        invariant
            i <= r.findings.len(),
            findings@.len() == i,
            forall|j: int| 0 <= j < i ==> finding_record(r.findings@[j]@, #[trigger] findings@[j]),
        decreases r.findings.len() - i,
    {
        let f = finding_dto(&r.findings[i]);
        findings.push(f);
        i = i + 1;
    }
    DoctorReportDto { fragments_checked: r.fragments_checked, healthy: r.is_healthy(), findings }
}

// ── Edits ────────────────────────────────────────────────────────────

/// The fragment the create command makes, as `build_fragment` makes it.
/// An unknown type is refused as `unknown type: <type>`, an unreadable
/// `due` with the date's message; a fragment its schema rejects is
/// refused with the validation error.
pub fn prepare_fragment(p: CreateParams, schemas: &SchemaRegistry, config: &Config, today: i32) -> (r: Result<
    Fragment,
    GuiError,
>)
    ensures
        match resolved_schema(schemas.schemas@, p.fragment_type@) {
            None => r matches Err(GuiError::Other(m)) && m@ == "unknown type: "@ + p.fragment_type@,
            Some(schema) => match due_of(p, today) {
                Some(Err(m)) => r matches Err(GuiError::Other(x)) && x@ == m,
                _ => match r {
                    Ok(f) => created_fragment(p, schema, *config, today, f),
                    Err(GuiError::Core(e)) => rejected_by(p, schema, today, e),
                    Err(_) => false,
                },
            },
        },
{
    let t = chars_of(p.fragment_type.as_str());
    match build_fragment(p, schemas, config, today) {
        Ok(f) => Ok(f),
        Err(CreateRefusal::UnknownType) => {
            proof {
                reveal_strlit("");
            }
            let m = crate::text::concat3("unknown type: ", &t, "");
            assert(m@ =~= "unknown type: "@ + t@);
            Err(GuiError::Other(m))
        },
        Err(CreateRefusal::BadDue(e)) => Err(GuiError::Other(e.message())),
        Err(CreateRefusal::Rejected(e)) => Err(GuiError::Core(e)),
    }
}

/// The parameters of the update command: each field given replaces the
/// fragment's, and the extra fields given are set over the others.
#[derive(Debug)]
pub struct UpdateParams {
    pub id: String,
    pub title: Option<String>,
    pub tags: Option<Vec<String>>,
    pub body: Option<String>,
    pub links: Option<Vec<String>>,
    pub due: Option<String>,
    pub priority: Option<String>,
    pub status: Option<String>,
    pub assignee: Option<String>,
    pub extra_fields: Option<Vec<(String, JsonValue)>>,
}

/// The parameters an update shares with the server's.
pub open spec fn shared_params(p: UpdateParams) -> crate::edits::UpdateParams {
    crate::edits::UpdateParams {
        id: p.id,
        title: p.title,
        tags: p.tags,
        body: p.body,
        links: p.links,
        due: p.due,
        priority: p.priority,
        status: p.status,
        assignee: p.assignee,
    }
}

/// Fields `r`: those of `base`, with the extra fields given set over
/// them (of two equal names, the later wins).
pub open spec fn overlaid(
    base: Seq<(String, JsonValue)>,
    extras: Option<Vec<(String, JsonValue)>>,
    r: Seq<(String, JsonValue)>,
) -> bool {
    &&& fields_sorted(r)
    &&& forall|k: Seq<char>|
        #[trigger] lookup(r, k) == match extras {
            Some(x) => match lookup_last(x@, k) {
                Some(v) => Some(v),
                None => lookup(base, k),
            },
            None => lookup(base, k),
        }
}

/// Fragment `f` is `g` with the extra fields given set over its own.
pub open spec fn with_extras(g: Fragment, extras: Option<Vec<(String, JsonValue)>>, f: Fragment) -> bool {
    &&& f.id == g.id
    &&& f.fragment_type == g.fragment_type
    &&& f.title == g.title
    &&& f.tags == g.tags
    &&& f.body == g.body
    &&& f.links == g.links
    &&& f.attachments == g.attachments
    &&& f.created_at == g.created_at
    &&& f.created_by == g.created_by
    &&& f.updated_at == g.updated_at
    &&& overlaid(g.extra_fields@, extras, f.extra_fields@)
}

/// Set each entry over `m`, the later of two equal names winning.
fn set_all(m: &mut Vec<(String, JsonValue)>, extras: Vec<(String, JsonValue)>)
    requires
        fields_sorted(old(m)@),
    ensures
        overlaid(old(m)@, Some(extras), final(m)@),
{
    let ghost x = extras@;
    let ghost m0 = m@;
    let mut rest = map_from_entries(extras);
    let ghost all = rest@;
    assert(all.subrange(all.len() as int, all.len() as int) =~= Seq::<(String, JsonValue)>::empty());
    while rest.len() > 0
        invariant
            rest.len() <= all.len(),
            rest@ == all.subrange(0, rest.len() as int),
            fields_sorted(m@),
            forall|k: Seq<char>|
                #[trigger] lookup(m@, k) == match lookup(all.subrange(rest.len() as int, all.len() as int), k) {
                    Some(v) => Some(v),
                    None => lookup(m0, k),
                },
        decreases rest.len(),
    {
        let ghost n = rest.len();
        let ghost suffix = all.subrange(n as int, all.len() as int);
        let ghost ext = all.subrange(n - 1, all.len() as int);
        assert(ext.drop_first() =~= suffix);
        let (key, val) = match rest.pop() {
            Some(e) => e,
            None => {
                assert(false);
                return;
            },
        };
        assert(ext[0] == (key, val));
        assert(rest@ =~= all.subrange(0, rest.len() as int));
        let ghost before = m@;
        field_insert(m, key, val);
        assert forall|k: Seq<char>|
            #[trigger] lookup(m@, k) == match lookup(ext, k) {
                Some(v) => Some(v),
                None => lookup(m0, k),
            } by {
            assert(lookup(before, k) == match lookup(suffix, k) {
                Some(v) => Some(v),
                None => lookup(m0, k),
            });
        }
    }
    assert(all.subrange(0, all.len() as int) =~= all);
}

/// The fragment the update command makes: the server's update
/// (`edit_fragment`), then the extra fields given set over the
/// fragment's. An unreadable `due` is refused with the date's message.
pub fn apply_changes(fragment: Fragment, p: UpdateParams, today: i32, now: Timestamp) -> (r: Result<
    Fragment,
    GuiError,
>)
    requires
        fields_sorted(fragment.extra_fields@),
    ensures
        match update_due(shared_params(p), today) {
            Some(Err(m)) => r matches Err(GuiError::Other(x)) && x@ == m,
            _ => r matches Ok(f) && exists|g: Fragment|
                #[trigger] updated_fragment(
                    fragment,
                    shared_params(p),
                    update_due_value(shared_params(p), today),
                    now,
                    g,
                ) && with_extras(g, p.extra_fields, f),
        },
{
    let ghost p0 = p;
    let shared = crate::edits::UpdateParams {
        id: p.id,
        title: p.title,
        tags: p.tags,
        body: p.body,
        links: p.links,
        due: p.due,
        priority: p.priority,
        status: p.status,
        assignee: p.assignee,
    };
    assert(shared == shared_params(p0));
    let g = match edit_fragment(fragment, shared, today, now) {
        Ok(g) => g,
        Err(e) => {
            return Err(GuiError::Other(e.message()));
        },
    };
    let ghost g0 = g;
    let mut f = g;
    match p.extra_fields {
        Some(extras) => {
            let mut m = f.extra_fields;
            f.extra_fields = Vec::new();
            set_all(&mut m, extras);
            f.extra_fields = m;
        },
        None => {},
    }
    assert(with_extras(g0, p0.extra_fields, f));
    Ok(f)
}

/// The fields of a fragment archived (`archived` set to `true`) or, with
/// `undo`, taken out of the archive (no `archived` field); every other
/// field as it was.
pub open spec fn archive_fields(
    before: Seq<(String, JsonValue)>,
    undo: bool,
    after: Seq<(String, JsonValue)>,
) -> bool {
    &&& fields_sorted(after)
    &&& lookup(after, "archived"@) == if undo {
        None
    } else {
        Some(JsonValue::Bool(true))
    }
    &&& forall|k: Seq<char>| k != "archived"@ ==> #[trigger] lookup(after, k) == lookup(before, k)
}

/// Archive a fragment (field `archived` set to `true`), or with `undo`
/// take the field away; either way the update time is `now`, and nothing
/// else changes.
pub fn toggle_archived(f: &mut Fragment, undo: bool, now: Timestamp)
    requires
        fields_sorted(old(f).extra_fields@),
    ensures
        archive_fields(old(f).extra_fields@, undo, final(f).extra_fields@),
        final(f).updated_at == now,
        final(f).id == old(f).id,
        final(f).fragment_type == old(f).fragment_type,
        final(f).title == old(f).title,
        final(f).tags == old(f).tags,
        final(f).links == old(f).links,
        final(f).attachments == old(f).attachments,
        final(f).created_at == old(f).created_at,
        final(f).created_by == old(f).created_by,
        final(f).body == old(f).body,
{
    if undo {
        field_remove(&mut f.extra_fields, "archived");
    } else {
        field_insert(&mut f.extra_fields, string_of(&chars_of("archived")), JsonValue::Bool(true));
    }
    f.updated_at = now;
}

/// Archiving a fragment that was not archived and then undoing it gives
/// its fields back: every field reads as it did before.
pub proof fn archive_then_undo_restores(
    m0: Seq<(String, JsonValue)>,
    m1: Seq<(String, JsonValue)>,
    m2: Seq<(String, JsonValue)>,
)
    requires
        lookup(m0, "archived"@).is_none(),
        archive_fields(m0, false, m1),
        archive_fields(m1, true, m2),
    ensures
        forall|k: Seq<char>| #[trigger] lookup(m2, k) == lookup(m0, k),
{
    assert forall|k: Seq<char>| #[trigger] lookup(m2, k) == lookup(m0, k) by {
        if k != "archived"@ {
            assert(lookup(m2, k) == lookup(m1, k));
        }
    }
}

/// Link two fragments both ways, as the server does; a fragment is not
/// linked to itself (`cannot link a fragment to itself`).
pub fn link_pair(a: &mut Fragment, b: &mut Fragment, now: Timestamp) -> (r: Result<(bool, bool), GuiError>)
    ensures
        old(a).id@ == old(b).id@ ==> (r matches Err(GuiError::Other(m)) && m@
            == "cannot link a fragment to itself"@ && *final(a) == *old(a) && *final(b) == *old(b)),
        old(a).id@ != old(b).id@ ==> (r matches Ok((ca, cb)) && linked_both(
            *old(a),
            *old(b),
            *final(a),
            *final(b),
            now,
            ca,
            cb,
        )),
{
    let ai = chars_of(a.id.as_str());
    let bi = chars_of(b.id.as_str());
    if crate::text::eq_str_chars(&ai, &bi) {
        return Err(GuiError::Other(string_of(&chars_of("cannot link a fragment to itself"))));
    }
    match link_fragments(a, b, now) {
        Ok(c) => Ok(c),
        Err(_) => Err(GuiError::Other(string_of(&chars_of("cannot link a fragment to itself")))),
    }
}

/// Where an attachment of a fragment lies: `<vault>/attachments/<id>/<file>`.
pub fn attachment_path(vault: &str, full_id: &str, filename: &str) -> (r: String)
    ensures
        r@ == path_join_spec(path_join_spec(path_join_spec(vault@, "attachments"@), full_id@), filename@),
{
    let d = path_join(vault, "attachments");
    let e = path_join(d.as_str(), full_id);
    path_join(e.as_str(), filename)
}

} // verus!
