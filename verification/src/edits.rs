//! What the server's fragment methods do with their parameters: the
//! fragment a `fragment.create` makes, what a `fragment.update` changes,
//! and the queries `fragment.list` and `fragment.search` run.

use vstd::prelude::*;

use crate::attachment::without;
use crate::config::Config;
use crate::date::{
    iso_day, parse_relative_date_spec, range_days, resolve_due_date_on, due_date_result,
};
use crate::error::{error_message, ParcError};
use crate::fields::{field_insert, fields_sorted, lookup};
use crate::fragment::{
    contains_string, defaults_spec, new_fragment, opt_view, validate_fragment, validate_spec, Fragment,
};
use crate::schema::{first_aliased, first_named, FieldDef, Schema, SchemaRegistry};
use crate::search::{parse_query, parse_query_spec};
use crate::json::JsonValue;
use crate::rpc::RpcError;
use crate::search::{ymd_accepted, Filter, SearchQuery, SortOrder};
use crate::text::texts;
use crate::time::Timestamp;

verus! {

/// The parameters of `fragment.update`: each field given replaces the
/// fragment's.
#[derive(Debug)]
pub struct UpdateParams {
    pub id: String,
    pub title: Option<String>,
    pub tags: Option<Vec<String>>,
    pub body: Option<String>,
    pub links: Option<Vec<String>>,
    pub due: Option<String>,
    pub priority: Option<String>,
    pub status: Option<String>,
    pub assignee: Option<String>,
}

/// What a `due` parameter resolves to, seen from day `t`: the date, or
/// the message of the error.
pub open spec fn due_outcome(input: Seq<char>, t: int) -> Result<Seq<char>, Seq<char>> {
    match parse_relative_date_spec(input) {
        Some(rel) => match range_days(rel, t) {
            Some((a, b)) => Ok(iso_day(b)),
            None => Err("parse error: "@ + ("due date '"@ + input + "' is outside the calendar"@)),
        },
        None => if ymd_accepted(input) {
            Ok(input)
        } else {
            Err(
                "parse error: "@ + ("invalid due date '"@ + input
                    + "': expected YYYY-MM-DD or shorthand (today, tomorrow, in-N-days, etc.)"@),
            )
        },
    }
}

/// Resolve a `due` parameter: the date, or the error whose message
/// `due_outcome` gives.
fn resolve_due_param(d: &str, today: i32) -> (r: Result<String, ParcError>)
    ensures
        match due_outcome(d@, today as int) {
            Ok(s) => r matches Ok(x) && x@ == s,
            Err(m) => r matches Err(e) && error_message(e) == m,
        },
{
    let r = resolve_due_date_on(d, today);
    proof {
        reveal_strlit("parse error: ");
    }
    r
}

/// The value a field setting puts in a fragment: a string.
pub open spec fn set_to(v: Option<String>) -> Option<JsonValue> {
    match v {
        Some(s) => Some(JsonValue::String(s)),
        None => None,
    }
}

/// Set a string field when a value is given.
fn set_field(m: &mut Vec<(String, JsonValue)>, key: &str, v: Option<String>)
    requires
        fields_sorted(old(m)@),
    ensures
        fields_sorted(final(m)@),
        forall|k: Seq<char>|
            #[trigger] lookup(final(m)@, k) == if k == key@ && v.is_some() {
                set_to(v)
            } else {
                lookup(old(m)@, k)
            },
{
    match v {
        Some(s) => field_insert(m, crate::text::string_of(&crate::text::chars_of(key)), JsonValue::String(s)),
        None => {},
    }
}

/// The extra fields after the settings of an update or a creation: the
/// given status, priority and assignee, and the due date `due` when one
/// was given; every other field as it was.
pub open spec fn fields_after(
    before: Seq<(String, JsonValue)>,
    after: Seq<(String, JsonValue)>,
    status: Option<String>,
    due: Option<Seq<char>>,
    priority: Option<String>,
    assignee: Option<String>,
) -> bool {
    &&& fields_sorted(after)
    &&& (if status.is_some() { lookup(after, "status"@) == set_to(status) } else { lookup(after, "status"@) == lookup(before, "status"@) })
    &&& (if priority.is_some() { lookup(after, "priority"@) == set_to(priority) } else { lookup(after, "priority"@) == lookup(before, "priority"@) })
    &&& (if assignee.is_some() { lookup(after, "assignee"@) == set_to(assignee) } else { lookup(after, "assignee"@) == lookup(before, "assignee"@) })
    &&& (match due {
        Some(d) => lookup(after, "due"@) matches Some(JsonValue::String(x)) && x@ == d,
        None => lookup(after, "due"@) == lookup(before, "due"@),
    })
    &&& forall|k: Seq<char>|
        k != "status"@ && k != "priority"@ && k != "assignee"@ && k != "due"@ ==> #[trigger] lookup(after, k)
            == lookup(before, k)
}

/// Apply the field settings of a request, in the order the server applies
/// them: status, due, priority, assignee.
fn apply_settings(
    m: &mut Vec<(String, JsonValue)>,
    status: Option<String>,
    due: Option<String>,
    priority: Option<String>,
    assignee: Option<String>,
    today: i32,
) -> (r: Result<(), ParcError>)
    requires
        fields_sorted(old(m)@),
    ensures
        fields_sorted(final(m)@),
        match due {
            Some(d) => match due_outcome(d@, today as int) {
                Ok(s) => r is Ok && fields_after(old(m)@, final(m)@, status, Some(s), priority, assignee),
                Err(msg) => r matches Err(e) && error_message(e) == msg,
            },
            None => r is Ok && fields_after(old(m)@, final(m)@, status, None, priority, assignee),
        },
{
    proof {
        reveal_strlit("status");
        reveal_strlit("due");
        reveal_strlit("priority");
        reveal_strlit("assignee");
    }
    assert("status"@.len() == 6 && "due"@.len() == 3 && "priority"@.len() == 8 && "assignee"@.len() == 8);
    assert("priority"@[0] != "assignee"@[0]);
    assert("status"@ != "due"@ && "status"@ != "priority"@ && "status"@ != "assignee"@);
    assert("due"@ != "priority"@ && "due"@ != "assignee"@ && "priority"@ != "assignee"@);
    let ghost m0 = m@;
    set_field(m, "status", status);
    let ghost m1 = m@;
    let dv: Option<String> = match due {
        Some(d) => match resolve_due_param(d.as_str(), today) {
            Ok(s) => Some(s),
            Err(e) => {
                return Err(e);
            },
        },
        None => None,
    };
    let ghost dview = match &dv {
        Some(s) => Some(s@),
        None => None,
    };
    set_field(m, "due", dv);
    set_field(m, "priority", priority);
    set_field(m, "assignee", assignee);
    assert(fields_after(m0, m@, status, dview, priority, assignee));
    Ok(())
}

/// The fragment an update makes of `fragment`: each field given replaces
/// the fragment's, the field settings apply (with `due` resolved to
/// `due`), and the update time is `now`.
pub open spec fn updated_fragment(
    fragment: Fragment,
    p: UpdateParams,
    due: Option<Seq<char>>,
    now: Timestamp,
    f: Fragment,
) -> bool {
    &&& f.id == fragment.id
    &&& f.fragment_type == fragment.fragment_type
    &&& f.title == (match p.title {
        Some(t) => t,
        None => fragment.title,
    })
    &&& f.tags == (match p.tags {
        Some(t) => t,
        None => fragment.tags,
    })
    &&& f.body == (match p.body {
        Some(b) => b,
        None => fragment.body,
    })
    &&& f.links == (match p.links {
        Some(l) => l,
        None => fragment.links,
    })
    &&& f.attachments == fragment.attachments
    &&& f.created_at == fragment.created_at
    &&& f.created_by == fragment.created_by
    &&& f.updated_at == now
    &&& fields_after(fragment.extra_fields@, f.extra_fields@, p.status, due, p.priority, p.assignee)
}

/// The `due` parameter of an update, resolved, if one was given.
pub open spec fn update_due(p: UpdateParams, today: i32) -> Option<Result<Seq<char>, Seq<char>>> {
    match p.due {
        Some(d) => Some(due_outcome(d@, today as int)),
        None => None,
    }
}

/// The resolved due date an update sets, if it gives a readable one.
pub open spec fn update_due_value(p: UpdateParams, today: i32) -> Option<Seq<char>> {
    match update_due(p, today) {
        Some(Ok(s)) => Some(s),
        _ => None,
    }
}

/// Apply an update's parameters to a fragment: each field given replaces
/// the fragment's, the field settings apply, and the update time is
/// `now`. An unreadable `due` refuses the update with the date's error.
pub fn edit_fragment(fragment: Fragment, p: UpdateParams, today: i32, now: Timestamp) -> (r: Result<
    Fragment,
    ParcError,
>)
    requires
        fields_sorted(fragment.extra_fields@),
    ensures
        match update_due(p, today) {
            Some(Err(m)) => r matches Err(e) && error_message(e) == m,
            _ => r matches Ok(f) && updated_fragment(fragment, p, update_due_value(p, today), now, f),
        },
{
    let ghost p0 = p;
    let ghost f0 = fragment;
    let mut f = fragment;
    match p.title {
        Some(t) => f.title = t,
        None => {},
    }
    match p.tags {
        Some(t) => f.tags = t,
        None => {},
    }
    match p.body {
        Some(b) => f.body = b,
        None => {},
    }
    match p.links {
        Some(l) => f.links = l,
        None => {},
    }
    let mut extra = f.extra_fields;
    f.extra_fields = Vec::new();
    match apply_settings(&mut extra, p.status, p.due, p.priority, p.assignee, today) {
        Ok(()) => {},
        Err(e) => {
            return Err(e);
        },
    }
    f.extra_fields = extra;
    f.updated_at = now;
    assert(updated_fragment(f0, p0, update_due_value(p0, today), now, f));
    Ok(f)
}

/// The fragment a `fragment.update` makes: `edit_fragment`'s, which must
/// then pass the schema of its type before it may be saved. An unreadable
/// `due`, a type with no schema, or a fragment the schema rejects refuses
/// the update as invalid params, with the error's message.
pub fn apply_update(fragment: Fragment, p: UpdateParams, schemas: &SchemaRegistry, today: i32, now: Timestamp) -> (r:
    Result<Fragment, RpcError>)
    requires
        fields_sorted(fragment.extra_fields@),
    ensures
        match update_due(p, today) {
            Some(Err(m)) => r matches Err(e) && e.code == -32602 && e.message@ == "Invalid params: "@ + m
                && e.data.is_none(),
            _ => match resolved_schema(schemas.schemas@, fragment.fragment_type@) {
                None => r matches Err(e) && e.code == -32602 && e.message@ == "Invalid params: "@ + (
                "schema not found for type: "@ + fragment.fragment_type@) && e.data.is_none(),
                Some(schema) => exists|g: Fragment|
                    #[trigger] updated_fragment(fragment, p, update_due_value(p, today), now, g) && match validate_spec(
                        schema.fields@,
                        g.extra_fields@,
                    ) {
                        None => r == Ok::<Fragment, RpcError>(g),
                        Some(m) => r matches Err(e) && e.code == -32602 && e.message@ == "Invalid params: "@ + (
                        "validation error: "@ + m) && e.data.is_none(),
                    },
            },
        },
{
    let ghost f0 = fragment;
    let ghost p0 = p;
    let ty = fragment.fragment_type.clone();
    let f = match edit_fragment(fragment, p, today, now) {
        Ok(f) => f,
        Err(e) => {
            let m = e.message();
            return Err(RpcError::invalid_params(m.as_str()));
        },
    };
    assert(updated_fragment(f0, p0, update_due_value(p0, today), now, f));
    proof {
        reveal_strlit("schema not found for type: ");
        reveal_strlit("validation error: ");
    }
    let schema = match schemas.resolve(ty.as_str()) {
        Some(s) => s,
        None => {
            let e = ParcError::SchemaNotFound(ty);
            let m = e.message();
            return Err(RpcError::invalid_params(m.as_str()));
        },
    };
    assert(resolved_schema(schemas.schemas@, f0.fragment_type@) == Some(*schema));
    match validate_fragment(&f, schema) {
        Ok(()) => Ok(f),
        Err(e) => {
            let m = e.message();
            Err(RpcError::invalid_params(m.as_str()))
        },
    }
}

/// The parameters of `fragment.create`.
#[derive(Debug)]
pub struct CreateParams {
    pub fragment_type: String,
    pub title: Option<String>,
    pub tags: Vec<String>,
    pub body: Option<String>,
    pub links: Vec<String>,
    pub due: Option<String>,
    pub priority: Option<String>,
    pub status: Option<String>,
    pub assignee: Option<String>,
}

/// Tags added one by one, each unless already there.
pub open spec fn add_tags(base: Seq<Seq<char>>, add: Seq<Seq<char>>) -> Seq<Seq<char>>
    decreases add.len(),
{
    if add.len() == 0 {
        base
    } else {
        let r = add_tags(base, add.drop_last());
        if r.contains(add.last()) {
            r
        } else {
            r.push(add.last())
        }
    }
}

/// The schema a type name or alias resolves to, as the registry resolves it.
pub open spec fn resolved_schema(s: Seq<Schema>, name: Seq<char>) -> Option<Schema> {
    let k = first_named(s, name, 0);
    let a = first_aliased(s, name, 0);
    if k < s.len() {
        Some(s[k])
    } else if a < s.len() {
        Some(s[a])
    } else {
        None
    }
}

/// The `due` parameter, resolved, if one was given.
pub open spec fn due_of(p: CreateParams, today: i32) -> Option<Result<Seq<char>, Seq<char>>> {
    match p.due {
        Some(d) => Some(due_outcome(d@, today as int)),
        None => None,
    }
}

/// The resolved due date to set, if one was given and is a date.
pub open spec fn due_value(p: CreateParams, today: i32) -> Option<Seq<char>> {
    match due_of(p, today) {
        Some(Ok(s)) => Some(s),
        _ => None,
    }
}

/// The fragment a create request makes with its type's schema.
pub open spec fn created_fragment(p: CreateParams, schema: Schema, config: Config, today: i32, f: Fragment) -> bool {
    &&& f.id@.len() == 26
    &&& f.fragment_type@ == schema.name@
    &&& f.title@ == (match p.title {
        Some(t) => t@,
        None => Seq::empty(),
    })
    &&& texts(f.tags@) == add_tags(crate::fragment::dedup_spec(texts(config.default_tags@)), texts(p.tags@))
    &&& f.links == p.links
    &&& f.attachments@.len() == 0
    &&& f.body@ == (match p.body {
        Some(b) => b@,
        None => Seq::empty(),
    })
    &&& opt_view(f.created_by) == opt_view(config.user)
    &&& f.created_at == f.updated_at
    &&& fields_after_defaults(schema.fields@, f.extra_fields@, p.status, due_value(p, today), p.priority, p.assignee)
    &&& validate_spec(schema.fields@, f.extra_fields@).is_none()
}

/// Why a create request makes no fragment: its type is unknown, its
/// `due` is no date (with the date's error), or the schema rejects the
/// fragment (with the validation error).
#[derive(Debug)]
pub enum CreateRefusal {
    UnknownType,
    BadDue(ParcError),
    Rejected(ParcError),
}

/// The validation error a create request whose fragment its schema
/// rejects gives.
pub open spec fn rejected_by(p: CreateParams, schema: Schema, today: i32, e: ParcError) -> bool {
    exists|m: Seq<(String, JsonValue)>|
        #[trigger] fields_after_defaults(schema.fields@, m, p.status, due_value(p, today), p.priority, p.assignee)
            && (validate_spec(schema.fields@, m) matches Some(msg) && e matches ParcError::ValidationError(x)
            && x@ == msg)
}

/// What `build_fragment` gives for a request.
pub open spec fn build_outcome(
    p: CreateParams,
    schemas: SchemaRegistry,
    config: Config,
    today: i32,
    r: Result<Fragment, CreateRefusal>,
) -> bool {
    match resolved_schema(schemas.schemas@, p.fragment_type@) {
        None => r matches Err(CreateRefusal::UnknownType),
        Some(schema) => match due_of(p, today) {
            Some(Err(m)) => r matches Err(CreateRefusal::BadDue(e)) && error_message(e) == m,
            _ => match r {
                Ok(f) => created_fragment(p, schema, config, today, f),
                Err(CreateRefusal::Rejected(e)) => rejected_by(p, schema, today, e),
                Err(_) => false,
            },
        },
    }
}

/// The error a create request whose fragment its schema rejects gives.
pub open spec fn rejected_create(p: CreateParams, schema: Schema, today: i32, e: RpcError) -> bool {
    exists|m: Seq<(String, JsonValue)>|
        #[trigger] fields_after_defaults(schema.fields@, m, p.status, due_value(p, today), p.priority, p.assignee)
            && (validate_spec(schema.fields@, m) matches Some(msg) && e.code == -32603 && (e.data matches Some(
            JsonValue::String(d),
        ) && d@ == "validation error: "@ + msg))
}

/// What `prepare_create` gives for a request.
pub open spec fn create_outcome(
    p: CreateParams,
    schemas: SchemaRegistry,
    config: Config,
    today: i32,
    r: Result<Fragment, RpcError>,
) -> bool {
    match resolved_schema(schemas.schemas@, p.fragment_type@) {
        None => r matches Err(e) && e.code == -32602 && e.message@ == "Invalid params: unknown type: "@
            + p.fragment_type@,
        Some(schema) => match due_of(p, today) {
            Some(Err(m)) => r matches Err(e) && e.code == -32602 && e.message@ == "Invalid params: "@ + m,
            _ => match r {
                Ok(f) => created_fragment(p, schema, config, today, f),
                Err(e) => rejected_create(p, schema, today, e),
            },
        },
    }
}

/// The fragment a create request makes (its id, times and default fields
/// new), before it is written: the type's schema gives the type name and
/// the defaults, the request's tags join the configured default tags, and
/// the field settings apply. Refused for an unknown type, an unreadable
/// `due`, or a fragment its schema rejects.
#[verifier::spinoff_prover]
pub fn build_fragment(p: CreateParams, schemas: &SchemaRegistry, config: &Config, today: i32) -> (r: Result<
    Fragment,
    CreateRefusal,
>)
    ensures
        build_outcome(p, *schemas, *config, today, r),
{
    let ghost p0 = p;
    let schema = match schemas.resolve(p.fragment_type.as_str()) {
        Some(s) => s,
        None => {
            return Err(CreateRefusal::UnknownType);
        },
    };
    assert(resolved_schema(schemas.schemas@, p.fragment_type@) == Some(*schema));
    let title: &str = match &p.title {
        Some(t) => t.as_str(),
        None => "",
    };
    proof {
        reveal_strlit("");
    }
    let mut f = new_fragment(schema.name.as_str(), title, schema, config);
    let mut tags = f.tags;
    f.tags = Vec::new();
    let ghost t0 = texts(tags@);
    let mut i: usize = 0;
    while i < p.tags.len()
        invariant
            i <= p.tags.len(),
            texts(tags@) == add_tags(t0, texts(p.tags@).subrange(0, i as int)),
        decreases p.tags.len() - i,
    {
        let ghost before = texts(tags@);
        assert(texts(p.tags@).subrange(0, i + 1).drop_last() =~= texts(p.tags@).subrange(0, i as int));
        if !contains_string(&tags, &p.tags[i]) {
            tags.push(p.tags[i].clone());
            assert(texts(tags@) =~= before.push(p.tags@[i as int]@));
        }
        i = i + 1;
    }
    assert(texts(p.tags@).subrange(0, p.tags@.len() as int) =~= texts(p.tags@));
    f.tags = tags;
    f.links = p.links;
    match p.body {
        Some(b) => f.body = b,
        None => {},
    }
    let ghost base = f.extra_fields@;
    let ghost dv = due_value(p0, today);
    let mut extra = f.extra_fields;
    f.extra_fields = Vec::new();
    match apply_settings(&mut extra, p.status, p.due, p.priority, p.assignee, today) {
        Ok(()) => {},
        Err(e) => {
            let r = Err(CreateRefusal::BadDue(e));
            assert(build_outcome(p0, *schemas, *config, today, r));
            return r;
        },
    }
    f.extra_fields = extra;
    assert(defaults_spec(schema.fields@, base));
    assert(fields_after(base, f.extra_fields@, p0.status, dv, p0.priority, p0.assignee));
    assert(fields_after_defaults(schema.fields@, f.extra_fields@, p0.status, dv, p0.priority, p0.assignee));
    match validate_fragment(&f, schema) {
        Ok(()) => {
            assert(f.title@ == (match p0.title { Some(t) => t@, None => Seq::empty() }));
            assert(texts(f.tags@) == add_tags(crate::fragment::dedup_spec(texts(config.default_tags@)), texts(p0.tags@)));
            assert(f.links == p0.links);
            assert(f.body@ == (match p0.body { Some(b) => b@, None => Seq::empty() }));
            assert(created_fragment(p0, *schema, *config, today, f));
            let r = Ok(f);
            assert(build_outcome(p0, *schemas, *config, today, r));
            r
        },
        Err(e) => {
            assert(rejected_by(p0, *schema, today, e));
            let r = Err(CreateRefusal::Rejected(e));
            assert(build_outcome(p0, *schemas, *config, today, r));
            r
        },
    }
}

/// The fragment a `fragment.create` request makes, as `build_fragment`
/// makes it. Refused as invalid params for an unknown type or an
/// unreadable `due`; a fragment its schema rejects is an internal error
/// carrying the validation message.
pub fn prepare_create(p: CreateParams, schemas: &SchemaRegistry, config: &Config, today: i32) -> (r: Result<
    Fragment,
    RpcError,
>)
    ensures
        create_outcome(p, *schemas, *config, today, r),
{
    let ghost p0 = p;
    let t = crate::text::chars_of(p.fragment_type.as_str());
    match build_fragment(p, schemas, config, today) {
        Ok(f) => Ok(f),
        Err(CreateRefusal::UnknownType) => {
            proof {
                reveal_strlit("");
                reveal_strlit("unknown type: ");
                reveal_strlit("Invalid params: ");
                reveal_strlit("Invalid params: unknown type: ");
            }
            assert("Invalid params: "@ + ("unknown type: "@ + p0.fragment_type@ + ""@) =~= "Invalid params: unknown type: "@
                + p0.fragment_type@);
            Err(RpcError::invalid_params(crate::text::concat3("unknown type: ", &t, "").as_str()))
        },
        Err(CreateRefusal::BadDue(e)) => {
            let m = e.message();
            Err(RpcError::invalid_params(m.as_str()))
        },
        Err(CreateRefusal::Rejected(e)) => {
            let m = e.message();
            proof {
                reveal_strlit("validation error: ");
                let schema = resolved_schema(schemas.schemas@, p0.fragment_type@).unwrap();
                let w = choose|w: Seq<(String, JsonValue)>|
                    #[trigger] fields_after_defaults(schema.fields@, w, p0.status, due_value(p0, today), p0.priority, p0.assignee)
                        && (validate_spec(schema.fields@, w) matches Some(msg) && e matches ParcError::ValidationError(x)
                        && x@ == msg);
                assert(fields_after_defaults(schema.fields@, w, p0.status, due_value(p0, today), p0.priority, p0.assignee));
            }
            Err(RpcError::internal_error(m.as_str()))
        },
    }
}

/// Field settings applied on top of a schema's defaults.
pub open spec fn fields_after_defaults(
    defs: Seq<FieldDef>,
    m: Seq<(String, JsonValue)>,
    status: Option<String>,
    due: Option<Seq<char>>,
    priority: Option<String>,
    assignee: Option<String>,
) -> bool {
    exists|base: Seq<(String, JsonValue)>|
        #[trigger] defaults_spec(defs, base) && fields_after(base, m, status, due, priority, assignee)
}

/// The parameters of `fragment.list`.
#[derive(Debug)]
pub struct ListParams {
    pub fragment_type: Option<String>,
    pub status: Option<String>,
    pub tag: Option<String>,
    pub limit: Option<usize>,
    pub sort: Option<String>,
}

/// The query `fragment.list` runs: one filter per parameter given (type,
/// status, tag, in that order), newest update first, with the limit
/// given; the `sort` parameter is not read.
pub fn list_query(p: ListParams) -> (q: SearchQuery)
    ensures
        q.text_terms@.len() == 0,
        q.sort == SortOrder::UpdatedDesc,
        q.limit == p.limit,
        q.filters@ == (match p.fragment_type {
            Some(t) => seq![Filter::Type { value: t, negated: false }],
            None => Seq::empty(),
        }) + (match p.status {
            Some(s) => seq![Filter::Status { value: s, negated: false }],
            None => Seq::empty(),
        }) + (match p.tag {
            Some(t) => seq![Filter::Tag { value: t, negated: false }],
            None => Seq::empty(),
        }),
{
    let mut filters: Vec<Filter> = Vec::new();
    match p.fragment_type {
        Some(t) => filters.push(Filter::Type { value: t, negated: false }),
        None => {},
    }
    let ghost a = filters@;
    match p.status {
        Some(s) => filters.push(Filter::Status { value: s, negated: false }),
        None => {},
    }
    let ghost b = filters@;
    match p.tag {
        Some(t) => filters.push(Filter::Tag { value: t, negated: false }),
        None => {},
    }
    let ghost c = filters@;
    assert(c =~= (match p.fragment_type {
        Some(t) => seq![Filter::Type { value: t, negated: false }],
        None => Seq::empty(),
    }) + (match p.status {
        Some(s) => seq![Filter::Status { value: s, negated: false }],
        None => Seq::empty(),
    }) + (match p.tag {
        Some(t) => seq![Filter::Tag { value: t, negated: false }],
        None => Seq::empty(),
    }));
    SearchQuery { text_terms: Vec::new(), filters, sort: SortOrder::UpdatedDesc, limit: p.limit }
}

/// The parameters of `fragment.search`.
#[derive(Debug)]
pub struct SearchParams {
    pub query: String,
    pub limit: Option<usize>,
    pub sort: Option<String>,
}

/// The query `fragment.search` runs: the query text parsed, with the
/// limit given replacing none; a query that does not parse is an internal
/// error carrying the parse error's message.
pub fn search_query(p: &SearchParams) -> (r: Result<SearchQuery, RpcError>)
    ensures
        match parse_query_spec(p.query@) {
            Ok(m) => r matches Ok(q) && q.model() == m && q.sort == SortOrder::UpdatedDesc && q.limit == p.limit,
            Err(msg) => r matches Err(e) && e.code == -32603 && (e.data matches Some(JsonValue::String(d)) && d@
                == "parse error: "@ + msg),
        },
{
    match parse_query(p.query.as_str()) {
        Ok(mut q) => {
            match p.limit {
                Some(l) => q.limit = Some(l),
                None => {},
            }
            Ok(q)
        },
        Err(e) => {
            let m = e.message();
            Err(RpcError::internal_error(m.as_str()))
        },
    }
}

// ── Links between two fragments ─────────────────────────────────────

/// Two versions of a fragment that differ at most in their links and
/// their update time.
pub open spec fn same_but_links(a: Fragment, b: Fragment) -> bool {
    &&& a.id == b.id
    &&& a.fragment_type == b.fragment_type
    &&& a.title == b.title
    &&& a.tags == b.tags
    &&& a.attachments == b.attachments
    &&& a.created_at == b.created_at
    &&& a.created_by == b.created_by
    &&& a.extra_fields == b.extra_fields
    &&& a.body == b.body
}

/// Add a link to `target` unless the fragment has one; a change updates
/// the fragment's time.
fn add_link(f: &mut Fragment, target: &String, now: Timestamp) -> (changed: bool)
    ensures
        changed == !texts(old(f).links@).contains(target@),
        texts(final(f).links@) == if changed {
            texts(old(f).links@).push(target@)
        } else {
            texts(old(f).links@)
        },
        final(f).updated_at == if changed {
            now
        } else {
            old(f).updated_at
        },
        same_but_links(*old(f), *final(f)),
{
    if contains_string(&f.links, target) {
        false
    } else {
        let ghost before = texts(f.links@);
        f.links.push(target.clone());
        assert(texts(f.links@) =~= before.push(target@));
        f.updated_at = now;
        true
    }
}

/// Remove every link to `target`; a change updates the fragment's time.
fn remove_link(f: &mut Fragment, target: &String, now: Timestamp) -> (changed: bool)
    ensures
        changed == texts(old(f).links@).contains(target@),
        texts(final(f).links@) == without(texts(old(f).links@), target@),
        final(f).updated_at == if changed {
            now
        } else {
            old(f).updated_at
        },
        same_but_links(*old(f), *final(f)),
{
    let had = contains_string(&f.links, target);
    let t = crate::text::chars_of(target.as_str());
    let mut kept: Vec<String> = Vec::new();
    let mut i: usize = 0;
    while i < f.links.len()
        invariant
            i <= f.links.len(),
            t@ == target@,
            texts(kept@) == without(texts(f.links@).subrange(0, i as int), target@),
        decreases f.links.len() - i,
    {
        assert(texts(f.links@).subrange(0, i + 1).drop_last() =~= texts(f.links@).subrange(0, i as int));
        let x = crate::text::chars_of(f.links[i].as_str());
        if !crate::text::eq_str_chars(&x, &t) {
            let ghost before = texts(kept@);
            kept.push(f.links[i].clone());
            assert(texts(kept@) =~= before.push(f.links@[i as int]@));
        }
        i = i + 1;
    }
    assert(texts(f.links@).subrange(0, f.links@.len() as int) =~= texts(f.links@));
    if had {
        f.links = kept;
        f.updated_at = now;
    } else {
        proof {
            lemma_without_absent(texts(f.links@), target@);
        }
    }
    had
}

proof fn lemma_without_absent(s: Seq<Seq<char>>, x: Seq<char>)
    requires
        !s.contains(x),
    ensures
        without(s, x) == s,
    decreases s.len(),
{
    if s.len() > 0 {
        assert(!s.drop_last().contains(x)) by {
            if s.drop_last().contains(x) {
                let i = choose|i: int| 0 <= i < s.drop_last().len() && s.drop_last()[i] == x;
                assert(s[i] == x);
            }
        }
        lemma_without_absent(s.drop_last(), x);
        assert(s.last() != x) by {
            assert(s[s.len() - 1] == s.last());
        }
        assert(s.drop_last().push(s.last()) =~= s);
    }
}

/// Fragments `a0` and `b0`, linked both ways into `a` and `b`: each got
/// a link to the other unless it had one (`ca`, `cb` say which did), a
/// fragment that changed has `now` as its update time, and nothing else
/// changed.
pub open spec fn linked_both(
    a0: Fragment,
    b0: Fragment,
    a: Fragment,
    b: Fragment,
    now: Timestamp,
    ca: bool,
    cb: bool,
) -> bool {
    &&& ca == !texts(a0.links@).contains(b0.id@)
    &&& cb == !texts(b0.links@).contains(a0.id@)
    &&& texts(a.links@) == if ca {
        texts(a0.links@).push(b0.id@)
    } else {
        texts(a0.links@)
    }
    &&& texts(b.links@) == if cb {
        texts(b0.links@).push(a0.id@)
    } else {
        texts(b0.links@)
    }
    &&& a.updated_at == (if ca { now } else { a0.updated_at })
    &&& b.updated_at == (if cb { now } else { b0.updated_at })
    &&& same_but_links(a0, a) && same_but_links(b0, b)
    &&& texts(a.links@).contains(b.id@) && texts(b.links@).contains(a.id@)
}

/// Link two fragments both ways (`fragment.link`): each gets a link to
/// the other unless it has one, and a fragment that changes gets `now`
/// as its update time. The result says which of the two changed. A
/// fragment is not linked to itself.
pub fn link_fragments(a: &mut Fragment, b: &mut Fragment, now: Timestamp) -> (r: Result<(bool, bool), RpcError>)
    ensures
        old(a).id@ == old(b).id@ ==> (r matches Err(e) && e.code == -32602 && e.message@
            == "Invalid params: cannot link a fragment to itself"@ && *final(a) == *old(a) && *final(b) == *old(b)),
        old(a).id@ != old(b).id@ ==> (r matches Ok((ca, cb)) && linked_both(
            *old(a),
            *old(b),
            *final(a),
            *final(b),
            now,
            ca,
            cb,
        )),
{
    let ai = crate::text::chars_of(a.id.as_str());
    let bi = crate::text::chars_of(b.id.as_str());
    if crate::text::eq_str_chars(&ai, &bi) {
        proof {
            reveal_strlit("cannot link a fragment to itself");
            reveal_strlit("Invalid params: ");
            reveal_strlit("Invalid params: cannot link a fragment to itself");
        }
        let e = RpcError::invalid_params("cannot link a fragment to itself");
        assert(e.message@ =~= "Invalid params: cannot link a fragment to itself"@);
        return Err(e);
    }
    let bid = b.id.clone();
    let aid = a.id.clone();
    let ca = add_link(a, &bid, now);
    let cb = add_link(b, &aid, now);
    proof {
        let la = texts(a.links@);
        let lb = texts(b.links@);
        if ca {
            assert(la[la.len() - 1] == bid@);
        }
        if cb {
            assert(lb[lb.len() - 1] == aid@);
        }
    }
    Ok((ca, cb))
}

/// Unlink two fragments both ways (`fragment.unlink`): each loses its
/// links to the other, and a fragment that changes gets `now` as its
/// update time. The result says which of the two changed.
pub fn unlink_fragments(a: &mut Fragment, b: &mut Fragment, now: Timestamp) -> (r: (bool, bool))
    ensures
        r.0 == texts(old(a).links@).contains(old(b).id@),
        r.1 == texts(old(b).links@).contains(old(a).id@),
        texts(final(a).links@) == without(texts(old(a).links@), old(b).id@),
        texts(final(b).links@) == without(texts(old(b).links@), old(a).id@),
        final(a).updated_at == (if r.0 { now } else { old(a).updated_at }),
        final(b).updated_at == (if r.1 { now } else { old(b).updated_at }),
        same_but_links(*old(a), *final(a)),
        same_but_links(*old(b), *final(b)),
{
    let bid = b.id.clone();
    let aid = a.id.clone();
    let ca = remove_link(a, &bid, now);
    let cb = remove_link(b, &aid, now);
    (ca, cb)
}

/// Unlinking undoes linking: links that did not name a fragment are
/// given back unchanged by linking to it and then unlinking it.
pub proof fn unlink_undoes_link(links: Seq<Seq<char>>, id: Seq<char>)
    requires
        !links.contains(id),
    ensures
        without(links.push(id), id) == links,
{
    assert(links.push(id).drop_last() =~= links);
    lemma_without_absent(links, id);
}

/// After unlinking, neither fragment links to the other.
pub proof fn unlinked_links_are_gone(links: Seq<Seq<char>>, id: Seq<char>)
    ensures
        !without(links, id).contains(id),
    decreases links.len(),
{
    if links.len() > 0 {
        unlinked_links_are_gone(links.drop_last(), id);
        let r = without(links.drop_last(), id);
        if links.last() != id {
            assert forall|i: int| 0 <= i < r.push(links.last()).len() implies r.push(links.last())[i] != id by {
                if i < r.len() {
                    assert(r.push(links.last())[i] == r[i]);
                }
            }
        }
    }
}

} // verus!
