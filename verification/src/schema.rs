//! Fragment type schemas: the fields each type carries.

use vstd::prelude::*;

use crate::error::ParcError;
use crate::text::{
    all_ident_chars, all_ident_chars_exec, chars_of, concat3, eq_str, eq_str_chars, is_ascii_alpha, is_ident_char,
    lemma_ident_utf8_len, string_of, utf8_len, utf8_longer_than,
};

verus! {

#[derive(Debug, Clone)]
pub struct Schema {
    pub name: String,
    pub alias: Option<String>,
    pub editor_skip: bool,
    pub fields: Vec<FieldDef>,
}

#[derive(Debug, Clone)]
pub struct FieldDef {
    pub name: String,
    pub field_type: FieldType,
    pub required: bool,
    pub default: Option<String>,
}

#[derive(Debug, Clone)]
pub enum FieldType {
    String,
    Date,
    Enum(Vec<String>),
    ListOfStrings,
}

/// A field as a schema file writes it: the type is still a word.
#[derive(Debug, Clone)]
pub struct RawFieldDef {
    pub name: String,
    pub field_type: String,
    pub values: Vec<String>,
    pub required: bool,
    pub default: Option<String>,
}

/// A schema as a schema file writes it.
#[derive(Debug, Clone)]
pub struct RawSchema {
    pub name: String,
    pub alias: Option<String>,
    pub editor_skip: bool,
    pub fields: Vec<RawFieldDef>,
}

/// The kind of a field type word: 0 string, 1 date, 2 enum, 3 list.
pub open spec fn field_kind(t: Seq<char>) -> u8 {
    if t == "date"@ {
        1
    } else if t == "enum"@ {
        2
    } else if t == "list"@ {
        3
    } else {
        0
    }
}

/// The kind of a field type.
pub open spec fn kind_of(t: FieldType) -> u8 {
    match t {
        FieldType::String => 0,
        FieldType::Date => 1,
        FieldType::Enum(_) => 2,
        FieldType::ListOfStrings => 3,
    }
}

/// Read a field type word; unknown words read as `string`.
pub fn parse_field_type(type_str: &str, values: Vec<String>) -> (r: FieldType)
    ensures
        kind_of(r) == field_kind(type_str@),
        r matches FieldType::Enum(v) ==> v == values,
{
    proof {
        reveal_strlit("string");
        reveal_strlit("date");
        reveal_strlit("enum");
        reveal_strlit("list");
        assert("string"@.len() == 6);
        assert("date"@.len() == 4);
        assert("enum"@[0] != "date"@[0]);
        assert("list"@[0] != "date"@[0]);
        assert("list"@[0] != "enum"@[0]);
    }
    let t = chars_of(type_str);
    if eq_str(&t, "string") {
        FieldType::String
    } else if eq_str(&t, "date") {
        FieldType::Date
    } else if eq_str(&t, "enum") {
        FieldType::Enum(values)
    } else if eq_str(&t, "list") {
        FieldType::ListOfStrings
    } else {
        FieldType::String
    }
}

/// The schema a schema file describes.
pub fn schema_from_raw(raw: RawSchema) -> (s: Schema)
    ensures
        s.name == raw.name,
        s.alias == raw.alias,
        s.editor_skip == raw.editor_skip,
        s.fields@.len() == raw.fields@.len(),
        forall|i: int|
            0 <= i < s.fields@.len() ==> {
                let f = #[trigger] s.fields@[i];
                let g = raw.fields@[i];
                &&& f.name == g.name
                &&& f.required == g.required
                &&& f.default == g.default
                &&& kind_of(f.field_type) == field_kind(g.field_type@)
                &&& (f.field_type matches FieldType::Enum(v) ==> v@ == g.values@)
            },
{
    let RawSchema { name, alias, editor_skip, fields: raw_fields } = raw;
    let mut fields: Vec<FieldDef> = Vec::new();
    let mut i: usize = 0;
    while i < raw_fields.len()
        invariant
            i <= raw_fields.len(),
            fields@.len() == i,
            forall|j: int|
                0 <= j < i ==> {
                    let f = #[trigger] fields@[j];
                    let g = raw_fields@[j];
                    &&& f.name == g.name
                    &&& f.required == g.required
                    &&& f.default == g.default
                    &&& kind_of(f.field_type) == field_kind(g.field_type@)
                    &&& (f.field_type matches FieldType::Enum(v) ==> v@ == g.values@)
                },
        decreases raw_fields.len() - i,
    {
        let g = &raw_fields[i];
        let vals = g.values.clone();
        assert(vals@ =~= g.values@);
        let ft = parse_field_type(g.field_type.as_str(), vals);
        fields.push(
            FieldDef {
                name: g.name.clone(),
                field_type: ft,
                required: g.required,
                default: g.default.clone(),
            },
        );
        i = i + 1;
    }
    Schema { name, alias, editor_skip, fields }
}

/// All registered schemas, in file-name order.
pub struct SchemaRegistry {
    pub schemas: Vec<Schema>,
}

/// Index of the first schema satisfying the test, or the length.
pub open spec fn first_named(s: Seq<Schema>, name: Seq<char>, k: int) -> int
    decreases s.len() - k,
{
    if 0 <= k < s.len() && s[k].name@ != name {
        first_named(s, name, k + 1)
    } else {
        k
    }
}

pub open spec fn alias_is(s: Schema, alias: Seq<char>) -> bool {
    s.alias matches Some(a) && a@ == alias
}

pub open spec fn first_aliased(s: Seq<Schema>, alias: Seq<char>, k: int) -> int
    decreases s.len() - k,
{
    if 0 <= k < s.len() && !alias_is(s[k], alias) {
        first_aliased(s, alias, k + 1)
    } else {
        k
    }
}

impl SchemaRegistry {
    /// A registry of the given schemas.
    pub fn new(schemas: Vec<Schema>) -> (r: SchemaRegistry)
        ensures
            r.schemas == schemas,
    {
        SchemaRegistry { schemas }
    }

    /// The first schema with this name.
    pub fn get_by_name(&self, name: &str) -> (r: Option<&Schema>)
        ensures
            ({
                let k = first_named(self.schemas@, name@, 0);
                match r {
                    Some(s) => k < self.schemas@.len() && *s == self.schemas@[k],
                    None => k >= self.schemas@.len(),
                }
            }),
    {
        let n = chars_of(name);
        let mut i: usize = 0;
        while i < self.schemas.len()
            invariant
                i <= self.schemas.len(),
                n@ == name@,
                first_named(self.schemas@, name@, 0) == first_named(self.schemas@, name@, i as int),
            decreases self.schemas.len() - i,
        {
            let sn = chars_of(self.schemas[i].name.as_str());
            if eq_str_chars(&sn, &n) {
                return Some(&self.schemas[i]);
            }
            i = i + 1;
        }
        None
    }

    /// The first schema with this alias.
    pub fn get_by_alias(&self, alias: &str) -> (r: Option<&Schema>)
        ensures
            ({
                let k = first_aliased(self.schemas@, alias@, 0);
                match r {
                    Some(s) => k < self.schemas@.len() && *s == self.schemas@[k],
                    None => k >= self.schemas@.len(),
                }
            }),
    {
        let n = chars_of(alias);
        let mut i: usize = 0;
        while i < self.schemas.len()
            invariant
                i <= self.schemas.len(),
                n@ == alias@,
                first_aliased(self.schemas@, alias@, 0) == first_aliased(
                    self.schemas@,
                    alias@,
                    i as int,
                ),
            decreases self.schemas.len() - i,
        {
            let hit = match &self.schemas[i].alias {
                Some(a) => {
                    let ac = chars_of(a.as_str());
                    eq_str_chars(&ac, &n)
                },
                None => false,
            };
            if hit {
                return Some(&self.schemas[i]);
            }
            i = i + 1;
        }
        None
    }

    /// A schema by name, else by alias.
    pub fn resolve(&self, name_or_alias: &str) -> (r: Option<&Schema>)
        ensures
            ({
                let k = first_named(self.schemas@, name_or_alias@, 0);
                let a = first_aliased(self.schemas@, name_or_alias@, 0);
                if k < self.schemas@.len() {
                    r == Some(&self.schemas@[k])
                } else if a < self.schemas@.len() {
                    r == Some(&self.schemas@[a])
                } else {
                    r.is_none()
                }
            }),
    {
        match self.get_by_name(name_or_alias) {
            Some(s) => Some(s),
            None => self.get_by_alias(name_or_alias),
        }
    }

    /// All schemas, in order.
    pub fn list(&self) -> (r: Vec<&Schema>)
        ensures
            r@.len() == self.schemas@.len(),
            forall|i: int| 0 <= i < r@.len() ==> *r@[i] == self.schemas@[i],
    {
        let mut out: Vec<&Schema> = Vec::new();
        let mut i: usize = 0;
        while i < self.schemas.len()
            invariant
                i <= self.schemas.len(),
                out@.len() == i,
                forall|j: int| 0 <= j < i ==> *out@[j] == self.schemas@[j],
            decreases self.schemas.len() - i,
        {
            out.push(&self.schemas[i]);
            i = i + 1;
        }
        out
    }
}

/// Why a schema name is refused, if it is: names become file names, so
/// they are 1-64 bytes, start with an ASCII letter and hold only ASCII
/// letters, digits, `_` and `-`.
pub open spec fn schema_name_error(name: Seq<char>) -> Option<Seq<char>> {
    if name.len() == 0 || utf8_len(name) > 64 {
        Some("schema name '"@ + name + "' must be 1-64 characters"@)
    } else if !is_ascii_alpha(name[0]) {
        Some("schema name '"@ + name + "' must start with a letter"@)
    } else if !all_ident_chars(name) {
        Some("schema name '"@ + name + "' must contain only letters, digits, '_' or '-'"@)
    } else {
        None
    }
}

/// Schema names become file names in `schemas/` and `templates/`. Restrict to
/// a strict identifier so a malicious schema cannot overwrite arbitrary files
/// (e.g. name='../config').
pub fn validate_schema_name(name: &str) -> (r: Result<(), ParcError>)
    ensures
        match schema_name_error(name@) {
            None => r is Ok,
            Some(m) => r matches Err(ParcError::ValidationError(x)) && x@ == m,
        },
{
    let v = chars_of(name);
    if v.len() == 0 || utf8_longer_than(&v, 64) {
        return Err(ParcError::ValidationError(concat3("schema name '", &v, "' must be 1-64 characters")));
    }
    let c = v[0];
    if !(('A' <= c && c <= 'Z') || ('a' <= c && c <= 'z')) {
        return Err(ParcError::ValidationError(concat3("schema name '", &v, "' must start with a letter")));
    }
    if !all_ident_chars_exec(&v) {
        return Err(
            ParcError::ValidationError(
                concat3("schema name '", &v, "' must contain only letters, digits, '_' or '-'"),
            ),
        );
    }
    Ok(())
}

} // verus!

verus! {

/// What adding a schema to a vault writes: the schema file under
/// `schemas/`, and the starting template under `templates/` (written only
/// where the vault has none).
#[derive(Debug)]
pub struct SchemaAddition {
    pub schema_file: String,
    pub template_file: String,
    pub template: String,
}

/// The registry holds a schema of this name.
pub open spec fn has_schema_named(s: Seq<Schema>, name: Seq<char>) -> bool {
    first_named(s, name, 0) < s.len()
}

/// Whether `schema` may join a vault whose schemas are `registry`, and
/// what to write if so: refused when its name is no identifier, or when
/// the vault already has a schema of that name.
pub fn plan_schema_add(schema: &Schema, registry: &SchemaRegistry) -> (r: Result<SchemaAddition, ParcError>)
    ensures
        match schema_name_error(schema.name@) {
            Some(m) => r matches Err(ParcError::ValidationError(x)) && x@ == m,
            None => if has_schema_named(registry.schemas@, schema.name@) {
                r matches Err(ParcError::ValidationError(x)) && x@ == "schema '"@ + schema.name@
                    + "' already exists in vault"@
            } else {
                r matches Ok(a) && a.schema_file@ == schema.name@ + ".yml"@ && a.template_file@ == schema.name@
                    + ".md"@ && a.template@ == "---\ntype: "@ + schema.name@ + "\ntitle: \"\"\n---\n\n"@
            },
        },
{
    match validate_schema_name(schema.name.as_str()) {
        Ok(()) => {},
        Err(e) => {
            return Err(e);
        },
    }
    let n = chars_of(schema.name.as_str());
    match registry.get_by_name(schema.name.as_str()) {
        Some(_) => Err(ParcError::ValidationError(concat3("schema '", &n, "' already exists in vault"))),
        None => {
            proof {
                reveal_strlit("");
            }
            let schema_file = concat3("", &n, ".yml");
            let template_file = concat3("", &n, ".md");
            assert(schema_file@ =~= n@ + ".yml"@);
            assert(template_file@ =~= n@ + ".md"@);
            Ok(
                SchemaAddition {
                    schema_file,
                    template_file,
                    template: concat3("---\ntype: ", &n, "\ntitle: \"\"\n---\n\n"),
                },
            )
        },
    }
}

} // verus!

verus! {

/// A schema name is accepted exactly when it has 1 to 64 characters, starts
/// with an ASCII letter, and holds only ASCII letters, digits, `_` and `-`.
pub proof fn schema_name_rule(name: Seq<char>)
    ensures
        schema_name_error(name).is_none() <==> (1 <= name.len() <= 64 && is_ascii_alpha(name[0])
            && all_ident_chars(name)),
{
    if all_ident_chars(name) {
        lemma_ident_utf8_len(name);
    }
}

} // verus!
