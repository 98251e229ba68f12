//! JSON values as fragments carry them in their extra fields.

use vstd::prelude::*;

use crate::error::ParcError;

verus! {

/// A JSON value. A number is held as the text `serde_json` prints for it;
/// an array or an object also holds the compact JSON text `serde_json`
/// prints for the whole value, which is how such values appear where a
/// fragment is written out.
#[derive(Debug)]
pub enum JsonValue {
    Null,
    Bool(bool),
    Number(String),
    String(String),
    Array(Vec<JsonValue>, String),
    Object(Vec<(String, JsonValue)>, String),
}

/// The value `serde_yaml` reads from a YAML text, carried into a JSON
/// value by `serde_json::to_value`; `None` when either refuses it.
pub uninterp spec fn yaml_json(text: Seq<char>) -> Option<JsonValue>;

/// The array `serde_json::from_str::<Vec<Value>>` reads from a text;
/// `None` when it refuses the text.
pub uninterp spec fn json_array(text: Seq<char>) -> Option<Seq<JsonValue>>;

/// `serde_json::Value`, carried through unread.
#[verifier::external_type_specification]
#[verifier::external_body]
pub struct ExJsonValue(serde_json::Value);

/// `serde_json::Value` as the library holds it.
#[verifier::external_body]
pub(crate) fn from_serde(v: &serde_json::Value) -> JsonValue {
    match v {
        serde_json::Value::Null => JsonValue::Null,
        serde_json::Value::Bool(b) => JsonValue::Bool(*b),
        serde_json::Value::Number(n) => JsonValue::Number(n.to_string()),
        serde_json::Value::String(s) => JsonValue::String(s.clone()),
        serde_json::Value::Array(a) => JsonValue::Array(a.iter().map(from_serde).collect(), v.to_string()),
        serde_json::Value::Object(m) => JsonValue::Object(
            m.iter().map(|(k, x)| (k.clone(), from_serde(x))).collect(),
            v.to_string(),
        ),
    }
}

/// `serde_yaml::from_str::<serde_yaml::Value>(text)`, then
/// `serde_json::to_value` of it: the value is named `yaml_json(text)`;
/// a refusal of the first is a YAML error, of the second a JSON error,
/// each with the message of the outside error.
#[verifier::external_body]
pub(crate) fn parse_yaml_value(text: &str) -> (r: Result<JsonValue, ParcError>)
    ensures
        match yaml_json(text@) {
            Some(v) => r == Ok::<JsonValue, ParcError>(v),
            None => r matches Err(e) && (e is Yaml || e is Json),
        },
{
    let y: serde_yaml::Value = match serde_yaml::from_str(text) {
        Ok(y) => y,
        Err(e) => return Err(ParcError::Yaml(e.to_string())),
    };
    match serde_json::to_value(&y) {
        Ok(j) => Ok(from_serde(&j)),
        Err(e) => Err(ParcError::Json(e.to_string())),
    }
}

/// `serde_json::from_str::<Vec<serde_json::Value>>(text)`: the entries are
/// named `json_array(text)`; a refusal gives the outside error's message.
#[verifier::external_body]
pub(crate) fn parse_json_array(text: &str) -> (r: Result<Vec<JsonValue>, String>)
    ensures
        match json_array(text@) {
            Some(v) => r matches Ok(x) && x@ == v,
            None => r is Err,
        },
{
    match serde_json::from_str::<Vec<serde_json::Value>>(text) {
        Ok(v) => Ok(v.iter().map(from_serde).collect()),
        Err(e) => Err(e.to_string()),
    }
}

/// The text of a value that is a JSON string, if it is one (`as_str`).
pub open spec fn as_str_spec(v: JsonValue) -> Option<Seq<char>> {
    match v {
        JsonValue::String(s) => Some(s@),
        _ => None,
    }
}

impl JsonValue {
    /// The text, if this value is a JSON string.
    pub fn as_str(&self) -> (r: Option<&String>)
        ensures
            match r {
                Some(s) => as_str_spec(*self) == Some(s@),
                None => as_str_spec(*self).is_none(),
            },
    {
        match self {
            JsonValue::String(s) => Some(s),
            _ => None,
        }
    }
}

/// The strings among an array's items, in order (`filter_map(as_str)`).
pub open spec fn string_items(items: Seq<JsonValue>) -> Seq<Seq<char>>
    decreases items.len(),
{
    if items.len() == 0 {
        Seq::empty()
    } else {
        let rest = string_items(items.drop_last());
        match items.last() {
            JsonValue::String(s) => rest.push(s@),
            _ => rest,
        }
    }
}

/// The strings of an array value, or nothing for any other value.
pub open spec fn string_list(v: Option<JsonValue>) -> Seq<Seq<char>> {
    match v {
        Some(JsonValue::Array(items, _)) => string_items(items@),
        _ => Seq::empty(),
    }
}

/// The strings among the items, in order.
pub fn strings_of(items: &Vec<JsonValue>) -> (r: Vec<String>)
    ensures
        crate::text::texts(r@) == string_items(items@),
{
    let mut out: Vec<String> = Vec::new();
    let mut i: usize = 0;
    while i < items.len()
        invariant
            i <= items.len(),
            crate::text::texts(out@) == string_items(items@.subrange(0, i as int)),
        decreases items.len() - i,
    {
        assert(items@.subrange(0, i + 1).drop_last() =~= items@.subrange(0, i as int));
        match &items[i] {
            JsonValue::String(s) => {
                let ghost before = out@;
                out.push(s.clone());
                assert(crate::text::texts(out@) =~= crate::text::texts(before).push(s@));
            },
            _ => {},
        }
        i = i + 1;
    }
    assert(items@.subrange(0, items@.len() as int) =~= items@);
    out
}

} // verus!
