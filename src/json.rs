//! JSON documents as plain values, read from text by serde_json.
use vstd::prelude::*;

use crate::text::str_eq;

verus! {

/// A JSON value. An object keeps its members in the order the parser gives them.
#[derive(Debug)]
pub enum JsonValue {
    Null,
    Bool(bool),
    Number(String),
    Str(String),
    Array(Vec<JsonValue>),
    Object(Vec<(String, JsonValue)>),
}

#[verifier::external_type_specification]
#[verifier::external_body]
pub struct ExSerdeJsonValue(serde_json::Value);

/// What serde_json makes of the text `text`: the JSON value it denotes, or
/// the parser's description of why it is no JSON.
pub uninterp spec fn json_parse_of(text: Seq<char>) -> Result<JsonValue, Seq<char>>;

/// Relies on `serde_json::from_str` into a `serde_json::Value`: the value, or
/// the error's message, depends on the text alone.
#[verifier::external_body]
pub(crate) fn parse_json(text: &str) -> (r: Result<JsonValue, String>)
    ensures
        match r {
            Ok(v) => json_parse_of(text@) == Ok::<JsonValue, Seq<char>>(v),
            Err(m) => json_parse_of(text@) == Err::<JsonValue, Seq<char>>(m@),
        },
{
    match serde_json::from_str::<serde_json::Value>(text) {
        Ok(v) => Ok(from_serde(v)),
        Err(e) => Err(e.to_string()),
    }
}

/// Moves a `serde_json::Value` into a `JsonValue`, variant for variant.
#[verifier::external_body]
fn from_serde(v: serde_json::Value) -> JsonValue {
    match v {
        serde_json::Value::Null => JsonValue::Null,
        serde_json::Value::Bool(b) => JsonValue::Bool(b),
        serde_json::Value::Number(n) => JsonValue::Number(n.to_string()),
        serde_json::Value::String(s) => JsonValue::Str(s),
        serde_json::Value::Array(a) => JsonValue::Array(a.into_iter().map(from_serde).collect()),
        serde_json::Value::Object(m) => JsonValue::Object(
            m.into_iter().map(|(k, x)| (k, from_serde(x))).collect(),
        ),
    }
}

/// The member `name` of an object with members `fields`; the last one where
/// the name occurs twice.
pub open spec fn field(fields: Seq<(String, JsonValue)>, name: Seq<char>) -> Option<JsonValue>
    decreases fields.len(),
{
    if fields.len() == 0 {
        None
    } else if fields.last().0@ == name {
        Some(fields.last().1)
    } else {
        field(fields.drop_last(), name)
    }
}

pub fn get_field<'a>(fields: &'a Vec<(String, JsonValue)>, name: &str) -> (r: Option<&'a JsonValue>)
    ensures
        match r {
            Some(x) => field(fields@, name@) == Some(*x),
            None => field(fields@, name@) is None,
        },
{
    let mut i: usize = fields.len();
    assert(fields@.take(i as int) =~= fields@);
    while i > 0
        invariant
            i <= fields@.len(),
            field(fields@, name@) == field(fields@.take(i as int), name@),
        decreases i,
    {
        assert(fields@.take(i as int).drop_last() =~= fields@.take(i - 1));
        if str_eq(fields[i - 1].0.as_str(), name) {
            return Some(&fields[i - 1].1);
        }
        i = i - 1;
    }
    None
}

} // verus!
