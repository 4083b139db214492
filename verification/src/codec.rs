//! The library's boundary with the JSON crate: parsing text into the model
//! tree and rendering the model tree back to text.  Only the items marked
//! `external_body` are taken on trust; everything else is verified against
//! their contracts.

use vstd::prelude::*;
use crate::json::{Json, JsonV, jv};

verus! {

#[verifier::external_type_specification]
#[verifier::external_body]
pub struct ExValue(serde_json::Value);

#[verifier::external_type_specification]
#[verifier::external_body]
pub struct ExNumber(serde_json::Number);

/// The model tree a `serde_json::Value` holds.
pub uninterp spec fn value_view(v: serde_json::Value) -> JsonV;

/// The tree that parsing a text as JSON yields, `None` when the parser
/// rejects the text.  The result depends on the text alone.
pub uninterp spec fn parse_of(s: Seq<char>) -> Option<JsonV>;

/// The text that serialising a model tree yields.  The result depends on the
/// tree alone: equal keys collapse to the last entry and entries come out in
/// the serialiser's own key order, so two trees with one view serialise to
/// one text.
pub uninterp spec fn render_of(j: JsonV) -> Seq<char>;

/// Relies on `serde_json::from_str::<serde_json::Value>`: parsing is a
/// function of the input text alone, and whether it succeeds depends on the
/// text alone; `parse_of` names the outcome.
#[verifier::external_body]
fn from_str_value(s: &str) -> (r: Option<serde_json::Value>)
    ensures
        match r {
            Some(v) => parse_of(s@) == Some(value_view(v)),
            None => parse_of(s@) is None,
        },
{
    serde_json::from_str::<serde_json::Value>(s).ok()
}

/// Relies on the variant structure of `serde_json::Value`: each variant
/// moves to the corresponding constructor of the library's tree, object
/// entries in the order the crate's map iterates them.
#[verifier::external_body]
fn value_to_json(v: serde_json::Value) -> (r: Json)
    ensures
        jv(r) == value_view(v),
{
    match v {
        serde_json::Value::Null => Json::Null,
        serde_json::Value::Bool(b) => Json::Bool(b),
        serde_json::Value::Number(n) => Json::Num(n),
        serde_json::Value::String(s) => Json::Str(s),
        serde_json::Value::Array(a) => Json::Arr(a.into_iter().map(value_to_json).collect()),
        serde_json::Value::Object(m) => Json::Obj(
            m.into_iter().map(|(k, x)| (k, value_to_json(x))).collect(),
        ),
    }
}

/// Rebuilds the crate's `serde_json::Value` from the model tree, entry by
/// entry; on equal keys the crate's map keeps the last, as `render_of`
/// states.  Carries no contract of its own: it serves `to_text` only.
#[verifier::external_body]
fn json_to_value(j: Json) -> serde_json::Value {
    match j {
        Json::Null => serde_json::Value::Null,
        Json::Bool(b) => serde_json::Value::Bool(b),
        Json::Num(n) => serde_json::Value::Number(n),
        Json::Str(s) => serde_json::Value::String(s),
        Json::Arr(a) => serde_json::Value::Array(a.into_iter().map(json_to_value).collect()),
        Json::Obj(o) => serde_json::Value::Object(
            o.into_iter().map(|(k, x)| (k, json_to_value(x))).collect(),
        ),
    }
}

/// Relies on `serde_json::to_string`: serialising a value tree is a function
/// of the tree alone and cannot fail, since every key of such a tree is a
/// string.
#[verifier::external_body]
fn to_text(j: Json) -> (r: String)
    ensures
        r@ == render_of(jv(j)),
{
    serde_json::to_string(&json_to_value(j)).expect("serialising a value tree cannot fail")
}

/// Parses a text as JSON into the library's model tree; `None` exactly when
/// the parser rejects the text.
pub fn parse_json(s: &str) -> (r: Option<Json>)
    ensures
        match r {
            Some(j) => parse_of(s@) == Some(jv(j)),
            None => parse_of(s@) is None,
        },
{
    match from_str_value(s) {
        Some(v) => Some(value_to_json(v)),
        None => None,
    }
}

/// Whether a text is well-formed JSON.
pub fn json_ok(s: &str) -> (r: bool)
    ensures
        r == (parse_of(s@) is Some),
{
    parse_json(s).is_some()
}

/// Renders a model tree back to JSON text.
pub fn render_json(j: Json) -> (r: String)
    ensures
        r@ == render_of(jv(j)),
{
    to_text(j)
}

} // verus!
