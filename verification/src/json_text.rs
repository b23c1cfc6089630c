//! Reading JSON text.
use vstd::prelude::*;
use crate::json::{Json, JsonNumber, JsonView};
use crate::roundtrip::plain;
use crate::strmap::StrMap;

verus! {

/// `serde_json::Value`, opaque here: it is only carried from the parse to
/// its conversion.
#[verifier::external_type_specification]
#[verifier::external_body]
pub struct ExSerdeJsonValue(serde_json::Value);

/// What `serde_json::from_str::<serde_json::Value>` gives for a text: the
/// parsed value (an object's members in the order its `serde_json::Map`
/// walks them, numbers that are `i64`s held as such), or the text of the
/// parse error.
pub uninterp spec fn parsed_json(text: Seq<char>) -> Result<JsonView, Seq<char>>;

/// `serde_json::from_str::<serde_json::Value>`, its value taken over one for
/// one and its error by its message. A parsed value is plain: a
/// `serde_json::Map` holds each key once, and a `serde_json::Number` is never
/// infinite or NaN (its documentation: such values are not JSON numbers).
/// Nothing is stated of which texts parse or of the error messages; both are
/// only named.
#[verifier::external_body]
pub(crate) fn parse_json(text: &str) -> (r: Result<Json, String>)
    ensures
        match r {
            Ok(j) => parsed_json(text@) == Ok::<JsonView, Seq<char>>(j@) && plain(j@),
            Err(e) => parsed_json(text@) == Err::<JsonView, Seq<char>>(e@),
        },
{
    match serde_json::from_str::<serde_json::Value>(text) {
        Ok(v) => Ok(json_of_serde(&v)),
        Err(e) => Err(e.to_string()),
    }
}

/// Takes a parsed `serde_json::Value` over one for one: an object's members
/// in the order its map walks them, a number as `i64` when it is one and
/// otherwise by the bits of its double value.
#[verifier::external_body]
fn json_of_serde(v: &serde_json::Value) -> Json {
    match v {
        serde_json::Value::Null => Json::Null,
        serde_json::Value::Bool(b) => Json::Bool(*b),
        serde_json::Value::Number(n) => match n.as_i64() {
            Some(i) => Json::Number(JsonNumber::Int(i)),
            None => Json::Number(JsonNumber::Real(n.as_f64().map_or(0, |x| x.to_bits()))),
        },
        serde_json::Value::String(s) => Json::Str(s.clone()),
        serde_json::Value::Array(a) => Json::Array(a.iter().map(json_of_serde).collect()),
        serde_json::Value::Object(m) => Json::Object(StrMap { entries: m.iter().map(|(k, x)| (k.clone(), json_of_serde(x))).collect() }),
    }
}

} // verus!
