//! A JSON value tree, produced by `serde_json` and then walked by verified
//! code. Numeric leaves stay as `serde_json::Number`, which this library
//! treats as opaque: it never computes with them, it only counts and
//! forwards them.
use vstd::prelude::*;

verus! {

/// `serde_json::Number` appears as the numeric leaf of [`Json`]; this library
/// carries such values through without reading them.
#[verifier::external_type_specification]
#[verifier::external_body]
pub struct ExNumber(serde_json::Number);

/// `serde_json::Value` appears only as the argument of the conversion helper
/// below; verified code never holds one.
#[verifier::external_type_specification]
#[verifier::external_body]
pub struct ExValue(serde_json::Value);

/// Relies on the derived `Clone` of `serde_json::Number`: a field-for-field
/// copy, so the clone equals the value it was made from.
pub assume_specification[ <serde_json::Number as Clone>::clone ](
    n: &serde_json::Number,
) -> (r: serde_json::Number)
    ensures
        r == *n,
;

/// One member of a JSON object: its key and its value.
pub struct JsonField {
    pub key: Vec<u8>,
    pub value: Json,
}

/// A decoded JSON document. Strings are carried as their UTF-8 bytes; object
/// members appear in `serde_json`'s order for object keys (sorted ascending),
/// each key at most once.
pub enum Json {
    Null,
    Bool(bool),
    Num(serde_json::Number),
    Str(Vec<u8>),
    Arr(Vec<Json>),
    Obj(Vec<JsonField>),
}

/// The parse of `s` as one JSON document, carried over to this library's
/// [`Json`] tree: `None` when the parser refuses the bytes (not one valid
/// JSON document, or nesting beyond the parser's limit). The result is a
/// function of the bytes alone; nothing further is assumed about it.
pub uninterp spec fn json_of(s: Seq<u8>) -> Option<Json>;

/// Relies on `serde_json::from_slice::<serde_json::Value>`: parses one JSON
/// document from bytes, deterministically in the bytes alone, returning `Err`
/// on input it refuses. The parsed value is restated as this library's
/// [`Json`] tree, named by [`json_of`].
#[verifier::external_body]
pub(crate) fn parse_json(line: &Vec<u8>) -> (r: Option<Json>)
    ensures
        r == json_of(line@),
{
    match serde_json::from_slice::<serde_json::Value>(line) {
        Ok(v) => Some(json_from_value(v)),
        Err(_) => None,
    }
}

/// Restates a `serde_json::Value` as this library's [`Json`], variant by
/// variant, moving each field; object members keep the map's iteration order.
#[verifier::external_body]
fn json_from_value(v: serde_json::Value) -> Json {
    match v {
        serde_json::Value::Null => Json::Null,
        serde_json::Value::Bool(b) => Json::Bool(b),
        serde_json::Value::Number(n) => Json::Num(n),
        serde_json::Value::String(s) => Json::Str(s.into_bytes()),
        serde_json::Value::Array(a) => Json::Arr(a.into_iter().map(json_from_value).collect()),
        serde_json::Value::Object(m) => Json::Obj(
            m.into_iter().map(|(k, v)| JsonField { key: k.into_bytes(), value: json_from_value(v) }).collect(),
        ),
    }
}

} // verus!
