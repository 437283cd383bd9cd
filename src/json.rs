//! The outside JSON library as the decoder relies on it.
use vstd::prelude::*;

verus! {

/// `serde_json::Value`, a parsed JSON document, carried opaquely.
#[verifier::external_type_specification]
#[verifier::external_body]
pub struct ExJsonValue(serde_json::Value);

/// `serde_json::Error`, why a text was not accepted, carried opaquely.
#[verifier::external_type_specification]
#[verifier::external_body]
pub struct ExJsonError(serde_json::Error);

/// Whether serde_json's parser accepts `text` as one JSON document (well-formed
/// UTF-8 JSON, nothing but whitespace after it, nesting within its depth
/// limit).
pub uninterp spec fn is_json(text: Seq<u8>) -> bool;

/// A parsed JSON document. A number is kept as its text; an object as its
/// members, in the parser's order.
pub enum Json {
    Null,
    Bool(bool),
    Number(Vec<u8>),
    Str(String),
    Array(Vec<Json>),
    Object(Vec<(String, Json)>),
}

/// The document that serde_json parses from `text`.
pub uninterp spec fn json_of(text: Seq<u8>) -> Json;

/// Relies on `serde_json::from_slice` into a `Value`: whether it succeeds,
/// and the document it gives, depend on the bytes alone.
#[verifier::external_body]
pub(crate) fn parse_json(bytes: &[u8]) -> (r: Result<Json, serde_json::Error>)
    ensures
        r is Ok <==> is_json(bytes@),
        r is Ok ==> r->Ok_0 == json_of(bytes@),
{
    serde_json::from_slice::<serde_json::Value>(bytes).map(json_from_value)
}

/// Relies on the variants of `serde_json::Value`, on the `Display` impl of
/// `serde_json::Number` for a number's text, and on iterating a
/// `serde_json::Map` for its members.
#[verifier::external_body]
fn json_from_value(v: serde_json::Value) -> Json {
    match v {
        serde_json::Value::Null => Json::Null,
        serde_json::Value::Bool(b) => Json::Bool(b),
        serde_json::Value::Number(n) => Json::Number(n.to_string().into_bytes()),
        serde_json::Value::String(s) => Json::Str(s),
        serde_json::Value::Array(a) => Json::Array(a.into_iter().map(json_from_value).collect()),
        serde_json::Value::Object(m) => Json::Object(
            m.into_iter().map(|(k, v)| (k, json_from_value(v))).collect(),
        ),
    }
}

/// Relies on the `Display` impl of `serde_json::Error` for a readable cause.
#[verifier::external_body]
pub(crate) fn error_message(e: &serde_json::Error) -> (r: String) {
    e.to_string()
}

/// Relies on the `Clone` impl of `Value`, for the types that hold one.
pub assume_specification[ <serde_json::Value as Clone>::clone ](
    v: &serde_json::Value,
) -> serde_json::Value;

} // verus!
