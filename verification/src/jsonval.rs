//! Trusted access to JSON text through `serde_json`. The worker and
//! the caller speak one JSON object per line; the named projections
//! here read a document's top-level members as plain data, so
//! verified contracts can speak of a line's content while the parsed
//! value itself stays opaque to the verifier.

use vstd::prelude::*;

verus! {

#[verifier::external_type_specification]
#[verifier::external_body]
pub struct ExValue(serde_json::Value);

/// Relies on `serde_json::Value`'s `Display`: the compact JSON text
/// of the value. Nothing is assumed of the text.
#[verifier::external_body]
pub fn json_to_text(v: &serde_json::Value) -> String {
    v.to_string()
}

/// The string member under a top-level key of a JSON document: absent
/// when the text is not a JSON object, the key is missing, or the
/// member is not a string. A function of the text and the key alone.
pub uninterp spec fn json_top_str(s: Seq<char>, key: Seq<char>) -> Option<Seq<char>>;

/// Relies on `serde_json::from_str`, `Value::get` and `Value::as_str`:
/// parse the document and project the string member under a top-level
/// key, the result [`json_top_str`] names.
#[verifier::external_body]
pub fn json_get_top_str(s: &str, key: &str) -> (r: Option<String>)
    ensures
        match r {
            Some(t) => json_top_str(s@, key@) == Some(t@),
            None => json_top_str(s@, key@) is None,
        },
{
    serde_json::from_str::<serde_json::Value>(s)
        .ok()
        .and_then(|v| v.get(key).and_then(|m| m.as_str()).map(String::from))
}

/// Whether the text is one well-formed JSON document. A function of
/// the text alone.
pub uninterp spec fn json_is_doc(s: Seq<char>) -> bool;

/// Relies on `serde_json::from_str`: whether the text parses as one
/// JSON document, the outcome [`json_is_doc`] names.
#[verifier::external_body]
pub fn json_parses(s: &str) -> (r: bool)
    ensures
        r == json_is_doc(s@),
{
    serde_json::from_str::<serde_json::Value>(s).is_ok()
}

/// The signed-integer member under a top-level key of a JSON
/// document, when there is one. A function of the text and the key.
pub uninterp spec fn json_top_i64(s: Seq<char>, key: Seq<char>) -> Option<i64>;

/// Relies on `serde_json::from_str`, `Value::get` and `Value::as_i64`:
/// the member [`json_top_i64`] names.
#[verifier::external_body]
pub fn json_get_top_i64(s: &str, key: &str) -> (r: Option<i64>)
    ensures
        r == json_top_i64(s@, key@),
{
    serde_json::from_str::<serde_json::Value>(s)
        .ok()
        .and_then(|v| v.get(key).and_then(|m| m.as_i64()))
}

/// The unsigned-integer member under a top-level key of a JSON
/// document, when there is one. A function of the text and the key.
pub uninterp spec fn json_top_u64(s: Seq<char>, key: Seq<char>) -> Option<u64>;

/// Relies on `serde_json::from_str`, `Value::get` and `Value::as_u64`:
/// the member [`json_top_u64`] names.
#[verifier::external_body]
pub fn json_get_top_u64(s: &str, key: &str) -> (r: Option<u64>)
    ensures
        r == json_top_u64(s@, key@),
{
    serde_json::from_str::<serde_json::Value>(s)
        .ok()
        .and_then(|v| v.get(key).and_then(|m| m.as_u64()))
}

/// The boolean member under a top-level key of a JSON document, when
/// there is one. A function of the text and the key.
pub uninterp spec fn json_top_bool(s: Seq<char>, key: Seq<char>) -> Option<bool>;

/// Relies on `serde_json::from_str`, `Value::get` and `Value::as_bool`:
/// the member [`json_top_bool`] names.
#[verifier::external_body]
pub fn json_get_top_bool(s: &str, key: &str) -> (r: Option<bool>)
    ensures
        r == json_top_bool(s@, key@),
{
    serde_json::from_str::<serde_json::Value>(s)
        .ok()
        .and_then(|v| v.get(key).and_then(|m| m.as_bool()))
}

/// The compact JSON text of the member under a top-level key, when
/// the key is present. A function of the text and the key alone.
pub uninterp spec fn json_top_text(s: Seq<char>, key: Seq<char>) -> Option<Seq<char>>;

/// Relies on `serde_json::from_str`, `Value::get` and `Value`'s
/// `Display`: the rendering [`json_top_text`] names.
#[verifier::external_body]
pub fn json_get_top_text(s: &str, key: &str) -> (r: Option<String>)
    ensures
        match r {
            Some(t) => json_top_text(s@, key@) == Some(t@),
            None => json_top_text(s@, key@) is None,
        },
{
    serde_json::from_str::<serde_json::Value>(s)
        .ok()
        .and_then(|v| v.get(key).map(|m| m.to_string()))
}

/// The compact JSON text of the member under a top-level key, when
/// that member is a number. A function of the text and the key alone.
pub uninterp spec fn json_top_num(s: Seq<char>, key: Seq<char>) -> Option<Seq<char>>;

/// Relies on `serde_json::from_str`, `Value::get`, `Value::is_number`
/// and `Value`'s `Display`: the rendering [`json_top_num`] names.
#[verifier::external_body]
pub fn json_get_top_num(s: &str, key: &str) -> (r: Option<String>)
    ensures
        match r {
            Some(t) => json_top_num(s@, key@) == Some(t@),
            None => json_top_num(s@, key@) is None,
        },
{
    serde_json::from_str::<serde_json::Value>(s)
        .ok()
        .and_then(|v| v.get(key).filter(|m| m.is_number()).map(|m| m.to_string()))
}

} // verus!
