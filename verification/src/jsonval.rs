//! Trusted declarations for the JSON trees the search engine returns.
//!
//! The engine's reply is parsed by serde_json; its `Value` tree is opaque
//! to the verifier, so each step the read path takes on it stands behind a
//! small trusted wrapper here. The wrappers only carry values across: what
//! the library then concludes from the extracted plain text is verified in
//! the read module.

use vstd::prelude::*;

verus! {

#[verifier::external_type_specification]
#[verifier::external_body]
pub struct ExValue(serde_json::Value);

#[verifier::external_type_specification]
#[verifier::external_body]
pub struct ExNumber(serde_json::Number);

/// Relies on `serde_json::from_str`: parses a JSON document, `None` when
/// the text is not valid JSON.
#[verifier::external_body]
pub(crate) fn parse_json(s: &str) -> (r: Option<serde_json::Value>) {
    serde_json::from_str(s).ok()
}

/// Relies on `serde_json::Value::get`: the member of an object under a
/// key, `None` for missing members and for non-objects.
#[verifier::external_body]
pub(crate) fn json_get<'a>(v: &'a serde_json::Value, key: &str) -> (r: Option<
    &'a serde_json::Value,
>) {
    v.get(key)
}

/// Relies on `serde_json::Value::is_null`.
#[verifier::external_body]
pub(crate) fn json_is_null(v: &serde_json::Value) -> (r: bool) {
    v.is_null()
}

/// Relies on `serde_json::Value::is_object`.
#[verifier::external_body]
pub(crate) fn json_is_object(v: &serde_json::Value) -> (r: bool) {
    v.is_object()
}

/// Relies on `serde_json::Value::as_str`: the text of a string value,
/// `None` for any other value.
#[verifier::external_body]
pub(crate) fn json_as_str<'a>(v: &'a serde_json::Value) -> (r: Option<&'a str>) {
    v.as_str()
}

/// Relies on `serde_json::Value::as_array`: the elements of an array
/// value, `None` for any other value.
#[verifier::external_body]
pub(crate) fn json_as_array<'a>(v: &'a serde_json::Value) -> (r: Option<
    &'a Vec<serde_json::Value>,
>) {
    v.as_array()
}

/// Relies on `serde_json::Value::as_number`: the number held by a number
/// value, `None` for any other value.
#[verifier::external_body]
pub(crate) fn json_as_number<'a>(v: &'a serde_json::Value) -> (r: Option<&'a serde_json::Number>) {
    v.as_number()
}

/// Relies on `serde_json::Number`'s `Display` implementation: the decimal
/// text of the parsed number. The text is re-rendered from the machine
/// number (its shortest round-tripping form), so its spelling can differ
/// from the document's.
#[verifier::external_body]
pub(crate) fn json_number_text(n: &serde_json::Number) -> (r: String) {
    n.to_string()
}

} // verus!
