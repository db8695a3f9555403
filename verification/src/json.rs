//! JSON documents as plain data, and their decoding from text.

use serde_json::Value;
use vstd::prelude::*;

verus! {

/// A JSON document.
#[derive(Debug, PartialEq, Eq)]
pub enum Json {
    Null,
    Bool(bool),
    /// A number, in the characters in which JSON writes it.
    Number(Vec<u8>),
    Text(Vec<u8>),
    Array(Vec<Json>),
    Object(Vec<Member>),
}

/// One member of a JSON object.
#[derive(Debug, PartialEq, Eq)]
pub struct Member {
    pub key: Vec<u8>,
    pub value: Json,
}

/// A JSON document as `serde_json` holds it.
#[verifier::external_type_specification]
#[verifier::external_body]
pub struct ExValue(Value);

/// The document that a JSON text denotes, as `serde_json` reads it; `None`
/// where the text is not JSON. The members of an object stand in the order in
/// which `serde_json` keeps them.
pub uninterp spec fn json_document(text: Seq<char>) -> Option<Json>;

/// Copies a `serde_json::Value` into a `Json`, variant by variant: a number
/// as the text that its `to_string` gives, a string as its bytes, the items of
/// an array and the members of an object each copied in the same way, in the
/// order in which the `Value` yields them. Nothing is proved of it.
#[verifier::external_body]
fn json_from_value(value: Value) -> (doc: Json) {
    match value {
        Value::Null => Json::Null,
        Value::Bool(flag) => Json::Bool(flag),
        Value::Number(number) => Json::Number(number.to_string().into_bytes()),
        Value::String(text) => Json::Text(text.into_bytes()),
        Value::Array(items) => Json::Array(items.into_iter().map(json_from_value).collect()),
        Value::Object(members) => Json::Object(
            members
                .into_iter()
                .map(|(key, value)| Member { key: key.into_bytes(), value: json_from_value(value) })
                .collect(),
        ),
    }
}

/// Reads a JSON text with `serde_json::from_str` and copies what it gives into
/// a `Json`. The contract only names the result: it is the document that
/// `serde_json` finds in the text, and `None` where it reports an error.
#[verifier::external_body]
pub(crate) fn decode_json(text: &str) -> (r: Option<Json>)
    ensures
        r == json_document(text@),
{
    match serde_json::from_str::<Value>(text) {
        Ok(value) => Some(json_from_value(value)),
        Err(_) => None,
    }
}

} // verus!
