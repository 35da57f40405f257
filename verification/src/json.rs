//! Documents from JSON text, read by `serde_json`.

use vstd::prelude::*;
use crate::document::{Document, DocumentView, Member};

verus! {

/// `serde_json::Value`: a JSON value of any kind. Nothing is known of what
/// is in one but what [`value_document`] names.
#[verifier::external_type_specification]
#[verifier::external_body]
pub struct ExValue(serde_json::Value);

/// The document that `serde_json::from_str` reads from `text`, where it
/// reads one. It reads none from a text that is not JSON, and none from
/// JSON that is nested deeper than it follows.
pub uninterp spec fn json_document(text: Seq<char>) -> Option<DocumentView>;

/// The document that a `serde_json::Value` holds.
pub uninterp spec fn value_document(value: serde_json::Value) -> DocumentView;

/// `serde_json::from_str`, read as a `serde_json::Value`. Whether it gives a
/// value, and which, depends on the text alone; of the texts that it
/// refuses the contract says no more than that.
#[verifier::external_body]
fn from_str(text: &str) -> (parsed: Option<serde_json::Value>)
    ensures
        match parsed {
            Some(value) => json_document(text@) == Some(value_document(value)),
            None => json_document(text@) is None,
        },
{
    serde_json::from_str::<serde_json::Value>(text).ok()
}

/// Copies a `serde_json::Value` into a [`Document`], variant by variant: a
/// number through `serde_json::Number::as_u64`, the members of an object in
/// the order of `serde_json::Map::iter`.
#[verifier::external_body]
fn to_document(value: &serde_json::Value) -> (document: Document)
    ensures
        document.deep_view() == value_document(*value),
{
    match value {
        serde_json::Value::Null => Document::Null,
        serde_json::Value::Bool(b) => Document::Bool(*b),
        serde_json::Value::Number(n) => Document::Number(n.as_u64()),
        serde_json::Value::String(s) => Document::Text(s.clone()),
        serde_json::Value::Array(items) => Document::Array(items.iter().map(to_document).collect()),
        serde_json::Value::Object(map) => Document::Object(
            map.iter().map(|(k, v)| Member { key: k.clone(), value: to_document(v) }).collect(),
        ),
    }
}

/// Reads `text` as JSON: the document that `serde_json` reads from it, or
/// `None` where it reads none.
pub fn read_document(text: &str) -> (read: Option<Document>)
    ensures
        read.deep_view() == json_document(text@),
{
    match from_str(text) {
        Some(value) => Some(to_document(&value)),
        None => None,
    }
}

} // verus!
