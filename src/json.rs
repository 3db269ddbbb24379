//! Reading JSON objects embedded in log text.

use vstd::prelude::*;
use crate::record::{attrs_view, keys_unique, AttrValue, AttrsView};

verus! {

/// The fields of `text` read as a JSON object, in the order of serde_json's
/// map; `None` when `text` is not one.
pub uninterp spec fn json_object_of(text: Seq<char>) -> Option<AttrsView>;

/// Relies on `serde_json::from_str` into a `serde_json::Value`: an object
/// gives its fields, each key once (serde_json's `Map`); a string field keeps
/// its text, any other field its JSON encoding.
#[verifier::external_body]
pub(crate) fn parse_object(text: &str) -> (r: Option<Vec<(String, AttrValue)>>)
    ensures
        r is Some <==> json_object_of(text@) is Some,
        r is Some ==> attrs_view(r->0@) == json_object_of(text@)->0,
        r is Some ==> keys_unique(attrs_view(r->0@)),
{
    match serde_json::from_str::<serde_json::Value>(text) {
        Ok(serde_json::Value::Object(m)) => Some(m.into_iter().map(|(k, v)| match v {
            serde_json::Value::String(s) => (k, AttrValue::Str(s)),
            other => (k, AttrValue::Json(other.to_string())),
        }).collect()),
        _ => None,
    }
}

} // verus!
