//! Reading the few members of a JSON document (a `package.json`, an MCP
//! message) that the library looks at. Decoding JSON is serde_json's; these
//! wrappers hand back plain values.
use vstd::prelude::*;

verus! {

/// The keys of the object at member `field` of the JSON document `text`, as
/// serde_json lists them; `None` when `text` is not JSON or that member is
/// missing or not an object.
pub uninterp spec fn json_member_keys(text: Seq<char>, field: Seq<char>) -> Option<Seq<Seq<char>>>;

/// The string at member `field` of the JSON document `text`; `None` when
/// `text` is not JSON or that member is missing or not a string.
pub uninterp spec fn json_member_string(text: Seq<char>, field: Seq<char>) -> Option<Seq<char>>;

/// The views of an optional list of strings.
pub open spec fn keys_view(keys: Option<Vec<String>>) -> Option<Seq<Seq<char>>> {
    match keys {
        Some(v) => Some(crate::strings::string_views(v@)),
        None => None,
    }
}

/// Parses `text` with `serde_json::from_str` and lists the keys of the
/// object at member `field` (`Value::get`, `Value::as_object`, `Map::keys`).
#[verifier::external_body]
pub(crate) fn member_keys(text: &str, field: &str) -> (res: Option<Vec<String>>)
    ensures
        keys_view(res) == json_member_keys(text@, field@),
{
    let value: serde_json::Value = serde_json::from_str(text).ok()?;
    Some(value.get(field)?.as_object()?.keys().cloned().collect())
}

/// Parses `text` with `serde_json::from_str` and reads the string at member
/// `field` (`Value::get`, `Value::as_str`).
#[verifier::external_body]
pub(crate) fn member_string(text: &str, field: &str) -> (res: Option<String>)
    ensures
        crate::syntax::opt_view(res) == json_member_string(text@, field@),
{
    let value: serde_json::Value = serde_json::from_str(text).ok()?;
    Some(value.get(field)?.as_str()?.to_string())
}

/// Whether `text` is a JSON document, as `serde_json::from_str` decides.
pub uninterp spec fn json_parses(text: Seq<char>) -> bool;

/// Whether the JSON document `text` has a member `field` (of any value,
/// `null` included); false when `text` is not JSON or not an object.
pub uninterp spec fn json_has_member(text: Seq<char>, field: Seq<char>) -> bool;

/// Parses `text` with `serde_json::from_str` and reports whether it is JSON.
#[verifier::external_body]
pub(crate) fn parses_as_json(text: &str) -> (res: bool)
    ensures
        res == json_parses(text@),
{
    serde_json::from_str::<serde_json::Value>(text).is_ok()
}

/// Parses `text` with `serde_json::from_str` and reports whether the
/// document has a member `field` (`Value::get`).
#[verifier::external_body]
pub(crate) fn has_member(text: &str, field: &str) -> (res: bool)
    ensures
        res == json_has_member(text@, field@),
{
    match serde_json::from_str::<serde_json::Value>(text) {
        Ok(value) => value.get(field).is_some(),
        Err(_) => false,
    }
}

} // verus!
