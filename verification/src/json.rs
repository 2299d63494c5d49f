//! JSON, read and written by `serde_json`. A value is known here by the
//! document it holds, and an object by its fields; what the documents look
//! like is up to `serde_json`.

use vstd::prelude::*;

verus! {

#[verifier::external_type_specification]
#[verifier::external_body]
pub struct ExJsonValue(serde_json::Value);

#[verifier::external_type_specification]
#[verifier::external_body]
#[verifier::reject_recursive_types(K)]
#[verifier::reject_recursive_types(V)]
pub struct ExJsonMap<K, V>(serde_json::Map<K, V>);

/// The document that a `serde_json::Value` holds: the JSON text that stands
/// for it, without white space between its parts.
pub uninterp spec fn json_document(value: serde_json::Value) -> Seq<char>;

/// The fields that a `serde_json::Map` holds: for each key the document of
/// its value.
pub uninterp spec fn object_fields(
    object: serde_json::Map<String, serde_json::Value>,
) -> Map<Seq<char>, Seq<char>>;

/// The document that `serde_json::from_str` reads from `text`, or nothing
/// where `text` is no JSON.
pub uninterp spec fn json_parsed(text: Seq<char>) -> Option<Seq<char>>;

/// The text that `serde_json::to_string_pretty` writes for `document`: the
/// document indented, or nothing where it cannot be written.
pub uninterp spec fn json_pretty(document: Seq<char>) -> Option<Seq<char>>;

/// The document of the JSON string that `serde_json` makes of `text`: the
/// text quoted and escaped.
pub uninterp spec fn json_quoted(text: Seq<char>) -> Seq<char>;

/// The document of the JSON object that `serde_json` makes of `fields`.
pub uninterp spec fn json_object(fields: Map<Seq<char>, Seq<char>>) -> Seq<char>;

/// The fields of an object that has none.
pub open spec fn no_fields() -> Map<Seq<char>, Seq<char>> {
    Map::empty()
}

/// Calls `serde_json::from_str` for a `serde_json::Value`: the value read
/// from `text`, or nothing where `text` is no JSON. The document read is a
/// function of the text alone.
#[verifier::external_body]
pub(crate) fn parse_json(text: &str) -> (parsed: Option<serde_json::Value>)
    ensures
        match parsed {
            Some(value) => json_parsed(text@) == Some(json_document(value)),
            None => json_parsed(text@) is None,
        },
{
    serde_json::from_str::<serde_json::Value>(text).ok()
}

/// Calls `serde_json::to_string_pretty`: the document of `value` indented,
/// or nothing where it cannot be written. The text is a function of the
/// document alone.
#[verifier::external_body]
pub(crate) fn write_pretty(value: &serde_json::Value) -> (written: Option<String>)
    ensures
        match written {
            Some(text) => json_pretty(json_document(*value)) == Some(text@),
            None => json_pretty(json_document(*value)) is None,
        },
{
    serde_json::to_string_pretty(value).ok()
}

/// Calls `to_string` of `serde_json::Value`, which writes the document of
/// the value.
#[verifier::external_body]
pub(crate) fn write_json(value: &serde_json::Value) -> (text: String)
    ensures
        text@ == json_document(*value),
{
    value.to_string()
}

/// Calls `serde_json::Value::from` on a text, which makes the JSON string
/// that holds the text.
#[verifier::external_body]
pub(crate) fn string_value(text: &str) -> (value: serde_json::Value)
    ensures
        json_document(value) == json_quoted(text@),
{
    serde_json::Value::from(text)
}

/// Calls `serde_json::Value::from` on a map, which makes the JSON object
/// that holds the fields of the map. The map keeps its keys in their own
/// order, whatever the order in which they were set, so the document is a
/// function of the fields alone.
#[verifier::external_body]
pub(crate) fn object_value(object: serde_json::Map<String, serde_json::Value>) -> (value:
    serde_json::Value)
    ensures
        json_document(value) == json_object(object_fields(object)),
{
    serde_json::Value::from(object)
}

/// Calls `serde_json::Map::new`, which makes a map without fields.
#[verifier::external_body]
pub(crate) fn new_object() -> (object: serde_json::Map<String, serde_json::Value>)
    ensures
        object_fields(object) == no_fields(),
{
    serde_json::Map::new()
}

/// Calls `serde_json::Map::insert`, which sets the field `key` to `value`,
/// in place of the value that the key had if it had one.
#[verifier::external_body]
pub(crate) fn set_field(
    object: &mut serde_json::Map<String, serde_json::Value>,
    key: &str,
    value: serde_json::Value,
)
    ensures
        object_fields(*final(object)) == object_fields(*old(object)).insert(
            key@,
            json_document(value),
        ),
{
    object.insert(key.to_string(), value);
}

/// Calls `chrono::Utc::now` and `serde_json::to_value`: the present time as
/// the JSON value that `chrono` makes of it. Nothing is claimed of the value,
/// which differs from call to call. The system clock must stand between 1970
/// and the year 9999.
#[verifier::external_body]
pub(crate) fn time_value() -> serde_json::Value {
    serde_json::to_value(chrono::Utc::now()).unwrap()
}

} // verus!
