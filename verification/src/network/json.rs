//! The JSON reader that payloads go through.
//!
//! Parsing is left to `serde_json`. Nothing in this file is verified: each
//! item states what is taken on trust from that crate, and names what the
//! rest of the library reasons about.

use vstd::prelude::*;

verus! {

/// `serde_json::Value`, one JSON value. Opaque here.
#[verifier::external_type_specification]
#[verifier::external_body]
pub struct ExJsonValue(serde_json::Value);

/// `serde_json::Error`, the reason why a text was refused. Opaque here.
#[verifier::external_type_specification]
#[verifier::external_body]
pub struct ExJsonError(serde_json::Error);

/// `serde_json::Map`, the members of one JSON object. Opaque here.
#[verifier::external_type_specification]
#[verifier::external_body]
#[verifier::reject_recursive_types(K)]
#[verifier::reject_recursive_types(V)]
pub struct ExJsonMap<K, V>(serde_json::Map<K, V>);

/// The members of `object` whose value is a JSON string, each key with the
/// text of its value. Members with a value of another kind are left out.
pub uninterp spec fn object_texts(object: serde_json::Map<String, serde_json::Value>) -> Map<
    Seq<char>,
    Seq<char>,
>;

/// What `text` holds when read as one JSON object: the string members of the
/// object, or `None` where `text` is not exactly one JSON object.
pub uninterp spec fn json_object(text: Seq<char>) -> Option<Map<Seq<char>, Seq<char>>>;

/// Reads `text` as one JSON object with `serde_json::from_str`, asked for a
/// `serde_json::Map<String, Value>`.
///
/// Trusted: the body is not verified. The contract claims that the outcome
/// depends on `text` alone: whether the text is accepted, and which string
/// members the object then has, is what `json_object` names. A text that is
/// not JSON, that holds anything after the value, or whose value is not an
/// object is refused with an error.
#[verifier::external_body]
pub(crate) fn parse_object(text: &str) -> (parsed: Result<
    serde_json::Map<String, serde_json::Value>,
    serde_json::Error,
>)
    ensures
        match parsed {
            Ok(object) => json_object(text@) == Some(object_texts(object)),
            Err(_) => json_object(text@) is None,
        },
{
    serde_json::from_str::<serde_json::Map<String, serde_json::Value>>(text)
}

/// The text of the member `key` of `object`, by `serde_json::Map::get` and
/// `serde_json::Value::as_str`.
///
/// Trusted: the body is not verified. The contract claims that a text comes
/// back exactly where `object` has a member `key` whose value is a JSON
/// string, and that it is the text of that string.
#[verifier::external_body]
pub(crate) fn text_member(
    object: &serde_json::Map<String, serde_json::Value>,
    key: &str,
) -> (text: Option<String>)
    ensures
        match text {
            Some(t) => object_texts(*object).contains_key(key@) && object_texts(*object)[key@]
                == t@,
            None => !object_texts(*object).contains_key(key@),
        },
{
    let value = object.get(key)?;
    Some(value.as_str()?.to_owned())
}

} // verus!
