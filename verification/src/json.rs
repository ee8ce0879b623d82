//! JSON documents, read and written by `serde_json`. Nothing in this file is
//! proved: each contract says what the named function of `serde_json` does,
//! and the proofs elsewhere rest on it.

use crate::text::texts_of;
use vstd::prelude::*;

verus! {

/// A JSON value of `serde_json`. Nothing inside it is visible to proofs but
/// through `members_of` and `text_of`.
#[verifier::external_type_specification]
#[verifier::external_body]
pub struct ExValue(serde_json::Value);

/// The error of `serde_json`.
#[verifier::external_type_specification]
#[verifier::external_body]
pub struct ExError(serde_json::Error);

/// The members of a JSON object by their keys; `None` for a value that is no
/// object.
pub uninterp spec fn members_of(value: serde_json::Value) -> Option<
    Map<Seq<char>, serde_json::Value>,
>;

/// The characters of a JSON string; `None` for a value that is no string.
pub uninterp spec fn text_of(value: serde_json::Value) -> Option<Seq<char>>;

/// The value that `serde_json::from_str` reads from a text; `None` where it
/// reports an error.
pub uninterp spec fn parsed(text: Seq<char>) -> Option<serde_json::Value>;

/// The compact text that `serde_json` writes for a value.
pub uninterp spec fn rendered(value: serde_json::Value) -> Seq<char>;

/// Calls `serde_json::from_str` for a `Value`. The contract claims only that
/// the outcome is a function of the text.
#[verifier::external_body]
pub(crate) fn parse(text: &str) -> (outcome: Result<serde_json::Value, serde_json::Error>)
    ensures
        match outcome {
            Ok(value) => parsed(text@) == Some(value),
            Err(_) => parsed(text@) is None,
        },
{
    serde_json::from_str::<serde_json::Value>(text)
}

/// Calls `Value::to_string`, which writes the value in compact form. The
/// contract claims only that the text is a function of the value.
#[verifier::external_body]
pub(crate) fn render(value: &serde_json::Value) -> (text: String)
    ensures
        text@ == rendered(*value),
{
    value.to_string()
}

/// Calls `Value::as_object` and `Map::keys`: the keys of an object, each once,
/// and `None` for a value that is no object.
#[verifier::external_body]
pub(crate) fn member_names(value: &serde_json::Value) -> (names: Option<Vec<String>>)
    ensures
        match names {
            Some(keys) => {
                &&& members_of(*value) is Some
                &&& texts_of(keys@).no_duplicates()
                &&& texts_of(keys@).to_set() == members_of(*value)->0.dom()
            },
            None => members_of(*value) is None,
        },
{
    value.as_object().map(|members| members.keys().cloned().collect())
}

/// Calls `Value::get` with a key: the member of an object under that key, and
/// `None` where the value is no object or has no such member.
#[verifier::external_body]
pub(crate) fn member<'a>(value: &'a serde_json::Value, key: &str) -> (found: Option<
    &'a serde_json::Value,
>)
    ensures
        match found {
            Some(inner) => members_of(*value) is Some && members_of(*value)->0.contains_key(key@)
                && members_of(*value)->0[key@] == *inner,
            None => !(members_of(*value) is Some && members_of(*value)->0.contains_key(key@)),
        },
{
    value.get(key)
}

/// Calls `Value::as_str`: the characters of a string, and `None` for a value
/// that is no string.
#[verifier::external_body]
pub(crate) fn text(value: &serde_json::Value) -> (found: Option<String>)
    ensures
        match found {
            Some(s) => text_of(*value) == Some(s@),
            None => text_of(*value) is None,
        },
{
    value.as_str().map(|s| s.to_owned())
}

/// Makes a `Value::String` of the given characters.
#[verifier::external_body]
pub(crate) fn text_value(s: &str) -> (value: serde_json::Value)
    ensures
        text_of(value) == Some(s@),
        members_of(value) is None,
{
    serde_json::Value::String(s.to_owned())
}

/// Makes a `Value::Object` of `Map::new()`: an object without members.
#[verifier::external_body]
pub(crate) fn empty_object() -> (value: serde_json::Value)
    ensures
        members_of(value) == Some(Map::<Seq<char>, serde_json::Value>::empty()),
        text_of(value) is None,
{
    serde_json::Value::Object(serde_json::Map::new())
}

/// Assigns through `Value`'s index by a key, which on an object puts the
/// member under that key, in place of one that was there, and leaves the
/// others. On a value that is neither an object nor null the index panics.
#[verifier::external_body]
pub(crate) fn set_member(object: &mut serde_json::Value, key: &str, inner: serde_json::Value)
    requires
        members_of(*old(object)) is Some,
    ensures
        members_of(*final(object)) == Some(members_of(*old(object))->0.insert(key@, inner)),
        text_of(*final(object)) is None,
{
    object[key] = inner;
}

} // verus!
