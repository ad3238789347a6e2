//! JSON documents, as the `serde_json` crate reads them.

use vstd::prelude::*;

verus! {

use crate::language_model::option_text;

/// A JSON document, or a part of one, `serde_json::Value`. What is inside is read only through the
/// functions of this file.
#[verifier::external_type_specification]
#[verifier::external_body]
pub struct ExJsonValue(serde_json::Value);

/// Why a text is no JSON document, `serde_json::Error`.
#[verifier::external_type_specification]
#[verifier::external_body]
pub struct ExJsonError(serde_json::Error);

/// The document that `text` holds, or `None` where it holds none.
pub uninterp spec fn document_in(text: Seq<char>) -> Option<serde_json::Value>;

/// Reads a document with `<serde_json::Value as FromStr>::from_str`. What it returns depends on
/// the text alone: the document in it, or an error where there is none. Which texts are
/// documents, and what an error says, is left unsaid.
#[verifier::external_body]
pub(crate) fn read_document(text: &str) -> (read: Result<serde_json::Value, serde_json::Error>)
    ensures
        read is Ok <==> document_in(text@) is Some,
        read is Ok ==> document_in(text@) == Some(read->Ok_0),
{
    text.parse::<serde_json::Value>()
}

/// The member of `value` under `key`, or `None` where `value` is no object or has no such member.
pub uninterp spec fn member_of(value: serde_json::Value, key: Seq<char>) -> Option<
    serde_json::Value,
>;

/// Looks a member up with `serde_json::Value::get`, which takes a string for the key of a member
/// of an object. What it returns depends on the value and the key alone; which
/// members a value has is left unsaid.
#[verifier::external_body]
pub(crate) fn find_member<'a>(value: &'a serde_json::Value, key: &str) -> (found: Option<
    &'a serde_json::Value,
>)
    ensures
        found is Some <==> member_of(*value, key@) is Some,
        found is Some ==> member_of(*value, key@) == Some(*found->0),
{
    value.get(key)
}

/// The part of `value` that the JSON pointer addresses, or `None` where it addresses none.
pub uninterp spec fn addressed_by(value: serde_json::Value, pointer: Seq<char>) -> Option<
    serde_json::Value,
>;

/// Looks a part up with `serde_json::Value::pointer`. What it returns depends on the value and the
/// pointer alone; which part a pointer addresses is left unsaid.
#[verifier::external_body]
pub(crate) fn find_by_pointer<'a>(value: &'a serde_json::Value, pointer: &str) -> (found: Option<
    &'a serde_json::Value,
>)
    ensures
        found is Some <==> addressed_by(*value, pointer@) is Some,
        found is Some ==> addressed_by(*value, pointer@) == Some(*found->0),
{
    value.pointer(pointer)
}

/// The characters of `value`, or `None` where `value` is no string.
pub uninterp spec fn characters_of(value: serde_json::Value) -> Option<Seq<char>>;

/// Reads a string with `serde_json::Value::as_str`. What it returns depends on the value alone;
/// which values are strings is left unsaid.
#[verifier::external_body]
pub(crate) fn read_string(value: &serde_json::Value) -> (read: Option<&str>)
    ensures
        read is Some <==> characters_of(*value) is Some,
        read is Some ==> characters_of(*value) == Some(read->0@),
{
    value.as_str()
}

/// The elements of `value`, or `None` where `value` is no array.
pub uninterp spec fn elements_of(value: serde_json::Value) -> Option<Seq<serde_json::Value>>;

/// Reads an array with `serde_json::Value::as_array`. What it returns depends on the value alone;
/// which values are arrays is left unsaid.
#[verifier::external_body]
pub(crate) fn read_array(value: &serde_json::Value) -> (read: Option<&Vec<serde_json::Value>>)
    ensures
        read is Some <==> elements_of(*value) is Some,
        read is Some ==> elements_of(*value) == Some(read->0@),
{
    value.as_array()
}

/// The text of the member of `value` under `key`, or `None` where there is none that is a string.
pub open spec fn text_member(value: serde_json::Value, key: Seq<char>) -> Option<Seq<char>> {
    match member_of(value, key) {
        Some(member) => characters_of(member),
        None => None,
    }
}

/// The text of the member of `value` under `key`, where there is one and it is a string.
pub fn find_text_member(value: &serde_json::Value, key: &str) -> (text: Option<String>)
    ensures
        option_text(text) == text_member(*value, key@),
{
    match find_member(value, key) {
        Some(member) => match read_string(member) {
            Some(text) => Some(text.to_string()),
            None => None,
        },
        None => None,
    }
}

} // verus!
