//! The JSON values a language server sends, as `serde_json` reads them.
//!
//! A value is opaque here: what the library learns of one, it learns through these calls,
//! each of which hands back a plain value or a member.
use vstd::prelude::*;

use serde_json::Value;

verus! {

#[verifier::external_type_specification]
#[verifier::external_body]
pub struct ExValue(Value);

#[verifier::external_type_specification]
#[verifier::external_body]
pub struct ExJsonError(serde_json::Error);

/// The JSON value `serde_json::from_str::<Value>` reads a text as; `None` where the text is
/// no JSON.
pub uninterp spec fn parsed_json(text: Seq<char>) -> Option<Value>;

/// The member `key` of a JSON value (`Value::get`); `None` for no object or no such member.
pub uninterp spec fn json_member(value: Value, key: Seq<char>) -> Option<Value>;

/// The text a JSON value holds (`Value::as_str`); `None` for any value but a string.
pub uninterp spec fn json_text(value: Value) -> Option<Seq<char>>;

/// The number a JSON value holds as a `u64` (`Value::as_u64`).
pub uninterp spec fn json_unsigned(value: Value) -> Option<u64>;

/// The number a JSON value holds as an `i64` (`Value::as_i64`).
pub uninterp spec fn json_signed(value: Value) -> Option<i64>;

/// A JSON value written as compact text (`Value`'s `Display`).
pub uninterp spec fn json_written(value: Value) -> Seq<char>;

/// Whether `text` holds what `reading` says: the same characters, or nothing.
pub open spec fn text_reads(text: Option<String>, reading: Option<Seq<char>>) -> bool {
    match reading {
        Some(t) => text matches Some(s) && s@ == t,
        None => text is None,
    }
}

/// The text the member `key` of a JSON value holds; `None` where there is no such member
/// or it is no string.
pub open spec fn member_text(value: Value, key: Seq<char>) -> Option<Seq<char>> {
    match json_member(value, key) {
        Some(member) => json_text(member),
        None => None,
    }
}

/// The JSON value a text holds, or why it holds none.
///
/// Trusted: `serde_json::from_str::<Value>`; the contract claims the value is [`parsed_json`]
/// of the text alone. Nothing is stated of the error.
#[verifier::external_body]
pub(crate) fn value_of_text(text: &str) -> (value: Result<Value, serde_json::Error>)
    ensures
        value is Ok <==> parsed_json(text@) is Some,
        value matches Ok(v) ==> parsed_json(text@) == Some(v),
{
    serde_json::from_str(text)
}

/// The member `key` of a JSON object; `None` for a value that is no object or has no such
/// member.
///
/// Trusted: `serde_json::Value::get` with a `&str` key; the contract claims the member is
/// [`json_member`] of the value and the key.
#[verifier::external_body]
pub(crate) fn member_of<'a>(value: &'a Value, key: &str) -> (member: Option<&'a Value>)
    ensures
        match json_member(*value, key@) {
            Some(m) => member matches Some(found) && *found == m,
            None => member is None,
        },
{
    value.get(key)
}

/// The text a JSON string holds; `None` for any other value.
///
/// Trusted: `serde_json::Value::as_str`; the contract claims the text is [`json_text`] of
/// the value.
#[verifier::external_body]
pub(crate) fn text_of_value(value: &Value) -> (text: Option<String>)
    ensures
        text_reads(text, json_text(*value)),
{
    value.as_str().map(|text| text.to_owned())
}

/// The number a JSON number holds when it is a whole number that fits a `u64`; `None`
/// otherwise.
///
/// Trusted: `serde_json::Value::as_u64`; the contract claims the number is [`json_unsigned`]
/// of the value.
#[verifier::external_body]
pub(crate) fn unsigned_of_value(value: &Value) -> (number: Option<u64>)
    ensures
        number == json_unsigned(*value),
{
    value.as_u64()
}

/// The number a JSON number holds when it is a whole number that fits an `i64`; `None`
/// otherwise.
///
/// Trusted: `serde_json::Value::as_i64`; the contract claims the number is [`json_signed`] of
/// the value.
#[verifier::external_body]
pub(crate) fn signed_of_value(value: &Value) -> (number: Option<i64>)
    ensures
        number == json_signed(*value),
{
    value.as_i64()
}

/// The value written as compact JSON text.
///
/// Trusted: `serde_json::Value`'s `Display` (`to_string`); the contract claims the text is
/// [`json_written`] of the value.
#[verifier::external_body]
pub(crate) fn written_value(value: &Value) -> (text: String)
    ensures
        text@ == json_written(*value),
{
    value.to_string()
}

/// A copy of a value.
///
/// Trusted: `serde_json::Value`'s derived `Clone`, which copies the value member by member;
/// the contract claims the copy is the same value.
#[verifier::external_body]
pub(crate) fn copy_of_value(value: &Value) -> (copy: Value)
    ensures
        copy == *value,
{
    value.clone()
}

} // verus!
