//! JSON values as this library builds them, with their values as mathematical values.
//!
//! The library decides which members a value has; writing it out as text is its reader's.
use vstd::prelude::*;

use serde_json::Value;

use crate::text::{chars_of, string_of};

verus! {

/// A JSON value as this library builds it. A ratio is a number kept as the two counts it
/// divides, for its reader to divide; an object's members are in the order they were put;
/// an embedded value is one read or made elsewhere, carried as it is.
#[derive(Debug)]
pub enum JsonValue {
    Null,
    Bool(bool),
    Natural(u64),
    Integer(i64),
    Ratio { numerator: u128, denominator: u128 },
    Text(String),
    Array(Vec<JsonValue>),
    Object(Vec<(String, JsonValue)>),
    Embedded(Value),
}

/// A JSON value as a mathematical value.
pub enum JsonModel {
    Null,
    Bool(bool),
    Natural(nat),
    Integer(int),
    Ratio(nat, nat),
    Text(Seq<char>),
    Array(Seq<JsonModel>),
    Object(Seq<(Seq<char>, JsonModel)>),
    /// A value carried as it is; nothing is known of what it holds.
    Embedded,
}

impl JsonValue {
    pub open spec fn model(&self) -> JsonModel
        decreases self,
    {
        match self {
            JsonValue::Null => JsonModel::Null,
            JsonValue::Bool(b) => JsonModel::Bool(*b),
            JsonValue::Natural(n) => JsonModel::Natural(*n as nat),
            JsonValue::Integer(n) => JsonModel::Integer(*n as int),
            JsonValue::Ratio { numerator, denominator } => JsonModel::Ratio(
                *numerator as nat,
                *denominator as nat,
            ),
            JsonValue::Text(t) => JsonModel::Text(t@),
            JsonValue::Array(items) => JsonModel::Array(
                Seq::new(
                    items@.len(),
                    |i: int|
                        if 0 <= i < items@.len() {
                            items@[i].model()
                        } else {
                            JsonModel::Bool(false)
                        },
                ),
            ),
            JsonValue::Object(members) => JsonModel::Object(
                Seq::new(
                    members@.len(),
                    |i: int|
                        if 0 <= i < members@.len() {
                            (members@[i].0@, members@[i].1.model())
                        } else {
                            (Seq::empty(), JsonModel::Bool(false))
                        },
                ),
            ),
            JsonValue::Embedded(_) => JsonModel::Embedded,
        }
    }
}


/// The members of an object as values.
pub open spec fn members_model(members: Seq<(String, JsonValue)>) -> Seq<(Seq<char>, JsonModel)> {
    members.map_values(|m: (String, JsonValue)| (m.0@, m.1.model()))
}

/// The items of an array as values.
pub open spec fn items_model(items: Seq<JsonValue>) -> Seq<JsonModel> {
    items.map_values(|v: JsonValue| v.model())
}

/// An optional value as a value.
pub open spec fn optional_model(value: Option<JsonValue>) -> Option<JsonModel> {
    match value {
        Some(v) => Some(v.model()),
        None => None,
    }
}

/// The values of joined members are the values of each part, joined.
pub(crate) proof fn lemma_members_model_add(a: Seq<(String, JsonValue)>, b: Seq<(String, JsonValue)>)
    ensures
        members_model(a + b) == members_model(a) + members_model(b),
        members_model(Seq::<(String, JsonValue)>::empty()) == Seq::<(Seq<char>, JsonModel)>::empty(),
{
    assert(members_model(a + b) =~= members_model(a) + members_model(b));
    assert(members_model(Seq::<(String, JsonValue)>::empty()) =~= Seq::<(Seq<char>, JsonModel)>::empty());
}

/// A text value.
pub(crate) fn text_value(text: &str) -> (value: JsonValue)
    ensures
        value.model() == JsonModel::Text(text@),
{
    JsonValue::Text(string_of(&chars_of(text)))
}

/// An object of the given members.
pub(crate) fn object_of(members: Vec<(String, JsonValue)>) -> (value: JsonValue)
    ensures
        value.model() == JsonModel::Object(members_model(members@)),
        value == JsonValue::Object(members),
{
    let value = JsonValue::Object(members);
    assert(value.model()->Object_0 =~= members_model(members@));
    value
}

/// An array of the given items.
pub(crate) fn array_of(items: Vec<JsonValue>) -> (value: JsonValue)
    ensures
        value.model() == JsonModel::Array(items_model(items@)),
{
    let value = JsonValue::Array(items);
    assert(value.model()->Array_0 =~= items_model(items@));
    value
}

/// Puts a member last.
pub(crate) fn push_member(members: &mut Vec<(String, JsonValue)>, key: &str, value: JsonValue)
    ensures
        members_model(final(members)@) == members_model(old(members)@).push((key@, value.model())),
        final(members)@.len() == old(members)@.len() + 1,
        final(members)@.take(old(members)@.len() as int) == old(members)@,
        final(members)@.last().1 == value,
{
    let ghost model = value.model();
    let ghost pushed = value;
    members.push((string_of(&chars_of(key)), value));
    assert(members@.take(old(members)@.len() as int) =~= old(members)@);
    assert(members@.last().1 == pushed);
    assert(members_model(members@) =~= members_model(old(members)@).push((key@, model)));
}

/// One member, on its own.
pub(crate) fn single_member(key: &str, value: JsonValue) -> (members: Vec<(String, JsonValue)>)
    ensures
        members_model(members@) == seq![(key@, value.model())],
{
    let ghost model = value.model();
    let mut members: Vec<(String, JsonValue)> = Vec::new();
    push_member(&mut members, key, value);
    proof {
        lemma_members_model_add(members@, members@);
        assert(members_model(members@) =~= seq![(key@, model)]);
    }
    members
}

/// Two members, in order.
pub(crate) fn two_members(
    first_key: &str,
    first: JsonValue,
    second_key: &str,
    second: JsonValue,
) -> (members: Vec<(String, JsonValue)>)
    ensures
        members_model(members@) == seq![(first_key@, first.model()), (second_key@, second.model())],
{
    let ghost first_model = first.model();
    let ghost second_model = second.model();
    let mut members: Vec<(String, JsonValue)> = Vec::new();
    proof {
        lemma_members_model_add(members@, members@);
    }
    push_member(&mut members, first_key, first);
    push_member(&mut members, second_key, second);
    assert(members_model(members@) =~= seq![(first_key@, first_model), (second_key@, second_model)]);
    members
}

} // verus!
