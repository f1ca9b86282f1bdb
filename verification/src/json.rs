//! JSON documents as plain values, and the reader that makes them from text.

use vstd::prelude::*;

verus! {

/// `serde_json::Value`: a JSON document as the reader hands it out.
#[verifier::external_type_specification]
#[verifier::external_body]
pub struct ExValue(serde_json::Value);

/// A JSON document.
#[derive(Debug)]
pub enum Json {
    Null,
    Bool(bool),
    /// A number, as a signed 64-bit integer where it is one. A number with a
    /// fraction or an exponent, or an integer beyond that range, holds `None`.
    Number(Option<i64>),
    String(String),
    Array(Vec<Json>),
    /// The members of an object, each under its name.
    Object(Vec<(String, Json)>),
}

/// What a JSON document holds.
pub enum JsonValue {
    Null,
    Bool(bool),
    Number(Option<i64>),
    String(Seq<char>),
    Array(Seq<JsonValue>),
    Object(Seq<(Seq<char>, JsonValue)>),
}

pub open spec fn value_of(json: Json) -> JsonValue
    decreases json,
{
    match json {
        Json::Null => JsonValue::Null,
        Json::Bool(b) => JsonValue::Bool(b),
        Json::Number(n) => JsonValue::Number(n),
        Json::String(s) => JsonValue::String(s@),
        Json::Array(items) => JsonValue::Array(
            Seq::new(
                items@.len(),
                |i: int|
                    if 0 <= i < items@.len() {
                        value_of(items@[i])
                    } else {
                        JsonValue::Null
                    },
            ),
        ),
        Json::Object(members) => JsonValue::Object(
            Seq::new(
                members@.len(),
                |i: int|
                    if 0 <= i < members@.len() {
                        (members@[i].0@, value_of(members@[i].1))
                    } else {
                        (Seq::empty(), JsonValue::Null)
                    },
            ),
        ),
    }
}

impl View for Json {
    type V = JsonValue;

    open spec fn view(&self) -> JsonValue {
        value_of(*self)
    }
}

/// What each document of a list holds.
pub open spec fn values_of(items: Seq<Json>) -> Seq<JsonValue> {
    items.map_values(|item: Json| item@)
}

/// The first member under `name`, if there is one.
pub open spec fn lookup(members: Seq<(Seq<char>, JsonValue)>, name: Seq<char>) -> Option<
    JsonValue,
>
    decreases members.len(),
{
    if members.len() == 0 {
        None
    } else if members[0].0 == name {
        Some(members[0].1)
    } else {
        lookup(members.drop_first(), name)
    }
}

impl JsonValue {
    /// A field of a record. A record is written as an object, which holds
    /// each field under its name, other members aside; or as an array of
    /// exactly the record's fields in their order.
    pub open spec fn field(self, name: Seq<char>, position: int, arity: int) -> Option<JsonValue> {
        match self {
            JsonValue::Object(members) => lookup(members, name),
            JsonValue::Array(items) => if items.len() == arity && 0 <= position < arity {
                Some(items[position])
            } else {
                None
            },
            _ => None,
        }
    }
}

/// The document that `serde_json::from_str` reads from `text`, or `None`
/// where it reads none. Numbers are kept as [`Json::Number`] says.
pub uninterp spec fn parsed_json(text: Seq<char>) -> Option<JsonValue>;

/// `serde_json::Value` as a document of this library, variant by variant;
/// a number by `serde_json::Number::as_i64`. Nothing is stated of the result
/// here: what a text reads as is named as a whole, see [`parsed_json`].
#[verifier::external_body]
fn json_of(value: serde_json::Value) -> Json {
    match value {
        serde_json::Value::Null => Json::Null,
        serde_json::Value::Bool(b) => Json::Bool(b),
        serde_json::Value::Number(n) => Json::Number(n.as_i64()),
        serde_json::Value::String(s) => Json::String(s),
        serde_json::Value::Array(items) => Json::Array(items.into_iter().map(json_of).collect()),
        serde_json::Value::Object(members) => Json::Object(
            members.into_iter().map(|(name, member)| (name, json_of(member))).collect(),
        ),
    }
}

/// `serde_json::from_str` for a `serde_json::Value`, the document given as a
/// value of this library.
///
/// Taken on trust: what the reader makes of a text depends on the text
/// alone, so that [`parsed_json`] can name it; the reader fails exactly
/// where that names no document.
#[verifier::external_body]
fn read_json(text: &str) -> (r: Result<Json, serde_json::Error>)
    ensures
        r matches Ok(json) ==> parsed_json(text@) == Some(json@),
        r is Err ==> parsed_json(text@) is None,
{
    match serde_json::from_str::<serde_json::Value>(text) {
        Ok(value) => Ok(json_of(value)),
        Err(e) => Err(e),
    }
}

/// `serde::de::Error::custom` for `serde_json::Error`: the error that tells
/// of a document that is not of the expected shape. Nothing is stated of it.
#[verifier::external_body]
pub(crate) fn shape_error(message: &str) -> serde_json::Error {
    serde::de::Error::custom(message)
}

impl Json {
    /// Reads a document from its text.
    pub fn parse(text: &str) -> (r: Result<Json, serde_json::Error>)
        ensures
            r matches Ok(json) ==> parsed_json(text@) == Some(json@),
            r is Err <==> parsed_json(text@) is None,
    {
        read_json(text)
    }

    pub fn as_array(&self) -> (r: Option<&Vec<Json>>)
        ensures
            match r {
                Some(items) => self@ == JsonValue::Array(values_of(items@)),
                None => !(self@ is Array),
            },
    {
        match self {
            Json::Array(items) => {
                assert(self@->Array_0 =~= values_of(items@));
                Some(items)
            },
            _ => None,
        }
    }

    pub fn as_string(&self) -> (r: Option<&String>)
        ensures
            match r {
                Some(text) => self@ == JsonValue::String(text@),
                None => !(self@ is String),
            },
    {
        match self {
            Json::String(text) => Some(text),
            _ => None,
        }
    }

    /// The field of a record, see [`JsonValue::field`].
    pub fn field(&self, name: &str, position: usize, arity: usize) -> (r: Option<&Json>)
        ensures
            match r {
                Some(json) => self@.field(name@, position as int, arity as int) == Some(json@),
                None => self@.field(name@, position as int, arity as int) is None,
            },
    {
        match self {
            Json::Object(members) => {
                let ghost all = self@->Object_0;
                let mut i: usize = 0;
                assert(all.skip(0) == all);
                while i < members.len()
                    invariant
                        i <= members.len(),
                        self@ == JsonValue::Object(all),
                        all.len() == members@.len(),
                        forall|k: int|
                            0 <= k < members@.len() ==> #[trigger] all[k] == (
                                members@[k].0@,
                                members@[k].1@,
                            ),
                        lookup(all, name@) == lookup(all.skip(i as int), name@),
                    decreases members.len() - i,
                {
                    let ghost rest = all.skip(i as int);
                    assert(rest[0] == all[i as int]);
                    assert(rest.drop_first() == all.skip(i + 1));
                    if members[i].0.as_str().eq(name) {
                        return Some(&members[i].1);
                    }
                    i += 1;
                }
                None
            },
            Json::Array(items) => {
                if items.len() == arity && position < arity {
                    Some(&items[position])
                } else {
                    None
                }
            },
            _ => None,
        }
    }
}

} // verus!
