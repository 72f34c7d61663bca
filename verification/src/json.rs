//! JSON values, by way of `serde_json`.
//!
//! A [`serde_json::Value`] is opaque to the proofs; [`json`] names what it holds, and the
//! functions of `serde_json` that this crate calls are stated over that name.

pub mod laws;

use crate::text;
use crate::text_map;
use vstd::prelude::*;

verus! {

#[verifier::external_type_specification]
#[verifier::external_body]
pub struct ExValue(serde_json::Value);

#[verifier::external_type_specification]
#[verifier::external_body]
pub struct ExNumber(serde_json::Number);

/// What a JSON value holds.
pub enum Json {
    Null,
    Bool(bool),
    /// An integer from zero to `u64::MAX`.
    Unsigned(u64),
    /// Any other number.
    Number(serde_json::Number),
    Text(Seq<char>),
    Array(Seq<Json>),
    Object(Map<Seq<char>, Json>),
}

/// What a `serde_json::Value` holds.
pub uninterp spec fn json(value: serde_json::Value) -> Json;

/// What `serde_json::from_slice` makes of `bytes`: the value, or the text of the error.
pub uninterp spec fn parsed(bytes: Seq<u8>) -> Result<Json, Seq<char>>;

/// The compact text of a JSON value, as `serde_json::Value` displays it.
pub uninterp spec fn rendered(value: serde_json::Value) -> Seq<char>;

/// What a list of values holds.
pub open spec fn jsons(list: Seq<serde_json::Value>) -> Seq<Json> {
    list.map_values(|v: serde_json::Value| json(v))
}

/// The member `key` of an object; `None` for anything else.
pub open spec fn member(j: Json, key: Seq<char>) -> Option<Json> {
    match j {
        Json::Object(m) => if m.dom().contains(key) {
            Some(m[key])
        } else {
            None
        },
        _ => None,
    }
}

/// The character `c` inside a JSON string.
pub open spec fn escaped(c: char) -> Seq<char> {
    if c == '"' {
        seq!['\\', '"']
    } else if c == '\\' {
        seq!['\\', '\\']
    } else if c as u32 == 0x08 {
        seq!['\\', 'b']
    } else if c as u32 == 0x09 {
        seq!['\\', 't']
    } else if c as u32 == 0x0a {
        seq!['\\', 'n']
    } else if c as u32 == 0x0c {
        seq!['\\', 'f']
    } else if c as u32 == 0x0d {
        seq!['\\', 'r']
    } else if (c as u32) < 0x20 {
        seq![
            '\\',
            'u',
            '0',
            '0',
            text::digit((c as u32 / 16) as nat),
            text::digit((c as u32 % 16) as nat),
        ]
    } else {
        seq![c]
    }
}

/// The characters of `s` inside a JSON string.
pub open spec fn escaped_all(s: Seq<char>) -> Seq<char>
    decreases s.len(),
{
    if s.len() == 0 {
        Seq::empty()
    } else {
        escaped_all(s.drop_last()) + escaped(s.last())
    }
}

/// `s` as a JSON string.
pub open spec fn quoted(s: Seq<char>) -> Seq<char> {
    seq!['"'] + escaped_all(s) + seq!['"']
}

/// `serde_json::from_slice` into a `Value`: what comes out depends on the bytes alone, and is
/// named [`parsed`].
#[verifier::external_body]
pub(crate) fn parse(bytes: &[u8]) -> (r: Result<serde_json::Value, String>)
    ensures
        match r {
            Ok(value) => parsed(bytes@) == Ok::<Json, Seq<char>>(json(value)),
            Err(message) => parsed(bytes@) == Err::<Json, Seq<char>>(message@),
        },
{
    match serde_json::from_slice(bytes) {
        Ok(value) => Ok(value),
        Err(error) => Err(error.to_string()),
    }
}

/// `serde_json::Value::get` with a key: the member of an object, nothing of any other value.
#[verifier::external_body]
pub(crate) fn get<'a>(value: &'a serde_json::Value, key: &str) -> (r: Option<
    &'a serde_json::Value,
>)
    ensures
        match r {
            Some(found) => member(json(*value), key@) == Some(json(*found)),
            None => member(json(*value), key@) is None,
        },
{
    value.get(key)
}

/// What a list of members holds.
pub open spec fn members(list: Seq<(&String, &serde_json::Value)>) -> Seq<(Seq<char>, Json)> {
    list.map_values(|e: (&String, &serde_json::Value)| (e.0@, json(*e.1)))
}

/// `serde_json::Value::as_object`, with the members listed by `serde_json::Map::iter`: each
/// member of an object once, nothing of any other value.
#[verifier::external_body]
pub(crate) fn object_members<'a>(value: &'a serde_json::Value) -> (r: Option<
    Vec<(&'a String, &'a serde_json::Value)>,
>)
    ensures
        match r {
            Some(list) => {
                &&& text_map::distinct(members(list@))
                &&& json(*value) == Json::Object(text_map::to_map(members(list@)))
            },
            None => json(*value) !is Object,
        },
{
    value.as_object().map(|object| object.iter().collect())
}

/// `serde_json::Value`'s `Display`: the compact text of the value, named [`rendered`]. A string
/// comes out [`quoted`].
#[verifier::external_body]
pub(crate) fn render(value: &serde_json::Value) -> (r: String)
    ensures
        r@ == rendered(*value),
        json(*value) matches Json::Text(s) ==> r@ == quoted(s),
{
    value.to_string()
}

/// `serde_json::to_string` of a text, which cannot fail: the text as a JSON string.
#[verifier::external_body]
pub(crate) fn quote(text: &str) -> (r: String)
    ensures
        r@ == quoted(text@),
{
    serde_json::to_string(text).expect("a text serializes")
}

/// A copy of a value is the value.
pub assume_specification[ <serde_json::Value as Clone>::clone ](value: &serde_json::Value) -> (r:
    serde_json::Value)
    ensures
        r == *value,
;

/// An array gives its elements, any other value nothing.
pub assume_specification[ serde_json::Value::as_array ](value: &serde_json::Value) -> (r: Option<
    &Vec<serde_json::Value>,
>)
    ensures
        match r {
            Some(list) => json(*value) == Json::Array(jsons(list@)),
            None => json(*value) !is Array,
        },
;

/// An integer from zero to `u64::MAX` gives itself, any other value nothing.
pub assume_specification[ serde_json::Value::as_u64 ](value: &serde_json::Value) -> (r: Option<u64>)
    ensures
        match r {
            Some(n) => json(*value) == Json::Unsigned(n),
            None => json(*value) !is Unsigned,
        },
;

/// A boolean gives itself, any other value nothing.
pub assume_specification[ serde_json::Value::as_bool ](value: &serde_json::Value) -> (r: Option<
    bool,
>)
    ensures
        match r {
            Some(b) => json(*value) == Json::Bool(b),
            None => json(*value) !is Bool,
        },
;

/// A string gives its text, any other value nothing.
pub assume_specification[ serde_json::Value::as_str ](value: &serde_json::Value) -> (r: Option<
    &str,
>)
    ensures
        match r {
            Some(s) => json(*value) == Json::Text(s@),
            None => json(*value) !is Text,
        },
;

/// Whether the value is `null`.
pub assume_specification[ serde_json::Value::is_null ](value: &serde_json::Value) -> (r: bool)
    ensures
        r == (json(*value) is Null),
;

} // verus!
