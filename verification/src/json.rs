//! JSON values, as `serde_json` holds, reads and writes them.

use serde_json::{Error as JsonError, Value};
use vstd::prelude::*;

verus! {

/// What a JSON number is: an exact integer, or the bit pattern of a finite binary float.
pub enum NumberView {
    Integer(int),
    Float(nat),
}

/// What a JSON value is, free of how it is stored.
pub enum JsonView {
    Null,
    Bool(bool),
    Number(NumberView),
    Text(Seq<char>),
    Array(Seq<JsonView>),
    Object(Map<Seq<char>, JsonView>),
}

impl JsonView {
    /// The member of an object under `key`; no other value has members.
    pub open spec fn member(self, key: Seq<char>) -> Option<JsonView> {
        match self {
            JsonView::Object(members) => if members.contains_key(key) {
                Some(members[key])
            } else {
                None
            },
            _ => None,
        }
    }

    /// An object with the member under `key` set to `item`; any other value as it is.
    pub open spec fn with_member(self, key: Seq<char>, item: JsonView) -> JsonView {
        match self {
            JsonView::Object(members) => JsonView::Object(members.insert(key, item)),
            _ => self,
        }
    }

    /// The characters of a string; no other value has them.
    pub open spec fn text(self) -> Option<Seq<char>> {
        match self {
            JsonView::Text(chars) => Some(chars),
            _ => None,
        }
    }

    /// An integral number that an `i64` can hold; no other value has one.
    pub open spec fn integer(self) -> Option<i64> {
        match self {
            JsonView::Number(NumberView::Integer(n)) => if i64::MIN <= n <= i64::MAX {
                Some(n as i64)
            } else {
                None
            },
            _ => None,
        }
    }

    /// An integral number that a `u64` can hold; no other value has one.
    pub open spec fn natural(self) -> Option<u64> {
        match self {
            JsonView::Number(NumberView::Integer(n)) => if 0 <= n <= u64::MAX {
                Some(n as u64)
            } else {
                None
            },
            _ => None,
        }
    }

    /// The truth value that a boolean is; no other value has one.
    pub open spec fn flag(self) -> Option<bool> {
        match self {
            JsonView::Bool(flag) => Some(flag),
            _ => None,
        }
    }

    /// Whether no number in the value is a float and arrays and objects nest at most `levels`
    /// deep.
    pub open spec fn exact_within(self, levels: nat) -> bool
        decreases levels,
    {
        match self {
            JsonView::Number(NumberView::Float(_)) => false,
            JsonView::Array(items) => levels > 0 && forall|i: int|
                0 <= i < items.len() ==> (#[trigger] items[i]).exact_within((levels - 1) as nat),
            JsonView::Object(members) => levels > 0 && forall|key: Seq<char>|
                members.contains_key(key) ==> (#[trigger] members[key]).exact_within(
                    (levels - 1) as nat,
                ),
            _ => true,
        }
    }
}

/// How deep arrays and objects may nest in text that is read back.
pub const MAX_NESTING: u8 = 127;

/// `serde_json::Value`, of which nothing is known but the JSON value that it stands for.
#[verifier::external_type_specification]
#[verifier::external_body]
pub struct ExValue(Value);

/// `serde_json::Error`, of which nothing is known.
#[verifier::external_type_specification]
#[verifier::external_body]
pub struct ExJsonError(JsonError);

/// What a `serde_json::Value` holds.
pub uninterp spec fn json_of(value: Value) -> JsonView;

/// The value that `serde_json::from_slice` reads from a text, or `None` where it fails.
pub uninterp spec fn parsed_json(text: Seq<u8>) -> Option<JsonView>;

/// The text that `serde_json::to_vec` writes for a value.
pub uninterp spec fn json_text(value: JsonView) -> Seq<u8>;

pub open spec fn opt_json_of(value: Option<&Value>) -> Option<JsonView> {
    match value {
        Some(value) => Some(json_of(*value)),
        None => None,
    }
}

/// `serde_json::from_slice` for a `Value`: what it reads, and whether it fails, depends on the
/// text alone.
#[verifier::external_body]
pub(crate) fn parse(text: &[u8]) -> (parsed: Result<Value, JsonError>)
    ensures
        match parsed {
            Ok(value) => parsed_json(text@) == Some(json_of(value)),
            Err(_) => parsed_json(text@) is None,
        },
{
    serde_json::from_slice(text)
}

/// `serde_json::to_vec` for a `Value`: it never fails, and what it writes depends on the JSON value
/// alone, as members are kept in the order of their keys. A value without floats that is not
/// nested too deep reads back as it was. Left unsaid is what the text of a float reads back as,
/// and that text which is nested deeper is not read.
#[verifier::external_body]
pub(crate) fn render(value: &Value) -> (text: Result<Vec<u8>, JsonError>)
    ensures
        text is Ok && text->Ok_0@ == json_text(json_of(*value)),
        json_of(*value).exact_within(MAX_NESTING as nat) ==> parsed_json(text->Ok_0@) == Some(
            json_of(*value),
        ),
{
    serde_json::to_vec(value)
}

/// `Value::get` with a key: the member of an object under the key; nothing on any other value.
#[verifier::external_body]
pub(crate) fn member<'a>(value: &'a Value, key: &str) -> (found: Option<&'a Value>)
    ensures
        opt_json_of(found) == json_of(*value).member(key@),
{
    value.get(key)
}

/// `Value::as_str`: the characters of a string; nothing on any other value.
pub assume_specification[ serde_json::Value::as_str ](value: &Value) -> (found: Option<&str>)
    ensures
        match found {
            Some(text) => json_of(*value).text() == Some(text@),
            None => json_of(*value).text() is None,
        },
;

/// `Value::as_i64`: the integer that a number is, where an `i64` can hold it; nothing on a float
/// or any other value.
pub assume_specification[ serde_json::Value::as_i64 ](value: &Value) -> (found: Option<i64>)
    ensures
        found == json_of(*value).integer(),
;

/// `Value::as_u64`: the integer that a number is, where a `u64` can hold it; nothing on a float or
/// any other value.
pub assume_specification[ serde_json::Value::as_u64 ](value: &Value) -> (found: Option<u64>)
    ensures
        found == json_of(*value).natural(),
;

/// `Value::as_bool`: the truth value of a boolean; nothing on any other value.
pub assume_specification[ serde_json::Value::as_bool ](value: &Value) -> (found: Option<bool>)
    ensures
        found == json_of(*value).flag(),
;

/// `Value::as_array`: the items of an array; nothing on any other value.
pub assume_specification[ serde_json::Value::as_array ](value: &Value) -> (found: Option<&Vec<Value>>)
    ensures
        match found {
            Some(items) => json_of(*value) == JsonView::Array(items@.map_values(|item: Value| json_of(item))),
            None => !(json_of(*value) is Array),
        },
;

/// `Value::clone`: the same JSON value.
pub assume_specification[ <serde_json::Value as Clone>::clone ](value: &Value) -> (copy: Value)
    ensures
        json_of(copy) == json_of(*value),
;

/// `serde_json::Map::insert` on the members of an object: sets the member under the key and
/// leaves the others as they are; no other value is changed.
#[verifier::external_body]
pub(crate) fn put_member(value: &mut Value, key: String, item: Value)
    ensures
        json_of(*final(value)) == json_of(*old(value)).with_member(key@, json_of(item)),
{
    if let Value::Object(members) = value {
        members.insert(key, item);
    }
}

/// `Value::from` on an integer: the JSON number that is this integer.
#[verifier::external_body]
pub(crate) fn integer_value(number: i64) -> (value: Value)
    ensures
        json_of(value) == JsonView::Number(NumberView::Integer(number as int)),
{
    Value::from(number)
}

/// `Value::from` on an unsigned integer: the JSON number that is this integer.
#[verifier::external_body]
pub(crate) fn natural_value(number: u64) -> (value: Value)
    ensures
        json_of(value) == JsonView::Number(NumberView::Integer(number as int)),
{
    Value::from(number)
}

/// `Value::Bool`: the JSON boolean of this truth value.
#[verifier::external_body]
pub(crate) fn flag_value(flag: bool) -> (value: Value)
    ensures
        json_of(value) == JsonView::Bool(flag),
{
    Value::Bool(flag)
}

/// `Value::Array`: the JSON array of these items.
#[verifier::external_body]
pub(crate) fn array_value(items: Vec<Value>) -> (value: Value)
    ensures
        json_of(value) == JsonView::Array(items@.map_values(|item: Value| json_of(item))),
{
    Value::Array(items)
}

/// `Value::String`: the JSON string of these characters.
#[verifier::external_body]
pub(crate) fn text_value(text: String) -> (value: Value)
    ensures
        json_of(value) == JsonView::Text(text@),
{
    Value::String(text)
}

/// `Value::Null`: the JSON null.
#[verifier::external_body]
pub(crate) fn null_value() -> (value: Value)
    ensures
        json_of(value) == JsonView::Null,
{
    Value::Null
}

/// `Value::Object` of a fresh `serde_json::Map`: the object without members.
#[verifier::external_body]
pub(crate) fn empty_object() -> (value: Value)
    ensures
        json_of(value) == JsonView::Object(Map::empty()),
{
    Value::Object(serde_json::Map::new())
}

} // verus!
