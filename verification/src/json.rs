//! What is read of JSON documents.
use crate::planning::validation;
use serde_json::Value;
use vstd::prelude::*;

verus! {

/// What a JSON value is. Of a number only this is held: whether there is a double
/// precision value for it.
pub enum JsonView {
    Null,
    Bool(bool),
    Number { double: bool },
    Text(Seq<char>),
    List(Seq<JsonView>),
    Object(Map<Seq<char>, JsonView>),
}

/// A JSON value of serde_json.
#[verifier::external_type_specification]
#[verifier::external_body]
pub struct ExValue(Value);

/// What a JSON value of serde_json holds.
pub uninterp spec fn json(value: Value) -> JsonView;

/// The JSON value that some bytes are, or what is wrong with them.
pub uninterp spec fn json_of(bytes: Seq<u8>) -> Result<JsonView, Seq<char>>;

/// `serde_json::from_slice` and the text of its error: what the value holds, or
/// the error, is a function of the bytes.
#[verifier::external_body]
pub(crate) fn parse_json(bytes: &[u8]) -> (r: Result<Value, String>)
    ensures
        match r {
            Ok(v) => json_of(bytes@) == Ok::<JsonView, Seq<char>>(json(v)),
            Err(m) => json_of(bytes@) == Err::<JsonView, Seq<char>>(m@),
        },
{
    serde_json::from_slice(bytes).map_err(|e| e.to_string())
}

/// What stands under a key, if there is an object with the key.
pub open spec fn under(value: JsonView, key: Seq<char>) -> Option<JsonView> {
    match value {
        JsonView::Object(members) => if members.dom().contains(key) {
            Some(members[key])
        } else {
            None
        },
        _ => None,
    }
}

/// `Value::get` of serde_json with a text: what stands under the key of an
/// object. There is nothing where the key is missing or the value is no object.
#[verifier::external_body]
fn get<'a>(value: &'a Value, key: &str) -> (r: Option<&'a Value>)
    ensures
        match r {
            Some(found) => under(json(*value), key@) == Some(json(*found)),
            None => under(json(*value), key@) is None,
        },
{
    value.get(key)
}

/// `Value::as_str` of serde_json: the text, where the value is one.
#[verifier::external_body]
fn as_text(value: &Value) -> (r: Option<String>)
    ensures
        validation::message(r) == match json(*value) {
            JsonView::Text(s) => Some(s),
            _ => None,
        },
{
    value.as_str().map(str::to_owned)
}

/// `Value::as_bool` of serde_json: the truth value, where the value is one.
#[verifier::external_body]
fn as_bool(value: &Value) -> (r: Option<bool>)
    ensures
        r == match json(*value) {
            JsonView::Bool(b) => Some(b),
            _ => None,
        },
{
    value.as_bool()
}

/// `Value::is_number` of serde_json: whether the value is a number.
#[verifier::external_body]
fn is_number(value: &Value) -> (r: bool)
    ensures
        r == (json(*value) is Number),
{
    value.is_number()
}

/// `Value::as_f64` of serde_json: a double precision value there is for some
/// numbers, and for nothing that is no number.
#[verifier::external_body]
fn has_double(value: &Value) -> (r: bool)
    ensures
        r == (json(*value) == (JsonView::Number { double: true })),
{
    value.as_f64().is_some()
}

/// The text under a key of a JSON object, if there is one.
pub open spec fn field_text(value: JsonView, key: Seq<char>) -> Option<Seq<char>> {
    match under(value, key) {
        Some(JsonView::Text(s)) => Some(s),
        _ => None,
    }
}

pub(crate) fn text_field(value: &Value, key: &str) -> (r: Option<String>)
    ensures
        validation::message(r) == field_text(json(*value), key@),
{
    match get(value, key) {
        Some(found) => as_text(found),
        None => None,
    }
}

/// Whether under a key of a JSON object there is a number, and whether there is a
/// double precision value for it.
pub open spec fn field_number(value: JsonView, key: Seq<char>) -> Option<bool> {
    match under(value, key) {
        Some(JsonView::Number { double }) => Some(double),
        _ => None,
    }
}

pub(crate) fn number_field(value: &Value, key: &str) -> (r: Option<bool>)
    ensures
        r == field_number(json(*value), key@),
{
    match get(value, key) {
        Some(found) => if is_number(found) {
            Some(has_double(found))
        } else {
            None
        },
        None => None,
    }
}

/// The truth value under a key of a JSON object, if there is one.
pub open spec fn field_bool(value: JsonView, key: Seq<char>) -> Option<bool> {
    match under(value, key) {
        Some(JsonView::Bool(b)) => Some(b),
        _ => None,
    }
}

pub(crate) fn bool_field(value: &Value, key: &str) -> (r: Option<bool>)
    ensures
        r == field_bool(json(*value), key@),
{
    match get(value, key) {
        Some(found) => as_bool(found),
        None => None,
    }
}

/// The text under a key of the object under another key, if there is one.
pub open spec fn member_text(value: JsonView, outer: Seq<char>, inner: Seq<char>) -> Option<
    Seq<char>,
> {
    match under(value, outer) {
        Some(v) => field_text(v, inner),
        None => None,
    }
}

pub(crate) fn text_member(value: &Value, outer: &str, inner: &str) -> (r: Option<String>)
    ensures
        validation::message(r) == member_text(json(*value), outer@, inner@),
{
    match get(value, outer) {
        Some(found) => text_field(found, inner),
        None => None,
    }
}

} // verus!
