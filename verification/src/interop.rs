//! The boundary to `serde_json`: parsing and printing JSON text.
//!
//! `serde_json` reads and writes the text. Its values are taken apart and put together one layer
//! at a time; the conversions to and from [`Json`] around those steps are verified.

use crate::json::{
    array_view, fields_view, json_view, Json, JsonNumber, JsonObject, JsonView, ObjectView,
};
use crate::text::is_white_space;
use vstd::prelude::*;

verus! {

/// A value of `serde_json`. What it holds is named by [`json_of`].
#[verifier::external_type_specification]
#[verifier::external_body]
pub struct ExValue(serde_json::Value);

/// A number of `serde_json`, which may be a floating-point number.
#[verifier::external_type_specification]
#[verifier::external_body]
pub struct ExNumber(serde_json::Number);

/// An error of `serde_json`, of which only the message is used.
#[verifier::external_type_specification]
#[verifier::external_body]
pub struct ExError(serde_json::Error);

/// The JSON value that a `serde_json::Value` holds. Objects keep the order of their fields, as
/// the feature `preserve_order` has it.
pub uninterp spec fn json_of(value: serde_json::Value) -> JsonView;

/// What `serde_json::Number::as_u64` returns.
pub uninterp spec fn number_as_u64(number: serde_json::Number) -> Option<u64>;

/// What `serde_json::Number::as_i64` returns.
pub uninterp spec fn number_as_i64(number: serde_json::Number) -> Option<i64>;

/// The message that a `serde_json::Error` displays.
pub uninterp spec fn error_message(error: serde_json::Error) -> Seq<char>;

/// What `serde_json::from_str` makes of a text: the value, or the message of the error.
pub uninterp spec fn parsed_text(text: Seq<char>) -> Result<JsonView, Seq<char>>;

/// What `serde_json::from_slice` makes of bytes: the value, or the message of the error.
pub uninterp spec fn parsed_bytes(bytes: Seq<u8>) -> Result<JsonView, Seq<char>>;

/// The compact text that `serde_json::to_string` writes for a value.
pub uninterp spec fn json_text(value: JsonView) -> Seq<char>;

/// A number that is no integer between zero and `u64::MAX`.
#[derive(Debug, PartialEq, Eq)]
pub struct OtherNumber {
    number: serde_json::Number,
}

impl OtherNumber {
    #[verifier::type_invariant]
    spec fn type_inv(self) -> bool {
        number_as_u64(self.number) is None
    }

    /// A copy of this number.
    pub fn copy(&self) -> (result: OtherNumber)
        ensures
            result == *self,
    {
        proof {
            use_type_invariant(self);
        }
        OtherNumber { number: copy_number(&self.number) }
    }

    /// The number, if it is an integer that an `i64` holds.
    pub closed spec fn spec_as_i64(self) -> Option<i64> {
        number_as_i64(self.number)
    }

    /// The number, if it is an integer that an `i64` holds.
    pub fn as_i64(&self) -> (result: Option<i64>)
        ensures
            result == self.spec_as_i64(),
    {
        as_i64(&self.number)
    }
}

/// The number that a `serde_json::Number` holds.
pub closed spec fn number_of(number: serde_json::Number) -> JsonNumber {
    match number_as_u64(number) {
        Some(n) => JsonNumber::Unsigned(n),
        None => JsonNumber::Other(OtherNumber { number }),
    }
}

/// Text on one line that does not begin with white space.
pub open spec fn is_bare_line(text: Seq<char>) -> bool {
    &&& text.len() > 0
    &&& !is_white_space(text[0])
    &&& forall|i: int| 0 <= i < text.len() ==> text[i] != '\n' && text[i] != '\r'
}

/// The key by which `serde_json` recognises text that it embeds unparsed.
pub open spec fn raw_value_key() -> Seq<char> {
    "$serde_json::private::RawValue"@
}

/// Values that survive being written and read again: their numbers are integers of 64 bits, arrays
/// and objects nest at most `levels` deep, and no object begins with the key for embedded text.
pub open spec fn survives_text(value: JsonView, levels: nat) -> bool
    decreases value,
{
    match value {
        JsonView::Null | JsonView::Bool(_) | JsonView::String(_) => true,
        JsonView::Number(JsonNumber::Unsigned(_)) => true,
        JsonView::Number(JsonNumber::Other(other)) => other.spec_as_i64() is Some,
        JsonView::Array(items) => levels > 0 && forall|i: int|
            0 <= i < items.len() ==> survives_text(#[trigger] items[i], (levels - 1) as nat),
        JsonView::Object(object) => levels > 0 && (object.fields.len() > 0 ==> object.fields[0].0
            != raw_value_key()) && forall|i: int|
            0 <= i < object.fields.len() ==> survives_text(
                (#[trigger] object.fields[i]).1,
                (levels - 1) as nat,
            ),
    }
}

/// One layer of a `serde_json::Value`.
enum Layer {
    Null,
    Bool(bool),
    Number(serde_json::Number),
    String(String),
    Array(Vec<serde_json::Value>),
    Object(Vec<(String, serde_json::Value)>),
}

impl Layer {
    /// The value of which this is the outermost layer.
    spec fn json(self) -> JsonView {
        match self {
            Layer::Null => JsonView::Null,
            Layer::Bool(b) => JsonView::Bool(b),
            Layer::Number(n) => JsonView::Number(number_of(n)),
            Layer::String(text) => JsonView::String(text@),
            Layer::Array(items) => JsonView::Array(
                items@.map_values(|item: serde_json::Value| json_of(item)),
            ),
            Layer::Object(fields) => JsonView::Object(Layer::object(fields@)),
        }
    }

    /// The object with the given fields.
    spec fn object(fields: Seq<(String, serde_json::Value)>) -> ObjectView {
        ObjectView {
            fields: fields.map_values(
                |field: (String, serde_json::Value)| (field.0@, json_of(field.1)),
            ),
        }
    }
}

/// `serde_json::from_str` into a `serde_json::Value`. Whether it succeeds, the value and the
/// message of the error depend on the text alone.
#[verifier::external_body]
fn read_text(text: &str) -> (result: Result<serde_json::Value, serde_json::Error>)
    ensures
        match result {
            Ok(value) => parsed_text(text@) == Ok::<JsonView, Seq<char>>(json_of(value)),
            Err(error) => parsed_text(text@) == Err::<JsonView, Seq<char>>(error_message(error)),
        },
{
    serde_json::from_str(text)
}

/// `serde_json::from_slice` into a `serde_json::Value`. Whether it succeeds, the value and the
/// message of the error depend on the bytes alone.
#[verifier::external_body]
fn read_bytes(bytes: &[u8]) -> (result: Result<serde_json::Value, serde_json::Error>)
    ensures
        match result {
            Ok(value) => parsed_bytes(bytes@) == Ok::<JsonView, Seq<char>>(json_of(value)),
            Err(error) => parsed_bytes(bytes@) == Err::<JsonView, Seq<char>>(error_message(error)),
        },
{
    serde_json::from_slice(bytes)
}

/// The `Display` text of a `serde_json::Error`.
#[verifier::external_body]
fn message_of(error: &serde_json::Error) -> (result: String)
    ensures
        result@ == error_message(*error),
{
    error.to_string()
}

/// `serde_json::to_string` of a `serde_json::Value`. It writes into memory and every key is a
/// string, so it succeeds. The text is the compact form, which `Display` gives too: one line, as
/// control characters in strings are escaped and nothing stands between the tokens. Reading it
/// gives the value back within the limits of the reader.
#[verifier::external_body]
fn write_value(value: &serde_json::Value) -> (result: Result<String, serde_json::Error>)
    ensures
        match result {
            Ok(text) => {
                &&& text@ == json_text(json_of(*value))
                &&& is_bare_line(text@)
                &&& survives_text(json_of(*value), 127) ==> parsed_text(text@) == Ok::<
                    JsonView,
                    Seq<char>,
                >(json_of(*value))
            },
            Err(_) => false,
        },
{
    serde_json::to_string(value)
}

/// `serde_json::Number::as_u64`.
#[verifier::external_body]
fn as_u64(number: &serde_json::Number) -> (result: Option<u64>)
    ensures
        result == number_as_u64(*number),
{
    number.as_u64()
}

/// `serde_json::Number::as_i64`.
#[verifier::external_body]
fn as_i64(number: &serde_json::Number) -> (result: Option<i64>)
    ensures
        result == number_as_i64(*number),
{
    number.as_i64()
}

/// `serde_json::Number` from a `u64`, which `as_u64` gives back.
#[verifier::external_body]
fn number_from(n: u64) -> (result: serde_json::Number)
    ensures
        number_as_u64(result) == Some(n),
{
    serde_json::Number::from(n)
}

/// `Clone` of `serde_json::Number`.
#[verifier::external_body]
fn copy_number(number: &serde_json::Number) -> (result: serde_json::Number)
    ensures
        result == *number,
{
    number.clone()
}

/// The outermost layer of a `serde_json::Value`, its fields in the order in which
/// `serde_json::Map` walks them. A map has one entry for a key.
#[verifier::external_body]
fn take_apart(value: serde_json::Value) -> (result: Layer)
    ensures
        result.json() == json_of(value),
        result matches Layer::Object(fields) ==> Layer::object(fields@).keys_distinct(),
{
    match value {
        serde_json::Value::Null => Layer::Null,
        serde_json::Value::Bool(b) => Layer::Bool(b),
        serde_json::Value::Number(number) => Layer::Number(number),
        serde_json::Value::String(text) => Layer::String(text),
        serde_json::Value::Array(items) => Layer::Array(items),
        serde_json::Value::Object(fields) => Layer::Object(fields.into_iter().collect()),
    }
}

/// The `serde_json::Value` with the given outermost layer. `serde_json::Map` keeps fields with
/// distinct keys in the order in which they are collected.
#[verifier::external_body]
fn put_together(layer: Layer) -> (result: serde_json::Value)
    requires
        layer matches Layer::Object(fields) ==> Layer::object(fields@).keys_distinct(),
    ensures
        json_of(result) == layer.json(),
{
    match layer {
        Layer::Null => serde_json::Value::Null,
        Layer::Bool(b) => serde_json::Value::Bool(b),
        Layer::Number(number) => serde_json::Value::Number(number),
        Layer::String(text) => serde_json::Value::String(text),
        Layer::Array(items) => serde_json::Value::Array(items),
        Layer::Object(fields) => serde_json::Value::Object(fields.into_iter().collect()),
    }
}

/// The [`Json`] with the contents of a `serde_json::Value`.
pub fn from_serde(value: serde_json::Value) -> (result: Json)
    ensures
        result@ == json_of(value),
    decreases json_of(value),
{
    match take_apart(value) {
        Layer::Null => Json::Null,
        Layer::Bool(b) => Json::Bool(b),
        Layer::Number(number) => match as_u64(&number) {
            Some(n) => Json::Number(JsonNumber::Unsigned(n)),
            None => Json::Number(JsonNumber::Other(OtherNumber { number })),
        },
        Layer::String(text) => Json::String(text),
        Layer::Array(items) => {
            let ghost wanted = items@;
            let mut converted: Vec<Json> = Vec::new();
            for item in it: items
                invariant
                    it.seq() == wanted,
                    json_of(value) == JsonView::Array(
                        wanted.map_values(|item: serde_json::Value| json_of(item)),
                    ),
                    converted.len() == it.index(),
                    forall|j: int|
                        0 <= j < it.index() ==> json_view(#[trigger] converted@[j]) == json_of(
                            wanted[j],
                        ),
            {
                assert(json_of(value)->Array_0[it.index()] == json_of(item));
                converted.push(from_serde(item));
            }
            assert(array_view(converted@) =~= json_of(value)->Array_0);
            Json::Array(converted)
        },
        Layer::Object(fields) => {
            let ghost wanted = fields@;
            let mut converted: Vec<(String, Json)> = Vec::new();
            for field in it: fields
                invariant
                    it.seq() == wanted,
                    json_of(value) == JsonView::Object(Layer::object(wanted)),
                    converted.len() == it.index(),
                    forall|j: int|
                        0 <= j < it.index() ==> (#[trigger] converted@[j]).0@ == wanted[j].0@
                            && json_view(converted@[j].1) == json_of(wanted[j].1),
            {
                assert(json_of(value)->Object_0.fields[it.index()] == (field.0@, json_of(field.1)));
                proof {
                    let whole = json_of(value);
                    let object = whole->Object_0;
                    assert(decreases_to!(whole => object));
                    assert(decreases_to!(object => object.fields));
                    assert(decreases_to!(object.fields => object.fields[it.index()]));
                    assert(decreases_to!(object.fields[it.index()] => object.fields[it.index()].1));
                }
                let (key, inner) = field;
                converted.push((key, from_serde(inner)));
            }
            assert(fields_view(converted@) =~= json_of(value)->Object_0.fields);
            Json::Object(JsonObject::from_fields(converted))
        },
    }
}

/// The `serde_json::Value` with the contents of a [`Json`].
pub fn to_serde(json: &Json) -> (result: serde_json::Value)
    ensures
        json_of(result) == json@,
    decreases json,
{
    match json {
        Json::Null => put_together(Layer::Null),
        Json::Bool(b) => put_together(Layer::Bool(*b)),
        Json::Number(JsonNumber::Unsigned(n)) => put_together(Layer::Number(number_from(*n))),
        Json::Number(JsonNumber::Other(other)) => {
            proof {
                use_type_invariant(other);
            }
            put_together(Layer::Number(copy_number(&other.number)))
        },
        Json::String(text) => put_together(Layer::String(text.clone())),
        Json::Array(items) => {
            let converted = items_to_serde(items);
            assert(converted@.map_values(|item: serde_json::Value| json_of(item)) =~= array_view(
                items@,
            ));
            put_together(Layer::Array(converted))
        },
        Json::Object(object) => {
            let fields = object.fields();
            let converted = fields_to_serde(fields);
            assert(Layer::object(converted@).fields =~= fields_view(fields@));
            put_together(Layer::Object(converted))
        },
    }
}

/// The elements of an array for `serde_json`.
fn items_to_serde(items: &Vec<Json>) -> (result: Vec<serde_json::Value>)
    ensures
        result.len() == items.len(),
        forall|j: int| 0 <= j < items.len() ==> json_of(#[trigger] result@[j]) == items@[j]@,
    decreases items,
{
    let mut converted: Vec<serde_json::Value> = Vec::new();
    for i in 0..items.len()
        invariant
            converted.len() == i,
            forall|j: int| 0 <= j < i ==> json_of(#[trigger] converted@[j]) == items@[j]@,
    {
        converted.push(to_serde(&items[i]));
    }
    converted
}

/// The fields of an object for `serde_json`.
fn fields_to_serde(fields: &Vec<(String, Json)>) -> (result: Vec<(String, serde_json::Value)>)
    ensures
        result.len() == fields.len(),
        forall|j: int|
            0 <= j < fields.len() ==> (#[trigger] result@[j]).0@ == fields@[j].0@ && json_of(
                result@[j].1,
            ) == fields@[j].1@,
    decreases fields,
{
    let mut converted: Vec<(String, serde_json::Value)> = Vec::new();
    for i in 0..fields.len()
        invariant
            converted.len() == i,
            forall|j: int|
                0 <= j < i ==> (#[trigger] converted@[j]).0@ == fields@[j].0@ && json_of(
                    converted@[j].1,
                ) == fields@[j].1@,
    {
        converted.push((fields[i].0.clone(), to_serde(&fields[i].1)));
    }
    converted
}

/// Parses JSON text.
pub fn parse(text: &str) -> (result: Result<Json, String>)
    ensures
        match result {
            Ok(json) => parsed_text(text@) == Ok::<JsonView, Seq<char>>(json@),
            Err(message) => parsed_text(text@) == Err::<JsonView, Seq<char>>(message@),
        },
{
    match read_text(text) {
        Ok(value) => Ok(from_serde(value)),
        Err(error) => Err(message_of(&error)),
    }
}

/// Parses JSON bytes.
pub fn parse_bytes(bytes: &[u8]) -> (result: Result<Json, String>)
    ensures
        match result {
            Ok(json) => parsed_bytes(bytes@) == Ok::<JsonView, Seq<char>>(json@),
            Err(message) => parsed_bytes(bytes@) == Err::<JsonView, Seq<char>>(message@),
        },
{
    match read_bytes(bytes) {
        Ok(value) => Ok(from_serde(value)),
        Err(error) => Err(message_of(&error)),
    }
}

/// The compact text of a JSON value.
pub fn print(json: &Json) -> (result: String)
    ensures
        result@ == json_text(json@),
        is_bare_line(result@),
        survives_text(json@, 127) ==> parsed_text(result@) == Ok::<JsonView, Seq<char>>(json@),
{
    write_value(&to_serde(json)).unwrap()
}

}
