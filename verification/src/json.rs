//! JSON values: the type the conversions work on, and the mathematical value each one stands for.

use crate::interop::OtherNumber;
use crate::text::same_text;
use vstd::prelude::*;

verus! {

/// A JSON number.
#[derive(Debug, PartialEq, Eq)]
pub enum JsonNumber {
    /// An integer between zero and `u64::MAX`.
    Unsigned(u64),
    /// Any other number: below zero, with a fraction or an exponent, or too large.
    Other(OtherNumber),
}

/// A JSON value. The fields of an object keep the order in which they were inserted.
#[derive(Debug, PartialEq, Eq)]
pub enum Json {
    Null,
    Bool(bool),
    Number(JsonNumber),
    String(String),
    Array(Vec<Json>),
    Object(JsonObject),
}

/// The fields of a JSON object. No two of them have the same key.
#[derive(Debug, PartialEq, Eq)]
pub struct JsonObject {
    fields: Vec<(String, Json)>,
}

/// What a [`Json`] stands for.
pub ghost enum JsonView {
    Null,
    Bool(bool),
    Number(JsonNumber),
    String(Seq<char>),
    Array(Seq<JsonView>),
    Object(ObjectView),
}

/// What a [`JsonObject`] stands for: its keys and values, in order.
pub ghost struct ObjectView {
    pub fields: Seq<(Seq<char>, JsonView)>,
}

/// The place of the first field named `key`.
pub open spec fn field_index(fields: Seq<(Seq<char>, JsonView)>, key: Seq<char>) -> Option<int>
    decreases fields.len(),
{
    if fields.len() == 0 {
        None
    } else {
        match field_index(fields.drop_last(), key) {
            Some(i) => Some(i),
            None => if fields.last().0 == key {
                Some(fields.len() - 1)
            } else {
                None
            },
        }
    }
}

impl ObjectView {
    /// The object without fields.
    pub open spec fn empty() -> ObjectView {
        ObjectView { fields: seq![] }
    }

    /// No two fields have the same key.
    pub open spec fn keys_distinct(self) -> bool {
        forall|i: int, j: int|
            0 <= i < j < self.fields.len() ==> (#[trigger] self.fields[i]).0 != (
            #[trigger] self.fields[j]).0
    }

    /// The value of the field `key`.
    pub open spec fn get(self, key: Seq<char>) -> Option<JsonView> {
        match field_index(self.fields, key) {
            Some(i) => Some(self.fields[i].1),
            None => None,
        }
    }

    /// The object with the field `key` set: in place if there is one, at the end if not.
    pub open spec fn with(self, key: Seq<char>, value: JsonView) -> ObjectView {
        match field_index(self.fields, key) {
            Some(i) => ObjectView { fields: self.fields.update(i, (key, value)) },
            None => ObjectView { fields: self.fields.push((key, value)) },
        }
    }

    /// The object with the field `key` set if there is a value for it.
    pub open spec fn with_some(self, key: Seq<char>, value: Option<JsonView>) -> ObjectView {
        match value {
            Some(value) => self.with(key, value),
            None => self,
        }
    }

    /// The field `key` if it is a string.
    pub open spec fn get_str(self, key: Seq<char>) -> Option<Seq<char>> {
        match self.get(key) {
            Some(value) => value.as_str(),
            None => None,
        }
    }
}

impl JsonView {
    /// The text, if this is a string.
    pub open spec fn as_str(self) -> Option<Seq<char>> {
        match self {
            JsonView::String(text) => Some(text),
            _ => None,
        }
    }

    /// The number, if this is an integer between zero and `u64::MAX`.
    pub open spec fn as_u64(self) -> Option<u64> {
        match self {
            JsonView::Number(JsonNumber::Unsigned(n)) => Some(n),
            _ => None,
        }
    }

    /// The elements, if this is an array.
    pub open spec fn as_array(self) -> Option<Seq<JsonView>> {
        match self {
            JsonView::Array(items) => Some(items),
            _ => None,
        }
    }

    /// The fields, if this is an object.
    pub open spec fn as_object(self) -> Option<ObjectView> {
        match self {
            JsonView::Object(object) => Some(object),
            _ => None,
        }
    }

    /// The value of the field `key`, if this is an object that has one.
    pub open spec fn get(self, key: Seq<char>) -> Option<JsonView> {
        match self {
            JsonView::Object(object) => object.get(key),
            _ => None,
        }
    }

    /// The field `key`, if this is an object in which it is a string.
    pub open spec fn get_str(self, key: Seq<char>) -> Option<Seq<char>> {
        match self {
            JsonView::Object(object) => object.get_str(key),
            _ => None,
        }
    }

    /// The field `key`, if this is an object in which it is an unsigned integer.
    pub open spec fn get_u64(self, key: Seq<char>) -> Option<u64> {
        match self.get(key) {
            Some(value) => value.as_u64(),
            None => None,
        }
    }

    /// The field `key`, if this is an object in which it is an array.
    pub open spec fn get_array(self, key: Seq<char>) -> Option<Seq<JsonView>> {
        match self.get(key) {
            Some(value) => value.as_array(),
            None => None,
        }
    }

    /// The field `key`, if this is an object in which it is an object.
    pub open spec fn get_object(self, key: Seq<char>) -> Option<ObjectView> {
        match self.get(key) {
            Some(value) => value.as_object(),
            None => None,
        }
    }
}

/// The unsigned integer `n`.
pub open spec fn unsigned(n: u64) -> JsonView {
    JsonView::Number(JsonNumber::Unsigned(n))
}

/// What a [`Json`] stands for.
pub open spec fn json_view(json: Json) -> JsonView
    decreases json,
{
    match json {
        Json::Null => JsonView::Null,
        Json::Bool(b) => JsonView::Bool(b),
        Json::Number(n) => JsonView::Number(n),
        Json::String(text) => JsonView::String(text@),
        Json::Array(items) => JsonView::Array(array_view(items@)),
        Json::Object(object) => JsonView::Object(object_view(object)),
    }
}

/// What the elements of an array stand for.
pub open spec fn array_view(items: Seq<Json>) -> Seq<JsonView>
    decreases items,
{
    Seq::new(
        items.len(),
        |i: int|
            if 0 <= i < items.len() {
                json_view(items[i])
            } else {
                JsonView::Null
            },
    )
}

/// What a [`JsonObject`] stands for.
pub closed spec fn object_view(object: JsonObject) -> ObjectView
    decreases object,
{
    ObjectView { fields: fields_view(object.fields@) }
}

/// What the fields of an object stand for.
pub open spec fn fields_view(fields: Seq<(String, Json)>) -> Seq<(Seq<char>, JsonView)>
    decreases fields,
{
    Seq::new(
        fields.len(),
        |i: int|
            if 0 <= i < fields.len() {
                (fields[i].0@, json_view(fields[i].1))
            } else {
                (seq![], JsonView::Null)
            },
    )
}

impl View for Json {
    type V = JsonView;

    open spec fn view(&self) -> JsonView {
        json_view(*self)
    }
}

impl View for JsonObject {
    type V = ObjectView;

    open spec fn view(&self) -> ObjectView {
        object_view(*self)
    }
}

/// The place of the first field named `key` in `fields` is `index`.
proof fn lemma_field_index(fields: Seq<(Seq<char>, JsonView)>, key: Seq<char>)
    ensures
        match field_index(fields, key) {
            Some(i) => 0 <= i < fields.len() && fields[i].0 == key && forall|j: int|
                0 <= j < i ==> (#[trigger] fields[j]).0 != key,
            None => forall|j: int| 0 <= j < fields.len() ==> (#[trigger] fields[j]).0 != key,
        },
    decreases fields.len(),
{
    if fields.len() > 0 {
        let before = fields.drop_last();
        lemma_field_index(before, key);
        assert forall|j: int| 0 <= j < before.len() implies fields[j] == before[j] by {}
    }
}

/// A field is found by its place if no earlier one has its key.
proof fn lemma_field_index_is(fields: Seq<(Seq<char>, JsonView)>, key: Seq<char>, i: int)
    requires
        0 <= i < fields.len(),
        fields[i].0 == key,
        forall|j: int| 0 <= j < i ==> (#[trigger] fields[j]).0 != key,
    ensures
        field_index(fields, key) == Some(i),
{
    lemma_field_index(fields, key);
}

/// Setting a field keeps the keys distinct.
pub proof fn lemma_with_keeps_keys_distinct(object: ObjectView, key: Seq<char>, value: JsonView)
    requires
        object.keys_distinct(),
    ensures
        object.with(key, value).keys_distinct(),
{
    lemma_field_index(object.fields, key);
}

/// What is set is read back, and setting one field leaves every other as it was.
pub proof fn lemma_with_get(object: ObjectView, key: Seq<char>, value: JsonView, other: Seq<char>)
    ensures
        object.with(key, value).get(other) == if other == key {
            Some(value)
        } else {
            object.get(other)
        },
{
    let after = object.with(key, value);
    lemma_field_index(object.fields, key);
    lemma_field_index(object.fields, other);
    lemma_field_index(after.fields, other);
    assert forall|j: int| 0 <= j < object.fields.len() implies (#[trigger] after.fields[j]).0
        == object.fields[j].0 by {}
    assert(field_index(object.fields, key) is None ==> after.fields[object.fields.len() as int] == (
        key,
        value,
    ));
    match (field_index(object.fields, key), field_index(object.fields, other)) {
        (Some(i), _) if other == key => {
            lemma_field_index_is(after.fields, other, i);
        },
        (None, _) if other == key => {
            lemma_field_index_is(after.fields, other, object.fields.len() as int);
        },
        (_, Some(i)) => {
            lemma_field_index_is(after.fields, other, i);
        },
        _ => {},
    }
}

/// The same for a field that is set only if there is a value for it.
pub proof fn lemma_with_some_get(
    object: ObjectView,
    key: Seq<char>,
    value: Option<JsonView>,
    other: Seq<char>,
)
    ensures
        object.with_some(key, value).get(other) == if other == key && value is Some {
            value
        } else {
            object.get(other)
        },
{
    if let Some(value) = value {
        lemma_with_get(object, key, value, other);
    }
}

/// Setting a field that is not there puts it at the end and changes nothing else.
pub proof fn lemma_with_new(object: ObjectView, key: Seq<char>, value: JsonView)
    requires
        forall|i: int| 0 <= i < object.fields.len() ==> (#[trigger] object.fields[i]).0 != key,
    ensures
        object.with(key, value).fields == object.fields.push((key, value)),
{
    lemma_field_index(object.fields, key);
}

/// Setting a field that is there replaces its value and changes nothing else.
pub proof fn lemma_with_present(object: ObjectView, key: Seq<char>, value: JsonView, i: int)
    requires
        0 <= i < object.fields.len(),
        object.fields[i].0 == key,
        forall|j: int| 0 <= j < i ==> (#[trigger] object.fields[j]).0 != key,
    ensures
        object.with(key, value).fields == object.fields.update(i, (key, value)),
{
    lemma_field_index_is(object.fields, key, i);
}

/// A field is found by its name: the first that has it, and none if no field has it.
pub proof fn lemma_get(object: ObjectView, key: Seq<char>)
    ensures
        forall|i: int|
            0 <= i < object.fields.len() && (#[trigger] object.fields[i]).0 == key && (forall|
                j: int,
            |
                0 <= j < i ==> (#[trigger] object.fields[j]).0 != key) ==> object.get(key) == Some(
                object.fields[i].1,
            ),
        (forall|i: int| 0 <= i < object.fields.len() ==> (#[trigger] object.fields[i]).0 != key)
            ==> object.get(key) is None,
{
    lemma_field_index(object.fields, key);
    assert forall|i: int|
        0 <= i < object.fields.len() && (#[trigger] object.fields[i]).0 == key && (forall|j: int|
            0 <= j < i ==> (#[trigger] object.fields[j]).0 != key) implies object.get(key) == Some(
        object.fields[i].1,
    ) by {
        lemma_field_index_is(object.fields, key, i);
    }
}

/// A value is read as what it is, and as nothing else.
pub proof fn lemma_read_as(value: JsonView)
    ensures
        value.as_str() == match value {
            JsonView::String(text) => Some(text),
            _ => None::<Seq<char>>,
        },
        value.as_u64() == match value {
            JsonView::Number(JsonNumber::Unsigned(n)) => Some(n),
            _ => None::<u64>,
        },
        value.as_array() == match value {
            JsonView::Array(items) => Some(items),
            _ => None::<Seq<JsonView>>,
        },
        value.as_object() == match value {
            JsonView::Object(object) => Some(object),
            _ => None::<ObjectView>,
        },
{
}

/// A field of a value is read as what the field is, if the value is an object that has it.
pub proof fn lemma_field_read_as(value: JsonView, key: Seq<char>)
    ensures
        value.get(key) == match value {
            JsonView::Object(object) => object.get(key),
            _ => None::<JsonView>,
        },
        value.get_str(key) == match value.get(key) {
            Some(JsonView::String(text)) => Some(text),
            _ => None::<Seq<char>>,
        },
        value.get_u64(key) == match value.get(key) {
            Some(JsonView::Number(JsonNumber::Unsigned(n))) => Some(n),
            _ => None::<u64>,
        },
        value.get_array(key) == match value.get(key) {
            Some(JsonView::Array(items)) => Some(items),
            _ => None::<Seq<JsonView>>,
        },
        value.get_object(key) == match value.get(key) {
            Some(JsonView::Object(object)) => Some(object),
            _ => None::<ObjectView>,
        },
        value matches JsonView::Object(object) ==> object.get_str(key) == value.get_str(key),
{
}

impl JsonObject {
    #[verifier::type_invariant]
    spec fn type_inv(self) -> bool {
        self@.keys_distinct()
    }

    /// An object without fields.
    pub fn new() -> (result: JsonObject)
        ensures
            result@ == ObjectView::empty(),
    {
        let result = JsonObject { fields: Vec::new() };
        assert(result@.fields =~= ObjectView::empty().fields);
        result
    }

    /// The place of the field `key`.
    fn position(fields: &Vec<(String, Json)>, key: &str) -> (result: Option<usize>)
        ensures
            match result {
                Some(i) => field_index(fields_view(fields@), key@) == Some(i as int) && i
                    < fields.len(),
                None => field_index(fields_view(fields@), key@) is None,
            },
    {
        let ghost view = fields_view(fields@);
        for i in 0..fields.len()
            invariant
                view == fields_view(fields@),
                forall|j: int| 0 <= j < i ==> (#[trigger] view[j]).0 != key@,
        {
            assert(view[i as int].0 == fields@[i as int].0@);
            if same_text(fields[i].0.as_str(), key) {
                proof {
                    lemma_field_index_is(view, key@, i as int);
                }
                return Some(i);
            }
        }
        proof {
            lemma_field_index(view, key@);
        }
        None
    }

    /// The value of the field `key`.
    pub fn get(&self, key: &str) -> (result: Option<&Json>)
        ensures
            match result {
                Some(value) => self@.get(key@) == Some(value@),
                None => self@.get(key@) is None,
            },
    {
        match JsonObject::position(&self.fields, key) {
            Some(i) => Some(&self.fields[i].1),
            None => None,
        }
    }

    /// The field `key` if it is a string.
    pub fn get_str(&self, key: &str) -> (result: Option<&str>)
        ensures
            match result {
                Some(text) => self@.get_str(key@) == Some(text@),
                None => self@.get_str(key@) is None,
            },
    {
        match self.get(key) {
            Some(value) => value.as_str(),
            None => None,
        }
    }

    /// The object with the field `key` set: in place if there is one, at the end if not.
    pub fn with(self, key: &str, value: Json) -> (result: JsonObject)
        ensures
            result@ == self@.with(key@, value@),
    {
        proof {
            use_type_invariant(&self);
            lemma_with_keeps_keys_distinct(self@, key@, value@);
        }
        let ghost before = self@;
        let mut fields = self.fields;
        match JsonObject::position(&fields, key) {
            Some(i) => {
                fields.set(i, (key.to_string(), value));
            },
            None => {
                fields.push((key.to_string(), value));
            },
        }
        assert(fields_view(fields@) =~= before.with(key@, value@).fields);
        JsonObject { fields }
    }

    /// The object with the field `key` set if there is a value for it.
    pub fn with_some(self, key: &str, value: Option<Json>) -> (result: JsonObject)
        ensures
            result@ == self@.with_some(
                key@,
                match value {
                    Some(value) => Some(value@),
                    None => None,
                },
            ),
    {
        match value {
            Some(value) => self.with(key, value),
            None => self,
        }
    }

    /// The object with the given fields.
    pub(crate) fn from_fields(fields: Vec<(String, Json)>) -> (result: JsonObject)
        requires
            (ObjectView { fields: fields_view(fields@) }).keys_distinct(),
        ensures
            result@.fields == fields_view(fields@),
    {
        JsonObject { fields }
    }

    /// The fields, in order.
    pub fn fields(&self) -> (result: &Vec<(String, Json)>)
        ensures
            fields_view(result@) == self@.fields,
            self@.keys_distinct(),
            decreases_to!(*self => *result),
    {
        proof {
            use_type_invariant(self);
        }
        &self.fields
    }
}

impl Json {
    /// The string `text`.
    pub fn text(text: &str) -> (result: Json)
        ensures
            result@ == JsonView::String(text@),
    {
        Json::String(text.to_string())
    }

    /// The unsigned integer `n`.
    pub fn unsigned(n: u64) -> (result: Json)
        ensures
            result@ == unsigned(n),
    {
        Json::Number(JsonNumber::Unsigned(n))
    }

    /// The object with the given fields.
    pub fn object(fields: JsonObject) -> (result: Json)
        ensures
            result@ == JsonView::Object(fields@),
    {
        Json::Object(fields)
    }

    /// The text, if this is a string.
    pub fn as_str(&self) -> (result: Option<&str>)
        ensures
            match result {
                Some(text) => self@.as_str() == Some(text@),
                None => self@.as_str() is None,
            },
    {
        match self {
            Json::String(text) => Some(text.as_str()),
            _ => None,
        }
    }

    /// The number, if this is an integer between zero and `u64::MAX`.
    pub fn as_u64(&self) -> (result: Option<u64>)
        ensures
            result == self@.as_u64(),
    {
        match self {
            Json::Number(JsonNumber::Unsigned(n)) => Some(*n),
            _ => None,
        }
    }

    /// The elements, if this is an array.
    pub fn as_array(&self) -> (result: Option<&Vec<Json>>)
        ensures
            match result {
                Some(items) => self@.as_array() == Some(array_view(items@)),
                None => self@.as_array() is None,
            },
    {
        match self {
            Json::Array(items) => Some(items),
            _ => None,
        }
    }

    /// The fields, if this is an object.
    pub fn as_object(&self) -> (result: Option<&JsonObject>)
        ensures
            match result {
                Some(object) => self@.as_object() == Some(object@),
                None => self@.as_object() is None,
            },
    {
        match self {
            Json::Object(object) => Some(object),
            _ => None,
        }
    }

    /// Whether this is a number.
    pub fn is_number(&self) -> (result: bool)
        ensures
            result == (self@ is Number),
    {
        match self {
            Json::Number(_) => true,
            _ => false,
        }
    }

    /// Whether this is an array.
    pub fn is_array(&self) -> (result: bool)
        ensures
            result == (self@ is Array),
    {
        match self {
            Json::Array(_) => true,
            _ => false,
        }
    }

    /// The value of the field `key`, if this is an object that has one.
    pub fn get(&self, key: &str) -> (result: Option<&Json>)
        ensures
            match result {
                Some(value) => self@.get(key@) == Some(value@),
                None => self@.get(key@) is None,
            },
    {
        match self {
            Json::Object(object) => object.get(key),
            _ => None,
        }
    }

    /// The field `key`, if this is an object in which it is a string.
    pub fn get_str(&self, key: &str) -> (result: Option<&str>)
        ensures
            match result {
                Some(text) => self@.get_str(key@) == Some(text@),
                None => self@.get_str(key@) is None,
            },
    {
        match self.get(key) {
            Some(value) => value.as_str(),
            None => None,
        }
    }

    /// The field `key`, if this is an object in which it is an unsigned integer.
    pub fn get_u64(&self, key: &str) -> (result: Option<u64>)
        ensures
            result == self@.get_u64(key@),
    {
        match self.get(key) {
            Some(value) => value.as_u64(),
            None => None,
        }
    }

    /// The field `key`, if this is an object in which it is an array.
    pub fn get_array(&self, key: &str) -> (result: Option<&Vec<Json>>)
        ensures
            match result {
                Some(items) => self@.get_array(key@) == Some(array_view(items@)),
                None => self@.get_array(key@) is None,
            },
    {
        match self.get(key) {
            Some(value) => value.as_array(),
            None => None,
        }
    }

    /// The field `key`, if this is an object in which it is an object.
    pub fn get_object(&self, key: &str) -> (result: Option<&JsonObject>)
        ensures
            match result {
                Some(object) => self@.get_object(key@) == Some(object@),
                None => self@.get_object(key@) is None,
            },
    {
        match self.get(key) {
            Some(value) => value.as_object(),
            None => None,
        }
    }

    /// A copy of this value.
    pub fn copy(&self) -> (result: Json)
        ensures
            result@ == self@,
        decreases self,
    {
        match self {
            Json::Null => Json::Null,
            Json::Bool(b) => Json::Bool(*b),
            Json::Number(JsonNumber::Unsigned(n)) => Json::Number(JsonNumber::Unsigned(*n)),
            Json::Number(JsonNumber::Other(n)) => Json::Number(
                JsonNumber::Other(n.copy()),
            ),
            Json::String(text) => Json::String(text.clone()),
            Json::Array(items) => Json::Array(copy_items(items)),
            Json::Object(object) => {
                proof {
                    use_type_invariant(object);
                }
                Json::Object(JsonObject { fields: copy_fields(&object.fields) })
            },
        }
    }
}

/// Copies of the given values.
fn copy_items(items: &Vec<Json>) -> (result: Vec<Json>)
    ensures
        array_view(result@) == array_view(items@),
    decreases items,
{
    let mut copies: Vec<Json> = Vec::new();
    for i in 0..items.len()
        invariant
            copies.len() == i,
            forall|j: int| 0 <= j < i ==> json_view(#[trigger] copies@[j]) == json_view(items@[j]),
    {
        copies.push(items[i].copy());
    }
    assert(array_view(copies@) =~= array_view(items@));
    copies
}

/// Copies of the given fields.
fn copy_fields(fields: &Vec<(String, Json)>) -> (result: Vec<(String, Json)>)
    ensures
        fields_view(result@) == fields_view(fields@),
    decreases fields,
{
    let mut copies: Vec<(String, Json)> = Vec::new();
    for i in 0..fields.len()
        invariant
            copies.len() == i,
            forall|j: int|
                0 <= j < i ==> (#[trigger] copies@[j]).0@ == fields@[j].0@ && json_view(copies@[j].1)
                    == json_view(fields@[j].1),
    {
        copies.push((fields[i].0.clone(), fields[i].1.copy()));
    }
    assert(fields_view(copies@) =~= fields_view(fields@));
    copies
}

impl Clone for Json {
    fn clone(&self) -> (result: Json)
        ensures
            result@ == self@,
    {
        self.copy()
    }
}

/// Appends a value.
pub fn push_json(items: &mut Vec<Json>, item: Json)
    ensures
        array_view(final(items)@) == array_view(old(items)@).push(item@),
{
    items.push(item);
    assert(array_view(items@) =~= array_view(old(items)@).push(item@));
}

/// Appends values.
pub fn extend_json(items: &mut Vec<Json>, more: Vec<Json>)
    ensures
        array_view(final(items)@) == array_view(old(items)@) + array_view(more@),
{
    let mut rest = more;
    items.append(&mut rest);
    assert(array_view(items@) =~= array_view(old(items)@) + array_view(more@));
}

}
