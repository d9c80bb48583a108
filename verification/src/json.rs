//! JSON arguments and schemas, as `serde_json` holds them.

use serde_json::Value;
use vstd::prelude::*;

verus! {

/// `serde_json::Value`, a JSON value.
#[verifier::external_type_specification]
#[verifier::external_body]
pub struct ExValue(serde_json::Value);

/// `serde_json::Map`, the members of a JSON object.
#[verifier::external_type_specification]
#[verifier::external_body]
#[verifier::reject_recursive_types(K)]
#[verifier::reject_recursive_types(V)]
pub struct ExMembers<K, V>(serde_json::Map<K, V>);

/// What a JSON value is. A number is either an integer that fits `u64`, with
/// its value, or any other number.
pub enum Json {
    Null,
    Bool(bool),
    Unsigned(u64),
    OtherNumber,
    Text(Seq<char>),
    Array(Seq<Json>),
    Object(Map<Seq<char>, Json>),
}

/// The JSON value that a `serde_json::Value` holds.
pub uninterp spec fn json_of(value: Value) -> Json;

/// The members that a `serde_json::Map` holds.
pub uninterp spec fn members_in(members: serde_json::Map<String, Value>) -> Map<Seq<char>, Json>;

/// The JSON values that a sequence of `serde_json::Value` holds.
pub open spec fn jsons_of(values: Seq<Value>) -> Seq<Json> {
    Seq::new(values.len(), |i: int| json_of(values[i]))
}

impl Json {
    /// The member of an object under `key`.
    pub open spec fn member(self, key: Seq<char>) -> Option<Json> {
        match self {
            Json::Object(members) => if members.contains_key(key) {
                Some(members[key])
            } else {
                None
            },
            _ => None,
        }
    }

    /// The member under `key`, where it is an integer that fits `u64`.
    pub open spec fn unsigned_member(self, key: Seq<char>) -> Option<u64> {
        match self.member(key) {
            Some(Json::Unsigned(n)) => Some(n),
            _ => None,
        }
    }

    /// The member under `key`, where it is a string.
    pub open spec fn text_member(self, key: Seq<char>) -> Option<Seq<char>> {
        match self.member(key) {
            Some(Json::Text(text)) => Some(text),
            _ => None,
        }
    }

    /// The elements of the member under `key`, where it is an array.
    pub open spec fn array_member(self, key: Seq<char>) -> Option<Seq<Json>> {
        match self.member(key) {
            Some(Json::Array(elements)) => Some(elements),
            _ => None,
        }
    }
}

/// `Value::as_u64` gives the value of an integer that fits `u64`, and nothing
/// for any other value.
pub assume_specification[ Value::as_u64 ](value: &Value) -> (number: Option<u64>)
    ensures
        number == (match json_of(*value) {
            Json::Unsigned(n) => Some(n),
            _ => None,
        }),
;

/// `Value::as_str` gives the text of a string, and nothing for any other value.
pub assume_specification[ Value::as_str ](value: &Value) -> (text: Option<&str>)
    ensures
        match text {
            Some(t) => json_of(*value) == Json::Text(t@),
            None => !(json_of(*value) is Text),
        },
;

/// `Value::as_array` gives the elements of an array, and nothing for any other
/// value.
pub assume_specification[ Value::as_array ](value: &Value) -> (elements: Option<&Vec<Value>>)
    ensures
        match elements {
            Some(v) => json_of(*value) == Json::Array(jsons_of(v@)),
            None => !(json_of(*value) is Array),
        },
;

/// `Value::get` with a string key gives the member of an object under that
/// key, and nothing where there is none or the value is not an object.
#[verifier::external_body]
fn get_member<'a>(value: &'a Value, key: &str) -> (member: Option<&'a Value>)
    ensures
        match member {
            Some(m) => json_of(*value).member(key@) == Some(json_of(*m)),
            None => json_of(*value).member(key@) == None::<Json>,
        },
{
    value.get(key)
}

/// `Value::String` is the JSON string of a text.
#[verifier::external_body]
fn string_value(text: String) -> (value: Value)
    ensures
        json_of(value) == Json::Text(text@),
{
    Value::String(text)
}

/// `Value::Array` is the JSON array of its elements.
#[verifier::external_body]
fn array_value(elements: Vec<Value>) -> (value: Value)
    ensures
        json_of(value) == Json::Array(jsons_of(elements@)),
{
    Value::Array(elements)
}

/// `serde_json::Map::new` makes a map without members.
#[verifier::external_body]
fn no_members() -> (members: serde_json::Map<String, Value>)
    ensures
        members_in(members) == (Map::<Seq<char>, Json>::empty()),
{
    serde_json::Map::new()
}

/// `serde_json::Map::insert` adds a member, in place of the one with the same key
/// where there is one.
#[verifier::external_body]
fn insert_member(members: &mut serde_json::Map<String, Value>, key: String, value: Value)
    ensures
        members_in(*final(members)) == members_in(*old(members)).insert(key@, json_of(value)),
{
    members.insert(key, value);
}

/// `Value::Object` is the JSON object of its members.
#[verifier::external_body]
fn object_value(members: serde_json::Map<String, Value>) -> (value: Value)
    ensures
        json_of(value) == Json::Object(members_in(members)),
{
    Value::Object(members)
}

/// The member of `args` under `key`, where it is an integer that fits `u64`.
pub fn unsigned_member(args: &Value, key: &str) -> (number: Option<u64>)
    ensures
        number == json_of(*args).unsigned_member(key@),
{
    match get_member(args, key) {
        Some(value) => value.as_u64(),
        None => None,
    }
}

/// The member of `args` under `key`, where it is a string.
pub fn text_member<'a>(args: &'a Value, key: &str) -> (text: Option<&'a str>)
    ensures
        match text {
            Some(t) => json_of(*args).text_member(key@) == Some(t@),
            None => json_of(*args).text_member(key@) == None::<Seq<char>>,
        },
{
    match get_member(args, key) {
        Some(value) => value.as_str(),
        None => None,
    }
}

/// The elements of the member of `args` under `key`, where it is an array.
pub fn array_member<'a>(args: &'a Value, key: &str) -> (elements: Option<&'a Vec<Value>>)
    ensures
        match elements {
            Some(v) => json_of(*args).array_member(key@) == Some(jsons_of(v@)),
            None => json_of(*args).array_member(key@) == None::<Seq<Json>>,
        },
{
    match get_member(args, key) {
        Some(value) => value.as_array(),
        None => None,
    }
}

/// The JSON strings of the given texts.
pub open spec fn strings(list: Seq<Seq<char>>) -> Json {
    Json::Array(Seq::new(list.len(), |i: int| Json::Text(list[i])))
}

/// The schema of a value of the given type.
pub open spec fn property(kind: Seq<char>, description: Seq<char>) -> Json {
    Json::Object(map!["type"@ => Json::Text(kind), "description"@ => Json::Text(description)])
}

/// The members of an object under construction.
pub struct Members {
    map: serde_json::Map<String, Value>,
}

impl View for Members {
    type V = Map<Seq<char>, Json>;

    closed spec fn view(&self) -> Map<Seq<char>, Json> {
        members_in(self.map)
    }
}

impl Members {
    /// No members.
    pub fn new() -> (members: Self)
        ensures
            members@ == Map::<Seq<char>, Json>::empty(),
    {
        Members { map: no_members() }
    }

    /// Adds a member, in place of the one with the same key where there is one.
    pub fn push(&mut self, key: &str, value: Value)
        ensures
            final(self)@ == old(self)@.insert(key@, json_of(value)),
    {
        insert_member(&mut self.map, key.to_owned(), value);
    }

    /// Adds a member that is a string.
    pub fn push_text(&mut self, key: &str, text: &str)
        ensures
            final(self)@ == old(self)@.insert(key@, Json::Text(text@)),
    {
        self.push(key, string_value(text.to_owned()));
    }

    /// The object with these members.
    pub fn into_object(self) -> (value: Value)
        ensures
            json_of(value) == Json::Object(self@),
    {
        object_value(self.map)
    }
}

/// The JSON strings of the given texts.
pub fn strings_value(list: &[&str]) -> (value: Value)
    ensures
        json_of(value) == strings(Seq::new(list@.len(), |i: int| list@[i]@)),
{
    let ghost expected = Seq::new(list@.len(), |i: int| Json::Text(list@[i]@));
    let mut elements: Vec<Value> = Vec::new();
    let mut i: usize = 0;
    while i < list.len()
        invariant
            i <= list@.len(),
            expected == Seq::new(list@.len(), |k: int| Json::Text(list@[k]@)),
            jsons_of(elements@) =~= expected.take(i as int),
        decreases list@.len() - i,
    {
        let ghost before = elements@;
        let element = string_value(list[i].to_owned());
        elements.push(element);
        assert(jsons_of(elements@) =~= jsons_of(before).push(json_of(element)));
        assert(expected.take(i + 1) =~= expected.take(i as int).push(expected[i as int]));
        i = i + 1;
    }
    proof {
        let texts = Seq::new(list@.len(), |i: int| list@[i]@);
        assert(jsons_of(elements@) =~= Seq::new(texts.len(), |i: int| Json::Text(texts[i])));
    }
    array_value(elements)
}

/// The schema of a value of the given type.
pub fn property_value(kind: &str, description: &str) -> (value: Value)
    ensures
        json_of(value) == property(kind@, description@),
{
    let mut members = Members::new();
    members.push_text("type", kind);
    members.push_text("description", description);
    members.into_object()
}

/// The schema of an object: its properties, and which of them it must have.
pub open spec fn object_schema(
    properties: Map<Seq<char>, Json>,
    required: Seq<Seq<char>>,
) -> Json {
    let members = map![
        "type"@ => Json::Text("object"@),
        "properties"@ => Json::Object(properties),
    ];
    Json::Object(
        if required.len() > 0 {
            members.insert("required"@, strings(required))
        } else {
            members
        },
    )
}

/// The schema of an object: its properties, and which of them it must have.
pub fn object_schema_value(properties: Members, required: &[&str]) -> (value: Value)
    ensures
        json_of(value) == object_schema(
            properties@,
            Seq::new(required@.len(), |i: int| required@[i]@),
        ),
{
    let mut members = Members::new();
    members.push_text("type", "object");
    members.push("properties", properties.into_object());
    if required.len() > 0 {
        members.push("required", strings_value(required));
    }
    members.into_object()
}

} // verus!
