//! JSON documents, read and written through `serde_json`.
//!
//! `serde_json::Value` is opaque to the verifier. What a value holds is its `Json`
//! tree, `json_of`; every function here is stated over such trees, and each is one
//! operation of `serde_json` that is believed, not proved.
use vstd::prelude::*;

verus! {

/// A JSON number: an integer, or a float given by its IEEE 754 bits.
pub enum JsonNumber {
    Integer(int),
    Float(u64),
}

/// The tree that a JSON value stands for.
pub enum Json {
    Null,
    Boolean(bool),
    Number(JsonNumber),
    Text(Seq<char>),
    Array(Seq<Json>),
    Object(Map<Seq<char>, Json>),
}

impl Json {
    /// The member of an object under a key. What is no object has no members.
    pub open spec fn member(self, key: Seq<char>) -> Option<Json> {
        match self {
            Json::Object(m) => if m.contains_key(key) {
                Some(m[key])
            } else {
                None
            },
            _ => None,
        }
    }

    /// The characters of a text.
    pub open spec fn text(self) -> Option<Seq<char>> {
        match self {
            Json::Text(t) => Some(t),
            _ => None,
        }
    }

    /// The elements of an array.
    pub open spec fn elements(self) -> Option<Seq<Json>> {
        match self {
            Json::Array(a) => Some(a),
            _ => None,
        }
    }

    /// The text under a key.
    pub open spec fn text_member(self, key: Seq<char>) -> Option<Seq<char>> {
        match self.member(key) {
            Some(m) => m.text(),
            None => None,
        }
    }
}

/// `serde_json::Value`, carried through without a look inside.
#[verifier::external_type_specification]
#[verifier::external_body]
pub struct ExValue(serde_json::Value);

/// The tree that a `serde_json::Value` holds.
pub uninterp spec fn json_of(value: serde_json::Value) -> Json;

/// What `serde_json::from_str` makes of a text: the tree, or the message of its error.
pub uninterp spec fn json_parse(text: Seq<char>) -> Result<Json, Seq<char>>;

/// The IEEE 754 bits of what `serde_json::Value::as_f64` makes of an integer.
pub uninterp spec fn integer_bits(n: int) -> u64;

/// The IEEE 754 bits of a number.
pub open spec fn number_bits(number: JsonNumber) -> u64 {
    match number {
        JsonNumber::Integer(n) => integer_bits(n),
        JsonNumber::Float(bits) => bits,
    }
}

/// What `serde_json::to_string_pretty` writes for a value, or the message of its error.
pub uninterp spec fn json_pretty(value: Json) -> Result<Seq<char>, Seq<char>>;

/// The trees of a list of values.
pub open spec fn json_list(values: Seq<serde_json::Value>) -> Seq<Json> {
    Seq::new(values.len(), |i: int| json_of(values[i]))
}

/// `serde_json::from_str`, read as a `serde_json::Value`. What comes out depends on
/// the text alone; which texts are refused, and with what message, is not said.
#[verifier::external_body]
pub(crate) fn parse(text: &str) -> (r: Result<serde_json::Value, String>)
    ensures
        match r {
            Ok(value) => json_parse(text@) == Ok::<Json, Seq<char>>(json_of(value)),
            Err(message) => json_parse(text@) == Err::<Json, Seq<char>>(message@),
        },
{
    serde_json::from_str(text).map_err(|e| e.to_string())
}

/// `serde_json::Value::get` with a string: the member of an object under that key;
/// nothing where there is none or the value is no object.
#[verifier::external_body]
pub(crate) fn get<'a>(value: &'a serde_json::Value, key: &str) -> (r: Option<&'a serde_json::Value>)
    ensures
        match r {
            Some(member) => json_of(*value).member(key@) == Some(json_of(*member)),
            None => json_of(*value).member(key@) is None,
        },
{
    value.get(key)
}

/// `serde_json::Value::as_array`: the elements of an array; nothing for any other value.
#[verifier::external_body]
pub(crate) fn as_array<'a>(value: &'a serde_json::Value) -> (r: Option<&'a Vec<serde_json::Value>>)
    ensures
        match r {
            Some(list) => json_of(*value).elements() == Some(json_list(list@)),
            None => json_of(*value).elements() is None,
        },
{
    value.as_array()
}

/// `serde_json::Value::as_str`: the characters of a text; nothing for any other value.
#[verifier::external_body]
pub(crate) fn as_str<'a>(value: &'a serde_json::Value) -> (r: Option<&'a str>)
    ensures
        match r {
            Some(s) => json_of(*value).text() == Some(s@),
            None => json_of(*value).text() is None,
        },
{
    value.as_str()
}

/// `serde_json::Value::as_f64`, as IEEE 754 bits: a float gives its own, an integer bits
/// that depend on the integer alone; any other value has none. Which bits an integer is
/// rounded to is not said.
#[verifier::external_body]
pub(crate) fn as_float_bits(value: &serde_json::Value) -> (r: Option<u64>)
    ensures
        r == (match json_of(*value) {
            Json::Number(JsonNumber::Integer(n)) => Some(integer_bits(n)),
            Json::Number(JsonNumber::Float(bits)) => Some(bits),
            _ => None,
        }),
{
    value.as_f64().map(|x| x.to_bits())
}

/// `serde_json::Value::from` on a string slice makes a text.
#[verifier::external_body]
pub(crate) fn from_text(s: &str) -> (r: serde_json::Value)
    ensures
        json_of(r) == Json::Text(s@),
{
    serde_json::Value::from(s)
}

/// `serde_json::Value::from` on an `i64` makes an integer.
#[verifier::external_body]
pub(crate) fn from_integer(n: i64) -> (r: serde_json::Value)
    ensures
        json_of(r) == Json::Number(JsonNumber::Integer(n as int)),
{
    serde_json::Value::from(n)
}

/// `serde_json::Value::from` on a `bool` makes a boolean.
#[verifier::external_body]
pub(crate) fn from_boolean(b: bool) -> (r: serde_json::Value)
    ensures
        json_of(r) == Json::Boolean(b),
{
    serde_json::Value::from(b)
}

/// `serde_json::Value::from` on a vector of values makes an array of them.
#[verifier::external_body]
pub(crate) fn from_list(values: Vec<serde_json::Value>) -> (r: serde_json::Value)
    ensures
        json_of(r) == Json::Array(json_list(values@)),
{
    serde_json::Value::from(values)
}

/// `serde_json::Map::new` makes an object without members.
#[verifier::external_body]
pub(crate) fn empty_object() -> (r: serde_json::Value)
    ensures
        json_of(r) == Json::Object(Map::empty()),
{
    serde_json::Value::from(serde_json::Map::new())
}

/// Assignment to an indexed `serde_json::Value`: an object gets a member, in place of
/// the one that stood under the key. On what is neither object nor null the index panics.
#[verifier::external_body]
pub(crate) fn put(object: &mut serde_json::Value, key: &str, value: serde_json::Value)
    requires
        json_of(*old(object)) is Object,
    ensures
        json_of(*final(object)) == Json::Object(
            json_of(*old(object))->Object_0.insert(key@, json_of(value)),
        ),
{
    object[key] = value;
}

/// `serde_json::to_string_pretty` on a `serde_json::Value`: the text depends on the
/// tree alone. How the text is laid out is not said.
#[verifier::external_body]
pub(crate) fn pretty(value: &serde_json::Value) -> (r: Result<String, String>)
    ensures
        match r {
            Ok(text) => json_pretty(json_of(*value)) == Ok::<Seq<char>, Seq<char>>(text@),
            Err(message) => json_pretty(json_of(*value)) == Err::<Seq<char>, Seq<char>>(message@),
        },
{
    serde_json::to_string_pretty(value).map_err(|e| e.to_string())
}

} // verus!
