//! JSON values as the wire carries them: what a `serde_json` value holds, and
//! the `serde_json` calls that this library makes.
use serde_json::Value;
use vstd::prelude::*;

verus! {

/// A JSON number. A fraction or an exponent makes it a float, known by the bits
/// of its double; an integer that fits is kept as it is.
pub enum JsonNumber {
    Natural(u64),
    Negative(i64),
    Float { bits: u64 },
}

/// What a JSON value holds.
pub enum Json {
    Null,
    Bool(bool),
    Number(JsonNumber),
    Text(Seq<char>),
    Array(Seq<Json>),
    Object(Map<Seq<char>, Json>),
}

/// The members of an object, by key.
pub type Members = Map<Seq<char>, Json>;

impl Json {
    /// The member of an object under `key`; nothing for any other value.
    pub open spec fn member(self, key: Seq<char>) -> Option<Json> {
        match self {
            Json::Object(members) => if members.contains_key(key) {
                Some(members[key])
            } else {
                None
            },
            _ => None,
        }
    }

    /// The text of a string; nothing for any other value.
    pub open spec fn text(self) -> Option<Seq<char>> {
        match self {
            Json::Text(text) => Some(text),
            _ => None,
        }
    }

    /// The integer, where the value is one from 0 to `u64::MAX`.
    pub open spec fn natural(self) -> Option<u64> {
        match self {
            Json::Number(JsonNumber::Natural(n)) => Some(n),
            _ => None,
        }
    }

    /// The text of the member under `key`, where there is one and it is a string.
    pub open spec fn text_at(self, key: Seq<char>) -> Option<Seq<char>> {
        match self.member(key) {
            Some(member) => member.text(),
            None => None,
        }
    }

    /// The integer under `key`, where there is one from 0 to `u64::MAX`.
    pub open spec fn natural_at(self, key: Seq<char>) -> Option<u64> {
        match self.member(key) {
            Some(member) => member.natural(),
            None => None,
        }
    }

    /// Whether arrays and objects are nested at most `depth` deep, and no number
    /// is a float.
    pub open spec fn shallow(self, depth: nat) -> bool
        decreases depth,
    {
        match self {
            Json::Number(JsonNumber::Float { .. }) => false,
            Json::Array(items) => depth > 0 && forall|i: int|
                0 <= i < items.len() ==> (#[trigger] items[i]).shallow((depth - 1) as nat),
            Json::Object(members) => depth > 0 && forall|key: Seq<char>|
                members.contains_key(key) ==> (#[trigger] members[key]).shallow(
                    (depth - 1) as nat,
                ),
            _ => true,
        }
    }
}

/// `serde_json::Value`: any JSON value.
#[verifier::external_type_specification]
#[verifier::external_body]
pub struct ExValue(serde_json::Value);

/// `serde_json::Map`: the members of a JSON object, by key.
#[verifier::external_type_specification]
#[verifier::external_body]
#[verifier::reject_recursive_types(K)]
#[verifier::reject_recursive_types(V)]
pub struct ExMembers<K, V>(serde_json::Map<K, V>);

/// `serde_json::Error`: why a text is no JSON.
#[verifier::external_type_specification]
#[verifier::external_body]
pub struct ExError(serde_json::Error);

/// What a value holds.
pub uninterp spec fn json_of(value: serde_json::Value) -> Json;

/// The members that a map holds.
pub uninterp spec fn members_of(map: serde_json::Map<String, serde_json::Value>) -> Members;

/// The JSON value that `serde_json::from_str` reads in a text, if it accepts the
/// text.
pub uninterp spec fn parsed(text: Seq<char>) -> Option<Json>;

/// The text that the `Display` of `serde_json::Value` writes for what a value
/// holds.
pub uninterp spec fn printed(json: Json) -> Seq<char>;

/// `serde_json::from_str`, for a `Value`. Whether it accepts a text, and the value
/// it then gives, depend on the text alone.
#[verifier::external_body]
pub(crate) fn parse(text: &str) -> (value: Result<Value, serde_json::Error>)
    ensures
        match value {
            Ok(value) => parsed(text@) == Some(json_of(value)),
            Err(_) => parsed(text@) is None,
        },
{
    serde_json::from_str::<Value>(text)
}

/// `Value`'s `Display`, the compact form. The text is on one line, and
/// `serde_json::from_str` reads the same value in it again: it escapes control
/// characters in strings, writes an integer with all its digits, and stays under
/// the nesting limit of the reader.
#[verifier::external_body]
pub(crate) fn print(value: &Value) -> (text: String)
    requires
        json_of(*value).shallow(READER_DEPTH as nat),
    ensures
        text@ == printed(json_of(*value)),
        parsed(text@) == Some(json_of(*value)),
        !text@.contains('\n'),
{
    value.to_string()
}

/// `Value::get` with a string: the member of an object under that key, `None` for
/// a missing key and for a value that is no object.
#[verifier::external_body]
pub(crate) fn member<'a>(value: &'a Value, key: &str) -> (found: Option<&'a Value>)
    ensures
        match found {
            Some(found) => json_of(*value).member(key@) == Some(json_of(*found)),
            None => json_of(*value).member(key@) is None,
        },
{
    value.get(key)
}

/// `Value::as_str` gives the text of a string value, and `None` for any other
/// value.
pub assume_specification[ serde_json::Value::as_str ](value: &serde_json::Value) -> (text: Option<
    &str,
>)
    ensures
        match text {
            Some(text) => json_of(*value).text() == Some(text@),
            None => json_of(*value).text() is None,
        },
;

/// `Value::as_u64` gives the number where it is an integer from 0 to `u64::MAX`,
/// and `None` for any other value.
pub assume_specification[ serde_json::Value::as_u64 ](value: &serde_json::Value) -> (number: Option<
    u64,
>)
    ensures
        number == json_of(*value).natural(),
;

/// `Value::is_object` tells an object from any other value.
pub assume_specification[ serde_json::Value::is_object ](value: &serde_json::Value) -> (answer: bool)
    ensures
        answer == (json_of(*value) is Object),
;

/// The text of the member under `key`, where there is one and it is a string.
pub(crate) fn text_at<'a>(value: &'a Value, key: &str) -> (text: Option<&'a str>)
    ensures
        match text {
            Some(text) => json_of(*value).text_at(key@) == Some(text@),
            None => json_of(*value).text_at(key@) is None,
        },
{
    match member(value, key) {
        Some(found) => found.as_str(),
        None => None,
    }
}

/// The integer under `key`, where there is one from 0 to `u64::MAX`.
pub(crate) fn natural_at(value: &Value, key: &str) -> (number: Option<u64>)
    ensures
        number == json_of(*value).natural_at(key@),
{
    match member(value, key) {
        Some(found) => found.as_u64(),
        None => None,
    }
}

/// `Value::from` of a string slice is the string value with that text.
#[verifier::external_body]
pub(crate) fn text_value(text: &str) -> (value: Value)
    ensures
        json_of(value) == Json::Text(text@),
{
    Value::from(text)
}

/// `Value::from` of a `bool` is the boolean value.
#[verifier::external_body]
pub(crate) fn bool_value(flag: bool) -> (value: Value)
    ensures
        json_of(value) == Json::Bool(flag),
{
    Value::from(flag)
}

/// `Value::from` of a `u64` is the number.
#[verifier::external_body]
pub(crate) fn natural_value(number: u64) -> (value: Value)
    ensures
        json_of(value) == Json::Number(JsonNumber::Natural(number)),
{
    Value::from(number)
}

/// `Value::from` of a `Vec` of values is the array of them, in order.
#[verifier::external_body]
pub(crate) fn array_value(items: Vec<Value>) -> (value: Value)
    ensures
        json_of(value) == Json::Array(items@.map_values(|item: Value| json_of(item))),
{
    Value::from(items)
}

/// `Value::from` of a map is the object with those members.
#[verifier::external_body]
pub(crate) fn object_value(members: serde_json::Map<String, Value>) -> (value: Value)
    ensures
        json_of(value) == Json::Object(members_of(members)),
{
    Value::from(members)
}

/// `serde_json::Map::new` holds no member.
pub assume_specification[ serde_json::Map::<String, serde_json::Value>::new ]() -> (map:
    serde_json::Map<String, serde_json::Value>)
    ensures
        members_of(map) == Members::empty(),
;

/// `serde_json::Map::insert` puts the value under the key, in place of what stood
/// there, which it returns.
pub assume_specification[ serde_json::Map::<String, serde_json::Value>::insert ](
    map: &mut serde_json::Map<String, serde_json::Value>,
    k: String,
    v: serde_json::Value,
) -> (before: Option<serde_json::Value>)
    ensures
        members_of(*final(map)) == members_of(*old(map)).insert(k@, json_of(v)),
        match before {
            Some(before) => members_of(*old(map)).contains_key(k@) && members_of(*old(map))[k@]
                == json_of(before),
            None => !members_of(*old(map)).contains_key(k@),
        },
;

/// How deep arrays and objects may be nested in a text that `serde_json::from_str`
/// accepts.
pub const READER_DEPTH: u64 = 127;

} // verus!
