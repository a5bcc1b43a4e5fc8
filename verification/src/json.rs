//! JSON objects as they are sent and read.
use vstd::prelude::*;

use crate::number;
use crate::text;

verus! {

#[verifier::external_type_specification]
#[verifier::external_body]
pub struct ExJsonValue(serde_json::Value);

#[verifier::external_type_specification]
#[verifier::external_body]
pub struct ExJsonError(serde_json::Error);

#[verifier::external_type_specification]
#[verifier::external_body]
#[verifier::reject_recursive_types(K)]
#[verifier::reject_recursive_types(V)]
pub struct ExJsonMap<K, V>(serde_json::Map<K, V>);

/// A hexadecimal digit, in lower case.
pub open spec fn hex_digit(d: int) -> char {
    if d < 10 {
        ('0' as u32 + d) as char
    } else {
        ('a' as u32 + d - 10) as char
    }
}

/// A character inside a JSON string.
pub open spec fn escaped_char(c: char) -> Seq<char> {
    if c == '"' {
        seq!['\\', '"']
    } else if c == '\\' {
        seq!['\\', '\\']
    } else if c == '\u{8}' {
        seq!['\\', 'b']
    } else if c == '\u{c}' {
        seq!['\\', 'f']
    } else if c == '\n' {
        seq!['\\', 'n']
    } else if c == '\r' {
        seq!['\\', 'r']
    } else if c == '\t' {
        seq!['\\', 't']
    } else if (c as u32) < 0x20 {
        seq!['\\', 'u', '0', '0', hex_digit(c as int / 16), hex_digit(c as int % 16)]
    } else {
        seq![c]
    }
}

/// The characters of a text inside a JSON string.
pub open spec fn escaped(s: Seq<char>) -> Seq<char>
    decreases s.len(),
{
    if s.len() == 0 {
        Seq::empty()
    } else {
        escaped(s.drop_last()) + escaped_char(s.last())
    }
}

/// A text as a JSON string.
pub open spec fn quoted(s: Seq<char>) -> Seq<char> {
    seq!['"'] + escaped(s) + seq!['"']
}

/// The members of a JSON object in compact form, each value by its own text.
pub open spec fn object_text_of(fields: Seq<(Seq<char>, Seq<char>)>) -> Seq<char> {
    seq!['{'] + text::joined(
        fields.map_values(|field: (Seq<char>, Seq<char>)| quoted(field.0) + seq![':'] + field.1),
        seq![','],
    ) + seq!['}']
}

/// Whether `a` and `b` agree before `i` and `a` has the smaller character there.
pub open spec fn parts_at(a: Seq<char>, b: Seq<char>, i: int) -> bool {
    0 <= i < a.len() && i < b.len() && a.take(i) == b.take(i) && a[i] < b[i]
}

/// Whether `a` comes before `b` in the order of std's strings.
pub open spec fn comes_before(a: Seq<char>, b: Seq<char>) -> bool {
    ||| exists|i: int| parts_at(a, b, i)
    ||| a.len() < b.len() && b.take(a.len() as int) == a
}

/// The members of an object, in the order in which it is written, each value by its compact text.
pub uninterp spec fn json_fields(
    object: serde_json::Map<String, serde_json::Value>,
) -> Seq<(Seq<char>, Seq<char>)>;

/// The members of a value that are strings: none where it is no object.
pub uninterp spec fn json_strings(value: serde_json::Value) -> Map<Seq<char>, Seq<char>>;

/// What `serde_json::from_slice` reads from some bytes: the members that are strings, or nothing
/// where it reports an error.
pub uninterp spec fn json_reply(bytes: Seq<u8>) -> Option<Map<Seq<char>, Seq<char>>>;

/// `serde_json::Map::new`: an object without members.
#[verifier::external_body]
pub(crate) fn new_object() -> (r: serde_json::Map<String, serde_json::Value>)
    ensures
        json_fields(r) == Seq::<(Seq<char>, Seq<char>)>::empty(),
{
    serde_json::Map::new()
}

/// `serde_json::Map::insert` of a string under a key that comes after all keys present: the member
/// becomes the last one, written as a JSON string.
#[verifier::external_body]
pub(crate) fn add_text(
    object: &mut serde_json::Map<String, serde_json::Value>,
    key: &str,
    value: &str,
)
    requires
        forall|i: int|
            0 <= i < json_fields(*old(object)).len() ==> comes_before(
                (#[trigger] json_fields(*old(object))[i]).0,
                key@,
            ),
    ensures
        json_fields(*final(object)) == json_fields(*old(object)).push((key@, quoted(value@))),
{
    object.insert(key.to_string(), serde_json::Value::String(value.to_string()));
}

/// `serde_json::Map::insert` of a whole number under a key that comes after all keys present: the
/// member becomes the last one, written in decimal.
#[verifier::external_body]
pub(crate) fn add_number(
    object: &mut serde_json::Map<String, serde_json::Value>,
    key: &str,
    value: u64,
)
    requires
        forall|i: int|
            0 <= i < json_fields(*old(object)).len() ==> comes_before(
                (#[trigger] json_fields(*old(object))[i]).0,
                key@,
            ),
    ensures
        json_fields(*final(object)) == json_fields(*old(object)).push(
            (key@, number::decimal_text(value as nat)),
        ),
{
    object.insert(key.to_string(), serde_json::Value::from(value));
}

/// `to_string` of a `serde_json::Value` that is an object: the members in order, in compact form.
#[verifier::external_body]
pub(crate) fn object_text(object: serde_json::Map<String, serde_json::Value>) -> (r: String)
    ensures
        r@ == object_text_of(json_fields(object)),
{
    serde_json::Value::Object(object).to_string()
}

/// `to_string` of a `serde_json::Value` that is an array of one object, in compact form.
#[verifier::external_body]
pub(crate) fn array_text(object: serde_json::Map<String, serde_json::Value>) -> (r: String)
    ensures
        r@ == seq!['['] + object_text_of(json_fields(object)) + seq![']'],
{
    serde_json::Value::Array(vec![serde_json::Value::Object(object)]).to_string()
}

/// `serde_json::from_slice` into a `serde_json::Value`: what it reads depends on the bytes alone.
#[verifier::external_body]
pub(crate) fn parse(bytes: &[u8]) -> (r: Result<serde_json::Value, serde_json::Error>)
    ensures
        match r {
            Ok(value) => json_reply(bytes@) == Some(json_strings(value)),
            Err(_) => json_reply(bytes@) is None,
        },
{
    serde_json::from_slice(bytes)
}

/// Indexing a `serde_json::Value` by a key and `as_str` of what is there: the member, where it is a
/// string.
#[verifier::external_body]
pub(crate) fn string_member(value: &serde_json::Value, key: &str) -> (r: Option<String>)
    ensures
        match r {
            Some(s) => json_strings(*value).contains_key(key@) && s@ == json_strings(*value)[key@],
            None => !json_strings(*value).contains_key(key@),
        },
{
    value[key].as_str().map(|s| s.to_string())
}

} // verus!
