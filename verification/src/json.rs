//! The one question the library asks of JSON text it receives, and the one
//! JSON object it writes.

use vstd::prelude::*;

verus! {

/// What a JSON document holds under one key of its top-level object.
#[derive(Clone, Debug, PartialEq, Eq)]
pub enum JsonStringField {
    /// The text is not JSON; the parser's message says why.
    InvalidJson(String),
    /// The document is not an object, lacks the key, or holds a non-string there.
    NotAString,
    Found(String),
}

pub enum JsonStringFieldV {
    InvalidJson(Seq<char>),
    NotAString,
    Found(Seq<char>),
}

impl View for JsonStringField {
    type V = JsonStringFieldV;

    open spec fn view(&self) -> JsonStringFieldV {
        match self {
            JsonStringField::InvalidJson(m) => JsonStringFieldV::InvalidJson(m@),
            JsonStringField::NotAString => JsonStringFieldV::NotAString,
            JsonStringField::Found(s) => JsonStringFieldV::Found(s@),
        }
    }
}

/// The string that the JSON document `text` holds under `key` of its
/// top-level object, as `serde_json` parses it.
pub uninterp spec fn json_string_field(text: Seq<char>, key: Seq<char>) -> JsonStringFieldV;

/// Parses `text` with `serde_json::from_str` and reads the string under `key`.
/// Only that the result is determined by the two arguments is stated.
#[verifier::external_body]
pub(crate) fn lookup_json_string_field(text: &str, key: &str) -> (res: JsonStringField)
    ensures
        res@ == json_string_field(text@, key@),
{
    match serde_json::from_str::<serde_json::Value>(text) {
        Err(error) => JsonStringField::InvalidJson(error.to_string()),
        Ok(value) => match value.as_object().and_then(|object| object.get(key)).and_then(
            serde_json::Value::as_str,
        ) {
            Some(found) => JsonStringField::Found(found.to_string()),
            None => JsonStringField::NotAString,
        },
    }
}


/// How `serde_json` writes one character inside a JSON string: `"` and `\`
/// behind a backslash, the five short control escapes, other control
/// characters as `\u00` and two lowercase hex digits, anything else as is.
pub open spec fn json_escape_char(c: char) -> Seq<char> {
    if c == '"' {
        seq!['\\', '"']
    } else if c == '\\' {
        seq!['\\', '\\']
    } else if c == '\u{8}' {
        seq!['\\', 'b']
    } else if c == '\t' {
        seq!['\\', 't']
    } else if c == '\n' {
        seq!['\\', 'n']
    } else if c == '\u{c}' {
        seq!['\\', 'f']
    } else if c == '\r' {
        seq!['\\', 'r']
    } else if (c as u32) < 0x20 {
        seq!['\\', 'u', '0', '0'] + crate::text::hex_byte(c as u8)
    } else {
        seq![c]
    }
}

/// The characters of `s` as they stand inside a JSON string.
pub open spec fn json_escaped(s: Seq<char>) -> Seq<char>
    decreases s.len(),
{
    if s.len() == 0 {
        Seq::empty()
    } else {
        json_escaped(s.drop_last()) + json_escape_char(s.last())
    }
}

/// The compact JSON text of the object with the one string field `key`
/// holding `value`.
pub open spec fn json_string_object(key: Seq<char>, value: Seq<char>) -> Seq<char> {
    seq!['{', '"'] + json_escaped(key) + seq!['"', ':', '"'] + json_escaped(value) + seq!['"', '}']
}

/// Serializes the object `{key: value}` with `serde_json::to_string`, which
/// writes it compactly with both strings escaped and cannot fail on it.
#[verifier::external_body]
pub(crate) fn encode_string_object(key: &str, value: &str) -> (res: Result<String, String>)
    ensures
        res is Ok,
        res->Ok_0@ == json_string_object(key@, value@),
{
    let mut object = serde_json::Map::new();
    object.insert(key.to_string(), serde_json::Value::String(value.to_string()));
    serde_json::to_string(&serde_json::Value::Object(object)).map_err(|error| error.to_string())
}

}
