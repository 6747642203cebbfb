//! The compact JSON text of an object with one string field, as `serde_json`
//! writes it.
use vstd::prelude::*;

verus! {

/// A lower-case hexadecimal digit.
pub open spec fn hex_digit(n: nat) -> char {
    if n < 10 {
        (0x30 + n) as char
    } else {
        (0x61 + n - 10) as char
    }
}

/// How one character stands inside a JSON string: `"` and `\` get a
/// backslash; backspace, tab, line feed, form feed and carriage return
/// become `\b \t \n \f \r`; other characters below 0x20 become `\u00xx`
/// (lower-case hexadecimal); every other character stands as it is.
pub open spec fn json_escape_char(c: char) -> Seq<char> {
    if c == '"' {
        seq!['\\', '"']
    } else if c == '\\' {
        seq!['\\', '\\']
    } else if c == '\u{08}' {
        seq!['\\', 'b']
    } else if c == '\t' {
        seq!['\\', 't']
    } else if c == '\n' {
        seq!['\\', 'n']
    } else if c == '\u{0C}' {
        seq!['\\', 'f']
    } else if c == '\r' {
        seq!['\\', 'r']
    } else if (c as u32) < 0x20 {
        seq!['\\', 'u', '0', '0', hex_digit((c as u32 / 16) as nat), hex_digit((c as u32 % 16) as nat)]
    } else {
        seq![c]
    }
}

/// The characters of a text, each escaped.
pub open spec fn json_escape(s: Seq<char>) -> Seq<char>
    decreases s.len(),
{
    if s.len() == 0 {
        Seq::empty()
    } else {
        json_escape_char(s[0]) + json_escape(s.drop_first())
    }
}

/// A text as a JSON string: escaped, between double quotes.
pub open spec fn json_string(s: Seq<char>) -> Seq<char> {
    seq!['"'] + json_escape(s) + seq!['"']
}

/// The compact JSON object with the one field `key` whose value is the
/// string `value`: `{"key":"value"}`.
pub open spec fn json_object_with_field(key: Seq<char>, value: Seq<char>) -> Seq<char> {
    seq!['{'] + json_string(key) + seq![':'] + json_string(value) + seq!['}']
}

/// `serde_json`: the object `{key: value}` built as a `Value` (a `Map` with
/// the one entry) and written with `Value::to_string`, the compact format.
/// Its text is the object's braces around the key and the value, each
/// written as an escaped JSON string, with a colon between them.
#[verifier::external_body]
pub(crate) fn json_object_field(key: &String, value: &String) -> (r: String)
    ensures
        r@ == json_object_with_field(key@, value@),
{
    let mut object = serde_json::Map::new();
    object.insert(key.clone(), serde_json::Value::String(value.clone()));
    serde_json::Value::Object(object).to_string()
}

} // verus!
