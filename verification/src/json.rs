//! JSON values as the log-processing logic reads them.
//!
//! Parsing is done by `serde_json`; a parsed object is handed over as a list
//! of `(key, JsonValue)` pairs of plain values. Writing an object back out,
//! in compact form, is framed here, with strings quoted by `serde_json`.

use vstd::prelude::*;
use crate::text;
use serde_json::Value;

verus! {

/// A JSON number, by its printed form and how `serde_json` classifies it.
#[derive(Debug)]
pub struct JsonNumber {
    /// The number as `serde_json` prints it.
    pub text: String,
    /// `serde_json::Number::is_f64`.
    pub is_f64: bool,
    /// `serde_json::Number::is_i64`.
    pub is_i64: bool,
    /// `serde_json::Number::is_u64`.
    pub is_u64: bool,
}

/// A JSON value; arrays and objects by their compact JSON text.
#[derive(Debug)]
pub enum JsonValue {
    Null,
    Bool(bool),
    Number(JsonNumber),
    Str(String),
    Array(String),
    Object(String),
}

/// A JSON value with texts by their characters.
pub enum JsonView {
    Null,
    Bool(bool),
    Number(Seq<char>, bool, bool, bool),
    Str(Seq<char>),
    Array(Seq<char>),
    Object(Seq<char>),
}

impl View for JsonValue {
    type V = JsonView;

    open spec fn view(&self) -> JsonView {
        match self {
            JsonValue::Null => JsonView::Null,
            JsonValue::Bool(b) => JsonView::Bool(*b),
            JsonValue::Number(n) => JsonView::Number(n.text@, n.is_f64, n.is_i64, n.is_u64),
            JsonValue::Str(s) => JsonView::Str(s@),
            JsonValue::Array(t) => JsonView::Array(t@),
            JsonValue::Object(t) => JsonView::Object(t@),
        }
    }
}

/// What `serde_json::from_str` followed by `Value::as_object` gives for a
/// text: the object's members in `serde_json`'s map order, or `None` when the
/// text is not a JSON object.
pub uninterp spec fn json_object(text: Seq<char>) -> Option<Seq<(Seq<char>, JsonView)>>;

/// The members of a parsed object, keys and values by their views.
pub open spec fn members_view(v: Seq<(String, JsonValue)>) -> Seq<(Seq<char>, JsonView)> {
    v.map_values(|e: (String, JsonValue)| (e.0@, e.1@))
}

/// Trusted: parses `text` with `serde_json::from_str`, keeps it only when it
/// is an object, and converts each member value to a `JsonValue`; the result
/// is named `json_object`. The members come from a `serde_json::Map`, so no
/// key occurs twice.
#[verifier::external_body]
pub(crate) fn parse_object(text: &str) -> (r: Option<Vec<(String, JsonValue)>>)
    ensures
        match r {
            Some(v) => json_object(text@) == Some(members_view(v@)) && crate::strmap::unique_keys(
                members_view(v@),
            ),
            None => json_object(text@) is None,
        },
{
    let value: Value = serde_json::from_str(text).ok()?;
    let members = value.as_object()?.iter().map(|(k, v)| (k.clone(), match v {
        Value::Null => JsonValue::Null,
        Value::Bool(b) => JsonValue::Bool(*b),
        Value::Number(n) => JsonValue::Number(JsonNumber {
            text: n.to_string(), is_f64: n.is_f64(), is_i64: n.is_i64(), is_u64: n.is_u64() }),
        Value::String(s) => JsonValue::Str(s.clone()),
        Value::Array(_) => JsonValue::Array(v.to_string()),
        Value::Object(_) => JsonValue::Object(v.to_string()),
    }));
    Some(members.collect())
}

/// The text a value is shown as: strings without quotes, everything else
/// as JSON.
pub open spec fn display_text(v: JsonView) -> Seq<char> {
    match v {
        JsonView::Null => "null"@,
        JsonView::Bool(b) => if b {
            "true"@
        } else {
            "false"@
        },
        JsonView::Number(t, _, _, _) => t,
        JsonView::Str(s) => s,
        JsonView::Array(t) => t,
        JsonView::Object(t) => t,
    }
}

/// The text a value is shown as: strings without quotes, everything else
/// as JSON.
pub fn display_value(v: &JsonValue) -> (s: String)
    ensures
        s@ == display_text(v@),
{
    match v {
        JsonValue::Null => "null".to_owned(),
        JsonValue::Bool(b) => if *b {
            "true".to_owned()
        } else {
            "false".to_owned()
        },
        JsonValue::Number(n) => n.text.clone(),
        JsonValue::Str(s) => s.clone(),
        JsonValue::Array(t) => t.clone(),
        JsonValue::Object(t) => t.clone(),
    }
}

/// A lowercase hexadecimal digit.
pub open spec fn hex_digit(d: int) -> char {
    if d < 10 {
        ((d + 48) as u8) as char
    } else {
        ((d + 87) as u8) as char
    }
}

/// How `serde_json` writes one character inside a string: `"` and `\` and
/// the control characters with a short form are escaped by it, the other
/// control characters as `\u00XX` in lowercase hexadecimal, every other
/// character as itself.
pub open spec fn escape_char(c: char) -> Seq<char> {
    if c == '"' {
        seq!['\\', '"']
    } else if c == '\\' {
        seq!['\\', '\\']
    } else if c == '\n' {
        seq!['\\', 'n']
    } else if c == '\r' {
        seq!['\\', 'r']
    } else if c == '\t' {
        seq!['\\', 't']
    } else if c == '\u{08}' {
        seq!['\\', 'b']
    } else if c == '\u{0C}' {
        seq!['\\', 'f']
    } else if (c as u32) < 0x20 {
        seq!['\\', 'u', '0', '0', hex_digit((c as u32 / 16) as int), hex_digit((c as u32 % 16) as int)]
    } else {
        seq![c]
    }
}

/// The escaped characters of `s`.
pub open spec fn escaped(s: Seq<char>) -> Seq<char>
    decreases s.len(),
{
    if s.len() == 0 {
        Seq::empty()
    } else {
        escaped(s.drop_last()) + escape_char(s.last())
    }
}

/// What `serde_json::to_string` gives for a string: the JSON string
/// literal, each character escaped as `escape_char` says, between quotes.
pub open spec fn json_quoted(s: Seq<char>) -> Seq<char> {
    seq!['"'] + escaped(s) + seq!['"']
}

/// Trusted: `serde_json::to_string` of a `str` writes the string literal
/// that `json_quoted` states (its escape table). Serializing a string into
/// memory does not fail, so the empty fallback is never taken.
#[verifier::external_body]
fn quote_json(s: &str) -> (r: String)
    ensures
        r@ == json_quoted(s@),
{
    serde_json::to_string(s).unwrap_or_default()
}

/// The JSON text of a value.
pub open spec fn json_text(v: JsonView) -> Seq<char> {
    match v {
        JsonView::Str(s) => json_quoted(s),
        _ => display_text(v),
    }
}

/// The JSON text of an object member.
pub open spec fn member_text(m: (Seq<char>, JsonView)) -> Seq<char> {
    json_quoted(m.0) + seq![':'] + json_text(m.1)
}

/// The compact JSON text of an object with the given members, in order.
pub open spec fn object_text(members: Seq<(Seq<char>, JsonView)>) -> Seq<char> {
    seq!['{'] + text::join(members.map_values(|m: (Seq<char>, JsonView)| member_text(m)), seq![','])
        + seq!['}']
}

/// Appends the JSON string literal for `s`.
pub fn push_json_string(v: &mut Vec<char>, s: &str)
    ensures
        final(v)@ == old(v)@ + json_quoted(s@),
{
    let q = quote_json(s);
    text::push_str(v, q.as_str());
}

/// Appends the JSON text of a value.
pub fn push_json_value(v: &mut Vec<char>, value: &JsonValue)
    ensures
        final(v)@ == old(v)@ + json_text(value@),
{
    match value {
        JsonValue::Str(s) => push_json_string(v, s.as_str()),
        _ => {
            let t = display_value(value);
            text::push_str(v, t.as_str());
        },
    }
}

} // verus!
