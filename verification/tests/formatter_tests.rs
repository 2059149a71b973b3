use logshear::formatter::{Formatter, OutputFormat};
use logshear::json::{JsonNumber, JsonValue};
use logshear::strmap::StrMap;

fn fields(pairs: Vec<(&str, JsonValue)>) -> StrMap<JsonValue> {
    let mut m = StrMap::new();
    for (k, v) in pairs {
        m.insert(k.to_string(), v);
    }
    m
}

fn s(v: &str) -> JsonValue {
    JsonValue::Str(v.to_string())
}

fn number(text: &str) -> JsonValue {
    JsonValue::Number(JsonNumber { text: text.to_string(), is_f64: false, is_i64: true, is_u64: true })
}

#[test]
fn raw_format_returns_original_line() {
    let f = Formatter::new(OutputFormat::Raw, false);
    let result = f.format_line("hello world", &StrMap::new());
    assert_eq!(result, Some("hello world".to_string()));
}

#[test]
fn json_format_with_fields() {
    let f = Formatter::new(OutputFormat::Json, false);
    let flds = fields(vec![("level", s("error")), ("msg", s("oops"))]);
    let result = f.format_line("", &flds).unwrap();
    let parsed: serde_json::Value = serde_json::from_str(&result).unwrap();
    assert_eq!(parsed["level"], serde_json::Value::String("error".to_string()));
}

#[test]
fn json_format_empty_fields_returns_raw() {
    let f = Formatter::new(OutputFormat::Json, false);
    let result = f.format_line("raw line", &StrMap::new());
    assert_eq!(result, Some("raw line".to_string()));
}

#[test]
fn fields_format_extracts_columns() {
    let f = Formatter::new(OutputFormat::Fields(vec!["level".into(), "msg".into()]), false);
    let flds = fields(vec![("level", s("warn")), ("msg", s("watch out")), ("ts", number("123"))]);
    let result = f.format_line("", &flds).unwrap();
    assert_eq!(result, "warn\twatch out");
}

#[test]
fn fields_format_missing_key_skipped() {
    let f = Formatter::new(OutputFormat::Fields(vec!["level".into(), "missing".into()]), false);
    let flds = fields(vec![("level", s("info"))]);
    let result = f.format_line("", &flds).unwrap();
    assert_eq!(result, "info");
}

#[test]
fn highlight_wraps_term_with_ansi() {
    let f = Formatter::new(OutputFormat::Raw, true);
    let out = f.highlight("error occurred", "error");
    assert!(out.contains("\x1b[1;33merror\x1b[0m"));
}

#[test]
fn highlight_no_color_returns_unchanged() {
    let f = Formatter::new(OutputFormat::Raw, false);
    let out = f.highlight("error occurred", "error");
    assert_eq!(out, "error occurred");
}

#[test]
fn fields_format_none_found_gives_none() {
    let f = Formatter::new(OutputFormat::Fields(vec!["a".into()]), false);
    let flds = fields(vec![("b", s("x"))]);
    assert_eq!(f.format_line("raw", &flds), None);
}

#[test]
fn json_escapes_and_value_kinds() {
    let f = Formatter::new(OutputFormat::Json, false);
    let flds = fields(vec![
        ("q", s("a\"b\\c\nd\te\u{1}")),
        ("n", JsonValue::Null),
        ("t", JsonValue::Bool(true)),
        ("i", number("42")),
        ("arr", JsonValue::Array("[1,2]".to_string())),
    ]);
    let out = f.format_line("", &flds).unwrap();
    assert_eq!(out, "{\"q\":\"a\\\"b\\\\c\\nd\\te\\u0001\",\"n\":null,\"t\":true,\"i\":42,\"arr\":[1,2]}");
    let parsed: serde_json::Value = serde_json::from_str(&out).unwrap();
    assert_eq!(parsed["q"], serde_json::Value::String("a\"b\\c\nd\te\u{1}".to_string()));
}

#[test]
fn highlight_every_occurrence_and_empty_term() {
    let f = Formatter::new(OutputFormat::Raw, true);
    assert_eq!(f.highlight("aXbX", "X"), "a\x1b[1;33mX\x1b[0mb\x1b[1;33mX\x1b[0m");
    assert_eq!(f.highlight("abc", ""), "abc");
}
