use logshear::field_extractor::extract_fields;

#[test]
fn test_extract_json_fields() {
    let line = r#"{"level":"info","msg":"started","port":8080}"#;
    let extracted = extract_fields(line);
    assert_eq!(extracted.get("level"), Some("info"));
    assert_eq!(extracted.get("msg"), Some("started"));
    assert_eq!(extracted.get("port"), Some("8080"));
}

#[test]
fn test_extract_kv_fields() {
    let line = "ts=2024-01-01 level=warn msg=\"disk full\" host=web01";
    let extracted = extract_fields(line);
    assert_eq!(extracted.get("level"), Some("warn"));
    assert_eq!(extracted.get("msg"), Some("disk full"));
    assert_eq!(extracted.get("host"), Some("web01"));
}

#[test]
fn test_extract_unstructured_falls_back_empty() {
    let line = "plain log line with no structure";
    let extracted = extract_fields(line);
    assert!(extracted.fields.is_empty());
    assert_eq!(extracted.raw, line);
}

#[test]
fn test_extract_json_nested_value_stringified() {
    let line = r#"{"meta":{"k":1},"level":"debug"}"#;
    let extracted = extract_fields(line);
    assert_eq!(extracted.get("level"), Some("debug"));
    assert!(extracted.get("meta").is_some());
}

#[test]
fn test_get_missing_field() {
    let line = r#"{"level":"info"}"#;
    let extracted = extract_fields(line);
    assert_eq!(extracted.get("nonexistent"), None);
}

#[test]
fn test_kv_simple_values() {
    let line = "status=200 method=GET path=/api/v1";
    let extracted = extract_fields(line);
    assert_eq!(extracted.get("status"), Some("200"));
    assert_eq!(extracted.get("method"), Some("GET"));
    assert_eq!(extracted.get("path"), Some("/api/v1"));
}

#[test]
fn test_raw_preserved() {
    let line = "some raw log line";
    let extracted = extract_fields(line);
    assert_eq!(extracted.raw, line);
}

#[test]
fn json_values_shown_as_json_text() {
    let line = r#"  {"n":null,"b":false,"a":[1,2],"o":{"x":"y"},"f":1.5}  "#;
    let extracted = extract_fields(line);
    assert_eq!(extracted.get("n"), Some("null"));
    assert_eq!(extracted.get("b"), Some("false"));
    assert_eq!(extracted.get("a"), Some("[1,2]"));
    assert_eq!(extracted.get("o"), Some(r#"{"x":"y"}"#));
    assert_eq!(extracted.get("f"), Some("1.5"));
    assert_eq!(extracted.fields.len(), 5);
}

#[test]
fn empty_json_object_gives_no_fields() {
    let extracted = extract_fields("{} key=value");
    assert_eq!(extracted.get("key"), Some("value"));
    let only = extract_fields("{}");
    assert!(only.fields.is_empty());
}

#[test]
fn later_kv_pair_replaces_earlier() {
    let extracted = extract_fields("a=1 b=2 a=3");
    assert_eq!(extracted.get("a"), Some("3"));
    assert_eq!(extracted.get("b"), Some("2"));
    assert_eq!(extracted.fields.len(), 2);
}

#[test]
fn quoted_empty_value() {
    let extracted = extract_fields("msg=\"\" x=1,y=2");
    assert_eq!(extracted.get("msg"), Some(""));
    assert_eq!(extracted.get("x"), Some("1"));
    assert_eq!(extracted.get("y"), Some("2"));
}

#[test]
fn broken_json_falls_back_to_pairs() {
    let extracted = extract_fields("{not json level=warn");
    assert_eq!(extracted.get("level"), Some("warn"));
}
