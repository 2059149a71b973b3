use logshear::field_extractor::{extract_fields, ExtractedFields};
use logshear::field_filter::FieldFilter;

fn make_fields(line: &str) -> ExtractedFields {
    extract_fields(line)
}

#[test]
fn test_passthrough_no_config() {
    let f = FieldFilter::default();
    assert!(f.is_passthrough());
}

#[test]
fn test_include_filter() {
    let f = FieldFilter::new(vec!["level".into(), "msg".into()], vec![]);
    let extracted = make_fields(r#"{"level":"info","msg":"ok","host":"web01"}"#);
    let pairs = f.apply(&extracted);
    let keys: Vec<&str> = pairs.iter().map(|(k, _)| *k).collect();
    assert_eq!(keys, vec!["level", "msg"]);
}

#[test]
fn test_exclude_filter() {
    let f = FieldFilter::new(vec![], vec!["host".into()]);
    let extracted = make_fields(r#"{"level":"info","msg":"ok","host":"web01"}"#);
    let pairs = f.apply(&extracted);
    let keys: Vec<&str> = pairs.iter().map(|(k, _)| *k).collect();
    assert!(!keys.contains(&"host"));
    assert!(keys.contains(&"level"));
}

#[test]
fn test_format_fields_raw_fallback() {
    let f = FieldFilter::default();
    let extracted = make_fields("plain unstructured log");
    let out = f.format_fields(&extracted);
    assert_eq!(out, "plain unstructured log");
}

#[test]
fn test_format_fields_structured() {
    let f = FieldFilter::new(vec!["level".into(), "msg".into()], vec![]);
    let extracted = make_fields(r#"{"level":"warn","msg":"high cpu","host":"srv1"}"#);
    let out = f.format_fields(&extracted);
    assert_eq!(out, "level=warn msg=high cpu");
}

#[test]
fn test_include_preserves_order() {
    let f = FieldFilter::new(vec!["msg".into(), "level".into()], vec![]);
    let extracted = make_fields(r#"{"level":"error","msg":"crash"}"#);
    let pairs = f.apply(&extracted);
    assert_eq!(pairs[0].0, "msg");
    assert_eq!(pairs[1].0, "level");
}

#[test]
fn without_include_fields_sorted_by_name() {
    let f = FieldFilter::default();
    let extracted = make_fields("zeta=1 alpha=2 mid=3 Beta=4");
    let pairs = f.apply(&extracted);
    assert_eq!(pairs, vec![("Beta", "4"), ("alpha", "2"), ("mid", "3"), ("zeta", "1")]);
    assert_eq!(f.format_fields(&extracted), "Beta=4 alpha=2 mid=3 zeta=1");
}

#[test]
fn include_duplicates_and_missing_names() {
    let f = FieldFilter::new(vec!["b".into(), "x".into(), "a".into(), "b".into()], vec!["a".into()]);
    let extracted = make_fields("a=1 b=2 c=3");
    let pairs = f.apply(&extracted);
    assert_eq!(pairs, vec![("b", "2")]);
}

#[test]
fn everything_excluded_gives_raw_line() {
    let f = FieldFilter::new(vec![], vec!["a".into()]);
    let extracted = make_fields("a=1");
    assert!(f.apply(&extracted).is_empty());
    assert_eq!(f.format_fields(&extracted), "a=1");
}
