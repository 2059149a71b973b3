use logshear::strmap::StrMap;
use logshear::tag::Tagger;

fn tagger(pairs: &[(&str, &str)], inject_source: bool) -> Tagger {
    let mut map = StrMap::new();
    for (k, v) in pairs {
        map.insert(k.to_string(), v.to_string());
    }
    Tagger::new(map, inject_source)
}

#[test]
fn non_json_line_unchanged() {
    let t = tagger(&[("env", "prod")], false);
    let result = t.apply("plain text log", None);
    assert_eq!(result, "plain text log");
}

#[test]
fn injects_static_tag() {
    let t = tagger(&[("env", "prod")], false);
    let result = t.apply(r#"{"msg":"hello"}"#, None);
    assert!(result.contains(r#""env":"prod""#));
    assert!(result.starts_with('{'));
    assert!(result.ends_with('}'));
}

#[test]
fn injects_source_tag() {
    let t = tagger(&[], true);
    let result = t.apply(r#"{"msg":"hello"}"#, Some("app.log"));
    assert!(result.contains(r#""_source":"app.log""#));
}

#[test]
fn injects_both_tags() {
    let t = tagger(&[("region", "us-east")], true);
    let result = t.apply(r#"{"level":"info"}"#, Some("svc.log"));
    assert!(result.contains("region"));
    assert!(result.contains("_source"));
}

#[test]
fn no_tags_returns_original() {
    let t = tagger(&[], false);
    let unchanged = r#"{"msg":"hi"}"#;
    assert_eq!(t.apply(unchanged, None), unchanged);
}

#[test]
fn has_tags_false_when_empty() {
    let t = tagger(&[], false);
    assert!(!t.has_tags());
}

#[test]
fn has_tags_true_with_static() {
    let t = tagger(&[("k", "v")], false);
    assert!(t.has_tags());
}

#[test]
fn has_tags_true_with_source() {
    let t = tagger(&[], true);
    assert!(t.has_tags());
}

#[test]
fn tag_output_exact_with_trailing_comma_and_order() {
    let t = tagger(&[("a", "1"), ("b", "2")], true);
    let result = t.apply("  {\"x\":1,}  ", Some("f.log"));
    assert_eq!(result, "{\"x\":1,\"a\":\"1\",\"b\":\"2\",\"_source\":\"f.log\"}");
}

#[test]
fn source_not_injected_without_source() {
    let t = tagger(&[], true);
    let unchanged = "{\"m\":1}";
    assert_eq!(t.apply(unchanged, None), unchanged);
}
