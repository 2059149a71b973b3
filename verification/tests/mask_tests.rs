use logshear::mask::{MaskConfig, MaskRule};
use logshear::mask_config::{build_mask_config, RawMaskEntry};
use logshear::strmap::StrMap;

fn make_config(rules: Vec<(&str, MaskRule)>) -> MaskConfig {
    let mut fields = StrMap::new();
    for (k, v) in rules {
        fields.insert(k.to_string(), v);
    }
    MaskConfig::new(fields)
}

fn make_record(pairs: Vec<(&str, &str)>) -> StrMap<String> {
    let mut m = StrMap::new();
    for (k, v) in pairs {
        m.insert(k.to_string(), v.to_string());
    }
    m
}

fn field<'a>(record: &'a StrMap<String>, key: &str) -> &'a str {
    record.get(key).unwrap().as_str()
}

#[test]
fn test_prefix_mask_on_record() {
    let cfg = make_config(vec![("token", MaskRule::Prefix(4))]);
    let mut record = make_record(vec![("token", "abcdefgh")]);
    cfg.apply(&mut record);
    assert_eq!(field(&record, "token"), "abcd****");
}

#[test]
fn test_suffix_mask_on_record() {
    let cfg = make_config(vec![("card", MaskRule::Suffix(4))]);
    let mut record = make_record(vec![("card", "1234567890123456")]);
    cfg.apply(&mut record);
    assert!(field(&record, "card").ends_with("3456"));
    assert!(field(&record, "card").starts_with('*'));
}

#[test]
fn test_full_mask_on_record() {
    let cfg = make_config(vec![("password", MaskRule::Full("[REDACTED]".into()))]);
    let mut record = make_record(vec![("password", "s3cr3t")]);
    cfg.apply(&mut record);
    assert_eq!(field(&record, "password"), "[REDACTED]");
}

#[test]
fn test_prefix_shorter_than_value() {
    let cfg = make_config(vec![("tok", MaskRule::Prefix(100))]);
    let mut record = make_record(vec![("tok", "abc")]);
    cfg.apply(&mut record);
    // nothing to mask — value shorter than prefix
    assert_eq!(field(&record, "tok"), "abc");
}

#[test]
fn test_mask_in_line_prefix() {
    let cfg = make_config(vec![("token", MaskRule::Prefix(3))]);
    let line = "level=info token=abcdef msg=ok";
    let result = cfg.apply_to_line(line);
    assert!(result.contains("token=abc***"));
}

#[test]
fn test_mask_in_line_no_field() {
    let cfg = make_config(vec![("secret", MaskRule::Full("***".into()))]);
    let line = "level=info msg=hello";
    let result = cfg.apply_to_line(line);
    assert_eq!(result, line);
}

#[test]
fn test_build_mask_config_prefix() {
    let mut entries = StrMap::new();
    entries.insert("api_key".to_string(), RawMaskEntry::new_prefix(6));
    let cfg = build_mask_config(entries).unwrap();
    let mut record = make_record(vec![("api_key", "ABCDEFGHIJ")]);
    cfg.apply(&mut record);
    assert_eq!(field(&record, "api_key"), "ABCDEF****");
}

#[test]
fn test_build_mask_config_invalid_mode() {
    let mut entries = StrMap::new();
    entries.insert("x".to_string(), RawMaskEntry { mode: "unknown".into(), n: None, placeholder: None });
    assert!(build_mask_config(entries).is_err());
}

#[test]
fn mask_line_value_ends_at_comma_and_keeps_rest() {
    let cfg = make_config(vec![("card", MaskRule::Suffix(2))]);
    let result = cfg.apply_to_line("{card=12345,x=1}");
    assert_eq!(result, "{card=***45,x=1}");
}

#[test]
fn mask_record_leaves_other_fields() {
    let cfg = make_config(vec![("a", MaskRule::Prefix(1))]);
    let mut record = make_record(vec![("b", "xyz"), ("a", "xyz")]);
    cfg.apply(&mut record);
    assert_eq!(field(&record, "a"), "x**");
    assert_eq!(field(&record, "b"), "xyz");
}

#[test]
fn mask_counts_characters() {
    let cfg = make_config(vec![("k", MaskRule::Prefix(1)), ("s", MaskRule::Suffix(1))]);
    let mut record = make_record(vec![("k", "\u{e9}a"), ("s", "a\u{e9}\u{e9}")]);
    cfg.apply(&mut record);
    assert_eq!(field(&record, "k"), "\u{e9}*");
    assert_eq!(field(&record, "s"), "**\u{e9}");
}

#[test]
fn mask_line_json_member() {
    let cfg = make_config(vec![("token", MaskRule::Prefix(3))]);
    assert_eq!(cfg.apply_to_line(r#"{"token":"abcdef"}"#), r#"{"token":"abc***"}"#);
    let both = make_config(vec![("t", MaskRule::Full("#".into()))]);
    assert_eq!(both.apply_to_line(r#"{"t":"x"} t=y"#), r#"{"t":"x"} t=#"#);
}

#[test]
fn raw_entry_errors_and_defaults() {
    match (RawMaskEntry { mode: "prefix".into(), n: None, placeholder: None }).into_rule() {
        Err(e) => assert_eq!(e, "prefix mode requires `n`"),
        Ok(_) => panic!("expected an error"),
    }
    match (RawMaskEntry { mode: "suffix".into(), n: None, placeholder: None }).into_rule() {
        Err(e) => assert_eq!(e, "suffix mode requires `n`"),
        Ok(_) => panic!("expected an error"),
    }
    match (RawMaskEntry { mode: "odd".into(), n: None, placeholder: None }).into_rule() {
        Err(e) => assert_eq!(e, "unknown mask mode: odd"),
        Ok(_) => panic!("expected an error"),
    }
    match (RawMaskEntry { mode: "full".into(), n: None, placeholder: None }).into_rule() {
        Ok(MaskRule::Full(p)) => assert_eq!(p, "[MASKED]"),
        _ => panic!("expected a full rule"),
    }
    match RawMaskEntry::new_full("##").into_rule() {
        Ok(MaskRule::Full(p)) => assert_eq!(p, "##"),
        _ => panic!("expected a full rule"),
    }
    match RawMaskEntry::new_suffix(3).into_rule() {
        Ok(MaskRule::Suffix(3)) => {}
        _ => panic!("expected a suffix rule"),
    }
}
