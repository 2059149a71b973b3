use logshear::schema_detector::SchemaDetector;

fn json_line(status: u32, msg: &str) -> String {
    format!(r#"{{"status":{},"msg":"{}"}}"#, status, msg)
}

#[test]
fn test_buffers_until_sample_size() {
    let mut det = SchemaDetector::new(3);
    assert!(det.feed(json_line(200, "a")).is_empty());
    assert!(det.feed(json_line(201, "b")).is_empty());
    assert!(!det.is_ready());
    let out = det.feed(json_line(202, "c"));
    assert_eq!(out.len(), 3);
    assert!(det.is_ready());
}

#[test]
fn test_passes_through_after_schema_ready() {
    let mut det = SchemaDetector::new(2);
    det.feed(json_line(200, "a"));
    det.feed(json_line(201, "b"));
    let out = det.feed(json_line(202, "c"));
    assert_eq!(out.len(), 1);
    assert_eq!(out[0], json_line(202, "c"));
}

#[test]
fn test_flush_finalizes_partial_buffer() {
    let mut det = SchemaDetector::new(10);
    det.feed(json_line(200, "only"));
    assert!(!det.is_ready());
    let out = det.flush();
    assert_eq!(out.len(), 1);
    assert!(det.is_ready());
}

#[test]
fn test_flush_empty_after_full_sample() {
    let mut det = SchemaDetector::new(2);
    det.feed(json_line(200, "a"));
    det.feed(json_line(201, "b"));
    let flushed = det.flush();
    assert!(flushed.is_empty());
}

#[test]
fn test_schema_contains_expected_fields() {
    let mut det = SchemaDetector::new(2);
    det.feed(json_line(200, "hello"));
    det.feed(json_line(404, "not found"));
    let schema = det.schema().expect("schema should be set");
    assert!(schema.get("status").is_some());
    assert!(schema.get("msg").is_some());
}

#[test]
fn test_no_schema_before_any_feed() {
    let det = SchemaDetector::new(5);
    assert!(det.schema().is_none());
    assert!(!det.is_ready());
}

#[test]
fn lines_come_out_in_order() {
    let mut det = SchemaDetector::new(2);
    let mut out = Vec::new();
    for i in 0..5 {
        out.extend(det.feed(format!("line {}", i)));
    }
    out.extend(det.flush());
    let expected: Vec<String> = (0..5).map(|i| format!("line {}", i)).collect();
    assert_eq!(out, expected);
}

#[test]
fn flush_of_empty_detector_stays_unready() {
    let mut det = SchemaDetector::new(3);
    assert!(det.flush().is_empty());
    assert!(!det.is_ready());
}

#[test]
fn try_feed_refuses_unreadable_line() {
    let mut det = SchemaDetector::new(1);
    assert!(det.try_feed("{\"s\": \"ab\u{20ac}cdefghijklmnopqrstuvT-\"}".to_string()).is_none());
    assert!(!det.is_ready());
    assert_eq!(det.try_feed("x".to_string()), Some(vec!["x".to_string()]));
    assert!(det.is_ready());
    let late = "{\"s\": \"ab\u{20ac}cdefghijklmnopqrstuvT-\"}".to_string();
    assert_eq!(det.try_feed(late.clone()), Some(vec![late.clone()]));
    assert_eq!(det.feed(late.clone()), vec![late]);
}

#[test]
fn try_feed_runs_like_feed() {
    let mut det = SchemaDetector::new(2);
    assert_eq!(det.try_feed(json_line(200, "a")), Some(vec![]));
    let second = det.try_feed(json_line(404, "b")).unwrap();
    assert_eq!(second, vec![json_line(200, "a"), json_line(404, "b")]);
    assert!(det.is_ready());
    assert_eq!(det.try_feed(json_line(500, "c")), Some(vec![json_line(500, "c")]));
    assert!(det.flush().is_empty());
}
