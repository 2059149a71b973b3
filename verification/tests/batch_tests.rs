use logshear::batch::{flush_due, Batch, BatchCollector, BatchConfig};
use std::time::Duration;

fn fast_config(max_size: usize) -> BatchConfig {
    BatchConfig {
        max_size,
        max_age_ns: Duration::from_secs(60).as_nanos(), // long age so size triggers flush
    }
}

#[test]
fn batch_starts_empty() {
    let b = Batch::new();
    assert!(b.is_empty());
    assert_eq!(b.len(), 0);
}

#[test]
fn batch_push_increments_len() {
    let mut b = Batch::new();
    b.push("hello".to_string());
    b.push("world".to_string());
    assert_eq!(b.len(), 2);
    assert!(!b.is_empty());
}

#[test]
fn batch_age_is_some() {
    let b = Batch::new();
    assert!(b.age().is_some());
}

#[test]
fn collector_no_flush_below_threshold() {
    let mut col = BatchCollector::new(fast_config(4));
    for i in 0..3 {
        let result = col.add(format!("line {}", i));
        assert!(result.is_none(), "should not flush before threshold");
    }
}

#[test]
fn collector_flushes_at_max_size() {
    let mut col = BatchCollector::new(fast_config(3));
    col.add("a".to_string());
    col.add("b".to_string());
    let batch = col.add("c".to_string());
    assert!(batch.is_some());
    let b = batch.unwrap();
    assert_eq!(b.len(), 3);
    assert_eq!(b.lines, vec!["a", "b", "c"]);
}

#[test]
fn collector_resets_after_flush() {
    let mut col = BatchCollector::new(fast_config(2));
    col.add("x".to_string());
    col.add("y".to_string()); // triggers flush
    assert!(col.is_empty());
}

#[test]
fn collector_manual_flush_returns_lines() {
    let mut col = BatchCollector::new(fast_config(100));
    col.add("one".to_string());
    col.add("two".to_string());
    let batch = col.flush();
    assert_eq!(batch.len(), 2);
    assert!(col.is_empty());
}

#[test]
fn collector_flush_empty_batch() {
    let mut col = BatchCollector::new(fast_config(10));
    let batch = col.flush();
    assert!(batch.is_empty());
}

#[test]
fn collector_age_based_flush() {
    let config = BatchConfig {
        max_size: 1000,
        max_age_ns: Duration::from_nanos(1).as_nanos(),
    };
    let mut col = BatchCollector::new(config);
    col.add("line1".to_string());
    // Wait until the batch has aged past max_age
    let start = std::time::Instant::now();
    while start.elapsed() < Duration::from_millis(5) {}
    assert!(col.should_flush());
}

#[test]
fn flush_due_decisions() {
    assert!(flush_due(3, 3, None, 10));
    assert!(!flush_due(2, 3, None, 10));
    assert!(flush_due(0, 3, Some(10), 10));
    assert!(!flush_due(0, 3, Some(9), 10));
}

#[test]
fn default_batch_and_config() {
    let b = Batch::default();
    assert!(b.created_at.is_none());
    assert!(b.age().is_none());
    let c = BatchConfig::default();
    assert_eq!(c.max_size, 256);
    assert_eq!(c.max_age_ns, Duration::from_millis(200).as_nanos());
}

#[test]
fn collector_decision_on_age_readings() {
    let col = BatchCollector::new(fast_config(3));
    assert!(!col.should_flush_at(Some(5)));
    assert!(col.should_flush_at(Some(60_000_000_000)));
    assert!(!col.should_flush_at(None));
    let mut zero = BatchCollector::new(BatchConfig { max_size: 100, max_age_ns: Duration::from_secs(0).as_nanos() });
    assert!(zero.should_flush());
    assert!(zero.add("x".to_string()).is_some());
}

#[test]
fn add_at_decides_on_given_age() {
    let mut c = BatchCollector::new(BatchConfig { max_size: 10, max_age_ns: Duration::from_millis(5).as_nanos() });
    assert!(c.add_at("a".to_string(), Some(4_999_999)).is_none());
    let b = c.add_at("b".to_string(), Some(5_000_000)).unwrap();
    assert_eq!(b.lines, vec!["a", "b"]);
    assert!(c.is_empty());
    assert!(c.add_at("c".to_string(), None).is_none());
}

#[test]
fn added_lines_come_out_once_in_order() {
    let mut c = BatchCollector::new(fast_config(3));
    let mut out: Vec<String> = Vec::new();
    for i in 0..8 {
        if let Some(b) = c.add_at(format!("l{}", i), Some(0)) {
            assert!(b.len() <= 3);
            out.extend(b.lines);
        }
    }
    out.extend(c.flush().lines);
    let expected: Vec<String> = (0..8).map(|i| format!("l{}", i)).collect();
    assert_eq!(out, expected);
}

#[test]
fn zero_max_size_hands_out_single_lines() {
    let mut c = BatchCollector::new(fast_config(0));
    let b = c.add_at("x".to_string(), Some(0)).unwrap();
    assert_eq!(b.lines, vec!["x"]);
}
