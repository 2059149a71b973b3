use logshear::timeout::{read_outcome, timed_out_at, TimeoutConfig, TimeoutReader};
use std::io::{BufReader, Cursor, Read};
use std::time::Duration;

fn make_reader(data: &str, secs: u64) -> TimeoutReader<BufReader<Cursor<Vec<u8>>>> {
    let cursor = Cursor::new(data.as_bytes().to_vec());
    TimeoutReader::new(BufReader::new(cursor), Duration::from_secs(secs).as_nanos())
}

#[test]
fn test_read_line_within_timeout() {
    let mut reader = make_reader("hello\nworld\n", 5);
    let mut buf = String::new();
    let result = reader.read_line_timeout(&mut buf).unwrap();
    assert!(result.is_some());
    assert_eq!(buf, "hello\n");
}

#[test]
fn test_read_all_lines() {
    let mut reader = make_reader("line1\nline2\nline3\n", 10);
    let mut lines = vec![];
    loop {
        let mut buf = String::new();
        match reader.read_line_timeout(&mut buf).unwrap() {
            Some(0) | None => break,
            Some(_) => lines.push(buf.trim_end().to_string()),
        }
    }
    assert_eq!(lines, vec!["line1", "line2", "line3"]);
}

#[test]
fn test_not_timed_out_immediately() {
    let reader = make_reader("data\n", 10);
    assert!(!reader.is_timed_out());
}

#[test]
fn test_timeout_config_default() {
    let cfg = TimeoutConfig::default();
    assert_eq!(cfg.line_timeout_ns, Duration::from_secs(5).as_nanos());
    assert_eq!(cfg.idle_timeout_ns, Duration::from_secs(30).as_nanos());
}

#[test]
fn test_timeout_config_custom() {
    let cfg = TimeoutConfig {
        line_timeout_ns: Duration::from_millis(200).as_nanos(),
        idle_timeout_ns: Duration::from_secs(10).as_nanos(),
    };
    assert_eq!(cfg.line_timeout_ns, Duration::from_millis(200).as_nanos());
}

#[test]
fn test_into_inner() {
    let reader = make_reader("abc\n", 5);
    let inner = reader.into_inner();
    drop(inner);
}

#[test]
fn zero_timeout_reads_nothing() {
    let mut reader = make_reader("abc\n", 0);
    assert!(reader.is_timed_out());
    let mut buf = String::new();
    assert_eq!(reader.read_line_timeout(&mut buf).unwrap(), None);
    assert_eq!(buf, "");
    assert_eq!(reader.timeout(), Duration::from_secs(0).as_nanos());
}

#[test]
fn outcome_of_a_read() {
    assert_eq!(read_outcome(true, 0), None);
    assert_eq!(read_outcome(true, 4), Some(4));
    assert_eq!(read_outcome(false, 0), Some(0));
}

#[test]
fn timeout_decision_on_readings() {
    assert!(timed_out_at(5, 5));
    assert!(!timed_out_at(4, 5));
    assert!(timed_out_at(0, 0));
    let reader = make_reader("", 2);
    assert_eq!(reader.timeout(), 2_000_000_000);
}

#[test]
fn read_past_timeout_leaves_reader_and_buffer() {
    let mut reader = make_reader("abc\n", 1);
    let mut buf = String::from("kept");
    assert_eq!(reader.read_line_at(&mut buf, 1_000_000_000).unwrap(), None);
    assert_eq!(buf, "kept");
    assert_eq!(reader.read_line_at(&mut buf, 999_999_999).unwrap(), Some(4));
    assert_eq!(buf, "keptabc\n");
}

#[test]
fn begin_read_only_before_timeout() {
    let mut reader = make_reader("", 3);
    assert!(!reader.begin_read(3_000_000_000));
    assert!(reader.begin_read(2_999_999_999));
    assert_eq!(reader.timeout(), Duration::from_secs(3).as_nanos());
}

#[test]
fn into_inner_after_timer_calls_keeps_position() {
    let mut reader = make_reader("abc\n", 5);
    reader.reset_timer();
    let _ = reader.is_timed_out();
    let _ = reader.elapsed();
    reader.reset_timer();
    let mut inner = reader.into_inner();
    let mut rest = String::new();
    inner.read_to_string(&mut rest).unwrap();
    assert_eq!(rest, "abc\n");
}
