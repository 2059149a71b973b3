use logshear::encoding::Encoding;
use logshear::reader::{LineReader, ReaderOptions};
use logshear::writer::WriteLimit;

#[test]
fn detects_encoding_and_bom_from_peek() {
    let opts = ReaderOptions::default();
    assert_eq!(opts.max_line_bytes, 1024 * 1024);
    let (r, bom) = LineReader::from_peek(&[0xEF, 0xBB, 0xBF, b'a'], &opts);
    assert_eq!(bom, 3);
    assert_eq!(*r.encoding(), Encoding::Utf8);
    let (r2, bom2) = LineReader::from_peek(&[0xFF, 0xFE, b'a', 0], &opts);
    assert_eq!(bom2, 2);
    assert_eq!(*r2.encoding(), Encoding::Utf16Le);
}

#[test]
fn encoding_override_wins() {
    let opts = ReaderOptions { encoding: Some(Encoding::Latin1), max_line_bytes: 10 };
    let (r, bom) = LineReader::from_peek(b"plain", &opts);
    assert_eq!(bom, 0);
    assert_eq!(*r.encoding(), Encoding::Latin1);
}

#[test]
fn line_ending_stripped_and_long_lines_cut() {
    let opts = ReaderOptions { encoding: None, max_line_bytes: 5 };
    let (r, _) = LineReader::from_peek(b"abc", &opts);
    assert_eq!(r.next_line(b"ab\r\n".to_vec()), Some("ab".to_string()));
    assert_eq!(r.next_line(b"abcdefgh\n".to_vec()), Some("abcde".to_string()));
    assert_eq!(r.next_line(b"abcd\n".to_vec()), Some("abcd".to_string()));
    assert_eq!(r.next_line(b"last".to_vec()), Some("last".to_string()));
    assert_eq!(r.next_line(Vec::new()), None);
}

#[test]
fn write_limit_counts_lines() {
    let mut w = WriteLimit::new(Some(2));
    assert!(w.may_write());
    w.record_written();
    w.record_written();
    assert!(!w.may_write());
    assert!(w.limit_reached());
    assert_eq!(w.lines_written(), 2);
    let open = WriteLimit::new(None);
    assert!(open.may_write());
    assert!(!open.limit_reached());
}

#[test]
fn write_limit_never_exceeded() {
    let mut w = WriteLimit::new(Some(3));
    let mut written = 0;
    for _ in 0..10 {
        if w.may_write() {
            w.record_written();
            written += 1;
        }
        assert!(w.lines_written() <= 3);
    }
    assert_eq!(written, 3);
    assert!(w.limit_reached());
    assert!(!w.may_write());
    let zero = WriteLimit::new(Some(0));
    assert!(zero.limit_reached());
    assert!(!zero.may_write());
}
