use logshear::decompressor::{compression_of, is_compressed, Compression};

#[test]
fn test_is_compressed_gz() {
    assert!(is_compressed("logs/app.log.gz"));
}

#[test]
fn test_is_compressed_bz2() {
    assert!(is_compressed("logs/app.log.bz2"));
}

#[test]
fn test_is_compressed_plain() {
    assert!(!is_compressed("logs/app.log"));
    assert!(!is_compressed("logs/app.txt"));
}

#[test]
fn compression_by_extension() {
    assert_eq!(compression_of("a.gz"), Compression::Gzip);
    assert_eq!(compression_of("dir/a.tar.bz2"), Compression::Bzip2);
    assert_eq!(compression_of(".gz"), Compression::Plain);
    assert_eq!(compression_of("noext"), Compression::Plain);
    assert_eq!(compression_of("a.GZ"), Compression::Plain);
}
