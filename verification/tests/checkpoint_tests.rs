use logshear::checkpoint::Checkpoint;

#[test]
fn test_default_offset_is_zero() {
    let cp = Checkpoint::new();
    assert_eq!(cp.offset_for("/var/log/app.log"), 0);
}

#[test]
fn test_set_and_get_offset() {
    let mut cp = Checkpoint::new();
    let p = "/var/log/app.log";
    cp.set_offset(p, 4096);
    assert_eq!(cp.offset_for(p), 4096);
}

#[test]
fn test_overwrite_offset() {
    let mut cp = Checkpoint::new();
    let p = "/var/log/app.log";
    cp.set_offset(p, 100);
    cp.set_offset(p, 9999);
    assert_eq!(cp.offset_for(p), 9999);
}

#[test]
fn test_len_and_is_empty() {
    let mut cp = Checkpoint::new();
    assert!(cp.is_empty());
    cp.set_offset("/a", 1);
    cp.set_offset("/b", 2);
    assert_eq!(cp.len(), 2);
    assert!(!cp.is_empty());
}

#[test]
fn test_save_and_load_roundtrip() {
    let mut cp = Checkpoint::from_text("", "/tmp/cp.ckpt".to_string());
    cp.set_offset("/logs/a.log", 512);
    cp.set_offset("/logs/b.log", 1024);
    let saved = cp.to_text();

    let cp2 = Checkpoint::from_text(&saved, "/tmp/cp.ckpt".to_string());
    assert_eq!(cp2.offset_for("/logs/a.log"), 512);
    assert_eq!(cp2.offset_for("/logs/b.log"), 1024);
    assert_eq!(cp2.len(), 2);
}

#[test]
fn test_load_nonexistent_file_returns_empty() {
    let cp = Checkpoint::from_text("", "/tmp/__logshear_no_such_checkpoint_xyz.ckpt".to_string());
    assert!(cp.is_empty());
}

#[test]
fn test_in_memory_save_is_noop() {
    let mut cp = Checkpoint::new();
    cp.set_offset("/x", 42);
    // An in-memory checkpoint has no backing file to write.
    assert!(cp.checkpoint_path().is_none());
}

#[test]
fn test_unknown_path_returns_zero_after_load() {
    let mut cp = Checkpoint::from_text("", "/tmp/cp2.ckpt".to_string());
    cp.set_offset("/known", 77);
    let saved = cp.to_text();

    let cp2 = Checkpoint::from_text(&saved, "/tmp/cp2.ckpt".to_string());
    assert_eq!(cp2.offset_for("/unknown"), 0);
}

#[test]
fn saved_text_format() {
    let mut cp = Checkpoint::new();
    cp.set_offset("/a", 7);
    cp.set_offset("/b", 10);
    assert_eq!(cp.to_text(), "# logshear checkpoint\n/a\t7\n/b\t10\n");
}

#[test]
fn load_skips_comments_blank_and_bad_lines() {
    let text = "# c\n\n  /x \t +15 \r\n/y\tnotanumber\nnotab\n/z\t18446744073709551616\n/x\t3";
    let cp = Checkpoint::from_text(text, "f".to_string());
    assert_eq!(cp.len(), 1);
    assert_eq!(cp.offset_for("/x"), 3);
    assert_eq!(cp.offset_for("/y"), 0);
}

#[test]
fn load_accepts_max_u64() {
    let cp = Checkpoint::from_text("/m\t18446744073709551615\n", "f".to_string());
    assert_eq!(cp.offset_for("/m"), u64::MAX);
}

#[test]
fn last_set_offset_wins_per_file() {
    let mut cp = Checkpoint::new();
    cp.set_offset("p", 1);
    cp.set_offset("q", 2);
    cp.set_offset("p", 3);
    assert_eq!(cp.offset_for("p"), 3);
    assert_eq!(cp.offset_for("q"), 2);
    assert_eq!(cp.offset_for("r"), 0);
}

#[test]
fn spellings_of_one_path_share_an_entry() {
    let mut cp = Checkpoint::new();
    cp.set_offset("logs//a.log", 10);
    assert_eq!(cp.offset_for("logs/a.log"), 10);
    assert_eq!(cp.offset_for("logs/./a.log/"), 10);
    cp.set_offset("logs/a.log", 20);
    assert_eq!(cp.len(), 1);
    assert_eq!(cp.offset_for("logs//a.log"), 20);
    assert_eq!(cp.to_text(), "# logshear checkpoint\nlogs//a.log\t20\n");
}

#[test]
fn leading_dot_and_root_make_other_files() {
    let mut cp = Checkpoint::new();
    cp.set_offset("a.log", 1);
    cp.set_offset("./a.log", 2);
    cp.set_offset("/a.log", 3);
    assert_eq!(cp.len(), 3);
    assert_eq!(cp.offset_for("a.log"), 1);
    assert_eq!(cp.offset_for(".//a.log"), 2);
    assert_eq!(cp.offset_for("//a.log"), 3);
}

#[test]
fn loading_merges_spellings_of_one_file() {
    let cp = Checkpoint::from_text("# c\n/x//y\t5\n/x/y/\t9\n", "cp".to_string());
    assert_eq!(cp.len(), 1);
    assert_eq!(cp.offset_for("/x/y"), 9);
    assert_eq!(cp.to_text(), "# logshear checkpoint\n/x//y\t9\n");
}
