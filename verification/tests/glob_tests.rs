use logshear::glob::{glob_match, is_glob, GlobError, GlobExpander};

fn glob_match_pub(pattern: &str, text: &str) -> bool {
    glob_match(pattern, text)
}

#[test]
fn test_exact_match() {
    assert!(glob_match_pub("app.log", "app.log"));
    assert!(!glob_match_pub("app.log", "app.txt"));
}

#[test]
fn test_star_wildcard() {
    assert!(glob_match_pub("*.log", "app.log"));
    assert!(glob_match_pub("*.log", "server.log"));
    assert!(!glob_match_pub("*.log", "app.txt"));
    assert!(glob_match_pub("app*", "app.log"));
    assert!(glob_match_pub("app*", "application"));
}

#[test]
fn test_question_wildcard() {
    assert!(glob_match_pub("app.lo?", "app.log"));
    assert!(glob_match_pub("app.lo?", "app.lot"));
    assert!(!glob_match_pub("app.lo?", "app.lo"));
}

#[test]
fn test_combined_wildcards() {
    assert!(glob_match_pub("*.lo?", "server.log"));
    assert!(!glob_match_pub("*.lo?", "server.txt"));
}

#[test]
fn test_expand_plain_path() {
    let expander = GlobExpander::new("/tmp/dir");
    let result = expander.expand("test.log", true, Ok(vec![])).ok().unwrap();
    assert_eq!(result.len(), 1);
    assert_eq!(result[0], "/tmp/dir/test.log");
}

#[test]
fn test_expand_plain_path_missing() {
    let expander = GlobExpander::new("/tmp/dir");
    assert!(expander.expand("missing.log", false, Ok(vec![])).is_err());
}

#[test]
fn test_expand_glob_pattern() {
    let expander = GlobExpander::new("/tmp/dir");
    let files = vec![
        "/tmp/dir/server.log".to_string(),
        "/tmp/dir/app.txt".to_string(),
        "/tmp/dir/app.log".to_string(),
    ];
    let result = expander.expand("*.log", false, Ok(files)).ok().unwrap();
    assert_eq!(result, vec!["/tmp/dir/app.log".to_string(), "/tmp/dir/server.log".to_string()]);
}

#[test]
fn test_expand_glob_no_matches() {
    let expander = GlobExpander::new("/tmp/dir");
    let result = expander.expand("*.log", false, Ok(vec!["/tmp/dir/app.txt".to_string()])).ok().unwrap();
    assert!(result.is_empty());
}

#[test]
fn glob_detection() {
    assert!(is_glob("*.log"));
    assert!(is_glob("a?"));
    assert!(is_glob("[ab]"));
    assert!(!is_glob("plain.log"));
}

#[test]
fn star_matches_empty_and_any_run() {
    assert!(glob_match("*", ""));
    assert!(glob_match("a*b*c", "aXXbYc"));
    assert!(!glob_match("a*b", "acd"));
    assert!(glob_match("**", "x"));
    assert!(!glob_match("?", ""));
    assert!(!glob_match("", "x"));
}

#[test]
fn listing_error_and_messages() {
    let expander = GlobExpander::new("base/");
    assert_eq!(expander.target("x.log"), "base/x.log");
    assert_eq!(expander.target("/abs/x.log"), "/abs/x.log");
    match expander.expand("*.log", false, Err("denied".to_string())) {
        Err(e) => assert_eq!(e.message(), "io error: denied"),
        Ok(_) => panic!("expected an error"),
    }
    match expander.expand("gone.log", false, Ok(vec![])) {
        Err(e) => {
            assert!(matches!(e, GlobError::NotFound(_)));
            assert_eq!(e.message(), "path not found: gone.log");
        },
        Ok(_) => panic!("expected an error"),
    }
    assert_eq!(GlobError::InvalidPattern("p".to_string()).message(), "invalid glob pattern: p");
}
