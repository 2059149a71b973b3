use logshear::path_key::path_key_of;

#[test]
fn keys_of_paths() {
    assert_eq!(path_key_of("logs//a.log"), "logs/a.log");
    assert_eq!(path_key_of("/var/./log/"), "/var/log");
    assert_eq!(path_key_of("./a/./b"), "./a/b");
    assert_eq!(path_key_of("././a"), "./a");
    assert_eq!(path_key_of("/"), "/");
    assert_eq!(path_key_of("//"), "/");
    assert_eq!(path_key_of(""), "");
    assert_eq!(path_key_of("."), ".");
    assert_eq!(path_key_of("a/../b"), "a/../b");
    assert_eq!(path_key_of("a/"), "a");
}
