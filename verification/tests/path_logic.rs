use codexu::paths::{is_absolute_path, join_paths, normalize_path, path_has_prefix};

#[test]
fn normalization() {
    assert_eq!(normalize_path("/a/./b/../c"), "/a/c");
    assert_eq!(normalize_path("a/../../b"), "b");
    assert_eq!(normalize_path("/../x"), "/x");
    assert_eq!(normalize_path("./a//b/"), "a/b");
    assert_eq!(normalize_path(""), "");
    assert_eq!(normalize_path("/"), "/");
    let n = normalize_path("/a/b/../../c/./d");
    assert_eq!(normalize_path(&n), n);
}

#[test]
fn joining() {
    assert_eq!(join_paths("/ws", "src/lib.rs"), "/ws/src/lib.rs");
    assert_eq!(join_paths("/ws/", "src"), "/ws/src");
    assert_eq!(join_paths("/ws", "/etc/passwd"), "/etc/passwd");
    assert_eq!(join_paths("", "a"), "a");
    assert!(is_absolute_path("/x"));
    assert!(!is_absolute_path("x/y"));
}

#[test]
fn prefixes_compare_components() {
    assert!(path_has_prefix("/tmp/ws/a", "/tmp/ws"));
    assert!(path_has_prefix("/tmp/ws", "/tmp/ws/"));
    assert!(!path_has_prefix("/tmp/wsx", "/tmp/ws"));
    assert!(path_has_prefix("/tmp//ws/./a", "/tmp/ws"));
}
