use oops::path::{join_path, path_components, path_file_name, path_has_prefix};

#[test]
fn components_follow_std() {
    assert_eq!(path_components("/a//b/./c/"), vec!["/", "a", "b", "c"]);
    assert_eq!(path_components("./a/../b"), vec![".", "a", "..", "b"]);
    assert_eq!(path_components("a/."), vec!["a"]);
    assert_eq!(path_components(""), Vec::<String>::new());
    assert_eq!(path_file_name("/usr/bin/rm"), Some("rm".to_string()));
    assert_eq!(path_file_name("a/.."), None);
    assert_eq!(path_file_name("."), None);
    assert_eq!(path_file_name("x/"), Some("x".to_string()));
    assert!(path_has_prefix("/a/b", "/a"));
    assert!(!path_has_prefix("/ab", "/a"));
}

#[test]
fn join_follows_pathbuf_push() {
    assert_eq!(join_path("/w", "x"), "/w/x");
    assert_eq!(join_path("/w/", "x"), "/w/x");
    assert_eq!(join_path("/w", "/x"), "/x");
    assert_eq!(join_path("", "x"), "x");
    assert_eq!(join_path("a", ""), "a/");
}
