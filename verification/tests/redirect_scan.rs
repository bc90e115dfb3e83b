use oops::truncating_redirect;

#[test]
fn redirects() {
    assert_eq!(truncating_redirect("echo x > file"), Some("file".to_string()));
    assert_eq!(truncating_redirect("echo x >> file"), None);
    assert_eq!(truncating_redirect("echo '>'"), None);
    assert_eq!(
        truncating_redirect("__bp_invoke_preexec_from_ps0 \"$_\" 1>&2"),
        None
    );
    assert_eq!(truncating_redirect("cmd >&2"), None);
    assert_eq!(
        truncating_redirect("echo x > file 2>&1"),
        Some("file".to_string())
    );
}

#[test]
fn redirect_targets() {
    assert_eq!(truncating_redirect(">out"), Some("out".to_string()));
    assert_eq!(truncating_redirect("echo a>'my file'"), Some("my".to_string()));
    assert_eq!(truncating_redirect("echo a > \"x\";ls"), Some("x".to_string()));
    assert_eq!(truncating_redirect("echo a > ''"), Some("".to_string()));
    assert_eq!(truncating_redirect("echo \\> x"), None);
    assert_eq!(truncating_redirect("echo \"a > b\""), None);
    assert_eq!(truncating_redirect("echo > ; ls > y"), Some("y".to_string()));
    assert_eq!(truncating_redirect("echo >"), None);
    assert_eq!(truncating_redirect("echo x 2> err"), Some("err".to_string()));
    assert_eq!(truncating_redirect("echo é > ü"), Some("ü".to_string()));
    assert_eq!(truncating_redirect("echo x \\"), None);
}
