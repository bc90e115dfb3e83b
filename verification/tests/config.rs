use oops::Config;

fn s(x: &str) -> Option<String> {
    Some(x.to_string())
}

#[test]
fn config_from_environment() {
    let c = Config::from_env_values(s("/home/u"), None, s("/data::/mnt"));
    assert_eq!(c.data_dir, "/home/u/.local/share/oops");
    assert_eq!(c.allowed_roots, vec!["/home/u".to_string(), "/data".to_string(), "/mnt".to_string()]);
    assert_eq!(c.retention_ns, 48 * 60 * 60 * 1_000_000_000);
    assert_eq!(c.max_bytes, 2 * 1024 * 1024 * 1024);
    let c = Config::from_env_values(s("/home/u"), s("/x/"), None);
    assert_eq!(c.data_dir, "/x/oops");
    assert_eq!(c.allowed_roots, vec!["/home/u".to_string()]);
    let c = Config::from_env_values(None, None, None);
    assert_eq!(c.data_dir, "/.local/share/oops");
    assert_eq!(c.allowed_roots, vec!["/".to_string()]);
    assert_eq!(c.socket_path(), "/.local/share/oops/oopsd.sock");
    assert_eq!(c.db_path(), "/.local/share/oops/oops.db");
    assert_eq!(c.log_path(), "/.local/share/oops/oopsd.log");
    assert_eq!(c.blobs_dir(), "/.local/share/oops/blobs");
}

#[test]
fn permits_whole_components() {
    let c = Config::from_env_values(s("/home/u"), None, s("/data"));
    assert!(c.permits("/home/u"));
    assert!(c.permits("/home/u/"));
    assert!(c.permits("/home/u/a/b"));
    assert!(c.permits("/home//u/./a"));
    assert!(!c.permits("/home/u2"));
    assert!(!c.permits("/home"));
    assert!(c.permits("/data/x"));
    assert!(!c.permits("/"));
    assert!(!c.permits("home/u/a"));
}

#[test]
fn capture_roots_keep_permitted() {
    let c = Config::from_env_values(s("/home/u"), None, s("/data"));
    let given = vec!["/home/u/link".to_string(), "/etc/x".to_string(), "rel".to_string()];
    let resolved = vec!["/home/u/real".to_string(), "/etc/x".to_string(), "/data/rel".to_string()];
    assert_eq!(c.capture_roots(&given, &resolved), Some(vec!["/home/u/link".to_string(), "rel".to_string()]));
    let outside = vec!["/etc/a".to_string(), "/home/u2".to_string()];
    assert_eq!(c.capture_roots(&outside, &outside), None);
    assert_eq!(c.capture_roots(&Vec::new(), &Vec::new()), None);
}
