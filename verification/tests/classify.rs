use oops::classify::DestructiveKind;
use oops::{classify, classify_command, parse_command, paths_at_risk};

fn argv(words: &[&str]) -> Vec<String> {
    words.iter().map(|w| w.to_string()).collect()
}

#[test]
fn table() {
    for (s, expected) in [
        ("rm -rf x", Some(DestructiveKind::Delete)),
        ("sed -i s/a/b/ a", Some(DestructiveKind::Overwrite)),
        ("git reset --hard", Some(DestructiveKind::GitDestructive)),
        ("echo hello", None),
    ] {
        assert_eq!(classify(&parse_command(s)), expected);
    }
}

#[test]
fn labels_round_trip() {
    for k in [
        DestructiveKind::Delete,
        DestructiveKind::Overwrite,
        DestructiveKind::Move,
        DestructiveKind::GitDestructive,
        DestructiveKind::Truncate,
    ] {
        assert_eq!(DestructiveKind::from_label(k.as_str()), k);
    }
    assert_eq!(DestructiveKind::GitDestructive.as_str(), "git-destructive");
    assert_eq!(DestructiveKind::from_label("something else"), DestructiveKind::GitDestructive);
}

#[test]
fn classify_commands_by_file_name() {
    assert_eq!(classify(&argv(&["/usr/bin/rm", "x"])), Some(DestructiveKind::Delete));
    assert_eq!(classify(&argv(&["./unlink", "x"])), Some(DestructiveKind::Delete));
    assert_eq!(classify(&argv(&["rmdir/"])), Some(DestructiveKind::Delete));
    assert_eq!(classify(&argv(&["mv", "a", "b"])), Some(DestructiveKind::Move));
    assert_eq!(classify(&argv(&["rename", "a", "b"])), Some(DestructiveKind::Move));
    assert_eq!(classify(&argv(&["dd", "of=x"])), Some(DestructiveKind::Overwrite));
    assert_eq!(classify(&argv(&["truncate", "-s0", "x"])), Some(DestructiveKind::Truncate));
    assert_eq!(classify(&argv(&[".."])), None);
    assert_eq!(classify(&argv(&["/"])), None);
    assert_eq!(classify(&argv(&[])), None);
    assert_eq!(classify(&argv(&["ls", "-l"])), None);
}

#[test]
fn classify_sed_find_git() {
    assert_eq!(classify(&argv(&["sed", "-i.bak", "s/a/b/", "f"])), Some(DestructiveKind::Overwrite));
    assert_eq!(classify(&argv(&["sed", "s/a/b/", "f"])), None);
    assert_eq!(classify(&argv(&["find", ".", "-delete"])), Some(DestructiveKind::Delete));
    assert_eq!(
        classify(&argv(&["find", ".", "-exec", "/bin/rm", "{}", ";"])),
        Some(DestructiveKind::Delete)
    );
    assert_eq!(classify(&argv(&["find", ".", "-exec", "ls", "{}", ";"])), None);
    assert_eq!(classify(&argv(&["find", ".", "-exec"])), None);
    assert_eq!(classify(&argv(&["git", "clean", "-fd"])), Some(DestructiveKind::GitDestructive));
    assert_eq!(classify(&argv(&["git", "clean", "-n"])), None);
    assert_eq!(
        classify(&argv(&["git", "checkout", "--", "f"])),
        Some(DestructiveKind::GitDestructive)
    );
    assert_eq!(classify(&argv(&["git", "restore", "--", "."])), Some(DestructiveKind::GitDestructive));
    assert_eq!(classify(&argv(&["git", "checkout", "main"])), None);
    assert_eq!(classify(&argv(&["git", "reset", "--soft"])), None);
    assert_eq!(classify(&argv(&["git"])), None);
}

#[test]
fn at_risk_paths() {
    assert_eq!(paths_at_risk(&argv(&["rm", "-rf", "x"]), "/home/u"), vec!["/home/u/x".to_string()]);
    assert_eq!(paths_at_risk(&argv(&["rm", "/tmp/a", "b"]), "/w/"), vec!["/tmp/a".to_string(), "/w/b".to_string()]);
    assert_eq!(paths_at_risk(&argv(&["mv", "-f", "a", "b"]), "/w"), vec!["/w/a".to_string()]);
    assert_eq!(paths_at_risk(&argv(&["mv", "-f"]), "/w"), Vec::<String>::new());
    assert_eq!(paths_at_risk(&argv(&["git", "reset", "--hard"]), "/w"), vec!["/w".to_string()]);
    assert_eq!(paths_at_risk(&argv(&["find", ".", "-delete"]), "/w"), vec!["/w".to_string()]);
    assert_eq!(paths_at_risk(&argv(&["rm"]), "/w"), vec!["/w".to_string()]);
    assert_eq!(paths_at_risk(&argv(&["echo", "x"]), "/w"), Vec::<String>::new());
    assert_eq!(paths_at_risk(&argv(&["rm", "--", "x", "+y"]), "/w"), vec!["/w/x".to_string()]);
    assert_eq!(paths_at_risk(&argv(&["dd", "of=x"]), "/w"), vec!["/w/of=x".to_string()]);
    assert_eq!(paths_at_risk(&argv(&["sed", "-i", "s/a/b/", "f"]), "/w"), vec!["/w/s/a/b/".to_string(), "/w/f".to_string()]);
}

#[test]
fn shell_words_split() {
    assert_eq!(parse_command("rm -rf x"), argv(&["rm", "-rf", "x"]));
    assert_eq!(parse_command("a 'b c' \"d\""), argv(&["a", "b c", "d"]));
    assert_eq!(parse_command("echo 'unclosed"), Vec::<String>::new());
}

#[test]
fn command_lines() {
    assert_eq!(classify_command("echo hi > out"), Some(DestructiveKind::Overwrite));
    assert_eq!(classify_command("cat a >> b"), None);
    assert_eq!(classify_command("rm x > log"), Some(DestructiveKind::Delete));
    assert_eq!(classify_command("ls 2>&1"), None);
    assert_eq!(
        oops::classify::classify_parsed(&argv(&["ls"]), "ls > f"),
        Some(DestructiveKind::Overwrite)
    );
}

#[test]
fn named_operands_captured() {
    let risk = paths_at_risk(&argv(&["truncate", "-s", "0", "log.txt"]), "/w");
    assert!(risk.contains(&"/w/log.txt".to_string()));
    assert!(risk.contains(&"/w/0".to_string()));
}

#[test]
fn at_risk_paths_are_absolute_and_drawn_from_arguments() {
    let cwd = "/home/u/w";
    for words in [
        &["rm", "-rf", "a", "/tmp/b", "c/d"][..],
        &["truncate", "-s", "0", "log"][..],
        &["dd", "if=/dev/zero", "of=x"][..],
        &["git", "clean", "-fd"][..],
        &["mv", "-f", "-n", "src", "dst"][..],
    ] {
        let a = argv(words);
        let paths = paths_at_risk(&a, cwd);
        assert!(paths.len() <= std::cmp::max(1, a.len() - 1));
        for p in &paths {
            assert!(p.starts_with('/'));
            assert!(p == cwd || a[1..].iter().any(|w| *p == format!("{}/{}", cwd, w) || p == w));
        }
    }
    assert_eq!(paths_at_risk(&argv(&["mv", "-f", "-n", "src", "dst"]), cwd), vec!["/home/u/w/src".to_string()]);
}
