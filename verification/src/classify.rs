//! Which shell commands are destructive, and which paths they put at risk.
use vstd::prelude::*;
use crate::path::{bare_name_is_file_name, file_name, has_root, join, join_path, path_file_name};
use crate::redirect::{redirect_target, truncating_redirect};
use crate::text::{
    starts_with_char, texts, starts_with_ch, text_contains_char, text_ends_with, text_starts_with, same_text,
};

verus! {

/// The kind of damage a command may do to the files it names.
#[derive(Debug, Clone, Copy, PartialEq, Eq, Structural)]
pub enum DestructiveKind {
    Delete,
    Overwrite,
    Move,
    GitDestructive,
    Truncate,
}

/// The label under which a kind is written to storage and to the wire.
pub open spec fn kind_label(k: DestructiveKind) -> Seq<char> {
    match k {
        DestructiveKind::Delete => "delete"@,
        DestructiveKind::Overwrite => "overwrite"@,
        DestructiveKind::Move => "move"@,
        DestructiveKind::GitDestructive => "git-destructive"@,
        DestructiveKind::Truncate => "truncate"@,
    }
}

/// The kind that a stored label stands for; any unknown label reads as
/// `GitDestructive`.
pub open spec fn kind_of_label(s: Seq<char>) -> DestructiveKind {
    if s == "delete"@ {
        DestructiveKind::Delete
    } else if s == "overwrite"@ {
        DestructiveKind::Overwrite
    } else if s == "move"@ {
        DestructiveKind::Move
    } else if s == "truncate"@ {
        DestructiveKind::Truncate
    } else {
        DestructiveKind::GitDestructive
    }
}

impl DestructiveKind {
    /// The kebab-case label of the kind.
    pub fn as_str(self) -> (s: &'static str)
        ensures
            s@ == kind_label(self),
    {
        match self {
            DestructiveKind::Delete => "delete",
            DestructiveKind::Overwrite => "overwrite",
            DestructiveKind::Move => "move",
            DestructiveKind::GitDestructive => "git-destructive",
            DestructiveKind::Truncate => "truncate",
        }
    }

    /// The kind a stored label stands for.
    pub fn from_label(s: &str) -> (k: DestructiveKind)
        ensures
            k == kind_of_label(s@),
    {
        if same_text(s, "delete") {
            DestructiveKind::Delete
        } else if same_text(s, "overwrite") {
            DestructiveKind::Overwrite
        } else if same_text(s, "move") {
            DestructiveKind::Move
        } else if same_text(s, "truncate") {
            DestructiveKind::Truncate
        } else {
            DestructiveKind::GitDestructive
        }
    }
}

/// Reading back the label of a kind gives the kind.
pub proof fn label_round_trip(k: DestructiveKind)
    ensures
        kind_of_label(kind_label(k)) == k,
{
    reveal_strlit("delete");
    reveal_strlit("overwrite");
    reveal_strlit("move");
    reveal_strlit("truncate");
    reveal_strlit("git-destructive");
    assert("delete"@.len() == 6);
    assert("overwrite"@.len() == 9);
    assert("move"@.len() == 4);
    assert("truncate"@.len() == 8);
    assert("git-destructive"@.len() == 15);
    assert("overwrite"@ != "delete"@);
    assert("move"@ != "delete"@ && "move"@ != "overwrite"@);
    assert("truncate"@ != "delete"@ && "truncate"@ != "overwrite"@ && "truncate"@ != "move"@);
    assert("git-destructive"@ != "delete"@ && "git-destructive"@ != "overwrite"@
        && "git-destructive"@ != "move"@ && "git-destructive"@ != "truncate"@);
}

/// Whether a file name is one of the deleting commands.
pub open spec fn is_deleter(n: Option<Seq<char>>) -> bool {
    n == Some("rm"@) || n == Some("unlink"@) || n == Some("rmdir"@)
}

/// Some argument asks `sed` to edit in place.
pub open spec fn edits_in_place(args: Seq<Seq<char>>) -> bool {
    exists|i: int| 0 <= i < args.len() && (args[i] == "-i"@ || "-i"@.is_prefix_of(args[i]))
}

/// Some `-exec` argument of `find` is followed by a deleting command.
pub open spec fn execs_deleter(args: Seq<Seq<char>>) -> bool {
    exists|i: int|
        0 <= i && i + 1 < args.len() && #[trigger] args[i] == "-exec"@ && is_deleter(
            file_name(args[i + 1]),
        )
}

/// Some option argument of `git clean` holds an `f`.
pub open spec fn forces(args: Seq<Seq<char>>) -> bool {
    exists|i: int| 0 <= i < args.len() && starts_with_char(args[i], '-') && args[i].contains('f')
}

/// The kind of a `git` invocation with arguments `args`.
pub open spec fn git_kind(args: Seq<Seq<char>>) -> Option<DestructiveKind> {
    if args.len() > 0 && args[0] == "reset"@ && args.contains("--hard"@) {
        Some(DestructiveKind::GitDestructive)
    } else if args.len() > 0 && args[0] == "clean"@ && forces(args) {
        Some(DestructiveKind::GitDestructive)
    } else if args.len() > 0 && (args[0] == "checkout"@ || args[0] == "restore"@)
        && args.contains("--"@) {
        Some(DestructiveKind::GitDestructive)
    } else {
        None
    }
}

/// The kind of the command `argv`, judged by the file name of `argv[0]` and
/// the arguments that follow it.
pub open spec fn kind_of_command(argv: Seq<Seq<char>>) -> Option<DestructiveKind> {
    if argv.len() == 0 {
        None
    } else {
        match file_name(argv[0]) {
            None => None,
            Some(cmd) => {
                let rest = argv.skip(1);
                if cmd == "rm"@ || cmd == "unlink"@ || cmd == "rmdir"@ {
                    Some(DestructiveKind::Delete)
                } else if cmd == "mv"@ || cmd == "rename"@ {
                    Some(DestructiveKind::Move)
                } else if cmd == "dd"@ {
                    Some(DestructiveKind::Overwrite)
                } else if cmd == "truncate"@ {
                    Some(DestructiveKind::Truncate)
                } else if cmd == "sed"@ && edits_in_place(rest) {
                    Some(DestructiveKind::Overwrite)
                } else if cmd == "find"@ && (rest.contains("-delete"@) || execs_deleter(rest)) {
                    Some(DestructiveKind::Delete)
                } else if cmd == "git"@ {
                    git_kind(rest)
                } else {
                    None
                }
            },
        }
    }
}

/// Whether some argument from position `from` on is exactly `w`.
fn has_word(argv: &[String], from: usize, w: &str) -> (r: bool)
    requires
        from <= argv@.len(),
    ensures
        r == texts(argv@).skip(from as int).contains(w@),
{
    let ghost rest = texts(argv@).skip(from as int);
    let mut i = from;
    while i < argv.len()
        invariant
            from <= i <= argv@.len(),
            rest == texts(argv@).skip(from as int),
            forall|j: int| 0 <= j < i - from ==> rest[j] != w@,
        decreases argv.len() - i,
    {
        if same_text(argv[i].as_str(), w) {
            assert(rest[i - from] == w@);
            return true;
        }
        i = i + 1;
    }
    false
}

/// Whether some argument from position `from` on is `-i` or starts with it.
fn has_in_place_flag(argv: &[String], from: usize) -> (r: bool)
    requires
        from <= argv@.len(),
    ensures
        r == edits_in_place(texts(argv@).skip(from as int)),
{
    let ghost rest = texts(argv@).skip(from as int);
    let mut i = from;
    while i < argv.len()
        invariant
            from <= i <= argv@.len(),
            rest == texts(argv@).skip(from as int),
            forall|j: int|
                0 <= j < i - from ==> !(rest[j] == "-i"@ || "-i"@.is_prefix_of(rest[j])),
        decreases argv.len() - i,
    {
        let a = argv[i].as_str();
        if same_text(a, "-i") || text_starts_with(a, "-i") {
            assert(rest[i - from] == argv@[i as int]@);
            return true;
        }
        i = i + 1;
    }
    false
}

/// Whether some argument from position `from` on starts with `-` and holds `f`.
fn has_force_flag(argv: &[String], from: usize) -> (r: bool)
    requires
        from <= argv@.len(),
    ensures
        r == forces(texts(argv@).skip(from as int)),
{
    let ghost rest = texts(argv@).skip(from as int);
    let mut i = from;
    while i < argv.len()
        invariant
            from <= i <= argv@.len(),
            rest == texts(argv@).skip(from as int),
            forall|j: int|
                0 <= j < i - from ==> !(starts_with_char(rest[j], '-') && rest[j].contains('f')),
        decreases argv.len() - i,
    {
        let a = argv[i].as_str();
        if starts_with_ch(a, '-') && text_contains_char(a, 'f') {
            assert(rest[i - from] == a@);
            return true;
        }
        i = i + 1;
    }
    false
}

/// Whether the file name of `a` names a deleting command.
fn names_deleter(a: &str) -> (r: bool)
    ensures
        r == is_deleter(file_name(a@)),
{
    match path_file_name(a) {
        None => false,
        Some(n) => same_text(n.as_str(), "rm") || same_text(n.as_str(), "unlink") || same_text(
            n.as_str(),
            "rmdir",
        ),
    }
}

/// Whether, from position `from` on, some `-exec` is followed by a deleting command.
fn has_exec_deleter(argv: &[String], from: usize) -> (r: bool)
    requires
        from <= argv@.len(),
    ensures
        r == execs_deleter(texts(argv@).skip(from as int)),
{
    let ghost rest = texts(argv@).skip(from as int);
    let mut i = from;
    while i < argv.len() && i + 1 < argv.len()
        invariant
            from <= i,
            i <= argv@.len() || i == from,
            rest == texts(argv@).skip(from as int),
            forall|j: int|
                0 <= j < i - from && j + 1 < rest.len() ==> !(#[trigger] rest[j] == "-exec"@
                    && is_deleter(file_name(rest[j + 1]))),
        decreases argv.len() - i,
    {
        if same_text(argv[i].as_str(), "-exec") && names_deleter(argv[i + 1].as_str()) {
            assert(rest[i - from] == argv@[i as int]@);
            assert(rest[i - from + 1] == argv@[i + 1]@);
            return true;
        }
        i = i + 1;
    }
    false
}

/// The kind of a `git` invocation whose subcommand is `argv[1]`.
fn git_kind_of(argv: &[String]) -> (r: Option<DestructiveKind>)
    requires
        argv@.len() >= 1,
    ensures
        r == git_kind(texts(argv@).skip(1)),
{
    if argv.len() < 2 {
        return None;
    }
    let sub = argv[1].as_str();
    assert(texts(argv@).skip(1)[0] == sub@);
    if same_text(sub, "reset") && has_word(argv, 1, "--hard") {
        Some(DestructiveKind::GitDestructive)
    } else if same_text(sub, "clean") && has_force_flag(argv, 1) {
        Some(DestructiveKind::GitDestructive)
    } else if (same_text(sub, "checkout") || same_text(sub, "restore")) && has_word(
        argv,
        1,
        "--",
    ) {
        Some(DestructiveKind::GitDestructive)
    } else {
        None
    }
}

/// The kind of damage the command `argv` may do, or `None` when it is not
/// destructive.
pub fn classify(argv: &[String]) -> (r: Option<DestructiveKind>)
    ensures
        r == kind_of_command(texts(argv@)),
{
    if argv.len() == 0 {
        return None;
    }
    let cmd = match path_file_name(argv[0].as_str()) {
        None => return None,
        Some(c) => c,
    };
    let c = cmd.as_str();
    if same_text(c, "rm") || same_text(c, "unlink") || same_text(c, "rmdir") {
        Some(DestructiveKind::Delete)
    } else if same_text(c, "mv") || same_text(c, "rename") {
        Some(DestructiveKind::Move)
    } else if same_text(c, "dd") {
        Some(DestructiveKind::Overwrite)
    } else if same_text(c, "truncate") {
        Some(DestructiveKind::Truncate)
    } else if same_text(c, "sed") && has_in_place_flag(argv, 1) {
        Some(DestructiveKind::Overwrite)
    } else if same_text(c, "find") && (has_word(argv, 1, "-delete") || has_exec_deleter(argv, 1)) {
        Some(DestructiveKind::Delete)
    } else if same_text(c, "git") {
        git_kind_of(argv)
    } else {
        None
    }
}

} // verus!

verus! {

/// The arguments that are not options (do not start with `-`).
pub open spec fn non_options(args: Seq<Seq<char>>) -> Seq<Seq<char>> {
    args.filter(|a: Seq<char>| !starts_with_char(a, '-'))
}

/// The arguments that are operands: not options, not `--`, not `+` flags.
pub open spec fn plain_operands(args: Seq<Seq<char>>) -> Seq<Seq<char>> {
    args.filter(|a: Seq<char>| !starts_with_char(a, '-') && a != "--"@ && !starts_with_char(a, '+'))
}

/// The operands that a command of kind `kind` may destroy, before `find`
/// and placeholder handling.
pub open spec fn operands_at_risk(kind: DestructiveKind, args: Seq<Seq<char>>) -> Seq<Seq<char>> {
    match kind {
        DestructiveKind::Move => if non_options(args).len() > 0 {
            seq![non_options(args)[0]]
        } else {
            Seq::empty()
        },
        DestructiveKind::GitDestructive => Seq::empty(),
        _ => plain_operands(args),
    }
}

/// The operands resolved against `cwd`, leaving out the `;` and `{}` of `find -exec`.
pub open spec fn resolved(raw: Seq<Seq<char>>, cwd: Seq<char>) -> Seq<Seq<char>> {
    raw.filter(|p: Seq<char>| p != ";"@ && p != "{}"@).map_values(|p: Seq<char>| join(cwd, p))
}

/// The paths a command `argv` run in `cwd` may destroy: none when it is not
/// destructive; for `mv` its first operand; for deletions whose targets are
/// not named (`find`, or no operands) and for destructive `git` commands, the
/// whole working directory; otherwise its operands, resolved against `cwd`.
pub open spec fn at_risk(argv: Seq<Seq<char>>, cwd: Seq<char>) -> Seq<Seq<char>> {
    match kind_of_command(argv) {
        None => Seq::empty(),
        Some(kind) => {
            let raw = if kind == DestructiveKind::Delete && "find"@.is_suffix_of(argv[0]) {
                Seq::empty()
            } else {
                operands_at_risk(kind, argv.skip(1))
            };
            if raw.len() == 0 && (kind == DestructiveKind::Delete || kind
                == DestructiveKind::GitDestructive) {
                seq![cwd]
            } else {
                resolved(raw, cwd)
            }
        },
    }
}

/// The arguments after `argv[0]` that are not options.
fn collect_non_options(argv: &[String]) -> (r: Vec<String>)
    requires
        argv@.len() >= 1,
    ensures
        texts(r@) == non_options(texts(argv@).skip(1)),
{
    let ghost args = texts(argv@).skip(1);
    let ghost f = |a: Seq<char>| !starts_with_char(a, '-');
    let mut out: Vec<String> = Vec::new();
    let mut i: usize = 1;
    assert(args.take(0) =~= Seq::<Seq<char>>::empty());
    while i < argv.len()
        invariant
            1 <= i <= argv@.len(),
            args == texts(argv@).skip(1),
            f == (|a: Seq<char>| !starts_with_char(a, '-')),
            texts(out@) == args.take(i - 1).filter(f),
        decreases argv.len() - i,
    {
        let ghost x = args[i - 1];
        assert(x == argv@[i as int]@);
        assert(args.take(i as int) =~= args.take(i - 1).push(x));
        proof {
            args.take(i - 1).lemma_filter_push(x, f);
        }
        let ghost before = out@;
        if !starts_with_ch(argv[i].as_str(), '-') {
            out.push(argv[i].clone());
            assert(texts(out@) =~= texts(before).push(x));
        }
        i = i + 1;
    }
    assert(args.take(argv.len() - 1) =~= args);
    out
}

/// The operands after `argv[0]`.
fn collect_plain_operands(argv: &[String]) -> (r: Vec<String>)
    requires
        argv@.len() >= 1,
    ensures
        texts(r@) == plain_operands(texts(argv@).skip(1)),
{
    let ghost args = texts(argv@).skip(1);
    let ghost f = |a: Seq<char>| !starts_with_char(a, '-') && a != "--"@ && !starts_with_char(a, '+');
    let mut out: Vec<String> = Vec::new();
    let mut i: usize = 1;
    assert(args.take(0) =~= Seq::<Seq<char>>::empty());
    while i < argv.len()
        invariant
            1 <= i <= argv@.len(),
            args == texts(argv@).skip(1),
            f == (|a: Seq<char>| !starts_with_char(a, '-') && a != "--"@ && !starts_with_char(a, '+')),
            texts(out@) == args.take(i - 1).filter(f),
        decreases argv.len() - i,
    {
        let ghost x = args[i - 1];
        assert(x == argv@[i as int]@);
        assert(args.take(i as int) =~= args.take(i - 1).push(x));
        proof {
            args.take(i - 1).lemma_filter_push(x, f);
        }
        let ghost before = out@;
        let a = argv[i].as_str();
        if !starts_with_ch(a, '-') && !same_text(a, "--") && !starts_with_ch(a, '+') {
            out.push(argv[i].clone());
            assert(texts(out@) =~= texts(before).push(x));
        }
        i = i + 1;
    }
    assert(args.take(argv.len() - 1) =~= args);
    out
}

/// The operands resolved against `cwd`, without the `;` and `{}` of `find -exec`.
fn resolve_all(raw: &Vec<String>, cwd: &str) -> (r: Vec<String>)
    ensures
        texts(r@) == resolved(texts(raw@), cwd@),
{
    let ghost all = texts(raw@);
    let ghost f = |p: Seq<char>| p != ";"@ && p != "{}"@;
    let ghost g = |p: Seq<char>| join(cwd@, p);
    let mut out: Vec<String> = Vec::new();
    let mut i: usize = 0;
    assert(all.take(0) =~= Seq::<Seq<char>>::empty());
    while i < raw.len()
        invariant
            i <= raw@.len(),
            all == texts(raw@),
            f == (|p: Seq<char>| p != ";"@ && p != "{}"@),
            g == (|p: Seq<char>| join(cwd@, p)),
            texts(out@) == all.take(i as int).filter(f).map_values(g),
        decreases raw.len() - i,
    {
        let ghost x = all[i as int];
        assert(all.take(i + 1) =~= all.take(i as int).push(x));
        proof {
            all.take(i as int).lemma_filter_push(x, f);
        }
        let ghost before = out@;
        let p = raw[i].as_str();
        if !same_text(p, ";") && !same_text(p, "{}") {
            out.push(join_path(cwd, p));
            assert(all.take(i as int).filter(f).push(x).map_values(g) =~= all.take(
                i as int,
            ).filter(f).map_values(g).push(g(x)));
            assert(texts(out@) =~= texts(before).push(g(x)));
        }
        i = i + 1;
    }
    assert(all.take(raw.len() as int) =~= all);
    out
}

/// The paths that the command `argv`, run in `cwd`, may destroy.
pub fn paths_at_risk(argv: &[String], cwd: &str) -> (r: Vec<String>)
    ensures
        texts(r@) == at_risk(texts(argv@), cwd@),
{
    let kind = match classify(argv) {
        None => return Vec::new(),
        Some(k) => k,
    };
    let mut raw: Vec<String> = match kind {
        DestructiveKind::Move => {
            let ops = collect_non_options(argv);
            let mut first: Vec<String> = Vec::new();
            if ops.len() > 0 {
                first.push(ops[0].clone());
                assert(texts(first@) =~= seq![texts(ops@)[0]]);
            }
            first
        },
        DestructiveKind::GitDestructive => Vec::new(),
        _ => collect_plain_operands(argv),
    };
    if kind == DestructiveKind::Delete && text_ends_with(argv[0].as_str(), "find") {
        raw = Vec::new();
    }
    if raw.len() == 0 && (kind == DestructiveKind::Delete || kind
        == DestructiveKind::GitDestructive) {
        let mut v: Vec<String> = Vec::new();
        v.push(String::from_str(cwd));
        assert(texts(v@) =~= seq![cwd@]);
        return v;
    }
    resolve_all(&raw, cwd)
}

} // verus!

verus! {

#[verifier::external_type_specification]
#[verifier::external_body]
pub struct ExShellWordsParseError(shell_words::ParseError);

/// The words that `shell_words::split` makes of a text, or `None` where it
/// reports an error (an unclosed quote).
pub uninterp spec fn shell_split(s: Seq<char>) -> Option<Seq<Seq<char>>>;

/// Splits a command line into words with `shell_words::split`.
/// Claimed: the call is a function of the text alone; on success the texts
/// of the words are `shell_split(s@)`, and on failure `shell_split(s@)` is
/// `None`.
#[verifier::external_body]
fn split_words(s: &str) -> (r: Result<Vec<String>, shell_words::ParseError>)
    ensures
        match r {
            Ok(v) => shell_split(s@) == Some(texts(v@)),
            Err(_) => shell_split(s@) is None,
        },
{
    shell_words::split(s)
}

/// The words of a command line as the shell would split them; a line that
/// cannot be split has no words.
pub open spec fn command_words(s: Seq<char>) -> Seq<Seq<char>> {
    match shell_split(s) {
        Some(w) => w,
        None => Seq::empty(),
    }
}

/// The argument vector of a command line (empty when it has an unclosed quote).
pub fn parse_command(command: &str) -> (r: Vec<String>)
    ensures
        texts(r@) == command_words(command@),
{
    match split_words(command) {
        Ok(v) => v,
        Err(_) => Vec::new(),
    }
}

/// The kind of a command line whose words are `argv`, counting a truncating
/// redirect as an overwrite when the words themselves are harmless.
pub open spec fn kind_of_line(argv: Seq<Seq<char>>, command: Seq<char>) -> Option<DestructiveKind> {
    match kind_of_command(argv) {
        Some(k) => Some(k),
        None => match redirect_target(command) {
            Some(_) => Some(DestructiveKind::Overwrite),
            None => None,
        },
    }
}

/// The kind of the command line `command` already split into `argv`.
pub fn classify_parsed(argv: &[String], command: &str) -> (r: Option<DestructiveKind>)
    ensures
        r == kind_of_line(texts(argv@), command@),
{
    match classify(argv) {
        Some(k) => Some(k),
        None => match truncating_redirect(command) {
            Some(_) => Some(DestructiveKind::Overwrite),
            None => None,
        },
    }
}

/// The kind of the raw command line `command`; the raw text is needed because
/// shell redirections are not argv entries.
pub fn classify_command(command: &str) -> (r: Option<DestructiveKind>)
    ensures
        r == kind_of_line(command_words(command@), command@),
{
    let argv = parse_command(command);
    classify_parsed(argv.as_slice(), command)
}

} // verus!

verus! {

/// Every named operand of a deletion (other than by `find`), an overwrite or
/// a truncation is captured: its path, resolved against the working
/// directory, is at risk.
pub proof fn named_operands_at_risk(argv: Seq<Seq<char>>, cwd: Seq<char>, i: int)
    requires
        1 <= i < argv.len(),
        kind_of_command(argv) is Some,
        kind_of_command(argv) != Some(DestructiveKind::Move),
        kind_of_command(argv) != Some(DestructiveKind::GitDestructive),
        !(kind_of_command(argv) == Some(DestructiveKind::Delete) && "find"@.is_suffix_of(argv[0])),
        !starts_with_char(argv[i], '-'),
        argv[i] != "--"@,
        !starts_with_char(argv[i], '+'),
        argv[i] != ";"@,
        argv[i] != "{}"@,
    ensures
        at_risk(argv, cwd).contains(join(cwd, argv[i])),
{
    let args = argv.skip(1);
    let a = argv[i];
    let p = |x: Seq<char>| !starts_with_char(x, '-') && x != "--"@ && !starts_with_char(x, '+');
    assert(args[i - 1] == a);
    args.lemma_filter_contains(p, i - 1);
    let raw = plain_operands(args);
    assert(raw == args.filter(p));
    let j = choose|j: int| 0 <= j < raw.len() && raw[j] == a;
    let q = |x: Seq<char>| x != ";"@ && x != "{}"@;
    raw.lemma_filter_contains(q, j);
    let kept = raw.filter(q);
    let g = |x: Seq<char>| join(cwd, x);
    let m = choose|m: int| 0 <= m < kept.len() && kept[m] == a;
    assert(kept.map_values(g)[m] == join(cwd, a));
    assert(resolved(raw, cwd) == kept.map_values(g));
    assert(resolved(raw, cwd).contains(join(cwd, a)));
}

} // verus!

verus! {

/// The first element that survives a filter is the first element of the
/// sequence that satisfies the predicate.
proof fn lemma_filter_first<A>(s: Seq<A>, p: spec_fn(A) -> bool)
    requires
        s.filter(p).len() > 0,
    ensures
        exists|j: int|
            0 <= j < s.len() && p(s[j]) && s.filter(p)[0] == s[j] && (forall|l: int|
                0 <= l < j ==> !p(#[trigger] s[l])),
    decreases s.len(),
{
    s.lemma_filter_len(p);
    let rest = s.drop_first();
    assert(s =~= seq![s[0]] + rest);
    rest.lemma_filter_prepend(s[0], p);
    if p(s[0]) {
        assert(s.filter(p)[0] == s[0]);
    } else {
        assert(s.filter(p) =~= rest.filter(p));
        lemma_filter_first(rest, p);
        let j = choose|j: int|
            0 <= j < rest.len() && p(rest[j]) && rest.filter(p)[0] == rest[j] && (forall|l: int|
                0 <= l < j ==> !p(#[trigger] rest[l]));
        assert(s[j + 1] == rest[j]);
        assert forall|l: int| 0 <= l < j + 1 implies !p(#[trigger] s[l]) by {
            if l > 0 {
                assert(s[l] == rest[l - 1]);
            }
        }
    }
}

/// A path is the working directory itself, or one of the arguments of
/// `argv` (after the command name) resolved against it.
pub open spec fn resolves_argument(argv: Seq<Seq<char>>, cwd: Seq<char>, p: Seq<char>) -> bool {
    p == cwd || exists|j: int| 1 <= j < argv.len() && p == join(cwd, #[trigger] argv[j])
}

/// Joining onto an absolute base gives an absolute path.
proof fn lemma_join_rooted(base: Seq<char>, p: Seq<char>)
    requires
        has_root(base),
    ensures
        has_root(join(base, p)),
{
    if !has_root(p) {
        if base.len() > 0 && base.last() != '/' {
            assert((base + "/"@ + p)[0] == base[0]);
        } else {
            assert((base + p)[0] == base[0]);
        }
    }
}

/// The operands a command puts at risk, before resolution, are among its
/// arguments, and there are no more of them than there are arguments.
proof fn lemma_operands_from_arguments(kind: DestructiveKind, args: Seq<Seq<char>>)
    ensures
        forall|x: Seq<char>| #[trigger] operands_at_risk(kind, args).contains(x) ==> args.contains(x),
        operands_at_risk(kind, args).len() <= args.len(),
        kind == DestructiveKind::Move ==> operands_at_risk(kind, args).len() <= 1,
{
    let no = |a: Seq<char>| !starts_with_char(a, '-');
    let po = |a: Seq<char>| !starts_with_char(a, '-') && a != "--"@ && !starts_with_char(a, '+');
    args.lemma_filter_len(no);
    args.lemma_filter_len(po);
    assert(non_options(args) == args.filter(no));
    assert(plain_operands(args) == args.filter(po));
    assert forall|x: Seq<char>| #[trigger] operands_at_risk(kind, args).contains(x) implies args.contains(x) by {
        match kind {
            DestructiveKind::Move => {
                assert(x == non_options(args)[0]);
                assert(non_options(args).contains(x));
                args.lemma_filter_contains_rev(no, x);
            },
            DestructiveKind::GitDestructive => {},
            _ => {
                args.lemma_filter_contains_rev(po, x);
            },
        }
    }
}

/// Every path that a command puts at risk is the working directory or one
/// of the command's arguments resolved against it. So, run in an absolute
/// working directory, a command puts only absolute paths at risk. And there
/// are no more of them than the command has arguments, or one (the working
/// directory) where it has none.
pub proof fn at_risk_paths_resolve_arguments(argv: Seq<Seq<char>>, cwd: Seq<char>)
    ensures
        forall|k: int|
            0 <= k < at_risk(argv, cwd).len() ==> resolves_argument(
                argv,
                cwd,
                #[trigger] at_risk(argv, cwd)[k],
            ),
        has_root(cwd) ==> forall|k: int|
            0 <= k < at_risk(argv, cwd).len() ==> has_root(#[trigger] at_risk(argv, cwd)[k]),
        at_risk(argv, cwd).len() <= 1 || at_risk(argv, cwd).len() <= argv.len() - 1,
{
    match kind_of_command(argv) {
        None => {},
        Some(kind) => {
            let args = argv.skip(1);
            let raw = if kind == DestructiveKind::Delete && "find"@.is_suffix_of(argv[0]) {
                Seq::empty()
            } else {
                operands_at_risk(kind, args)
            };
            lemma_operands_from_arguments(kind, args);
            assert forall|x: Seq<char>| #[trigger] raw.contains(x) implies args.contains(x) by {
                if raw.len() > 0 {
                    assert(raw == operands_at_risk(kind, args));
                }
            }
            if raw.len() == 0 && (kind == DestructiveKind::Delete || kind
                == DestructiveKind::GitDestructive) {
                assert(at_risk(argv, cwd) == seq![cwd]);
            } else {
                let q = |p: Seq<char>| p != ";"@ && p != "{}"@;
                let g = |p: Seq<char>| join(cwd, p);
                let kept = raw.filter(q);
                raw.lemma_filter_len(q);
                assert(at_risk(argv, cwd) == kept.map_values(g));
                assert forall|k: int| 0 <= k < at_risk(argv, cwd).len() implies resolves_argument(
                    argv,
                    cwd,
                    #[trigger] at_risk(argv, cwd)[k],
                ) && (has_root(cwd) ==> has_root(at_risk(argv, cwd)[k])) by {
                    let x = kept[k];
                    assert(kept.contains(x));
                    raw.lemma_filter_contains_rev(q, x);
                    assert(args.contains(x));
                    let i = choose|i: int| 0 <= i < args.len() && args[i] == x;
                    assert(argv[i + 1] == x);
                    assert(at_risk(argv, cwd)[k] == join(cwd, argv[i + 1]));
                    if has_root(cwd) {
                        lemma_join_rooted(cwd, x);
                    }
                }
            }
        },
    }
}

/// A move puts at most one path at risk: its first argument that is not an
/// option, resolved against the working directory.
pub proof fn moved_path_is_first_operand(argv: Seq<Seq<char>>, cwd: Seq<char>)
    requires
        kind_of_command(argv) == Some(DestructiveKind::Move),
    ensures
        at_risk(argv, cwd).len() <= 1,
        at_risk(argv, cwd).len() == 1 ==> exists|j: int|
            1 <= j < argv.len() && !starts_with_char(argv[j], '-') && at_risk(argv, cwd)[0] == join(
                cwd,
                argv[j],
            ) && (forall|l: int| 1 <= l < j ==> starts_with_char(#[trigger] argv[l], '-')),
{
    let args = argv.skip(1);
    let no = |a: Seq<char>| !starts_with_char(a, '-');
    let q = |p: Seq<char>| p != ";"@ && p != "{}"@;
    let g = |p: Seq<char>| join(cwd, p);
    let raw = operands_at_risk(DestructiveKind::Move, args);
    lemma_operands_from_arguments(DestructiveKind::Move, args);
    raw.lemma_filter_len(q);
    assert(at_risk(argv, cwd) == raw.filter(q).map_values(g));
    if at_risk(argv, cwd).len() == 1 {
        assert(raw.len() == 1);
        assert(non_options(args) == args.filter(no));
        lemma_filter_first(args, no);
        let j = choose|j: int|
            0 <= j < args.len() && no(args[j]) && args.filter(no)[0] == args[j] && (forall|l: int|
                0 <= l < j ==> !no(#[trigger] args[l]));
        assert(raw =~= seq![args[j]]);
        raw.lemma_filter_contains_rev(q, raw.filter(q)[0]);
        assert(raw.filter(q).contains(raw.filter(q)[0]));
        assert(raw.filter(q)[0] == args[j]);
        assert(argv[j + 1] == args[j]);
        assert forall|l: int| 1 <= l < j + 1 implies starts_with_char(#[trigger] argv[l], '-') by {
            assert(argv[l] == args[l - 1]);
            assert(!no(args[l - 1]));
        }
    }
}

} // verus!

verus! {

/// `git` is its own file name, and none of the other command names.
proof fn lemma_git_name()
    ensures
        file_name("git"@) == Some("git"@),
        "git"@ != "rm"@ && "git"@ != "unlink"@ && "git"@ != "rmdir"@ && "git"@ != "mv"@
            && "git"@ != "rename"@ && "git"@ != "dd"@ && "git"@ != "truncate"@ && "git"@
            != "sed"@ && "git"@ != "find"@,
{
    reveal_strlit("git");
    reveal_strlit(".");
    reveal_strlit("..");
    reveal_strlit("rm");
    reveal_strlit("unlink");
    reveal_strlit("rmdir");
    reveal_strlit("mv");
    reveal_strlit("rename");
    reveal_strlit("dd");
    reveal_strlit("truncate");
    reveal_strlit("sed");
    reveal_strlit("find");
    assert("git"@ != "."@);
    assert("git"@ != ".."@);
    bare_name_is_file_name("git"@);
    assert("git"@[0] != "sed"@[0]);
    assert("git"@[0] != "dd"@[0]);
}

/// An option that asks `git clean` to force: it starts with `-` and holds `f`.
pub open spec fn forcing_option(a: Seq<char>) -> bool {
    starts_with_char(a, '-') && a.contains('f')
}

/// Whether `git SUB ARGS...` destroys work: `git reset` with `--hard` among
/// its arguments, `git clean` with a forcing option among them, or
/// `git checkout` / `git restore` with `--` among them, wherever in the
/// arguments it stands.
pub open spec fn git_destroys(sub: Seq<char>, args: Seq<Seq<char>>) -> bool {
    ||| sub == "reset"@ && args.contains("--hard"@)
    ||| sub == "clean"@ && exists|i: int| 0 <= i < args.len() && forcing_option(#[trigger] args[i])
    ||| (sub == "checkout"@ || sub == "restore"@) && args.contains("--"@)
}

/// `git SUB ARGS...` is classified as destructive exactly when it destroys
/// work, and as nothing else otherwise.
pub proof fn git_destructive_exactly(sub: Seq<char>, args: Seq<Seq<char>>)
    ensures
        git_destroys(sub, args) ==> kind_of_command(seq!["git"@, sub] + args) == Some(
            DestructiveKind::GitDestructive,
        ),
        !git_destroys(sub, args) ==> kind_of_command(seq!["git"@, sub] + args) is None,
{
    reveal_strlit("reset");
    reveal_strlit("--hard");
    reveal_strlit("clean");
    reveal_strlit("checkout");
    reveal_strlit("restore");
    reveal_strlit("--");
    lemma_git_name();
    let argv = seq!["git"@, sub] + args;
    let rest = argv.skip(1);
    assert(argv[0] == "git"@);
    assert(rest =~= seq![sub] + args);
    assert(rest[0] == sub);
    assert forall|i: int| 0 <= i < args.len() implies #[trigger] rest[i + 1] == args[i] by {}
    let hard = args.contains("--hard"@);
    let force = exists|i: int| 0 <= i < args.len() && forcing_option(#[trigger] args[i]);
    let sep = args.contains("--"@);
    if sub == "reset"@ {
        assert("reset"@.len() != "--hard"@.len());
        if hard {
            let i = choose|i: int| 0 <= i < args.len() && args[i] == "--hard"@;
            assert(rest[i + 1] == "--hard"@);
        }
        if rest.contains("--hard"@) {
            let j = choose|j: int| 0 <= j < rest.len() && rest[j] == "--hard"@;
            assert(j != 0);
            assert(args[j - 1] == "--hard"@);
        }
    }
    if sub == "clean"@ {
        assert("clean"@[0] != "reset"@[0]);
        assert(!starts_with_char(sub, '-'));
        if force {
            let i = choose|i: int| 0 <= i < args.len() && forcing_option(#[trigger] args[i]);
            assert(rest[i + 1] == args[i]);
            assert(forces(rest));
        }
        if forces(rest) {
            let j = choose|j: int|
                0 <= j < rest.len() && starts_with_char(rest[j], '-') && rest[j].contains('f');
            assert(j != 0);
            assert(args[j - 1] == rest[j]);
            assert(forcing_option(args[j - 1]));
        }
    }
    if sub == "checkout"@ || sub == "restore"@ {
        assert("checkout"@.len() != "reset"@.len() && "restore"@.len() != "reset"@.len());
        assert("checkout"@.len() != "clean"@.len() && "restore"@.len() != "clean"@.len());
        assert(sub != "--"@);
        if sep {
            let i = choose|i: int| 0 <= i < args.len() && args[i] == "--"@;
            assert(rest[i + 1] == "--"@);
        }
        if rest.contains("--"@) {
            let j = choose|j: int| 0 <= j < rest.len() && rest[j] == "--"@;
            assert(j != 0);
            assert(args[j - 1] == "--"@);
        }
    }
}

} // verus!

verus! {

/// The command names that `classify` knows, all different from each other.
proof fn lemma_names_distinct()
    ensures
        "unlink"@ != "rm"@,
        "rmdir"@ != "rm"@,
        "rmdir"@ != "unlink"@,
        "mv"@ != "rm"@,
        "mv"@ != "unlink"@,
        "mv"@ != "rmdir"@,
        "rename"@ != "rm"@,
        "rename"@ != "unlink"@,
        "rename"@ != "rmdir"@,
        "rename"@ != "mv"@,
        "dd"@ != "rm"@,
        "dd"@ != "unlink"@,
        "dd"@ != "rmdir"@,
        "dd"@ != "mv"@,
        "dd"@ != "rename"@,
        "truncate"@ != "rm"@,
        "truncate"@ != "unlink"@,
        "truncate"@ != "rmdir"@,
        "truncate"@ != "mv"@,
        "truncate"@ != "rename"@,
        "truncate"@ != "dd"@,
        "sed"@ != "rm"@,
        "sed"@ != "unlink"@,
        "sed"@ != "rmdir"@,
        "sed"@ != "mv"@,
        "sed"@ != "rename"@,
        "sed"@ != "dd"@,
        "sed"@ != "truncate"@,
        "find"@ != "rm"@,
        "find"@ != "unlink"@,
        "find"@ != "rmdir"@,
        "find"@ != "mv"@,
        "find"@ != "rename"@,
        "find"@ != "dd"@,
        "find"@ != "truncate"@,
        "find"@ != "sed"@,
        "git"@ != "rm"@,
        "git"@ != "unlink"@,
        "git"@ != "rmdir"@,
        "git"@ != "mv"@,
        "git"@ != "rename"@,
        "git"@ != "dd"@,
        "git"@ != "truncate"@,
        "git"@ != "sed"@,
        "git"@ != "find"@,
{
    reveal_strlit("rm");
    reveal_strlit("unlink");
    reveal_strlit("rmdir");
    reveal_strlit("mv");
    reveal_strlit("rename");
    reveal_strlit("dd");
    reveal_strlit("truncate");
    reveal_strlit("sed");
    reveal_strlit("find");
    reveal_strlit("git");
    assert("unlink"@.len() != "rm"@.len());
    assert("rmdir"@.len() != "rm"@.len());
    assert("rmdir"@.len() != "unlink"@.len());
    assert("mv"@[0] != "rm"@[0]);
    assert("mv"@.len() != "unlink"@.len());
    assert("mv"@.len() != "rmdir"@.len());
    assert("rename"@.len() != "rm"@.len());
    assert("rename"@[0] != "unlink"@[0]);
    assert("rename"@.len() != "rmdir"@.len());
    assert("rename"@.len() != "mv"@.len());
    assert("dd"@[0] != "rm"@[0]);
    assert("dd"@.len() != "unlink"@.len());
    assert("dd"@.len() != "rmdir"@.len());
    assert("dd"@[0] != "mv"@[0]);
    assert("dd"@.len() != "rename"@.len());
    assert("truncate"@.len() != "rm"@.len());
    assert("truncate"@.len() != "unlink"@.len());
    assert("truncate"@.len() != "rmdir"@.len());
    assert("truncate"@.len() != "mv"@.len());
    assert("truncate"@.len() != "rename"@.len());
    assert("truncate"@.len() != "dd"@.len());
    assert("sed"@.len() != "rm"@.len());
    assert("sed"@.len() != "unlink"@.len());
    assert("sed"@.len() != "rmdir"@.len());
    assert("sed"@.len() != "mv"@.len());
    assert("sed"@.len() != "rename"@.len());
    assert("sed"@.len() != "dd"@.len());
    assert("sed"@.len() != "truncate"@.len());
    assert("find"@.len() != "rm"@.len());
    assert("find"@.len() != "unlink"@.len());
    assert("find"@.len() != "rmdir"@.len());
    assert("find"@.len() != "mv"@.len());
    assert("find"@.len() != "rename"@.len());
    assert("find"@.len() != "dd"@.len());
    assert("find"@.len() != "truncate"@.len());
    assert("find"@.len() != "sed"@.len());
    assert("git"@.len() != "rm"@.len());
    assert("git"@.len() != "unlink"@.len());
    assert("git"@.len() != "rmdir"@.len());
    assert("git"@.len() != "mv"@.len());
    assert("git"@.len() != "rename"@.len());
    assert("git"@.len() != "dd"@.len());
    assert("git"@.len() != "truncate"@.len());
    assert("git"@[0] != "sed"@[0]);
    assert("git"@.len() != "find"@.len());
}

/// The last component of the first word of `argv`, and the arguments after it.
proof fn lemma_split_argv(cmd: Seq<char>, args: Seq<Seq<char>>)
    ensures
        (seq![cmd] + args).len() > 0,
        (seq![cmd] + args)[0] == cmd,
        (seq![cmd] + args).skip(1) == args,
{
    assert((seq![cmd] + args).skip(1) =~= args);
}

/// A command whose first word has no file name (it is empty, or ends in `/`,
/// `.` or `..`) is not destructive.
pub proof fn nameless_command_not_destructive(cmd: Seq<char>, args: Seq<Seq<char>>)
    requires
        file_name(cmd) is None,
    ensures
        kind_of_command(seq![cmd] + args) is None,
{
    lemma_split_argv(cmd, args);
}

/// `rm`, `unlink` and `rmdir` delete, `mv` and `rename` move, `dd`
/// overwrites and `truncate` truncates, whatever their arguments and
/// wherever they are run from (the name is the last component of the
/// command's first word).
pub proof fn named_commands_classified(cmd: Seq<char>, args: Seq<Seq<char>>)
    ensures
        file_name(cmd) == Some("rm"@) || file_name(cmd) == Some("unlink"@) || file_name(cmd)
            == Some("rmdir"@) ==> kind_of_command(seq![cmd] + args) == Some(
            DestructiveKind::Delete,
        ),
        file_name(cmd) == Some("mv"@) || file_name(cmd) == Some("rename"@) ==> kind_of_command(
            seq![cmd] + args,
        ) == Some(DestructiveKind::Move),
        file_name(cmd) == Some("dd"@) ==> kind_of_command(seq![cmd] + args) == Some(
            DestructiveKind::Overwrite,
        ),
        file_name(cmd) == Some("truncate"@) ==> kind_of_command(seq![cmd] + args) == Some(
            DestructiveKind::Truncate,
        ),
{
    lemma_names_distinct();
    lemma_split_argv(cmd, args);
}

/// `sed` overwrites exactly when some argument starts with `-i` (editing in
/// place), and is harmless otherwise.
pub proof fn sed_overwrites_exactly_in_place(cmd: Seq<char>, args: Seq<Seq<char>>)
    requires
        file_name(cmd) == Some("sed"@),
    ensures
        (exists|i: int| 0 <= i < args.len() && "-i"@.is_prefix_of(#[trigger] args[i]))
            ==> kind_of_command(seq![cmd] + args) == Some(DestructiveKind::Overwrite),
        !(exists|i: int| 0 <= i < args.len() && "-i"@.is_prefix_of(#[trigger] args[i]))
            ==> kind_of_command(seq![cmd] + args) is None,
{
    lemma_names_distinct();
    lemma_split_argv(cmd, args);
    if exists|i: int| 0 <= i < args.len() && "-i"@.is_prefix_of(#[trigger] args[i]) {
        let i = choose|i: int| 0 <= i < args.len() && "-i"@.is_prefix_of(#[trigger] args[i]);
        assert(edits_in_place(args));
    }
    if edits_in_place(args) {
        let i = choose|i: int|
            0 <= i < args.len() && (args[i] == "-i"@ || "-i"@.is_prefix_of(args[i]));
        assert(args[i].subrange(0, args[i].len() as int) =~= args[i]);
        assert("-i"@.is_prefix_of(args[i]));
    }
}

/// Whether a word names a deleting command: its last component is `rm`,
/// `unlink` or `rmdir`.
pub open spec fn deleting_word(w: Seq<char>) -> bool {
    file_name(w) == Some("rm"@) || file_name(w) == Some("unlink"@) || file_name(w) == Some(
        "rmdir"@,
    )
}

/// `find` deletes exactly when some argument is `-delete`, or is `-exec`
/// followed by a deleting command, and is harmless otherwise.
pub proof fn find_deletes_exactly(cmd: Seq<char>, args: Seq<Seq<char>>)
    requires
        file_name(cmd) == Some("find"@),
    ensures
        (args.contains("-delete"@) || exists|i: int|
            0 <= i && i + 1 < args.len() && #[trigger] args[i] == "-exec"@ && deleting_word(
                args[i + 1],
            )) ==> kind_of_command(seq![cmd] + args) == Some(DestructiveKind::Delete),
        !(args.contains("-delete"@) || exists|i: int|
            0 <= i && i + 1 < args.len() && #[trigger] args[i] == "-exec"@ && deleting_word(
                args[i + 1],
            )) ==> kind_of_command(seq![cmd] + args) is None,
{
    lemma_names_distinct();
    lemma_split_argv(cmd, args);
    let found = exists|i: int|
        0 <= i && i + 1 < args.len() && #[trigger] args[i] == "-exec"@ && deleting_word(
            args[i + 1],
        );
    assert(found == execs_deleter(args)) by {
        if found {
            let i = choose|i: int|
                0 <= i && i + 1 < args.len() && #[trigger] args[i] == "-exec"@ && deleting_word(
                    args[i + 1],
                );
            assert(is_deleter(file_name(args[i + 1])));
        }
        if execs_deleter(args) {
            let i = choose|i: int|
                0 <= i && i + 1 < args.len() && #[trigger] args[i] == "-exec"@ && is_deleter(
                    file_name(args[i + 1]),
                );
            assert(deleting_word(args[i + 1]));
        }
    }
}

} // verus!

verus! {

/// An argument that names a file for `rm`, `dd`, `truncate` and the like: not
/// an option (`-...`), not `--`, not a `+...` flag, and not the `;` or `{}`
/// of `find -exec`.
pub open spec fn file_operand(a: Seq<char>) -> bool {
    !starts_with_char(a, '-') && a != "--"@ && !starts_with_char(a, '+') && a != ";"@ && a
        != "{}"@
}

/// A destructive `git` command, or a deletion by `find`, puts the whole
/// working directory at risk, and nothing else.
pub proof fn whole_directory_at_risk(argv: Seq<Seq<char>>, cwd: Seq<char>)
    requires
        kind_of_command(argv) == Some(DestructiveKind::GitDestructive) || (kind_of_command(argv)
            == Some(DestructiveKind::Delete) && "find"@.is_suffix_of(argv[0])),
    ensures
        at_risk(argv, cwd) == seq![cwd],
{
}

/// A command that is not destructive puts nothing at risk.
pub proof fn harmless_command_risks_nothing(argv: Seq<Seq<char>>, cwd: Seq<char>)
    requires
        kind_of_command(argv) is None,
    ensures
        at_risk(argv, cwd).len() == 0,
{
}

/// An argument that is an operand rather than an option: it does not start
/// with `-` or `+` and is not `--`.
pub open spec fn plain_operand(a: Seq<char>) -> bool {
    !starts_with_char(a, '-') && a != "--"@ && !starts_with_char(a, '+')
}

/// A path is one of the file operands of `argv` resolved against `cwd`.
pub open spec fn resolves_file_operand(argv: Seq<Seq<char>>, cwd: Seq<char>, p: Seq<char>) -> bool {
    exists|j: int| 1 <= j < argv.len() && file_operand(#[trigger] argv[j]) && p == join(cwd, argv[j])
}

/// A deletion (other than by `find`), an overwrite or a truncation puts at
/// risk only its file operands, resolved against the working directory; a
/// deletion without any operand puts the working directory at risk instead.
pub proof fn only_file_operands_at_risk(argv: Seq<Seq<char>>, cwd: Seq<char>)
    requires
        kind_of_command(argv) == Some(DestructiveKind::Delete) || kind_of_command(argv) == Some(
            DestructiveKind::Overwrite,
        ) || kind_of_command(argv) == Some(DestructiveKind::Truncate),
        !(kind_of_command(argv) == Some(DestructiveKind::Delete) && "find"@.is_suffix_of(argv[0])),
    ensures
        kind_of_command(argv) == Some(DestructiveKind::Delete) && (forall|j: int|
            1 <= j < argv.len() ==> !plain_operand(#[trigger] argv[j])) ==> at_risk(argv, cwd)
            == seq![cwd],
        !(kind_of_command(argv) == Some(DestructiveKind::Delete) && (forall|j: int|
            1 <= j < argv.len() ==> !plain_operand(#[trigger] argv[j]))) ==> forall|k: int|
            0 <= k < at_risk(argv, cwd).len() ==> resolves_file_operand(
                argv,
                cwd,
                #[trigger] at_risk(argv, cwd)[k],
            ),
{
    let args = argv.skip(1);
    let kind = kind_of_command(argv).unwrap();
    let po = |a: Seq<char>| !starts_with_char(a, '-') && a != "--"@ && !starts_with_char(a, '+');
    let q = |p: Seq<char>| p != ";"@ && p != "{}"@;
    let g = |p: Seq<char>| join(cwd, p);
    let raw = plain_operands(args);
    assert(raw == args.filter(po));
    assert(operands_at_risk(kind, args) == raw);
    let none = forall|j: int| 1 <= j < argv.len() ==> !plain_operand(#[trigger] argv[j]);
    if raw.len() > 0 {
        args.lemma_filter_pred(po, 0);
        assert(raw.contains(raw[0]));
        args.lemma_filter_contains_rev(po, raw[0]);
        let m = choose|m: int| 0 <= m < args.len() && args[m] == raw[0];
        assert(argv[m + 1] == args[m]);
        assert(plain_operand(argv[m + 1]));
        assert(!none);
    } else {
        assert forall|j: int| 1 <= j < argv.len() implies !plain_operand(#[trigger] argv[j]) by {
            assert(argv[j] == args[j - 1]);
            if plain_operand(argv[j]) {
                args.lemma_filter_contains(po, j - 1);
            }
        }
    }
    if !(kind == DestructiveKind::Delete && none) {
        let kept = raw.filter(q);
        assert(at_risk(argv, cwd) == kept.map_values(g));
        assert forall|k: int| 0 <= k < at_risk(argv, cwd).len() implies resolves_file_operand(
            argv,
            cwd,
            #[trigger] at_risk(argv, cwd)[k],
        ) by {
            let x = kept[k];
            raw.lemma_filter_pred(q, k);
            assert(kept.contains(x));
            raw.lemma_filter_contains_rev(q, x);
            let r = choose|r: int| 0 <= r < raw.len() && raw[r] == x;
            args.lemma_filter_pred(po, r);
            assert(raw.contains(x));
            args.lemma_filter_contains_rev(po, x);
            let m = choose|m: int| 0 <= m < args.len() && args[m] == x;
            assert(argv[m + 1] == x);
            assert(at_risk(argv, cwd)[k] == join(cwd, argv[m + 1]));
        }
    }
}

} // verus!
