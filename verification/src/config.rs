//! Where the daemon keeps its data, what it may snapshot, and for how long.
use vstd::prelude::*;
use crate::path::{join, join_path, path_has_prefix, path_starts_with};
use crate::text::{fields, opt_text, split_fields, texts};

verus! {

/// Snapshots older than this (48 hours, in nanoseconds) may be collected.
pub const RETENTION_NS: i64 = 172_800_000_000_000;

/// Above this total size (2 GiB) the oldest snapshots are collected.
pub const MAX_BYTES: i64 = 2_147_483_648;

/// The daemon's settings.
#[derive(Clone, Debug)]
pub struct Config {
    pub data_dir: String,
    pub allowed_roots: Vec<String>,
    pub retention_ns: i64,
    pub max_bytes: i64,
}

/// The home directory, `/` when unknown.
pub open spec fn home_dir(home: Option<Seq<char>>) -> Seq<char> {
    match home {
        Some(h) => h,
        None => "/"@,
    }
}

/// The data directory: `oops` under `$XDG_DATA_HOME`, or under
/// `$HOME/.local/share` when that is unset.
pub open spec fn data_dir_of(home: Option<Seq<char>>, xdg_data_home: Option<Seq<char>>) -> Seq<char> {
    let base = match xdg_data_home {
        Some(x) => x,
        None => join(home_dir(home), ".local/share"@),
    };
    join(base, "oops"@)
}

/// The directories that may be snapshotted: the home directory, then each
/// non-empty entry of the colon-separated `$OOPS_ALLOW_PATHS`.
pub open spec fn roots_of(home: Option<Seq<char>>, allow_paths: Option<Seq<char>>) -> Seq<Seq<char>> {
    seq![home_dir(home)] + match allow_paths {
        Some(a) => fields(a, ':'),
        None => Seq::empty(),
    }
}

impl Config {
    /// The settings for the given values of `$HOME`, `$XDG_DATA_HOME` and
    /// `$OOPS_ALLOW_PATHS` (`None` where a variable is unset).
    pub fn from_env_values(
        home: Option<String>,
        xdg_data_home: Option<String>,
        allow_paths: Option<String>,
    ) -> (c: Config)
        ensures
            c.data_dir@ == data_dir_of(opt_text(home), opt_text(xdg_data_home)),
            texts(c.allowed_roots@) == roots_of(opt_text(home), opt_text(allow_paths)),
            c.retention_ns == RETENTION_NS,
            c.max_bytes == MAX_BYTES,
    {
        let ghost home0 = opt_text(home);
        let ghost allow0 = opt_text(allow_paths);
        let home = match home {
            Some(h) => h,
            None => String::from_str("/"),
        };
        let base = match xdg_data_home {
            Some(x) => x,
            None => join_path(home.as_str(), ".local/share"),
        };
        let data_dir = join_path(base.as_str(), "oops");
        let mut roots: Vec<String> = Vec::new();
        roots.push(home);
        if let Some(a) = allow_paths {
            let mut extra = split_fields(a.as_str(), ':');
            roots.append(&mut extra);
        }
        assert(texts(roots@) =~= roots_of(home0, allow0));
        Config { data_dir, allowed_roots: roots, retention_ns: RETENTION_NS, max_bytes: MAX_BYTES }
    }

    /// The socket on which the daemon listens.
    pub fn socket_path(&self) -> (r: String)
        ensures
            r@ == join(self.data_dir@, "oopsd.sock"@),
    {
        join_path(self.data_dir.as_str(), "oopsd.sock")
    }

    /// The snapshot database.
    pub fn db_path(&self) -> (r: String)
        ensures
            r@ == join(self.data_dir@, "oops.db"@),
    {
        join_path(self.data_dir.as_str(), "oops.db")
    }

    /// The daemon's log file.
    pub fn log_path(&self) -> (r: String)
        ensures
            r@ == join(self.data_dir@, "oopsd.log"@),
    {
        join_path(self.data_dir.as_str(), "oopsd.log")
    }

    /// The directory that holds the blobs of all snapshots.
    pub fn blobs_dir(&self) -> (r: String)
        ensures
            r@ == join(self.data_dir@, "blobs"@),
    {
        join_path(self.data_dir.as_str(), "blobs")
    }

    /// Whether some allowed root is a whole-component prefix of the path `p`.
    pub open spec fn allows(&self, p: Seq<char>) -> bool {
        exists|i: int|
            0 <= i < self.allowed_roots@.len() && path_starts_with(
                p,
                #[trigger] self.allowed_roots@[i]@,
            )
    }

    /// The roots of a capture that may be snapshotted, in order: those whose
    /// path as resolved on disk (`resolved`, position for position) is
    /// allowed.
    pub open spec fn permitted_roots(&self, roots: Seq<Seq<char>>, resolved: Seq<Seq<char>>) -> Seq<
        Seq<char>,
    >
        decreases roots.len(),
    {
        if roots.len() == 0 {
            Seq::empty()
        } else {
            let k = roots.len() - 1;
            let init = self.permitted_roots(roots.drop_last(), resolved);
            if self.allows(resolved[k]) {
                init.push(roots[k])
            } else {
                init
            }
        }
    }

    /// Whether some allowed root is a whole-component prefix of `candidate`,
    /// the path as resolved on disk.
    pub fn permits(&self, candidate: &str) -> (r: bool)
        ensures
            r == self.allows(candidate@),
    {
        let mut i: usize = 0;
        while i < self.allowed_roots.len()
            invariant
                i <= self.allowed_roots@.len(),
                forall|j: int|
                    0 <= j < i ==> !path_starts_with(candidate@, #[trigger] self.allowed_roots@[j]@),
            decreases self.allowed_roots.len() - i,
        {
            if path_has_prefix(candidate, self.allowed_roots[i].as_str()) {
                return true;
            }
            i = i + 1;
        }
        false
    }

    /// The roots of a capture that may be snapshotted, given each root's path
    /// as resolved on disk; `None` when there is none, and nothing is to be
    /// captured.
    pub fn capture_roots(&self, roots: &Vec<String>, resolved: &Vec<String>) -> (r: Option<
        Vec<String>,
    >)
        requires
            roots.len() == resolved.len(),
        ensures
            match r {
                Some(v) => v.len() > 0 && texts(v@) == self.permitted_roots(
                    texts(roots@),
                    texts(resolved@),
                ),
                None => self.permitted_roots(texts(roots@), texts(resolved@)).len() == 0,
            },
    {
        let ghost rs = texts(roots@);
        let ghost cs = texts(resolved@);
        let mut out: Vec<String> = Vec::new();
        let mut i: usize = 0;
        while i < roots.len()
            invariant
                i <= roots@.len(),
                roots@.len() == resolved@.len(),
                rs == texts(roots@),
                cs == texts(resolved@),
                texts(out@) == self.permitted_roots(rs.take(i as int), cs),
            decreases roots.len() - i,
        {
            assert(rs.take(i + 1).drop_last() =~= rs.take(i as int));
            assert(rs.take(i + 1)[i as int] == roots@[i as int]@);
            assert(cs[i as int] == resolved@[i as int]@);
            if self.permits(resolved[i].as_str()) {
                let ghost before = out@;
                out.push(roots[i].clone());
                assert(texts(out@) =~= texts(before).push(roots@[i as int]@));
            }
            i = i + 1;
        }
        assert(rs.take(roots.len() as int) =~= rs);
        if out.len() == 0 {
            None
        } else {
            Some(out)
        }
    }
}

} // verus!

verus! {

/// Every path under the home directory may be snapshotted, whatever
/// `$OOPS_ALLOW_PATHS` adds.
pub proof fn home_is_allowed(
    c: Config,
    home: Option<Seq<char>>,
    allow_paths: Option<Seq<char>>,
    p: Seq<char>,
)
    requires
        texts(c.allowed_roots@) == roots_of(home, allow_paths),
        path_starts_with(p, home_dir(home)),
    ensures
        exists|i: int|
            0 <= i < c.allowed_roots@.len() && path_starts_with(p, #[trigger] c.allowed_roots@[i]@),
{
    assert(roots_of(home, allow_paths)[0] == home_dir(home));
    assert(roots_of(home, allow_paths).len() >= 1);
    assert(texts(c.allowed_roots@).len() == c.allowed_roots@.len());
    assert(texts(c.allowed_roots@)[0] == c.allowed_roots@[0]@);
    assert(c.allowed_roots@[0]@ == home_dir(home));
}

} // verus!
