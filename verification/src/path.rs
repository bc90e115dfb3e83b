//! Unix paths as text: components, file names, prefixes and joining, after
//! the rules of `std::path::Path` on Unix.
use vstd::prelude::*;
use crate::text::{chars_of, fields, opt_text, same_text, split_fields, starts_with_char, texts};

verus! {

/// Whether the path starts at the root directory.
pub open spec fn has_root(s: Seq<char>) -> bool {
    starts_with_char(s, '/')
}

/// Whether a relative path begins with a `.` component (`.` alone or `./...`),
/// which is kept as the first component.
pub open spec fn leading_cur_dir(s: Seq<char>) -> bool {
    !has_root(s) && s.len() > 0 && s[0] == '.' && (s.len() == 1 || s[1] == '/')
}

/// The named parts of a path: its non-empty fields between separators, with
/// `.` dropped.
pub open spec fn segments(s: Seq<char>) -> Seq<Seq<char>> {
    fields(s, '/').filter(|c: Seq<char>| c != "."@)
}

/// The components of a path, each written as text: `/` stands for the root,
/// a leading `.` for the current directory, `..` for a parent step, and any
/// other text for a normal component.
pub open spec fn components(s: Seq<char>) -> Seq<Seq<char>> {
    if has_root(s) {
        seq!["/"@] + segments(s)
    } else if leading_cur_dir(s) {
        seq!["."@] + segments(s)
    } else {
        segments(s)
    }
}

/// Whether a component names a file or directory (rather than the root, the
/// current directory or a parent step).
pub open spec fn is_normal(c: Seq<char>) -> bool {
    c != "/"@ && c != "."@ && c != ".."@
}

/// The final component of a path when it is a normal one.
pub open spec fn file_name(s: Seq<char>) -> Option<Seq<char>> {
    let cs = components(s);
    if cs.len() > 0 && is_normal(cs.last()) {
        Some(cs.last())
    } else {
        None
    }
}

/// Whether `base` is a whole-component prefix of `p`.
pub open spec fn path_starts_with(p: Seq<char>, base: Seq<char>) -> bool {
    components(base).is_prefix_of(components(p))
}

/// `p` resolved against `base`: an absolute `p` replaces `base`, otherwise it
/// is appended after a separator when `base` does not already end with one.
pub open spec fn join(base: Seq<char>, p: Seq<char>) -> Seq<char> {
    if has_root(p) {
        p
    } else if base.len() > 0 && base.last() != '/' {
        base + "/"@ + p
    } else {
        base + p
    }
}

/// The components of the path `s`.
pub fn path_components(s: &str) -> (v: Vec<String>)
    ensures
        texts(v@) == components(s@),
{
    let cs = chars_of(s);
    let parts = split_fields(s, '/');
    let mut out: Vec<String> = Vec::new();
    let ghost lead: Seq<Seq<char>>;
    if cs.len() > 0 && cs[0] == '/' {
        out.push(String::from_str("/"));
        proof {
            lead = seq!["/"@];
        }
    } else if cs.len() > 0 && cs[0] == '.' && (cs.len() == 1 || cs[1] == '/') {
        out.push(String::from_str("."));
        proof {
            lead = seq!["."@];
        }
    } else {
        proof {
            lead = Seq::empty();
        }
    }
    assert(texts(out@) =~= lead);
    let ghost f = |c: Seq<char>| c != "."@;
    let mut i: usize = 0;
    assert(texts(parts@).take(0) =~= Seq::<Seq<char>>::empty());
    while i < parts.len()
        invariant
            texts(parts@) == fields(s@, '/'),
            i <= parts.len(),
            f == (|c: Seq<char>| c != "."@),
            texts(out@) == lead + texts(parts@).take(i as int).filter(f),
        decreases parts.len() - i,
    {
        let ghost before = out@;
        let ghost x = texts(parts@)[i as int];
        let ghost pre = texts(parts@).take(i as int).filter(f);
        assert(texts(parts@).take(i + 1) =~= texts(parts@).take(i as int).push(x));
        proof {
            texts(parts@).take(i as int).lemma_filter_push(x, f);
        }
        if !same_text(parts[i].as_str(), ".") {
            out.push(parts[i].clone());
            assert(texts(out@) =~= texts(before).push(x));
            assert(lead + pre.push(x) =~= (lead + pre).push(x));
        }
        i = i + 1;
    }
    assert(texts(parts@).take(parts.len() as int) =~= texts(parts@));
    out
}

/// The final component of `s`, when it is a normal one.
pub fn path_file_name(s: &str) -> (r: Option<String>)
    ensures
        opt_text(r) == file_name(s@),
{
    let mut cs = path_components(s);
    let ghost all = texts(cs@);
    match cs.pop() {
        None => None,
        Some(last) => {
            assert(last@ == all.last());
            if same_text(last.as_str(), "/") || same_text(last.as_str(), ".") || same_text(
                last.as_str(),
                "..",
            ) {
                None
            } else {
                Some(last)
            }
        },
    }
}

/// Whether `base` is a whole-component prefix of `p`.
pub fn path_has_prefix(p: &str, base: &str) -> (r: bool)
    ensures
        r == path_starts_with(p@, base@),
{
    let pc = path_components(p);
    let bc = path_components(base);
    if bc.len() > pc.len() {
        return false;
    }
    let mut i: usize = 0;
    while i < bc.len()
        invariant
            texts(pc@) == components(p@),
            texts(bc@) == components(base@),
            bc.len() <= pc.len(),
            i <= bc.len(),
            forall|j: int| 0 <= j < i ==> texts(bc@)[j] == texts(pc@)[j],
        decreases bc.len() - i,
    {
        if bc[i] != pc[i] {
            assert(texts(bc@)[i as int] != texts(pc@)[i as int]);
            return false;
        }
        i = i + 1;
    }
    true
}

/// `p` resolved against `base`.
pub fn join_path(base: &str, p: &str) -> (r: String)
    ensures
        r@ == join(base@, p@),
{
    let pc = chars_of(p);
    if pc.len() > 0 && pc[0] == '/' {
        return String::from_str(p);
    }
    let bc = chars_of(base);
    let mut r = String::from_str(base);
    if bc.len() > 0 && bc[bc.len() - 1] != '/' {
        r.append("/");
    }
    r.append(p);
    r
}

} // verus!

verus! {

proof fn lemma_split_no_sep(w: Seq<char>, sep: char)
    requires
        forall|k: int| 0 <= k < w.len() ==> w[k] != sep,
    ensures
        crate::text::split_scan(w, sep) == (Seq::<Seq<char>>::empty(), w),
    decreases w.len(),
{
    if w.len() > 0 {
        let init = w.drop_last();
        assert forall|k: int| 0 <= k < init.len() implies init[k] != sep by {
            assert(init[k] == w[k]);
        }
        lemma_split_no_sep(init, sep);
        assert(init.push(w.last()) =~= w);
    }
}

/// A bare name (no `/`, not `.` or `..`) is a path of one component, and is
/// its own file name.
pub proof fn bare_name_is_file_name(w: Seq<char>)
    requires
        w.len() > 0,
        forall|k: int| 0 <= k < w.len() ==> w[k] != '/',
        w != "."@,
        w != ".."@,
    ensures
        components(w) == seq![w],
        file_name(w) == Some(w),
{
    reveal_strlit(".");
    reveal_strlit("..");
    reveal_strlit("/");
    lemma_split_no_sep(w, '/');
    assert(fields(w, '/') == seq![w]);
    let p = |c: Seq<char>| c != "."@;
    assert(seq![w] =~= seq![w] + Seq::<Seq<char>>::empty());
    Seq::<Seq<char>>::empty().lemma_filter_prepend(w, p);
    Seq::<Seq<char>>::empty().lemma_filter_len(p);
    assert(segments(w) =~= seq![w]);
    assert(!has_root(w));
    if w.len() == 1 && w[0] == '.' {
        assert(w =~= "."@);
    }
    assert(!leading_cur_dir(w));
    assert(w != "/"@) by {
        if w.len() == 1 {
            assert(w[0] != '/');
        }
    }
}

} // verus!
