//! Detection of truncating shell redirects (`> file`) in a raw command line.
use vstd::prelude::*;
use crate::text::{chars_of, opt_text};

verus! {

/// ASCII whitespace as the scanner knows it.
pub open spec fn is_space(c: char) -> bool {
    c == ' ' || c == '\t' || c == '\n' || c == '\x0C' || c == '\r'
}

/// Characters that end a redirect target.
pub open spec fn ends_target(c: char) -> bool {
    is_space(c) || c == ';' || c == '|'
}

/// Quote characters.
pub open spec fn is_quote(c: char) -> bool {
    c == '\'' || c == '"'
}

/// The quote state after reading the quote character `c` in state `q`: a
/// matching quote closes, any quote opens when none is open, and a quote of
/// the other kind inside a quoted stretch is plain text.
pub open spec fn next_quote(q: Option<char>, c: char) -> Option<char> {
    if q == Some(c) {
        None
    } else if q is None {
        Some(c)
    } else {
        q
    }
}

/// A `>` that is neither part of `>>` nor of a descriptor duplication `>&`.
pub open spec fn lone_gt(s: Seq<char>, i: int) -> bool {
    &&& s[i] == '>'
    &&& (i == 0 || s[i - 1] != '>')
    &&& !(i + 1 < s.len() && (s[i + 1] == '>' || s[i + 1] == '&'))
}

/// Scanning plain text at position `i` in quote state `q`; the result is the
/// span of the first redirect target found from here on.
pub open spec fn scan_text(s: Seq<char>, i: int, q: Option<char>) -> Option<(int, int)>
    decreases s.len() + 2 - i, 0int,
{
    if i < 0 || i >= s.len() {
        None
    } else if s[i] == '\\' && q != Some('\'') {
        scan_text(s, i + 2, q)
    } else if is_quote(s[i]) {
        scan_text(s, i + 1, next_quote(q, s[i]))
    } else if q is None && lone_gt(s, i) {
        scan_spaces(s, i + 1)
    } else {
        scan_text(s, i + 1, q)
    }
}

/// Skipping the whitespace after a `>` at position `i`.
pub open spec fn scan_spaces(s: Seq<char>, i: int) -> Option<(int, int)>
    decreases s.len() + 2 - i, 1int,
{
    if i < 0 || i > s.len() {
        None
    } else if i < s.len() && is_space(s[i]) {
        scan_spaces(s, i + 1)
    } else if i < s.len() && !ends_target(s[i]) {
        scan_word(s, i, i + 1)
    } else {
        scan_text(s, i + 1, None)
    }
}

/// Reading a redirect target that began at `start`, now at position `i`.
pub open spec fn scan_word(s: Seq<char>, start: int, i: int) -> Option<(int, int)>
    decreases s.len() + 2 - i, 2int,
{
    if i < 0 || i > s.len() {
        None
    } else if i < s.len() && !ends_target(s[i]) {
        scan_word(s, start, i + 1)
    } else {
        Some((start, i))
    }
}

/// `t` without its leading and trailing quote characters.
pub open spec fn trim_quotes(t: Seq<char>) -> Seq<char>
    decreases t.len(),
{
    if t.len() > 0 && is_quote(t[0]) {
        trim_quotes(t.drop_first())
    } else if t.len() > 0 && is_quote(t.last()) {
        trim_quotes(t.drop_last())
    } else {
        t
    }
}

/// The target of the first truncating redirect in the command line `s`, if any.
pub open spec fn redirect_target(s: Seq<char>) -> Option<Seq<char>> {
    match scan_text(s, 0, None) {
        Some((a, b)) => Some(trim_quotes(s.subrange(a, b))),
        None => None,
    }
}

/// The file that a truncating redirect (`> file`) in `command` would empty.
///
/// Quoted and backslash-escaped `>` are ignored, as are appends (`>>`) and
/// descriptor duplications (`>&2`, `1>&2`).
pub fn truncating_redirect(command: &str) -> (r: Option<String>)
    ensures
        opt_text(r) == redirect_target(command@),
{
    let cs = chars_of(command);
    let n = cs.len();
    let ghost s = command@;
    let ghost ans = scan_text(s, 0, None);
    let mut i: usize = 0;
    let mut quote: Option<char> = None;
    while i < n
        invariant
            cs@ == s,
            s == command@,
            n == cs.len(),
            i <= n,
            ans == scan_text(s, 0, None),
            scan_text(s, i as int, quote) == ans,
        decreases n + 2 - i,
    {
        let b = cs[i];
        let in_single = match quote {
            Some(q) => q == '\'',
            None => false,
        };
        if b == '\\' && !in_single {
            if i + 1 >= n {
                assert(scan_text(s, i + 2, quote) is None);
                return None;
            }
            i = i + 2;
            continue;
        }
        if b == '\'' || b == '"' {
            quote = match quote {
                Some(q) => if q == b {
                    None
                } else {
                    Some(q)
                },
                None => Some(b),
            };
            i = i + 1;
            continue;
        }
        if quote.is_none() && b == '>' && (i == 0 || cs[i - 1] != '>') && !(i + 1 < n && (cs[i
            + 1] == '>' || cs[i + 1] == '&')) {
            let ghost i0 = i;
            i = i + 1;
            while i < n && (cs[i] == ' ' || cs[i] == '\t' || cs[i] == '\n' || cs[i] == '\x0C'
                || cs[i] == '\r')
                invariant
                    cs@ == s,
                    n == cs.len(),
                    i0 < i <= n,
                    scan_spaces(s, i as int) == ans,
                decreases n - i,
            {
                i = i + 1;
            }
            let start = i;
            while i < n && !(cs[i] == ' ' || cs[i] == '\t' || cs[i] == '\n' || cs[i] == '\x0C'
                || cs[i] == '\r' || cs[i] == ';' || cs[i] == '|')
                invariant
                    cs@ == s,
                    n == cs.len(),
                    i0 < start <= i <= n,
                    i == start ==> scan_spaces(s, start as int) == ans,
                    i == start && start < n ==> !is_space(s[start as int]),
                    i > start ==> scan_word(s, start as int, i as int) == ans,
                decreases n - i,
            {
                i = i + 1;
            }
            if start < i {
                return Some(trimmed_target(command, &cs, start, i));
            }
            if i >= n {
                assert(scan_text(s, i + 1, None) is None);
                return None;
            }
        }
        i = i + 1;
    }
    None
}

/// The text of `command` between `start` and `end`, without surrounding quotes.
fn trimmed_target(command: &str, cs: &Vec<char>, start: usize, end: usize) -> (r: String)
    requires
        cs@ == command@,
        start <= end <= cs.len(),
    ensures
        r@ == trim_quotes(command@.subrange(start as int, end as int)),
{
    let ghost s = command@;
    let mut lo = start;
    while lo < end && (cs[lo] == '\'' || cs[lo] == '"')
        invariant
            cs@ == s,
            start <= lo <= end <= cs.len(),
            trim_quotes(s.subrange(lo as int, end as int)) == trim_quotes(
                s.subrange(start as int, end as int),
            ),
        decreases end - lo,
    {
        assert(s.subrange(lo as int, end as int).drop_first() =~= s.subrange(
            lo + 1,
            end as int,
        ));
        lo = lo + 1;
    }
    let mut hi = end;
    while hi > lo && (cs[hi - 1] == '\'' || cs[hi - 1] == '"')
        invariant
            cs@ == s,
            start <= lo <= hi <= end <= cs.len(),
            lo < end ==> !is_quote(s[lo as int]),
            trim_quotes(s.subrange(lo as int, hi as int)) == trim_quotes(
                s.subrange(start as int, end as int),
            ),
        decreases hi - lo,
    {
        assert(s.subrange(lo as int, hi as int).drop_last() =~= s.subrange(
            lo as int,
            hi - 1,
        ));
        hi = hi - 1;
    }
    command.substring_char(lo, hi).to_owned()
}

} // verus!

verus! {

/// Whether `s[a..b]` is a non-empty stretch of characters that do not end a
/// redirect target.
pub open spec fn is_word_span(s: Seq<char>, a: int, b: int) -> bool {
    &&& 0 <= a < b <= s.len()
    &&& forall|j: int| a <= j < b ==> !ends_target(#[trigger] s[j])
}

proof fn lemma_scan_word(s: Seq<char>, start: int, i: int)
    requires
        0 <= start < i,
        forall|j: int| start <= j < i && j < s.len() ==> !ends_target(#[trigger] s[j]),
    ensures
        scan_word(s, start, i) matches Some((a, b)) ==> is_word_span(s, a, b),
    decreases s.len() + 2 - i,
{
    if i < 0 || i > s.len() {
    } else if i < s.len() && !ends_target(s[i]) {
        lemma_scan_word(s, start, i + 1);
    }
}

proof fn lemma_scan_text(s: Seq<char>, i: int, q: Option<char>)
    ensures
        scan_text(s, i, q) matches Some((a, b)) ==> is_word_span(s, a, b),
    decreases s.len() + 2 - i, 0int,
{
    if i < 0 || i >= s.len() {
    } else if s[i] == '\\' && q != Some('\'') {
        lemma_scan_text(s, i + 2, q);
    } else if is_quote(s[i]) {
        lemma_scan_text(s, i + 1, next_quote(q, s[i]));
    } else if q is None && lone_gt(s, i) {
        lemma_scan_spaces(s, i + 1);
    } else {
        lemma_scan_text(s, i + 1, q);
    }
}

proof fn lemma_scan_spaces(s: Seq<char>, i: int)
    ensures
        scan_spaces(s, i) matches Some((a, b)) ==> is_word_span(s, a, b),
    decreases s.len() + 2 - i, 1int,
{
    if i < 0 || i > s.len() {
    } else if i < s.len() && is_space(s[i]) {
        lemma_scan_spaces(s, i + 1);
    } else if i < s.len() && !ends_target(s[i]) {
        lemma_scan_word(s, i, i + 1);
    } else {
        lemma_scan_text(s, i + 1, None);
    }
}

proof fn lemma_trim_quotes_within(t: Seq<char>)
    ensures
        exists|k: int, l: int| 0 <= k <= l <= t.len() && trim_quotes(t) == t.subrange(k, l),
    decreases t.len(),
{
    if t.len() > 0 && is_quote(t[0]) {
        let u = t.drop_first();
        lemma_trim_quotes_within(u);
        let (k, l) = choose|k: int, l: int|
            0 <= k <= l <= u.len() && trim_quotes(u) == u.subrange(k, l);
        assert(u.subrange(k, l) =~= t.subrange(k + 1, l + 1));
    } else if t.len() > 0 && is_quote(t.last()) {
        let u = t.drop_last();
        lemma_trim_quotes_within(u);
        let (k, l) = choose|k: int, l: int|
            0 <= k <= l <= u.len() && trim_quotes(u) == u.subrange(k, l);
        assert(u.subrange(k, l) =~= t.subrange(k, l));
    } else {
        assert(t.subrange(0, t.len() as int) =~= t);
    }
}

/// A redirect target is a single word: it holds no whitespace, `;` or `|`.
pub proof fn redirect_target_is_one_word(s: Seq<char>)
    ensures
        redirect_target(s) matches Some(t) ==> forall|i: int|
            0 <= i < t.len() ==> !ends_target(#[trigger] t[i]),
{
    lemma_scan_text(s, 0, None);
    if let Some((a, b)) = scan_text(s, 0, None) {
        let w = s.subrange(a, b);
        lemma_trim_quotes_within(w);
        let (k, l) = choose|k: int, l: int|
            0 <= k <= l <= w.len() && trim_quotes(w) == w.subrange(k, l);
        assert forall|i: int| 0 <= i < trim_quotes(w).len() implies !ends_target(
            #[trigger] trim_quotes(w)[i],
        ) by {
            assert(trim_quotes(w)[i] == s[a + k + i]);
        }
    }
}

} // verus!

verus! {

proof fn lemma_quoted_rest(s: Seq<char>, i: int, j: int, k: int)
    requires
        0 <= i < k <= j < s.len(),
        is_quote(s[i]),
        s[j] == s[i],
        forall|m: int| i < m < j ==> s[m] != s[i] && (s[m] == '\\' ==> s[i] == '\''),
    ensures
        scan_text(s, k, Some(s[i])) == scan_text(s, j + 1, None),
    decreases j - k,
{
    if k < j {
        lemma_quoted_rest(s, i, j, k + 1);
        if is_quote(s[k]) {
            assert(next_quote(Some(s[i]), s[k]) == Some(s[i]));
        }
    }
}

/// Inside a quoted stretch every character is plain text, a `>` or a quote
/// of the other kind included, until the matching quote closes it: scanning
/// from the opening quote, outside any quote, comes to the same as scanning
/// from just after the closing one. (Inside double quotes a backslash
/// escapes the next character, so the stretch holds none there.)
pub proof fn quoted_stretch_is_plain(s: Seq<char>, i: int, j: int)
    requires
        0 <= i < j < s.len(),
        is_quote(s[i]),
        s[j] == s[i],
        forall|m: int| i < m < j ==> s[m] != s[i] && (s[m] == '\\' ==> s[i] == '\''),
    ensures
        scan_text(s, i, None) == scan_text(s, j + 1, None),
{
    lemma_quoted_rest(s, i, j, i + 1);
}

/// Plain text outside quotes (no quote, backslash or `>`) holds no
/// redirect: scanning across it comes to the same as scanning after it.
pub proof fn plain_text_is_skipped(s: Seq<char>, i: int, j: int)
    requires
        0 <= i <= j <= s.len(),
        forall|m: int| i <= m < j ==> !is_quote(s[m]) && s[m] != '\\' && s[m] != '>',
    ensures
        scan_text(s, i, None) == scan_text(s, j, None),
    decreases j - i,
{
    if i < j {
        plain_text_is_skipped(s, i + 1, j);
    }
}

proof fn lemma_word_to_end(s: Seq<char>, a: int, k: int, b: int)
    requires
        0 <= a < k <= b <= s.len(),
        forall|m: int| a <= m < b ==> !ends_target(s[m]),
        b == s.len() || ends_target(s[b]),
    ensures
        scan_word(s, a, k) == Some((a, b)),
    decreases b - k,
{
    if k < b {
        lemma_word_to_end(s, a, k + 1, b);
    }
}

proof fn lemma_spaces_to_word(s: Seq<char>, k: int, a: int, b: int)
    requires
        0 <= k <= a < b <= s.len(),
        forall|m: int| k <= m < a ==> is_space(s[m]),
        forall|m: int| a <= m < b ==> !ends_target(s[m]),
        b == s.len() || ends_target(s[b]),
    ensures
        scan_spaces(s, k) == Some((a, b)),
    decreases a - k,
{
    if k < a {
        lemma_spaces_to_word(s, k + 1, a, b);
    } else {
        lemma_word_to_end(s, a, a + 1, b);
    }
}

/// A lone `>` outside quotes, then whitespace, then a word: the word is the
/// redirect target found there.
pub proof fn gt_then_word_is_target(s: Seq<char>, g: int, a: int, b: int)
    requires
        0 <= g < a < b <= s.len(),
        lone_gt(s, g),
        forall|m: int| g < m < a ==> is_space(s[m]),
        forall|m: int| a <= m < b ==> !ends_target(s[m]),
        b == s.len() || ends_target(s[b]),
    ensures
        scan_text(s, g, None) == Some((a, b)),
{
    lemma_spaces_to_word(s, g + 1, a, b);
}

} // verus!
