//! What the snapshot browser shows and how it moves: cell texts, the diff
//! listing, and the selection.
use vstd::prelude::*;
use vstd::utf8::{decode_utf8, encode_utf8, encode_utf8_decode_utf8, is_char_boundary};
use crate::number::{digits, i64_text, int_text, is_digit, lemma_digits_are_digits, octal_text, u64_text};
use crate::protocol::{DiffFile, SnapshotSummary};
use crate::text::texts;

verus! {

/// Where a text longer than `max` bytes is cut: one byte short of `max`, to
/// leave room for the ellipsis.
pub open spec fn cut_point(max: usize) -> int {
    if max >= 1 {
        max - 1
    } else {
        0
    }
}

/// Whether a text can be shortened to `max` bytes: it fits, or the cut falls
/// between characters.
pub open spec fn can_truncate(s: Seq<char>, max: usize) -> bool {
    encode_utf8(s).len() <= max || is_char_boundary(encode_utf8(s), cut_point(max))
}

/// `s` when it fits in `max` bytes; otherwise its first `max - 1` bytes
/// followed by an ellipsis.
pub open spec fn truncated_text(s: Seq<char>, max: usize) -> Seq<char> {
    if encode_utf8(s).len() <= max {
        s
    } else {
        decode_utf8(encode_utf8(s).take(cut_point(max))) + seq!['\u{2026}']
    }
}

/// `s` shortened to at most `max` bytes.
pub fn truncated(s: &str, max: usize) -> (r: String)
    requires
        can_truncate(s@, max),
    ensures
        r@ == truncated_text(s@, max),
{
    if s.as_bytes().len() <= max {
        return String::from_str(s);
    }
    let cut = max.saturating_sub(1);
    let (head, _tail) = s.split_at(cut);
    let mut r = String::from_str(head);
    r.append("\u{2026}");
    proof {
        reveal_strlit("\u{2026}");
        encode_utf8_decode_utf8(head@);
        assert(encode_utf8(s@).take(cut_point(max)) =~= encode_utf8(s@).subrange(0, cut as int));
    }
    r
}

/// A size as the browser shows it: bytes below 1 KiB, whole KiB below 1 MiB,
/// whole MiB above.
pub open spec fn size_text(n: i64) -> Seq<char> {
    if n < 1024 {
        int_text(n as int) + "B"@
    } else if n < 1048576 {
        int_text(n as int / 1024) + "K"@
    } else {
        int_text(n as int / 1048576) + "M"@
    }
}

/// A size as the browser shows it.
pub fn bytes_fmt(n: i64) -> (r: String)
    ensures
        r@ == size_text(n),
{
    let (mut r, unit) = if n < 1024 {
        (i64_text(n), "B")
    } else if n < 1048576 {
        (i64_text(n / 1024), "K")
    } else {
        (i64_text(n / 1048576), "M")
    };
    r.append(unit);
    r
}

/// The width given to the command column of a terminal `width` columns wide.
pub fn command_width(width: u16) -> (r: usize)
    ensures
        r == (if width as int - 48 > 10 {
            width as int - 48
        } else {
            10
        }),
{
    let w = (width as usize).saturating_sub(48);
    if w < 10 {
        10
    } else {
        w
    }
}

/// The status column of a snapshot.
pub open spec fn status_label(restorable: bool) -> Seq<char> {
    if restorable {
        "ready"@
    } else {
        "partial"@
    }
}

/// The cells of a snapshot's row: id, command, file count, size, method and
/// status.
pub open spec fn row_texts(s: SnapshotSummary, cmd_max: usize) -> Seq<Seq<char>> {
    seq![
        digits(s.id as nat, 10),
        truncated_text(s.command@, cmd_max),
        int_text(s.file_count as int),
        size_text(s.total_bytes),
        s.method@,
        status_label(s.restorable),
    ]
}

/// The cells of a snapshot's row in the browser.
pub fn summary_row(s: &SnapshotSummary, cmd_max: usize) -> (r: Vec<String>)
    requires
        can_truncate(s.command@, cmd_max),
    ensures
        texts(r@) == row_texts(*s, cmd_max),
{
    let mut r: Vec<String> = Vec::new();
    r.push(u64_text(s.id));
    r.push(truncated(s.command.as_str(), cmd_max));
    r.push(i64_text(s.file_count));
    r.push(bytes_fmt(s.total_bytes));
    r.push(s.method.clone());
    r.push(String::from_str(if s.restorable { "ready" } else { "partial" }));
    assert(texts(r@) =~= row_texts(*s, cmd_max));
    r
}

/// One line of the diff view: `-` for a recoverable entry and `!` for one
/// that is not, the path, then the operation, size and octal mode.
pub open spec fn diff_line_text(f: DiffFile) -> Seq<char> {
    (if f.recoverable {
        "-"@
    } else {
        "!"@
    }) + " "@ + f.original_path@ + " ("@ + f.op@ + ", "@ + int_text(f.size_bytes as int)
        + " bytes, "@ + digits(f.mode as nat, 8) + ")"@
}

/// One line of the diff view.
pub fn diff_line(f: &DiffFile) -> (r: String)
    ensures
        r@ == diff_line_text(*f),
{
    let mut r = String::from_str(if f.recoverable { "-" } else { "!" });
    r.append(" ");
    r.append(f.original_path.as_str());
    r.append(" (");
    r.append(f.op.as_str());
    r.append(", ");
    let size = i64_text(f.size_bytes);
    r.append(size.as_str());
    r.append(" bytes, ");
    let mode = octal_text(f.mode);
    r.append(mode.as_str());
    r.append(")");
    r
}

/// The lines of the diff view joined by newlines.
pub open spec fn diff_body_text(files: Seq<DiffFile>) -> Seq<char>
    decreases files.len(),
{
    if files.len() == 0 {
        Seq::empty()
    } else if files.len() == 1 {
        diff_line_text(files[0])
    } else {
        diff_body_text(files.drop_last()) + "\n"@ + diff_line_text(files.last())
    }
}

/// The body of the diff view.
pub fn diff_body(files: &Vec<DiffFile>) -> (r: String)
    ensures
        r@ == diff_body_text(files@),
{
    let mut r = String::new();
    let mut i: usize = 0;
    while i < files.len()
        invariant
            i <= files@.len(),
            r@ == diff_body_text(files@.take(i as int)),
        decreases files.len() - i,
    {
        assert(files@.take(i + 1).drop_last() =~= files@.take(i as int));
        if i > 0 {
            r.append("\n");
        }
        let line = diff_line(&files[i]);
        r.append(line.as_str());
        proof {
            if i == 0 {
                assert(Seq::<char>::empty() + line@ =~= line@);
            }
        }
        i = i + 1;
    }
    assert(files@.take(files.len() as int) =~= files@);
    r
}

/// The title of the diff view.
pub open spec fn diff_title_text(s: SnapshotSummary) -> Seq<char> {
    " snapshot #"@ + digits(s.id as nat, 10) + " \u{b7} "@ + truncated_text(s.command@, 60)
        + " \u{b7} q quit "@
}

/// The title of the diff view.
pub fn diff_title(s: &SnapshotSummary) -> (r: String)
    requires
        can_truncate(s.command@, 60),
    ensures
        r@ == diff_title_text(*s),
{
    let mut r = String::from_str(" snapshot #");
    let id = u64_text(s.id);
    r.append(id.as_str());
    r.append(" \u{b7} ");
    let cmd = truncated(s.command.as_str(), 60);
    r.append(cmd.as_str());
    r.append(" \u{b7} q quit ");
    r
}

/// A key as the browser understands it.
#[derive(Debug, Clone, Copy, PartialEq, Eq, Structural)]
pub enum ListKey {
    Quit,
    Up,
    Down,
    Other,
}

/// What the browser does after a key.
#[derive(Debug, Clone, Copy, PartialEq, Eq, Structural)]
pub enum ListStep {
    Quit,
    Select(usize),
    Stay,
}

/// The last row of a list of `len` rows (0 for an empty list).
pub open spec fn last_row(len: usize) -> int {
    if len > 0 {
        len - 1
    } else {
        0
    }
}

/// The browser's response to `key` with `selected` selected in `len` rows:
/// up moves one row up (stopping at the first), down one row down (stopping
/// at the last), quit leaves, anything else does nothing.
pub open spec fn list_step_of(key: ListKey, selected: Option<usize>, len: usize) -> ListStep {
    let sel = match selected {
        Some(s) => s as int,
        None => 0,
    };
    match key {
        ListKey::Quit => ListStep::Quit,
        ListKey::Up => ListStep::Select(
            (if sel > 0 {
                sel - 1
            } else {
                0
            }) as usize,
        ),
        ListKey::Down => ListStep::Select(
            (if sel + 1 < last_row(len) {
                sel + 1
            } else {
                last_row(len)
            }) as usize,
        ),
        ListKey::Other => ListStep::Stay,
    }
}

/// The browser's response to a key.
pub fn list_step(key: ListKey, selected: Option<usize>, len: usize) -> (r: ListStep)
    requires
        selected matches Some(s) ==> s < usize::MAX,
    ensures
        r == list_step_of(key, selected, len),
{
    let sel = match selected {
        Some(s) => s,
        None => 0,
    };
    match key {
        ListKey::Quit => ListStep::Quit,
        ListKey::Up => ListStep::Select(sel.saturating_sub(1)),
        ListKey::Down => {
            let last = len.saturating_sub(1);
            let next = sel + 1;
            ListStep::Select(
                if next < last {
                    next
                } else {
                    last
                },
            )
        },
        ListKey::Other => ListStep::Stay,
    }
}

/// The selection never leaves the rows: from a selection within them, every
/// key keeps it within them.
pub proof fn selection_stays_in_rows(key: ListKey, sel: usize, len: usize)
    requires
        sel <= last_row(len),
    ensures
        list_step_of(key, Some(sel), len) matches ListStep::Select(n) ==> n <= last_row(len),
{
}

/// The row selected after the keys `keys`, in turn, in a list of `len` rows,
/// starting from the first row. Quitting leaves the selection as it was.
pub open spec fn selection_after(keys: Seq<ListKey>, len: usize) -> int
    decreases keys.len(),
{
    if keys.len() == 0 {
        0
    } else {
        let prev = selection_after(keys.drop_last(), len);
        match list_step_of(keys.last(), Some(prev as usize), len) {
            ListStep::Select(n) => n as int,
            _ => prev,
        }
    }
}

/// Whatever keys are pressed, the selection, which starts at the first row,
/// stays within the rows (at the first row when there are none), so the
/// next key can always be handled.
pub proof fn selection_always_in_rows(keys: Seq<ListKey>, len: usize)
    ensures
        0 <= selection_after(keys, len) <= last_row(len),
        selection_after(keys, len) < usize::MAX,
    decreases keys.len(),
{
    if keys.len() > 0 {
        let prev = selection_after(keys.drop_last(), len);
        selection_always_in_rows(keys.drop_last(), len);
        selection_stays_in_rows(keys.last(), prev as usize, len);
    }
}

} // verus!

verus! {

/// The pieces of a text between its newlines, empty pieces included (a text
/// without a newline is one piece).
pub open spec fn split_lines(s: Seq<char>) -> Seq<Seq<char>>
    decreases s.len(),
{
    if s.len() == 0 {
        seq![Seq::empty()]
    } else {
        let init = split_lines(s.drop_last());
        if s.last() == '\n' {
            init.push(Seq::empty())
        } else {
            init.update(init.len() - 1, init.last().push(s.last()))
        }
    }
}

/// Whether a text holds no newline.
pub open spec fn single_line(s: Seq<char>) -> bool {
    forall|i: int| 0 <= i < s.len() ==> s[i] != '\n'
}

proof fn lemma_split_lines_nonempty(s: Seq<char>)
    ensures
        split_lines(s).len() >= 1,
    decreases s.len(),
{
    if s.len() > 0 {
        lemma_split_lines_nonempty(s.drop_last());
    }
}

/// Appending text without a newline extends the last piece.
proof fn lemma_split_lines_extend(a: Seq<char>, b: Seq<char>)
    requires
        single_line(b),
    ensures
        split_lines(a + b) == split_lines(a).update(
            split_lines(a).len() - 1,
            split_lines(a).last() + b,
        ),
    decreases b.len(),
{
    lemma_split_lines_nonempty(a);
    if b.len() == 0 {
        assert(a + b =~= a);
        assert(split_lines(a).last() + b =~= split_lines(a).last());
        assert(split_lines(a).update(split_lines(a).len() - 1, split_lines(a).last())
            =~= split_lines(a));
    } else {
        let b0 = b.drop_last();
        assert(single_line(b0)) by {
            assert forall|i: int| 0 <= i < b0.len() implies b0[i] != '\n' by {
                assert(b0[i] == b[i]);
            }
        }
        lemma_split_lines_extend(a, b0);
        assert((a + b).drop_last() =~= a + b0);
        assert((a + b).last() == b.last());
        assert(b.last() != '\n');
        assert(split_lines(a).last() + b =~= (split_lines(a).last() + b0).push(b.last()));
        assert(split_lines(a + b) =~= split_lines(a).update(
            split_lines(a).len() - 1,
            split_lines(a).last() + b,
        ));
    }
}

/// Appending a line break and a text without one adds that text as a piece.
proof fn lemma_split_lines_new_line(a: Seq<char>, b: Seq<char>)
    requires
        single_line(b),
    ensures
        split_lines(a + "\n"@ + b) == split_lines(a).push(b),
{
    reveal_strlit("\n");
    let a1 = a + "\n"@;
    assert(a1.drop_last() =~= a);
    assert(a1.last() == '\n');
    assert(split_lines(a1) == split_lines(a).push(Seq::empty()));
    lemma_split_lines_extend(a1, b);
    assert(Seq::<char>::empty() + b =~= b);
    assert(split_lines(a1 + b) =~= split_lines(a).push(b));
}

proof fn lemma_concat_single(a: Seq<char>, b: Seq<char>)
    requires
        single_line(a),
        single_line(b),
    ensures
        single_line(a + b),
{
    assert forall|i: int| 0 <= i < (a + b).len() implies (a + b)[i] != '\n' by {
        if i >= a.len() {
            assert((a + b)[i] == b[i - a.len()]);
        }
    }
}

proof fn lemma_digits_single(n: nat, base: nat)
    requires
        2 <= base <= 10,
    ensures
        single_line(digits(n, base)),
{
    lemma_digits_are_digits(n, base);
    assert forall|i: int| 0 <= i < digits(n, base).len() implies digits(n, base)[i] != '\n' by {
        assert(is_digit(digits(n, base)[i]));
    }
}

/// A file's line in the diff view holds a newline only where its path or
/// operation does.
proof fn lemma_diff_line_single(f: DiffFile)
    requires
        single_line(f.original_path@),
        single_line(f.op@),
    ensures
        single_line(diff_line_text(f)),
{
    reveal_strlit("-");
    reveal_strlit("!");
    reveal_strlit(" ");
    reveal_strlit(" (");
    reveal_strlit(", ");
    reveal_strlit(" bytes, ");
    reveal_strlit(")");
    let mark = if f.recoverable {
        "-"@
    } else {
        "!"@
    };
    let size = int_text(f.size_bytes as int);
    lemma_digits_single(if f.size_bytes < 0 {
        (-f.size_bytes) as nat
    } else {
        f.size_bytes as nat
    }, 10);
    if f.size_bytes < 0 {
        lemma_concat_single("-"@, digits((-f.size_bytes) as nat, 10));
    }
    lemma_digits_single(f.mode as nat, 8);
    let p1 = mark + " "@;
    lemma_concat_single(mark, " "@);
    let p2 = p1 + f.original_path@;
    lemma_concat_single(p1, f.original_path@);
    let p3 = p2 + " ("@;
    lemma_concat_single(p2, " ("@);
    let p4 = p3 + f.op@;
    lemma_concat_single(p3, f.op@);
    let p5 = p4 + ", "@;
    lemma_concat_single(p4, ", "@);
    let p6 = p5 + size;
    lemma_concat_single(p5, size);
    let p7 = p6 + " bytes, "@;
    lemma_concat_single(p6, " bytes, "@);
    let p8 = p7 + digits(f.mode as nat, 8);
    lemma_concat_single(p7, digits(f.mode as nat, 8));
    lemma_concat_single(p8, ")"@);
}

/// Where no path and no operation holds a newline, the body of the diff view
/// of one or more files, split at its newlines, is the files' lines: one per
/// file, in order.
pub proof fn diff_body_one_line_per_file(files: Seq<DiffFile>)
    requires
        files.len() > 0,
        forall|i: int|
            0 <= i < files.len() ==> single_line((#[trigger] files[i]).original_path@)
                && single_line(files[i].op@),
    ensures
        split_lines(diff_body_text(files)) == files.map_values(|f: DiffFile| diff_line_text(f)),
    decreases files.len(),
{
    let last = files.last();
    lemma_diff_line_single(last);
    if files.len() == 1 {
        lemma_split_lines_extend(Seq::empty(), diff_line_text(files[0]));
        assert(Seq::<char>::empty() + diff_line_text(files[0]) =~= diff_line_text(files[0]));
        assert(split_lines(Seq::<char>::empty()) == seq![Seq::<char>::empty()]);
        assert(Seq::<char>::empty() + diff_line_text(files[0]) =~= diff_line_text(files[0]));
        assert(split_lines(diff_body_text(files)) =~= files.map_values(
            |f: DiffFile| diff_line_text(f),
        ));
    } else {
        let init = files.drop_last();
        assert forall|i: int| 0 <= i < init.len() implies single_line(
            (#[trigger] init[i]).original_path@,
        ) && single_line(init[i].op@) by {
            assert(init[i] == files[i]);
        }
        diff_body_one_line_per_file(init);
        lemma_split_lines_new_line(diff_body_text(init), diff_line_text(last));
        assert(split_lines(diff_body_text(files)) =~= files.map_values(
            |f: DiffFile| diff_line_text(f),
        ));
    }
}

} // verus!

verus! {

/// A snapshot's row has six cells, and its last, the status, reads `ready`
/// exactly when the snapshot is restorable and `partial` otherwise. The
/// pinned flag shows nowhere in the row: two snapshots that differ only in
/// it have the same row.
pub proof fn row_status_follows_restorable(s: SnapshotSummary, t: SnapshotSummary, cmd_max: usize)
    ensures
        row_texts(s, cmd_max).len() == 6,
        s.restorable ==> row_texts(s, cmd_max)[5] == "ready"@,
        !s.restorable ==> row_texts(s, cmd_max)[5] == "partial"@,
        t.id == s.id && t.command == s.command && t.file_count == s.file_count && t.total_bytes
            == s.total_bytes && t.method == s.method && t.restorable == s.restorable
            ==> row_texts(t, cmd_max) == row_texts(s, cmd_max),
{
}

} // verus!

verus! {

/// A text that fits in `max` bytes is shown whole. A longer one is shown as
/// a prefix of it, of exactly `max - 1` bytes in UTF-8 (no bytes when `max`
/// is 0), followed by an ellipsis.
pub proof fn truncation_keeps_a_prefix(s: Seq<char>, max: usize)
    requires
        can_truncate(s, max),
    ensures
        encode_utf8(s).len() <= max ==> truncated_text(s, max) == s,
        encode_utf8(s).len() > max ==> exists|n: int|
            0 <= n <= s.len() && truncated_text(s, max) == s.take(n) + seq!['\u{2026}']
                && encode_utf8(s.take(n)).len() == (if max >= 1 {
                max - 1
            } else {
                0
            }),
{
    if encode_utf8(s).len() > max {
        let bytes = encode_utf8(s);
        let k = cut_point(max);
        vstd::utf8::encode_utf8_valid_utf8(s);
        encode_utf8_decode_utf8(s);
        vstd::utf8::decode_utf8_split(bytes, k);
        vstd::utf8::valid_utf8_split(bytes, k);
        let head = bytes.subrange(0, k);
        let p = decode_utf8(head);
        let rest = decode_utf8(bytes.subrange(k, bytes.len() as int));
        assert(s == p + rest);
        assert(s.take(p.len() as int) =~= p);
        vstd::utf8::decode_utf8_encode_utf8(head);
        assert(bytes.take(k) =~= head);
        assert(truncated_text(s, max) == s.take(p.len() as int) + seq!['\u{2026}']);
    }
}

} // verus!

verus! {

/// A size is shown in the largest unit it reaches (bytes below 1024, KiB
/// below 1 MiB, MiB above), as the whole number of that unit it holds,
/// rounded down.
pub proof fn size_shown_in_whole_units(n: i64)
    ensures
        n < 1024 ==> size_text(n) == int_text(n as int) + "B"@,
        1024 <= n < 1048576 ==> exists|q: int|
            q * 1024 <= n < (q + 1) * 1024 && size_text(n) == #[trigger] int_text(q) + "K"@,
        1048576 <= n ==> exists|q: int|
            q * 1048576 <= n < (q + 1) * 1048576 && size_text(n) == #[trigger] int_text(q) + "M"@,
{
    if 1024 <= n < 1048576 {
        let q = n as int / 1024;
        assert(q * 1024 <= n < (q + 1) * 1024) by (nonlinear_arith)
            requires
                q == n as int / 1024,
                n >= 0,
        ;
        assert(size_text(n) == int_text(q) + "K"@);
    }
    if 1048576 <= n {
        let q = n as int / 1048576;
        assert(q * 1048576 <= n < (q + 1) * 1048576) by (nonlinear_arith)
            requires
                q == n as int / 1048576,
                n >= 0,
        ;
        assert(size_text(n) == int_text(q) + "M"@);
    }
}

} // verus!
