//! Garbage collection of snapshots: which snapshots are evicted, in which
//! order.
use vstd::prelude::*;

verus! {

/// A snapshot as garbage collection sees it.
#[derive(Debug, Clone, Copy)]
pub struct GcEntry {
    pub id: u64,
    pub created_at_ns: i64,
    pub total_bytes: i64,
    pub pinned: bool,
}

/// Whether a snapshot may be evicted while the store holds `total` bytes: it
/// is not pinned, and it is older than the cutoff or the store is over its
/// size limit.
pub open spec fn eligible(e: GcEntry, cutoff: i64, total: i64, max_bytes: i64) -> bool {
    !e.pinned && (e.created_at_ns < cutoff || total > max_bytes)
}

/// The position of the oldest eligible snapshot (the first of equally old
/// ones), if any.
pub open spec fn oldest_eligible(rows: Seq<GcEntry>, cutoff: i64, total: i64, max_bytes: i64) -> Option<int>
    decreases rows.len(),
{
    if rows.len() == 0 {
        None
    } else {
        let best = oldest_eligible(rows.drop_last(), cutoff, total, max_bytes);
        let k = rows.len() - 1;
        if eligible(rows[k], cutoff, total, max_bytes) && (best is None || rows[k].created_at_ns
            < rows[best.unwrap()].created_at_ns) {
            Some(k)
        } else {
            best
        }
    }
}

/// The oldest eligible snapshot is eligible and no eligible snapshot is older;
/// when there is none, no snapshot is eligible.
pub proof fn lemma_oldest_eligible(rows: Seq<GcEntry>, cutoff: i64, total: i64, max_bytes: i64)
    ensures
        match oldest_eligible(rows, cutoff, total, max_bytes) {
            Some(k) => {
                &&& 0 <= k < rows.len()
                &&& eligible(rows[k], cutoff, total, max_bytes)
                &&& forall|j: int|
                    0 <= j < rows.len() && eligible(#[trigger] rows[j], cutoff, total, max_bytes)
                        ==> rows[k].created_at_ns <= rows[j].created_at_ns
                &&& forall|j: int|
                    0 <= j < k && eligible(#[trigger] rows[j], cutoff, total, max_bytes)
                        ==> rows[k].created_at_ns < rows[j].created_at_ns
            },
            None => forall|j: int|
                0 <= j < rows.len() ==> !eligible(#[trigger] rows[j], cutoff, total, max_bytes),
        },
    decreases rows.len(),
{
    if rows.len() > 0 {
        let init = rows.drop_last();
        let k = rows.len() - 1;
        lemma_oldest_eligible(init, cutoff, total, max_bytes);
        assert forall|j: int| 0 <= j < init.len() implies #[trigger] init[j] == rows[j] by {}
        let best = oldest_eligible(init, cutoff, total, max_bytes);
        let chosen = eligible(rows[k], cutoff, total, max_bytes) && (best is None
            || rows[k].created_at_ns < rows[best.unwrap()].created_at_ns);
        if chosen {
            assert forall|j: int|
                0 <= j < rows.len() && eligible(#[trigger] rows[j], cutoff, total, max_bytes)
                    implies rows[k].created_at_ns <= rows[j].created_at_ns by {
                if j < k {
                    assert(init[j] == rows[j]);
                }
            }
            assert forall|j: int|
                0 <= j < k && eligible(#[trigger] rows[j], cutoff, total, max_bytes)
                    implies rows[k].created_at_ns < rows[j].created_at_ns by {
                assert(init[j] == rows[j]);
            }
        } else {
            match best {
                Some(b) => {
                    assert(init[b] == rows[b]);
                    assert forall|j: int|
                        0 <= j < rows.len() && eligible(
                            #[trigger] rows[j],
                            cutoff,
                            total,
                            max_bytes,
                        ) implies rows[b].created_at_ns <= rows[j].created_at_ns by {
                        if j < k {
                            assert(init[j] == rows[j]);
                        }
                    }
                    assert forall|j: int|
                        0 <= j < b && eligible(#[trigger] rows[j], cutoff, total, max_bytes)
                            implies rows[b].created_at_ns < rows[j].created_at_ns by {
                        assert(init[j] == rows[j]);
                    }
                },
                None => {
                    assert forall|j: int| 0 <= j < rows.len() implies !eligible(
                        #[trigger] rows[j],
                        cutoff,
                        total,
                        max_bytes,
                    ) by {
                        if j < k {
                            assert(init[j] == rows[j]);
                        }
                    }
                },
            }
        }
    }
}

/// Eviction from `rows` while the store holds `total` bytes: the snapshots
/// evicted, in order, the snapshots that remain, and the bytes that remain.
/// Each step evicts the oldest eligible snapshot and subtracts its size (in
/// 64-bit wrapping arithmetic, as the release build does).
pub open spec fn evict(rows: Seq<GcEntry>, cutoff: i64, total: i64, max_bytes: i64) -> (
    Seq<GcEntry>,
    Seq<GcEntry>,
    i64,
)
    decreases rows.len(),
{
    match oldest_eligible(rows, cutoff, total, max_bytes) {
        None => (Seq::empty(), rows, total),
        Some(k) => {
            proof {
                lemma_oldest_eligible(rows, cutoff, total, max_bytes);
            }
            let next = evict(
                rows.remove(k),
                cutoff,
                total.wrapping_sub(rows[k].total_bytes),
                max_bytes,
            );
            (seq![rows[k]] + next.0, next.1, next.2)
        },
    }
}

/// The ids of a sequence of snapshots.
pub open spec fn ids_of(es: Seq<GcEntry>) -> Seq<u64> {
    es.map_values(|e: GcEntry| e.id)
}

/// The cutoff below which snapshots are too old: `now - retention_ns`.
pub open spec fn cutoff_of(now: i64, retention_ns: i64) -> i64 {
    now.wrapping_sub(retention_ns)
}

/// The position of the oldest eligible snapshot.
fn find_oldest(rows: &Vec<GcEntry>, cutoff: i64, total: i64, max_bytes: i64) -> (r: Option<usize>)
    ensures
        match r {
            Some(k) => oldest_eligible(rows@, cutoff, total, max_bytes) == Some(k as int),
            None => oldest_eligible(rows@, cutoff, total, max_bytes) is None,
        },
{
    let mut best: Option<usize> = None;
    let mut i: usize = 0;
    while i < rows.len()
        invariant
            i <= rows@.len(),
            match best {
                Some(k) => oldest_eligible(rows@.take(i as int), cutoff, total, max_bytes) == Some(
                    k as int,
                ) && k < i,
                None => oldest_eligible(rows@.take(i as int), cutoff, total, max_bytes) is None,
            },
        decreases rows.len() - i,
    {
        assert(rows@.take(i + 1).drop_last() =~= rows@.take(i as int));
        let e = rows[i];
        let elig = !e.pinned && (e.created_at_ns < cutoff || total > max_bytes);
        let better = match best {
            None => true,
            Some(k) => e.created_at_ns < rows[k].created_at_ns,
        };
        if elig && better {
            best = Some(i);
        }
        i = i + 1;
    }
    assert(rows@.take(rows.len() as int) =~= rows@);
    best
}

/// The ids of the snapshots that garbage collection evicts, in the order it
/// evicts them, from the snapshots `entries` of a store holding `total`
/// bytes, at time `now`.
pub fn gc_victims(
    entries: Vec<GcEntry>,
    total: i64,
    now: i64,
    retention_ns: i64,
    max_bytes: i64,
) -> (ids: Vec<u64>)
    ensures
        ids@ == ids_of(evict(entries@, cutoff_of(now, retention_ns), total, max_bytes).0),
{
    let cutoff = now.wrapping_sub(retention_ns);
    let ghost all = ids_of(evict(entries@, cutoff, total, max_bytes).0);
    let mut rows = entries;
    let mut left = total;
    let mut ids: Vec<u64> = Vec::new();
    loop
        invariant
            all == ids@ + ids_of(evict(rows@, cutoff, left, max_bytes).0),
        ensures
            all == ids@,
        decreases rows.len(),
    {
        match find_oldest(&rows, cutoff, left, max_bytes) {
            None => {
                assert(ids@ + ids_of(Seq::<GcEntry>::empty()) =~= ids@);
                break ;
            },
            Some(k) => {
                proof {
                    lemma_oldest_eligible(rows@, cutoff, left, max_bytes);
                }
                let e = rows[k];
                let ghost before = ids@;
                let ghost old_rows = rows@;
                let ghost old_left = left;
                ids.push(e.id);
                left = left.wrapping_sub(e.total_bytes);
                rows.remove(k);
                assert(rows@ == old_rows.remove(k as int));
                let ghost rest = evict(rows@, cutoff, left, max_bytes).0;
                assert(evict(old_rows, cutoff, old_left, max_bytes).0 == seq![e] + rest);
                assert(ids_of(seq![e] + rest) =~= seq![e.id] + ids_of(rest));
                assert(before + ids_of(evict(old_rows, cutoff, old_left, max_bytes).0) =~= ids@
                    + ids_of(rest));
            },
        }
    }
    ids
}

} // verus!

verus! {

/// The total size of a sequence of snapshots.
pub open spec fn bytes_of(es: Seq<GcEntry>) -> int
    decreases es.len(),
{
    if es.len() == 0 {
        0
    } else {
        bytes_of(es.drop_last()) + es.last().total_bytes
    }
}

/// What remains of `total` after subtracting the sizes of `es` in turn, in
/// 64-bit wrapping arithmetic, as eviction does.
pub open spec fn after_evicting(total: i64, es: Seq<GcEntry>) -> i64
    decreases es.len(),
{
    if es.len() == 0 {
        total
    } else {
        after_evicting(total.wrapping_sub(es[0].total_bytes), es.drop_first())
    }
}

proof fn lemma_bytes_of_add(a: Seq<GcEntry>, b: Seq<GcEntry>)
    ensures
        bytes_of(a + b) == bytes_of(a) + bytes_of(b),
    decreases b.len(),
{
    if b.len() == 0 {
        assert(a + b =~= a);
    } else {
        lemma_bytes_of_add(a, b.drop_last());
        assert((a + b).drop_last() =~= a + b.drop_last());
    }
}

proof fn lemma_bytes_of_single(e: GcEntry)
    ensures
        bytes_of(seq![e]) == e.total_bytes,
{
    reveal_with_fuel(bytes_of, 2);
    assert(seq![e].drop_last() =~= Seq::<GcEntry>::empty());
}

proof fn lemma_bytes_of_remove(rows: Seq<GcEntry>, k: int)
    requires
        0 <= k < rows.len(),
    ensures
        bytes_of(rows.remove(k)) == bytes_of(rows) - rows[k].total_bytes,
{
    let a = rows.take(k);
    let b = rows.skip(k + 1);
    assert(rows =~= a + seq![rows[k]] + b);
    assert(rows.remove(k) =~= a + b);
    lemma_bytes_of_add(a, b);
    lemma_bytes_of_add(a + seq![rows[k]], b);
    lemma_bytes_of_add(a, seq![rows[k]]);
    lemma_bytes_of_single(rows[k]);
}

proof fn lemma_bytes_of_nonneg(es: Seq<GcEntry>)
    requires
        forall|i: int| 0 <= i < es.len() ==> (#[trigger] es[i]).total_bytes >= 0,
    ensures
        bytes_of(es) >= 0,
    decreases es.len(),
{
    if es.len() > 0 {
        let init = es.drop_last();
        assert forall|i: int| 0 <= i < init.len() implies (#[trigger] init[i]).total_bytes >= 0 by {
            assert(init[i] == es[i]);
        }
        lemma_bytes_of_nonneg(init);
    }
}

/// The snapshot evicted next is no newer than any unpinned snapshot.
proof fn lemma_next_is_oldest_unpinned(rows: Seq<GcEntry>, cutoff: i64, total: i64, max_bytes: i64)
    requires
        oldest_eligible(rows, cutoff, total, max_bytes) is Some,
    ensures
        forall|j: int|
            0 <= j < rows.len() && !(#[trigger] rows[j]).pinned ==> rows[oldest_eligible(
                rows,
                cutoff,
                total,
                max_bytes,
            ).unwrap()].created_at_ns <= rows[j].created_at_ns,
{
    lemma_oldest_eligible(rows, cutoff, total, max_bytes);
}

/// Collection parts the snapshots in two: those it evicts, each unpinned,
/// and those it keeps. Together they are the snapshots it started with, so
/// it removes as many as it evicts, and their sizes add up to the sizes of
/// all.
pub proof fn gc_partitions_rows(rows: Seq<GcEntry>, cutoff: i64, total: i64, max_bytes: i64)
    ensures
        evict(rows, cutoff, total, max_bytes).0.to_multiset().add(
            evict(rows, cutoff, total, max_bytes).1.to_multiset(),
        ) == rows.to_multiset(),
        evict(rows, cutoff, total, max_bytes).0.len() + evict(rows, cutoff, total, max_bytes).1.len()
            == rows.len(),
        forall|i: int|
            0 <= i < evict(rows, cutoff, total, max_bytes).0.len() ==> !(#[trigger] evict(
                rows,
                cutoff,
                total,
                max_bytes,
            ).0[i]).pinned && rows.contains(evict(rows, cutoff, total, max_bytes).0[i]),
        forall|j: int|
            0 <= j < evict(rows, cutoff, total, max_bytes).1.len() ==> rows.contains(
                #[trigger] evict(rows, cutoff, total, max_bytes).1[j],
            ),
        bytes_of(rows) == bytes_of(evict(rows, cutoff, total, max_bytes).0) + bytes_of(
            evict(rows, cutoff, total, max_bytes).1,
        ),
    decreases rows.len(),
{
    broadcast use vstd::seq_lib::group_to_multiset_ensures;
    broadcast use vstd::multiset::group_multiset_axioms;

    let r = evict(rows, cutoff, total, max_bytes);
    lemma_oldest_eligible(rows, cutoff, total, max_bytes);
    match oldest_eligible(rows, cutoff, total, max_bytes) {
        None => {
            assert(r.0.to_multiset() =~= vstd::multiset::Multiset::empty());
            assert(r.0.to_multiset().add(r.1.to_multiset()) =~= rows.to_multiset());
            assert forall|j: int| 0 <= j < r.1.len() implies rows.contains(#[trigger] r.1[j]) by {
                assert(rows[j] == r.1[j]);
            }
        },
        Some(k) => {
            let p = rows[k];
            let rest = rows.remove(k);
            let t = total.wrapping_sub(p.total_bytes);
            let n = evict(rest, cutoff, t, max_bytes);
            gc_partitions_rows(rest, cutoff, t, max_bytes);
            assert(r.0 == seq![p] + n.0 && r.1 == n.1);
            vstd::seq_lib::lemma_multiset_commutative(seq![p], n.0);
            assert(seq![p].to_multiset() =~= vstd::multiset::Multiset::singleton(p)) by {
                assert(seq![p] =~= Seq::<GcEntry>::empty().push(p));
            }
            assert(rest.to_multiset() == rows.to_multiset().remove(p));
            assert(rows.to_multiset().count(p) > 0) by {
                assert(rows.contains(p));
            }
            let single = vstd::multiset::Multiset::singleton(p);
            assert(r.0.to_multiset() =~= single.add(n.0.to_multiset()));
            assert(r.0.to_multiset().add(r.1.to_multiset()) =~= single.add(rest.to_multiset()));
            assert(single.add(rows.to_multiset().remove(p)) =~= rows.to_multiset());
            assert forall|x: GcEntry| rest.contains(x) implies rows.contains(x) by {
                let m = choose|m: int| 0 <= m < rest.len() && rest[m] == x;
                if m < k {
                    assert(rows[m] == x);
                } else {
                    assert(rows[m + 1] == x);
                }
            }
            assert forall|i: int| 0 <= i < r.0.len() implies !(#[trigger] r.0[i]).pinned
                && rows.contains(r.0[i]) by {
                if i > 0 {
                    assert(r.0[i] == n.0[i - 1]);
                }
            }
            assert forall|j: int| 0 <= j < r.1.len() implies rows.contains(#[trigger] r.1[j]) by {
                assert(r.1[j] == n.1[j]);
            }
            lemma_bytes_of_remove(rows, k);
            lemma_bytes_of_add(seq![p], n.0);
            lemma_bytes_of_single(p);
        },
    }
}

/// Pinned snapshots are never evicted: each one remains after collection.
pub proof fn gc_keeps_pinned(rows: Seq<GcEntry>, cutoff: i64, total: i64, max_bytes: i64, j: int)
    requires
        0 <= j < rows.len(),
        rows[j].pinned,
    ensures
        evict(rows, cutoff, total, max_bytes).1.contains(rows[j]),
    decreases rows.len(),
{
    lemma_oldest_eligible(rows, cutoff, total, max_bytes);
    match oldest_eligible(rows, cutoff, total, max_bytes) {
        None => {
            assert(rows[j] == evict(rows, cutoff, total, max_bytes).1[j]);
        },
        Some(k) => {
            let rest = rows.remove(k);
            let j2 = if j < k {
                j
            } else {
                j - 1
            };
            assert(rest[j2] == rows[j]);
            gc_keeps_pinned(rest, cutoff, total.wrapping_sub(rows[k].total_bytes), max_bytes, j2);
        },
    }
}

/// Where snapshots have distinct ids, as the store's primary key makes
/// them, no pinned snapshot's id is among those collection evicts.
pub proof fn gc_never_evicts_pinned_id(
    rows: Seq<GcEntry>,
    cutoff: i64,
    total: i64,
    max_bytes: i64,
    j: int,
)
    requires
        forall|a: int, b: int|
            0 <= a < rows.len() && 0 <= b < rows.len() && a != b ==> (#[trigger] rows[a]).id
                != (#[trigger] rows[b]).id,
        0 <= j < rows.len(),
        rows[j].pinned,
    ensures
        !ids_of(evict(rows, cutoff, total, max_bytes).0).contains(rows[j].id),
{
    let e = evict(rows, cutoff, total, max_bytes).0;
    gc_partitions_rows(rows, cutoff, total, max_bytes);
    if ids_of(e).contains(rows[j].id) {
        let i = choose|i: int| 0 <= i < ids_of(e).len() && ids_of(e)[i] == rows[j].id;
        assert(!e[i].pinned && rows.contains(e[i]));
        let m = choose|m: int| 0 <= m < rows.len() && rows[m] == e[i];
        assert(rows[m].id == rows[j].id);
        assert(m != j);
    }
}

/// Collection evicts the oldest unpinned snapshots first: each evicted
/// snapshot is no newer than any snapshot evicted after it, nor than any
/// unpinned snapshot that remains.
pub proof fn gc_evicts_oldest_first(rows: Seq<GcEntry>, cutoff: i64, total: i64, max_bytes: i64)
    ensures
        forall|i: int, i2: int|
            0 <= i < i2 < evict(rows, cutoff, total, max_bytes).0.len() ==> (#[trigger] evict(
                rows,
                cutoff,
                total,
                max_bytes,
            ).0[i]).created_at_ns <= (#[trigger] evict(
                rows,
                cutoff,
                total,
                max_bytes,
            ).0[i2]).created_at_ns,
        forall|i: int, j: int|
            0 <= i < evict(rows, cutoff, total, max_bytes).0.len() && 0 <= j < evict(
                rows,
                cutoff,
                total,
                max_bytes,
            ).1.len() && !evict(rows, cutoff, total, max_bytes).1[j].pinned ==> (#[trigger] evict(
                rows,
                cutoff,
                total,
                max_bytes,
            ).0[i]).created_at_ns <= (#[trigger] evict(
                rows,
                cutoff,
                total,
                max_bytes,
            ).1[j]).created_at_ns,
    decreases rows.len(),
{
    let r = evict(rows, cutoff, total, max_bytes);
    lemma_oldest_eligible(rows, cutoff, total, max_bytes);
    match oldest_eligible(rows, cutoff, total, max_bytes) {
        None => {},
        Some(k) => {
            let p = rows[k];
            let rest = rows.remove(k);
            let t = total.wrapping_sub(p.total_bytes);
            let n = evict(rest, cutoff, t, max_bytes);
            gc_evicts_oldest_first(rest, cutoff, t, max_bytes);
            gc_partitions_rows(rest, cutoff, t, max_bytes);
            lemma_next_is_oldest_unpinned(rows, cutoff, total, max_bytes);
            assert(r.0 == seq![p] + n.0 && r.1 == n.1);
            assert forall|x: GcEntry| rest.contains(x) && !x.pinned implies p.created_at_ns
                <= x.created_at_ns by {
                let m = choose|m: int| 0 <= m < rest.len() && rest[m] == x;
                if m < k {
                    assert(rows[m] == x);
                } else {
                    assert(rows[m + 1] == x);
                }
            }
            assert forall|i: int, i2: int| 0 <= i < i2 < r.0.len() implies (#[trigger] r.0[i]).created_at_ns
                <= (#[trigger] r.0[i2]).created_at_ns by {
                assert(r.0[i2] == n.0[i2 - 1]);
                if i == 0 {
                    assert(rest.contains(n.0[i2 - 1]));
                } else {
                    assert(r.0[i] == n.0[i - 1]);
                }
            }
            assert forall|i: int, j: int|
                0 <= i < r.0.len() && 0 <= j < r.1.len() && !r.1[j].pinned implies (#[trigger] r.0[i]).created_at_ns
                <= (#[trigger] r.1[j]).created_at_ns by {
                assert(r.1[j] == n.1[j]);
                if i == 0 {
                    assert(rest.contains(n.1[j]));
                } else {
                    assert(r.0[i] == n.0[i - 1]);
                }
            }
        },
    }
}

/// Collection evicts a snapshot only while it is eligible: past the cutoff,
/// or with the store, as it stood just before, over its size limit. It
/// stops as soon as none is eligible, and what remains of the total is the
/// total less the evicted sizes.
pub proof fn gc_evicts_only_eligible(rows: Seq<GcEntry>, cutoff: i64, total: i64, max_bytes: i64)
    ensures
        forall|i: int|
            0 <= i < evict(rows, cutoff, total, max_bytes).0.len() ==> eligible(
                #[trigger] evict(rows, cutoff, total, max_bytes).0[i],
                cutoff,
                after_evicting(total, evict(rows, cutoff, total, max_bytes).0.take(i)),
                max_bytes,
            ),
        evict(rows, cutoff, total, max_bytes).2 == after_evicting(
            total,
            evict(rows, cutoff, total, max_bytes).0,
        ),
        forall|j: int|
            0 <= j < evict(rows, cutoff, total, max_bytes).1.len() ==> !eligible(
                #[trigger] evict(rows, cutoff, total, max_bytes).1[j],
                cutoff,
                evict(rows, cutoff, total, max_bytes).2,
                max_bytes,
            ),
    decreases rows.len(),
{
    let r = evict(rows, cutoff, total, max_bytes);
    lemma_oldest_eligible(rows, cutoff, total, max_bytes);
    match oldest_eligible(rows, cutoff, total, max_bytes) {
        None => {
            assert forall|j: int| 0 <= j < r.1.len() implies !eligible(
                #[trigger] r.1[j],
                cutoff,
                r.2,
                max_bytes,
            ) by {
                assert(r.1[j] == rows[j]);
            }
        },
        Some(k) => {
            let p = rows[k];
            let rest = rows.remove(k);
            let t = total.wrapping_sub(p.total_bytes);
            let n = evict(rest, cutoff, t, max_bytes);
            gc_evicts_only_eligible(rest, cutoff, t, max_bytes);
            assert(r.0 == seq![p] + n.0 && r.1 == n.1 && r.2 == n.2);
            assert(r.0.drop_first() =~= n.0);
            assert(r.0[0] == p);
            assert forall|i: int| 0 <= i < r.0.len() implies eligible(
                #[trigger] r.0[i],
                cutoff,
                after_evicting(total, r.0.take(i)),
                max_bytes,
            ) by {
                if i == 0 {
                    assert(r.0.take(0).len() == 0);
                } else {
                    assert(r.0[i] == n.0[i - 1]);
                    assert(r.0.take(i)[0] == p);
                    assert(r.0.take(i).drop_first() =~= n.0.take(i - 1));
                }
            }
        },
    }
}

/// After collection, every unpinned snapshot that remains is within the
/// retention period, and the store is within its size limit unless only
/// pinned snapshots remain.
pub proof fn gc_meets_retention(rows: Seq<GcEntry>, cutoff: i64, total: i64, max_bytes: i64)
    ensures
        forall|i: int|
            0 <= i < evict(rows, cutoff, total, max_bytes).1.len() && !(#[trigger] evict(
                rows,
                cutoff,
                total,
                max_bytes,
            ).1[i]).pinned ==> evict(rows, cutoff, total, max_bytes).1[i].created_at_ns >= cutoff
                && evict(rows, cutoff, total, max_bytes).2 <= max_bytes,
{
    gc_evicts_only_eligible(rows, cutoff, total, max_bytes);
}

/// Where `total` is the sum of the sizes of the snapshots, none negative,
/// collection leaves the sum of the sizes of those that remain. Then no
/// unpinned snapshot that remains is older than the cutoff, and those that
/// remain fit the size limit unless all of them are pinned. And each evicted
/// snapshot was older than the cutoff, or the store, holding it, the ones
/// evicted after it and those that remain, was over its limit.
pub proof fn gc_meets_limits(rows: Seq<GcEntry>, cutoff: i64, total: i64, max_bytes: i64)
    requires
        forall|i: int| 0 <= i < rows.len() ==> (#[trigger] rows[i]).total_bytes >= 0,
        total == bytes_of(rows),
    ensures
        evict(rows, cutoff, total, max_bytes).2 == bytes_of(evict(rows, cutoff, total, max_bytes).1),
        forall|j: int|
            0 <= j < evict(rows, cutoff, total, max_bytes).1.len() && !(#[trigger] evict(
                rows,
                cutoff,
                total,
                max_bytes,
            ).1[j]).pinned ==> evict(rows, cutoff, total, max_bytes).1[j].created_at_ns >= cutoff
                && bytes_of(evict(rows, cutoff, total, max_bytes).1) <= max_bytes,
        forall|i: int|
            0 <= i < evict(rows, cutoff, total, max_bytes).0.len() ==> (#[trigger] evict(
                rows,
                cutoff,
                total,
                max_bytes,
            ).0[i]).created_at_ns < cutoff || bytes_of(evict(rows, cutoff, total, max_bytes).1)
                + bytes_of(evict(rows, cutoff, total, max_bytes).0.skip(i)) > max_bytes,
    decreases rows.len(),
{
    let r = evict(rows, cutoff, total, max_bytes);
    gc_meets_retention(rows, cutoff, total, max_bytes);
    lemma_oldest_eligible(rows, cutoff, total, max_bytes);
    match oldest_eligible(rows, cutoff, total, max_bytes) {
        None => {},
        Some(k) => {
            let p = rows[k];
            let rest = rows.remove(k);
            lemma_bytes_of_remove(rows, k);
            assert forall|i: int| 0 <= i < rest.len() implies (#[trigger] rest[i]).total_bytes
                >= 0 by {
                if i < k {
                    assert(rest[i] == rows[i]);
                } else {
                    assert(rest[i] == rows[i + 1]);
                }
            }
            lemma_bytes_of_nonneg(rest);
            let t = total.wrapping_sub(p.total_bytes);
            assert(t == total - p.total_bytes);
            let n = evict(rest, cutoff, t, max_bytes);
            gc_meets_limits(rest, cutoff, t, max_bytes);
            gc_partitions_rows(rows, cutoff, total, max_bytes);
            assert(r.0 == seq![p] + n.0 && r.1 == n.1 && r.2 == n.2);
            assert forall|i: int| 0 <= i < r.0.len() implies (#[trigger] r.0[i]).created_at_ns
                < cutoff || bytes_of(r.1) + bytes_of(r.0.skip(i)) > max_bytes by {
                if i == 0 {
                    assert(r.0.skip(0) =~= r.0);
                } else {
                    assert(r.0[i] == n.0[i - 1]);
                    assert(r.0.skip(i) =~= n.0.skip(i - 1));
                }
            }
        },
    }
}

} // verus!
