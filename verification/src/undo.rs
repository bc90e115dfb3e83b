//! Which snapshot an undo restores, and whether it is the latest one.
use vstd::prelude::*;

verus! {

/// A snapshot as undo sees it.
#[derive(Debug, Clone, Copy)]
pub struct UndoCandidate {
    pub id: u64,
    pub created_at_ns: i64,
    pub restorable: bool,
}

/// The position of the newest restorable snapshot (the first of equally new
/// ones), if any.
pub open spec fn newest_restorable(rows: Seq<UndoCandidate>) -> Option<int>
    decreases rows.len(),
{
    if rows.len() == 0 {
        None
    } else {
        let best = newest_restorable(rows.drop_last());
        let k = rows.len() - 1;
        if rows[k].restorable && (best is None || rows[k].created_at_ns
            > rows[best.unwrap()].created_at_ns) {
            Some(k)
        } else {
            best
        }
    }
}

/// The newest restorable snapshot is restorable and no restorable snapshot
/// is newer; when there is none, no snapshot is restorable.
pub proof fn lemma_newest_restorable(rows: Seq<UndoCandidate>)
    ensures
        match newest_restorable(rows) {
            Some(k) => {
                &&& 0 <= k < rows.len()
                &&& rows[k].restorable
                &&& forall|j: int|
                    0 <= j < rows.len() && (#[trigger] rows[j]).restorable ==> rows[j].created_at_ns
                        <= rows[k].created_at_ns
            },
            None => forall|j: int| 0 <= j < rows.len() ==> !(#[trigger] rows[j]).restorable,
        },
    decreases rows.len(),
{
    if rows.len() > 0 {
        let init = rows.drop_last();
        let k = rows.len() - 1;
        lemma_newest_restorable(init);
        assert forall|j: int| 0 <= j < init.len() implies #[trigger] init[j] == rows[j] by {}
        let best = newest_restorable(init);
        let chosen = rows[k].restorable && (best is None || rows[k].created_at_ns
            > rows[best.unwrap()].created_at_ns);
        if chosen {
            assert forall|j: int|
                0 <= j < rows.len() && (#[trigger] rows[j]).restorable implies rows[j].created_at_ns
                <= rows[k].created_at_ns by {
                if j < k {
                    assert(init[j] == rows[j]);
                }
            }
        } else {
            match best {
                Some(b) => {
                    assert(init[b] == rows[b]);
                    assert forall|j: int|
                        0 <= j < rows.len() && (#[trigger] rows[j]).restorable implies rows[j].created_at_ns
                        <= rows[b].created_at_ns by {
                        if j < k {
                            assert(init[j] == rows[j]);
                        }
                    }
                },
                None => {
                    assert forall|j: int| 0 <= j < rows.len() implies !(
                    #[trigger] rows[j]).restorable by {
                        if j < k {
                            assert(init[j] == rows[j]);
                        }
                    }
                },
            }
        }
    }
}

/// Whether some restorable snapshot has this id.
pub open spec fn is_restorable_id(rows: Seq<UndoCandidate>, id: u64) -> bool {
    exists|j: int| 0 <= j < rows.len() && (#[trigger] rows[j]).id == id && rows[j].restorable
}

/// Whether `id` is the id of the newest restorable snapshot.
pub open spec fn is_latest_id(rows: Seq<UndoCandidate>, id: u64) -> bool {
    newest_restorable(rows) matches Some(k) && rows[k].id == id
}

/// The snapshot an undo of `requested` (the newest restorable one when
/// `None`) restores, with whether it is the latest restorable snapshot:
/// `Ok(None)` when nothing is restorable, an error when the requested
/// snapshot is not restorable.
pub fn undo_target(requested: Option<u64>, rows: &Vec<UndoCandidate>) -> (r: Result<
    Option<(u64, bool)>,
    String,
>)
    ensures
        match requested {
            None => match newest_restorable(rows@) {
                None => r == Ok::<Option<(u64, bool)>, String>(None),
                Some(k) => r == Ok::<Option<(u64, bool)>, String>(Some((rows@[k].id, true))),
            },
            Some(x) => if is_restorable_id(rows@, x) {
                r == Ok::<Option<(u64, bool)>, String>(Some((x, is_latest_id(rows@, x))))
            } else {
                r matches Err(e) && e@ == "snapshot is not restorable"@
            },
        },
{
    let mut newest: Option<usize> = None;
    let mut found = false;
    let mut i: usize = 0;
    while i < rows.len()
        invariant
            i <= rows@.len(),
            match newest {
                Some(k) => newest_restorable(rows@.take(i as int)) == Some(k as int) && k < i,
                None => newest_restorable(rows@.take(i as int)) is None,
            },
            requested matches Some(x) ==> (found <==> exists|j: int|
                0 <= j < i && (#[trigger] rows@[j]).id == x && rows@[j].restorable),
        decreases rows.len() - i,
    {
        assert(rows@.take(i + 1).drop_last() =~= rows@.take(i as int));
        let e = rows[i];
        if e.restorable {
            let newer = match newest {
                None => true,
                Some(k) => e.created_at_ns > rows[k].created_at_ns,
            };
            if newer {
                newest = Some(i);
            }
            if let Some(x) = requested {
                if e.id == x {
                    found = true;
                }
            }
        }
        i = i + 1;
    }
    assert(rows@.take(rows.len() as int) =~= rows@);
    match requested {
        None => match newest {
            None => Ok(None),
            Some(k) => Ok(Some((rows[k].id, true))),
        },
        Some(x) => {
            if found {
                let latest = match newest {
                    Some(k) => rows[k].id == x,
                    None => false,
                };
                Ok(Some((x, latest)))
            } else {
                Err(String::from_str("snapshot is not restorable"))
            }
        },
    }
}

/// An undo without an id restores the newest restorable snapshot, as the
/// latest one.
pub proof fn undo_defaults_to_newest(rows: Seq<UndoCandidate>)
    requires
        newest_restorable(rows) is Some,
    ensures
        is_restorable_id(rows, rows[newest_restorable(rows).unwrap()].id),
        is_latest_id(rows, rows[newest_restorable(rows).unwrap()].id),
        forall|j: int|
            0 <= j < rows.len() && (#[trigger] rows[j]).restorable ==> rows[j].created_at_ns
                <= rows[newest_restorable(rows).unwrap()].created_at_ns,
{
    lemma_newest_restorable(rows);
    let k = newest_restorable(rows).unwrap();
    assert(rows[k].id == rows[k].id && rows[k].restorable);
}

} // verus!

verus! {

/// A snapshot counts as the latest only when it is restorable and no
/// restorable snapshot is newer; one that some restorable snapshot is newer
/// than never counts as the latest (it is then restored only where files
/// were not changed since).
pub proof fn latest_means_newest(rows: Seq<UndoCandidate>, x: u64)
    ensures
        is_latest_id(rows, x) ==> exists|j: int|
            0 <= j < rows.len() && (#[trigger] rows[j]).id == x && rows[j].restorable && forall|
                i: int|
                0 <= i < rows.len() && (#[trigger] rows[i]).restorable ==> rows[i].created_at_ns
                    <= rows[j].created_at_ns,
        (exists|i: int|
            0 <= i < rows.len() && (#[trigger] rows[i]).restorable && forall|j: int|
                0 <= j < rows.len() && (#[trigger] rows[j]).id == x ==> rows[j].created_at_ns
                    < rows[i].created_at_ns) ==> !is_latest_id(rows, x),
{
    lemma_newest_restorable(rows);
    if is_latest_id(rows, x) {
        let k = newest_restorable(rows).unwrap();
        assert(rows[k].id == x);
    }
}

} // verus!
