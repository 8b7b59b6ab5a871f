//! The scan history: rows of scans joined with their changes, gathered
//! into one record per scan.
use vstd::prelude::*;
use crate::records::{ChangeRecord, ScanBatch, ScanBatchWithChanges};

verus! {

/// A joined row: a scan, and one of its changes when it has any.
pub type BatchRow = (ScanBatch, Option<ChangeRecord>);

/// The scan ids of the rows.
pub open spec fn row_ids(rows: Seq<BatchRow>) -> Seq<i64> {
    rows.map_values(|r: BatchRow| r.0.id)
}

/// The ids, each once, in the order they first occur.
pub open spec fn distinct_ids(ids: Seq<i64>) -> Seq<i64>
    decreases ids.len(),
{
    if ids.len() == 0 {
        Seq::empty()
    } else {
        let d = distinct_ids(ids.drop_last());
        if d.contains(ids.last()) {
            d
        } else {
            d.push(ids.last())
        }
    }
}

/// The scan of the first row with this id.
pub open spec fn first_batch(rows: Seq<BatchRow>, id: i64) -> ScanBatch
    decreases rows.len(),
{
    if rows.len() == 0 {
        arbitrary()
    } else if row_ids(rows.drop_last()).contains(id) {
        first_batch(rows.drop_last(), id)
    } else {
        rows.last().0
    }
}

/// The changes of the rows with this id, in row order.
pub open spec fn id_changes(rows: Seq<BatchRow>, id: i64) -> Seq<ChangeRecord>
    decreases rows.len(),
{
    if rows.len() == 0 {
        Seq::empty()
    } else {
        id_changes(rows.drop_last(), id) + (match rows.last().1 {
            Some(c) => if rows.last().0.id == id {
                seq![c]
            } else {
                Seq::empty()
            },
            None => Seq::empty(),
        })
    }
}

proof fn lemma_distinct_ids_contains(ids: Seq<i64>, x: i64)
    ensures
        distinct_ids(ids).contains(x) <==> ids.contains(x),
    decreases ids.len(),
{
    if ids.len() > 0 {
        let p = ids.drop_last();
        let l = ids.last();
        lemma_distinct_ids_contains(p, x);
        let d = distinct_ids(p);
        if ids.contains(x) {
            let i = choose|i: int| 0 <= i < ids.len() && ids[i] == x;
            if i < ids.len() - 1 {
                assert(p[i] == x);
                let j = choose|j: int| 0 <= j < d.len() && d[j] == x;
                if !d.contains(l) {
                    assert(d.push(l)[j] == x);
                }
            } else if !d.contains(l) {
                assert(d.push(l)[d.len() as int] == x);
            }
        }
        if distinct_ids(ids).contains(x) {
            let dk = distinct_ids(ids);
            let j = choose|j: int| 0 <= j < dk.len() && dk[j] == x;
            if j < d.len() {
                assert(d[j] == x);
                let i = choose|i: int| 0 <= i < p.len() && p[i] == x;
                assert(ids[i] == x);
            } else {
                assert(ids[ids.len() - 1] == x);
            }
        }
    }
}

proof fn lemma_distinct_ids_unique(ids: Seq<i64>)
    ensures
        forall|a: int, b: int|
            0 <= a < b < distinct_ids(ids).len() ==> distinct_ids(ids)[a] != distinct_ids(ids)[b],
    decreases ids.len(),
{
    if ids.len() > 0 {
        lemma_distinct_ids_unique(ids.drop_last());
        let d = distinct_ids(ids.drop_last());
        if !d.contains(ids.last()) {
            assert forall|a: int, b: int| 0 <= a < b < d.push(ids.last()).len() implies d.push(ids.last())[a]
                != d.push(ids.last())[b] by {
                if b == d.len() {
                    if d[a] == ids.last() {
                        assert(d.contains(ids.last()));
                    }
                }
            }
        }
    }
}

/// Gathers joined rows into one record per scan, in the order the scans
/// first occur: each with the scan of its first row and the changes of
/// its rows, in row order.
pub fn group_batch_rows(rows: Vec<BatchRow>) -> (r: Vec<ScanBatchWithChanges>)
    ensures
        r@.len() == distinct_ids(row_ids(rows@)).len(),
        forall|k: int|
            0 <= k < r@.len() ==> (#[trigger] r@[k]).batch == first_batch(rows@, distinct_ids(row_ids(rows@))[k])
                && r@[k].changes@ == id_changes(rows@, distinct_ids(row_ids(rows@))[k]),
{
    let ghost orig = rows@;
    let mut rows = rows;
    let mut ids: Vec<i64> = Vec::new();
    let mut batches: Vec<ScanBatch> = Vec::new();
    let mut changes: Vec<Vec<ChangeRecord>> = Vec::new();
    let ghost mut i: int = 0;
    while rows.len() > 0
        invariant
            0 <= i <= orig.len(),
            rows@ == orig.subrange(i, orig.len() as int),
            ids@ == distinct_ids(row_ids(orig.take(i))),
            batches@.len() == ids@.len(),
            changes@.len() == ids@.len(),
            forall|k: int| 0 <= k < ids@.len() ==> #[trigger] batches@[k] == first_batch(orig.take(i), ids@[k]),
            forall|k: int| 0 <= k < ids@.len() ==> (#[trigger] changes@[k])@ == id_changes(orig.take(i), ids@[k]),
        decreases rows.len(),
    {
        let row = rows.remove(0);
        let ghost p = orig.take(i);
        let ghost q = orig.take(i + 1);
        proof {
            assert(row == orig[i]);
            assert(q.drop_last() =~= p);
            assert(q.last() == row);
            assert(row_ids(q).drop_last() =~= row_ids(p));
            assert(row_ids(q).last() == row.0.id);
        }
        let (batch, change) = row;
        let id = batch.id;
        let mut g: usize = 0;
        while g < ids.len() && ids[g] != id
            invariant
                g <= ids@.len(),
                forall|x: int| 0 <= x < g ==> ids@[x] != id,
            decreases ids.len() - g,
        {
            g = g + 1;
        }
        proof {
            lemma_distinct_ids_contains(row_ids(p), id);
        }
        if g < ids.len() {
            proof {
                assert(ids@.contains(id)) by {
                    assert(ids@[g as int] == id);
                }
                assert(distinct_ids(row_ids(q)) == ids@);
            }
            let ghost before = changes@;
            let mut cur = changes.remove(g);
            proof {
                assert(cur == before[g as int]);
                assert(cur@ == id_changes(p, id));
            }
            match change {
                Some(c) => cur.push(c),
                None => {},
            }
            proof {
                assert(cur@ =~= id_changes(q, id));
            }
            let ghost cur_v = cur;
            changes.insert(g, cur);
            proof {
                assert(changes@ =~= before.update(g as int, cur_v));
                assert forall|k: int| 0 <= k < ids@.len() implies #[trigger] batches@[k] == first_batch(q, ids@[k]) by {
                    lemma_distinct_ids_contains(row_ids(p), ids@[k]);
                }
                assert forall|k: int| 0 <= k < ids@.len() implies (#[trigger] changes@[k])@ == id_changes(q, ids@[k]) by {
                    if k != g {
                        assert(changes@[k] == before[k]);
                        lemma_distinct_ids_unique(row_ids(p));
                        assert(ids@[k] != ids@[g as int]);
                    }
                }
            }
        } else {
            proof {
                assert(!ids@.contains(id)) by {
                    if ids@.contains(id) {
                        let x = choose|x: int| 0 <= x < ids@.len() && ids@[x] == id;
                    }
                }
                assert(distinct_ids(row_ids(q)) == ids@.push(id));
            }
            let ghost before_b = batches@;
            let ghost before_c = changes@;
            let ghost before_ids = ids@;
            let mut cur: Vec<ChangeRecord> = Vec::new();
            match change {
                Some(c) => cur.push(c),
                None => {},
            }
            ids.push(id);
            batches.push(batch);
            changes.push(cur);
            proof {
                assert forall|k: int| 0 <= k < ids@.len() implies #[trigger] batches@[k] == first_batch(q, ids@[k]) by {
                    if k < before_ids.len() {
                        assert(batches@[k] == before_b[k]);
                        assert(ids@[k] == before_ids[k]);
                        lemma_distinct_ids_contains(row_ids(p), ids@[k]);
                    }
                }
                assert forall|k: int| 0 <= k < ids@.len() implies (#[trigger] changes@[k])@ == id_changes(q, ids@[k]) by {
                    if k < before_ids.len() {
                        assert(changes@[k] == before_c[k]);
                        assert(ids@[k] == before_ids[k]);
                        assert(ids@[k] != id);
                    } else {
                        lemma_distinct_ids_contains(row_ids(p), id);
                        lemma_id_changes_absent(p, id);
                        assert(cur@ =~= id_changes(q, id));
                    }
                }
            }
        }
        proof {
            i = i + 1;
            assert(rows@ =~= orig.subrange(i, orig.len() as int));
        }
    }
    proof {
        assert(orig.take(i) =~= orig);
    }
    let ghost fb = batches@;
    let ghost fc = changes@;
    let mut r: Vec<ScanBatchWithChanges> = Vec::new();
    let ghost mut k: int = 0;
    while batches.len() > 0
        invariant
            0 <= k <= fb.len(),
            fb.len() == fc.len(),
            batches@ == fb.subrange(k, fb.len() as int),
            changes@ == fc.subrange(k, fc.len() as int),
            r@.len() == k,
            forall|x: int| 0 <= x < k ==> (#[trigger] r@[x]).batch == fb[x] && r@[x].changes == fc[x],
        decreases batches.len(),
    {
        let b = batches.remove(0);
        let c = changes.remove(0);
        r.push(ScanBatchWithChanges { batch: b, changes: c });
        proof {
            k = k + 1;
            assert(batches@ =~= fb.subrange(k, fb.len() as int));
            assert(changes@ =~= fc.subrange(k, fc.len() as int));
        }
    }
    r
}

proof fn lemma_id_changes_absent(rows: Seq<BatchRow>, id: i64)
    requires
        !row_ids(rows).contains(id),
    ensures
        id_changes(rows, id) == Seq::<ChangeRecord>::empty(),
    decreases rows.len(),
{
    if rows.len() > 0 {
        let p = rows.drop_last();
        assert(row_ids(rows).drop_last() =~= row_ids(p));
        assert(!row_ids(p).contains(id)) by {
            if row_ids(p).contains(id) {
                let x = choose|x: int| 0 <= x < row_ids(p).len() && row_ids(p)[x] == id;
                assert(row_ids(rows)[x] == id);
            }
        }
        lemma_id_changes_absent(p, id);
        assert(rows.last().0.id != id) by {
            assert(row_ids(rows)[rows.len() - 1] == rows.last().0.id);
        }
    }
}

} // verus!
