//! Duplicate detection: files are grouped by a key (size, then quick hash,
//! then full hash), groups of two or more go on to the next round, and
//! the last groups count the space that all but one copy waste.
use vstd::prelude::*;
use vstd::hash_map::StringHashMap;
use crate::records::{DuplicateGroupRecord, DuplicateResult, FileRecord};
use crate::text::decimal_i64;

verus! {

/// Files below this size are never compared.
pub const MIN_DUPLICATE_SIZE: i64 = 1024;

/// The positions of `k` in `keys`, ascending.
pub open spec fn positions(keys: Seq<Seq<char>>, k: Seq<char>) -> Seq<int>
    decreases keys.len(),
{
    if keys.len() == 0 {
        Seq::empty()
    } else {
        positions(keys.drop_last(), k) + (if keys.last() == k {
            seq![keys.len() - 1]
        } else {
            Seq::empty()
        })
    }
}

/// The keys of `keys`, each once, in the order they first occur.
pub open spec fn distinct_keys(keys: Seq<Seq<char>>) -> Seq<Seq<char>>
    decreases keys.len(),
{
    if keys.len() == 0 {
        Seq::empty()
    } else {
        let d = distinct_keys(keys.drop_last());
        if d.contains(keys.last()) {
            d
        } else {
            d.push(keys.last())
        }
    }
}

/// The groups of equal keys: for each key in first-seen order, the
/// positions that hold it.
pub open spec fn key_groups(keys: Seq<Seq<char>>) -> Seq<Seq<int>> {
    distinct_keys(keys).map_values(|k: Seq<char>| positions(keys, k))
}

proof fn lemma_distinct_contains(keys: Seq<Seq<char>>, x: Seq<char>)
    ensures
        distinct_keys(keys).contains(x) <==> keys.contains(x),
    decreases keys.len(),
{
    if keys.len() > 0 {
        let p = keys.drop_last();
        let l = keys.last();
        lemma_distinct_contains(p, x);
        let d = distinct_keys(p);
        let dk = distinct_keys(keys);
        assert(dk == (if d.contains(l) { d } else { d.push(l) }));
        if keys.contains(x) {
            let i = choose|i: int| 0 <= i < keys.len() && keys[i] == x;
            if i < keys.len() - 1 {
                assert(p[i] == x);
                assert(p.contains(x));
                assert(d.contains(x));
                let j = choose|j: int| 0 <= j < d.len() && d[j] == x;
                if !d.contains(l) {
                    assert(d.push(l)[j] == x);
                }
            } else {
                assert(x == l);
                if !d.contains(l) {
                    assert(d.push(l)[d.len() as int] == x);
                }
            }
            assert(dk.contains(x));
        }
        if dk.contains(x) {
            let j = choose|j: int| 0 <= j < dk.len() && dk[j] == x;
            if j < d.len() {
                assert(d[j] == x);
                assert(d.contains(x));
                assert(p.contains(x));
                let i = choose|i: int| 0 <= i < p.len() && p[i] == x;
                assert(keys[i] == x);
            } else {
                assert(x == l);
                assert(keys[keys.len() - 1] == x);
            }
            assert(keys.contains(x));
        }
    }
}

proof fn lemma_positions_absent(keys: Seq<Seq<char>>, x: Seq<char>)
    requires
        !keys.contains(x),
    ensures
        positions(keys, x) == Seq::<int>::empty(),
    decreases keys.len(),
{
    if keys.len() > 0 {
        assert(!keys.drop_last().contains(x)) by {
            if keys.drop_last().contains(x) {
                let i = choose|i: int| 0 <= i < keys.drop_last().len() && keys.drop_last()[i] == x;
                assert(keys[i] == x);
            }
        }
        lemma_positions_absent(keys.drop_last(), x);
        assert(keys.last() != x) by {
            if keys.last() == x {
                assert(keys[keys.len() - 1] == x);
            }
        }
    }
}

proof fn lemma_distinct_unique(keys: Seq<Seq<char>>)
    ensures
        forall|a: int, b: int|
            0 <= a < b < distinct_keys(keys).len() ==> distinct_keys(keys)[a] != distinct_keys(keys)[b],
    decreases keys.len(),
{
    if keys.len() > 0 {
        lemma_distinct_unique(keys.drop_last());
        let d = distinct_keys(keys.drop_last());
        if !d.contains(keys.last()) {
            assert forall|a: int, b: int| 0 <= a < b < d.push(keys.last()).len() implies d.push(keys.last())[a]
                != d.push(keys.last())[b] by {
                if b == d.len() {
                    if d[a] == keys.last() {
                        assert(d.contains(keys.last()));
                    }
                }
            }
        }
    }
}

/// Groups positions by equal key, in first-seen order of the keys.
pub fn group_by_key(keys: &Vec<String>) -> (r: Vec<Vec<usize>>)
    ensures
        r@.len() == key_groups(keys@.map_values(|s: String| s@)).len(),
        forall|j: int|
            0 <= j < r@.len() ==> (#[trigger] r@[j])@.map_values(|i: usize| i as int) == key_groups(
                keys@.map_values(|s: String| s@),
            )[j],
{
    let ghost kv = keys@.map_values(|s: String| s@);
    let mut index: StringHashMap<usize> = StringHashMap::new();
    let mut groups: Vec<Vec<usize>> = Vec::new();
    let ghost mut dk: Seq<Seq<char>> = Seq::empty();
    let mut i: usize = 0;
    while i < keys.len()
        invariant
            i <= keys@.len(),
            kv == keys@.map_values(|s: String| s@),
            dk == distinct_keys(kv.take(i as int)),
            groups@.len() == dk.len(),
            forall|j: int|
                0 <= j < groups@.len() ==> (#[trigger] groups@[j])@.map_values(|q: usize| q as int)
                    == positions(kv.take(i as int), dk[j]),
            forall|k: Seq<char>| #[trigger] index@.contains_key(k) <==> dk.contains(k),
            forall|k: Seq<char>|
                index@.contains_key(k) ==> (#[trigger] index@[k]) < dk.len() && dk[index@[k] as int] == k,
        decreases keys.len() - i,
    {
        let ghost kp = kv.take(i as int);
        let ghost x = kv[i as int];
        proof {
            assert(kv.take(i + 1) =~= kp.push(x));
            assert(kv.take(i + 1).drop_last() =~= kp);
            lemma_distinct_unique(kp);
            lemma_distinct_contains(kp, x);
        }
        let found = match index.get(keys[i].as_str()) {
            Some(g) => Some(*g),
            None => None,
        };
        match found {
            Some(g) => {
                proof {
                    assert(dk[g as int] == x);
                    assert(dk.contains(x));
                }
                let ghost before = groups@;
                let mut taken: Vec<usize> = Vec::new();
                std::mem::swap(&mut taken, &mut groups[g]);
                taken.push(i);
                std::mem::swap(&mut taken, &mut groups[g]);
                proof {
                    assert(distinct_keys(kv.take(i + 1)) == dk);
                    assert forall|j: int| 0 <= j < groups@.len() implies (#[trigger] groups@[j])@.map_values(
                        |q: usize| q as int,
                    ) == positions(kv.take(i + 1), dk[j]) by {
                        assert(positions(kv.take(i + 1), dk[j]) == positions(kp, dk[j]) + (if x == dk[j] {
                            seq![i as int]
                        } else {
                            Seq::<int>::empty()
                        }));
                        if j == g {
                            assert(groups@[j]@ == before[j]@.push(i));
                            assert(groups@[j]@.map_values(|q: usize| q as int) =~= before[j]@.map_values(
                                |q: usize| q as int,
                            ).push(i as int));
                        } else {
                            assert(groups@[j] == before[j]);
                            assert(dk[j] != x);
                            assert(positions(kp, dk[j]) + Seq::<int>::empty() =~= positions(kp, dk[j]));
                        }
                    }
                }
            },
            None => {
                proof {
                    assert(!dk.contains(x));
                    assert(!kp.contains(x));
                    lemma_positions_absent(kp, x);
                }
                let n = groups.len();
                let ghost before = groups@;
                let mut g: Vec<usize> = Vec::new();
                g.push(i);
                groups.push(g);
                index.insert(keys[i].clone(), n);
                proof {
                    let nd = dk.push(x);
                    assert(distinct_keys(kv.take(i + 1)) == nd);
                    assert forall|j: int| 0 <= j < groups@.len() implies (#[trigger] groups@[j])@.map_values(
                        |q: usize| q as int,
                    ) == positions(kv.take(i + 1), nd[j]) by {
                        assert(positions(kv.take(i + 1), nd[j]) == positions(kp, nd[j]) + (if x == nd[j] {
                            seq![i as int]
                        } else {
                            Seq::<int>::empty()
                        }));
                        if j == n {
                            assert(groups@[j]@.map_values(|q: usize| q as int) =~= seq![i as int]);
                            assert(Seq::<int>::empty() + seq![i as int] =~= seq![i as int]);
                        } else {
                            assert(groups@[j] == before[j]);
                            assert(nd[j] == dk[j]);
                            assert(dk[j] != x) by {
                                if dk[j] == x {
                                    assert(dk.contains(x));
                                }
                            }
                            assert(positions(kp, dk[j]) + Seq::<int>::empty() =~= positions(kp, dk[j]));
                        }
                    }
                    assert forall|k: Seq<char>| #[trigger] index@.contains_key(k) <==> nd.contains(k) by {
                        if nd.contains(k) && k != x {
                            let j = choose|j: int| 0 <= j < nd.len() && nd[j] == k;
                            assert(dk[j] == k);
                        }
                        if dk.contains(k) {
                            let j = choose|j: int| 0 <= j < dk.len() && dk[j] == k;
                            assert(nd[j] == k);
                        }
                        if k == x {
                            assert(nd[dk.len() as int] == x);
                        }
                    }
                    dk = nd;
                }
            },
        }
        i = i + 1;
    }
    proof {
        assert(kv.take(keys@.len() as int) =~= kv);
        assert forall|j: int| 0 <= j < groups@.len() implies (#[trigger] groups@[j])@.map_values(
            |q: usize| q as int,
        ) == key_groups(kv)[j] by {}
    }
    groups
}

/// The groups of two or more positions, in order.
pub fn repeated_only(groups: Vec<Vec<usize>>) -> (r: Vec<Vec<usize>>)
    ensures
        r@ == groups@.filter(|g: Vec<usize>| g@.len() >= 2),
{
    let ghost pred = |g: Vec<usize>| g@.len() >= 2;
    let ghost orig = groups@;
    let mut groups = groups;
    let mut r: Vec<Vec<usize>> = Vec::new();
    let ghost mut i: int = 0;
    while groups.len() > 0
        invariant
            0 <= i <= orig.len(),
            groups@ == orig.subrange(i, orig.len() as int),
            r@ == orig.subrange(0, i).filter(pred),
            pred == (|g: Vec<usize>| g@.len() >= 2),
        decreases groups.len(),
    {
        let g = groups.remove(0);
        proof {
            assert(g == orig[i]);
            assert(orig.subrange(0, i + 1).drop_last() =~= orig.subrange(0, i));
            reveal_with_fuel(Seq::filter, 1);
        }
        if g.len() >= 2 {
            r.push(g);
        }
        proof {
            i = i + 1;
            assert(groups@ =~= orig.subrange(i, orig.len() as int));
        }
    }
    assert(orig.subrange(0, i) =~= orig);
    r
}

/// The size keys of the files worth comparing (at least 1 KiB), with the
/// positions of those files in `files`.
pub fn size_keys(files: &Vec<FileRecord>) -> (r: (Vec<String>, Vec<usize>))
    ensures
        r.0@.len() == r.1@.len(),
        forall|k: int| 0 <= k < r.1@.len() ==> (#[trigger] r.1@[k]) < files@.len() && files@[r.1@[k] as int].size
            >= MIN_DUPLICATE_SIZE && r.0@[k]@ == crate::text::decimal_int(files@[r.1@[k] as int].size as int),
        forall|k1: int, k2: int| 0 <= k1 < k2 < r.1@.len() ==> r.1@[k1] < r.1@[k2],
        forall|q: int|
            0 <= q < files@.len() && files@[q].size >= MIN_DUPLICATE_SIZE ==> exists|k: int|
                0 <= k < r.1@.len() && #[trigger] r.1@[k] == q,
{
    let mut keys: Vec<String> = Vec::new();
    let mut idx: Vec<usize> = Vec::new();
    let mut q: usize = 0;
    while q < files.len()
        invariant
            q <= files@.len(),
            keys@.len() == idx@.len(),
            forall|k: int| 0 <= k < idx@.len() ==> (#[trigger] idx@[k]) < q && files@[idx@[k] as int].size
                >= MIN_DUPLICATE_SIZE && keys@[k]@ == crate::text::decimal_int(files@[idx@[k] as int].size as int),
            forall|k1: int, k2: int| 0 <= k1 < k2 < idx@.len() ==> idx@[k1] < idx@[k2],
            forall|p: int|
                0 <= p < q && files@[p].size >= MIN_DUPLICATE_SIZE ==> exists|k: int|
                    0 <= k < idx@.len() && #[trigger] idx@[k] == p,
        decreases files.len() - q,
    {
        let ghost before = idx@;
        if files[q].size >= MIN_DUPLICATE_SIZE {
            keys.push(decimal_i64(files[q].size));
            idx.push(q);
            proof {
                assert(idx@[idx@.len() - 1] == q);
            }
        }
        proof {
            assert forall|p: int|
                0 <= p < q + 1 && files@[p].size >= MIN_DUPLICATE_SIZE implies exists|k: int|
                    0 <= k < idx@.len() && #[trigger] idx@[k] == p by {
                if p == q {
                    assert(idx@[idx@.len() - 1] == p);
                } else {
                    let k = choose|k: int| 0 <= k < before.len() && #[trigger] before[k] == p;
                    assert(idx@[k] == p);
                }
            }
        }
        q = q + 1;
    }
    (keys, idx)
}

/// Wasted bytes of duplicate groups: all copies but one of each.
pub open spec fn wasted(groups: Seq<(i64, usize)>) -> int
    decreases groups.len(),
{
    if groups.len() == 0 {
        0
    } else {
        wasted(groups.drop_last()) + (groups.last().1 - 1) * groups.last().0
    }
}

/// Every running total of the wasted bytes fits an `i64`.
pub open spec fn wasted_fits(groups: Seq<(i64, usize)>) -> bool {
    forall|k: int| 0 <= k <= groups.len() ==> i64::MIN <= #[trigger] wasted(groups.take(k)) <= i64::MAX
}

/// The outcome of a detection over the final groups, each given as file
/// size and number of copies (two or more).
pub fn duplicate_totals(groups: &Vec<(i64, usize)>) -> (r: DuplicateResult)
    requires
        forall|k: int| 0 <= k < groups@.len() ==> (#[trigger] groups@[k]).1 >= 2,
        forall|k: int| 0 <= k < groups@.len() ==> (#[trigger] groups@[k]).1 <= i64::MAX,
        forall|k: int|
            0 <= k < groups@.len() ==> i64::MIN <= ((#[trigger] groups@[k]).1 - 1) * groups@[k].0 <= i64::MAX,
        wasted_fits(groups@),
        groups@.len() <= i64::MAX,
    ensures
        r.groups_found == groups@.len(),
        r.wasted_bytes == wasted(groups@),
{
    let mut total: i64 = 0;
    let mut found: i64 = 0;
    let mut i: usize = 0;
    assert(groups@.take(0) =~= Seq::<(i64, usize)>::empty());
    while i < groups.len()
        invariant
            i <= groups@.len() <= i64::MAX,
            found == i,
            total == wasted(groups@.take(i as int)),
            forall|k: int| 0 <= k < groups@.len() ==> (#[trigger] groups@[k]).1 >= 2,
            forall|k: int| 0 <= k < groups@.len() ==> (#[trigger] groups@[k]).1 <= i64::MAX,
            forall|k: int|
                0 <= k < groups@.len() ==> i64::MIN <= ((#[trigger] groups@[k]).1 - 1) * groups@[k].0 <= i64::MAX,
            wasted_fits(groups@),
        decreases groups.len() - i,
    {
        let (size, count) = groups[i];
        proof {
            assert(groups@.take(i + 1).drop_last() =~= groups@.take(i as int));
            assert(groups@.take(i + 1).last() == groups@[i as int]);
            assert(i64::MIN <= wasted(groups@.take(i + 1)) <= i64::MAX);
        }
        let extra: i64 = (count as i64 - 1) * size;
        total = total + extra;
        found = found + 1;
        i = i + 1;
    }
    assert(groups@.take(groups.len() as int) =~= groups@);
    DuplicateResult { groups_found: found, wasted_bytes: total }
}

/// Wasted bytes of stored duplicate groups: size times copies beyond one.
pub open spec fn stored_wasted(groups: Seq<DuplicateGroupRecord>) -> int
    decreases groups.len(),
{
    if groups.len() == 0 {
        0
    } else {
        stored_wasted(groups.drop_last()) + groups.last().file_size * (groups.last().file_count - 1)
    }
}

/// Wasted bytes of stored duplicate groups.
pub fn stored_wasted_bytes(groups: &Vec<DuplicateGroupRecord>) -> (r: i64)
    requires
        forall|k: int|
            0 <= k <= groups@.len() ==> i64::MIN <= #[trigger] stored_wasted(groups@.take(k)) <= i64::MAX,
        forall|k: int|
            0 <= k < groups@.len() ==> i64::MIN <= (#[trigger] groups@[k]).file_count - 1 <= i64::MAX
                && i64::MIN <= groups@[k].file_size * (groups@[k].file_count - 1) <= i64::MAX,
    ensures
        r == stored_wasted(groups@),
{
    let mut total: i64 = 0;
    let mut i: usize = 0;
    assert(groups@.take(0) =~= Seq::<DuplicateGroupRecord>::empty());
    while i < groups.len()
        invariant
            i <= groups@.len(),
            total == stored_wasted(groups@.take(i as int)),
            forall|k: int|
                0 <= k <= groups@.len() ==> i64::MIN <= #[trigger] stored_wasted(groups@.take(k)) <= i64::MAX,
            forall|k: int|
                0 <= k < groups@.len() ==> i64::MIN <= (#[trigger] groups@[k]).file_count - 1 <= i64::MAX
                    && i64::MIN <= groups@[k].file_size * (groups@[k].file_count - 1) <= i64::MAX,
        decreases groups.len() - i,
    {
        proof {
            assert(groups@.take(i + 1).drop_last() =~= groups@.take(i as int));
            assert(groups@.take(i + 1).last() == groups@[i as int]);
            assert(i64::MIN <= stored_wasted(groups@.take(i + 1)) <= i64::MAX);
        }
        let g = &groups[i];
        let w: i64 = g.file_size * (g.file_count - 1);
        total = total + w;
        i = i + 1;
    }
    assert(groups@.take(groups.len() as int) =~= groups@);
    total
}

} // verus!
