//! Listing records latest first by their time stamps (RFC 3339 text,
//! which sorts as the times do).
use vstd::prelude::*;
use crate::text::chars_of;

verus! {

/// Text order: by code point, a proper prefix first (the order of Rust's
/// strings, whose UTF-8 bytes sort as their code points do).
pub open spec fn text_lt(a: Seq<char>, b: Seq<char>) -> bool
    decreases a.len(),
{
    if a.len() == 0 {
        b.len() > 0
    } else if b.len() == 0 {
        false
    } else if a[0] != b[0] {
        (a[0] as int) < (b[0] as int)
    } else {
        text_lt(a.drop_first(), b.drop_first())
    }
}

proof fn lemma_text_lt_irreflexive(a: Seq<char>)
    ensures
        !text_lt(a, a),
    decreases a.len(),
{
    if a.len() > 0 {
        lemma_text_lt_irreflexive(a.drop_first());
    }
}

proof fn lemma_text_lt_total(a: Seq<char>, b: Seq<char>)
    ensures
        a != b ==> text_lt(a, b) || text_lt(b, a),
    decreases a.len(),
{
    if a.len() == 0 {
        if b.len() == 0 {
            assert(a =~= b);
        }
    } else if b.len() > 0 && a[0] == b[0] {
        lemma_text_lt_total(a.drop_first(), b.drop_first());
        if a.drop_first() == b.drop_first() {
            assert(a =~= seq![a[0]] + a.drop_first());
            assert(b =~= seq![b[0]] + b.drop_first());
        }
    }
}

proof fn lemma_text_lt_transitive(a: Seq<char>, b: Seq<char>, c: Seq<char>)
    requires
        text_lt(a, b),
        text_lt(b, c),
    ensures
        text_lt(a, c),
    decreases a.len(),
{
    if a.len() > 0 && b.len() > 0 && c.len() > 0 && a[0] == b[0] && b[0] == c[0] {
        lemma_text_lt_transitive(a.drop_first(), b.drop_first(), c.drop_first());
    }
}

proof fn lemma_text_lt_asymmetric(a: Seq<char>, b: Seq<char>)
    ensures
        text_lt(a, b) ==> !text_lt(b, a),
{
    if text_lt(a, b) && text_lt(b, a) {
        lemma_text_lt_transitive(a, b, a);
        lemma_text_lt_irreflexive(a);
    }
}

/// Law: the text order is a strict total order: no text is before itself,
/// of two texts at most one is before the other and, when they differ,
/// one is, and it is transitive. So "latest first" is well defined.
pub proof fn lemma_text_order_strict_total(a: Seq<char>, b: Seq<char>, c: Seq<char>)
    ensures
        !text_lt(a, a),
        text_lt(a, b) ==> !text_lt(b, a),
        a != b ==> text_lt(a, b) || text_lt(b, a),
        text_lt(a, b) && text_lt(b, c) ==> text_lt(a, c),
{
    lemma_text_lt_irreflexive(a);
    lemma_text_lt_asymmetric(a, b);
    lemma_text_lt_total(a, b);
    if text_lt(a, b) && text_lt(b, c) {
        lemma_text_lt_transitive(a, b, c);
    }
}

/// Whether `a` sorts before `b`.
pub fn text_less(a: &str, b: &str) -> (r: bool)
    ensures
        r == text_lt(a@, b@),
{
    let x = chars_of(a);
    let y = chars_of(b);
    let mut k: usize = 0;
    assert(x@.subrange(0, x@.len() as int) =~= x@);
    assert(y@.subrange(0, y@.len() as int) =~= y@);
    while k < x.len() && k < y.len() && x[k] == y[k]
        invariant
            k <= x@.len(),
            k <= y@.len(),
            x@ == a@,
            y@ == b@,
            text_lt(a@, b@) == text_lt(x@.subrange(k as int, x@.len() as int), y@.subrange(k as int, y@.len() as int)),
        decreases x.len() - k,
    {
        assert(x@.subrange(k as int, x@.len() as int).drop_first() =~= x@.subrange(k + 1, x@.len() as int));
        assert(y@.subrange(k as int, y@.len() as int).drop_first() =~= y@.subrange(k + 1, y@.len() as int));
        k = k + 1;
    }
    let ghost xs = x@.subrange(k as int, x@.len() as int);
    let ghost ys = y@.subrange(k as int, y@.len() as int);
    if k == x.len() {
        k < y.len()
    } else if k == y.len() {
        false
    } else {
        assert(xs[0] == x@[k as int] && ys[0] == y@[k as int]);
        assert(xs.len() > 0 && ys.len() > 0 && xs[0] != ys[0]);
        x[k] < y[k]
    }
}

/// Record `p` is listed before record `q`: its time stamp is later, or
/// the same and it comes first.
pub open spec fn listed_before(keys: Seq<Seq<char>>, p: int, q: int) -> bool {
    text_lt(keys[q], keys[p]) || (keys[p] == keys[q] && p < q)
}

/// The positions of the records to list, given each record's time stamp:
/// the latest first (ties in their given order), at most `limit` of them.
pub open spec fn latest_first_ok(keys: Seq<Seq<char>>, limit: nat, r: Seq<usize>) -> bool {
    &&& r.len() == (if keys.len() < limit { keys.len() } else { limit })
    &&& forall|a: int| 0 <= a < r.len() ==> (#[trigger] r[a]) < keys.len()
    &&& forall|a: int, b: int| 0 <= a < b < r.len() ==> listed_before(keys, r[a] as int, r[b] as int)
    &&& forall|q: int, a: int|
        0 <= q < keys.len() && 0 <= a < r.len() && !r.contains(q as usize) ==> #[trigger] listed_before(
            keys,
            r[a] as int,
            q,
        )
}

proof fn lemma_listed_before_transitive(keys: Seq<Seq<char>>, p: int, q: int, t: int)
    requires
        listed_before(keys, p, q),
        listed_before(keys, q, t),
    ensures
        listed_before(keys, p, t),
{
    if text_lt(keys[q], keys[p]) && text_lt(keys[t], keys[q]) {
        lemma_text_lt_transitive(keys[t], keys[q], keys[p]);
    }
}

/// Orders records by time stamp, latest first, and keeps the first
/// `limit`; returns their positions.
pub fn latest_first(keys: &Vec<String>, limit: usize) -> (r: Vec<usize>)
    ensures
        latest_first_ok(keys@.map_values(|s: String| s@), limit as nat, r@),
{
    let ghost kv = keys@.map_values(|s: String| s@);
    let n = keys.len();
    let want = if n < limit { n } else { limit };
    let mut taken: Vec<bool> = Vec::new();
    let mut t: usize = 0;
    while t < n
        invariant
            t <= n == keys@.len(),
            taken@.len() == t,
            forall|q: int| 0 <= q < t ==> !(#[trigger] taken@[q]),
        decreases n - t,
    {
        taken.push(false);
        t = t + 1;
    }
    let mut r: Vec<usize> = Vec::new();
    while r.len() < want
        invariant
            n == keys@.len(),
            kv == keys@.map_values(|s: String| s@),
            want == (if n < limit { n } else { limit }),
            r@.len() <= want,
            taken@.len() == n,
            forall|q: int| 0 <= q < n ==> (#[trigger] taken@[q] <==> r@.contains(q as usize)),
            forall|a: int| 0 <= a < r@.len() ==> (#[trigger] r@[a]) < n,
            forall|a: int, b: int| 0 <= a < b < r@.len() ==> listed_before(kv, r@[a] as int, r@[b] as int),
            forall|q: int, a: int|
                0 <= q < n && 0 <= a < r@.len() && !r@.contains(q as usize) ==> #[trigger] listed_before(
                    kv,
                    r@[a] as int,
                    q,
                ),
        decreases want - r@.len(),
    {
        // Some entry is left: fewer than `n` are taken.
        proof {
            assert(r@.len() < n);
            if forall|q: int| 0 <= q < n ==> #[trigger] taken@[q] {
                assert forall|q: usize| q < n implies #[trigger] r@.contains(q) by {
                    assert(taken@[q as int]);
                }
                lemma_distinct_prefix_len(r@, n);
            }
        }
        let mut best: usize = 0;
        let mut found = false;
        let mut q: usize = 0;
        while q < n
            invariant
                n == keys@.len(),
                kv == keys@.map_values(|s: String| s@),
                taken@.len() == n,
                q <= n,
                found ==> best < q && !taken@[best as int],
                !found ==> forall|x: int| 0 <= x < q ==> #[trigger] taken@[x],
                found ==> forall|x: int|
                    0 <= x < q && !taken@[x] && x != best ==> #[trigger] listed_before(kv, best as int, x),
            decreases n - q,
        {
            if !taken[q] {
                if !found {
                    found = true;
                    best = q;
                } else {
                    let later = text_less(keys[best].as_str(), keys[q].as_str());
                    proof {
                        assert(kv[q as int] == keys@[q as int]@);
                        assert(kv[best as int] == keys@[best as int]@);
                    }
                    if later {
                        proof {
                            assert forall|x: int|
                                0 <= x < q + 1 && !taken@[x] && x != q implies #[trigger] listed_before(
                                    kv,
                                    q as int,
                                    x,
                                ) by {
                                if x != best {
                                    lemma_listed_before_transitive(kv, q as int, best as int, x);
                                }
                            }
                        }
                        best = q;
                    } else {
                        proof {
                            lemma_text_lt_total(kv[q as int], kv[best as int]);
                            assert(listed_before(kv, best as int, q as int));
                        }
                    }
                }
            }
            q = q + 1;
        }
        proof {
            if !found {
                assert forall|x: usize| x < n implies #[trigger] r@.contains(x) by {
                    assert(taken@[x as int]);
                }
                lemma_distinct_prefix_len(r@, n);
                assert(false);
            }
        }
        let ghost r0 = r@;
        let ghost t0 = taken@;
        r.push(best);
        taken.set(best, true);
        proof {
            assert(taken@ == t0.update(best as int, true));
            assert(!r0.contains(best));
            assert(r@ == r0.push(best));
            assert forall|x: int| 0 <= x < n implies (#[trigger] taken@[x] <==> r@.contains(x as usize)) by {
                if x == best as int {
                    assert(r@[r0.len() as int] == best);
                    assert(r@.contains(x as usize));
                } else {
                    assert(taken@[x] == t0[x]);
                    if r0.contains(x as usize) {
                        let k = choose|k: int| 0 <= k < r0.len() && r0[k] == x as usize;
                        assert(r@[k] == x as usize);
                    }
                    if r@.contains(x as usize) {
                        let k = choose|k: int| 0 <= k < r@.len() && r@[k] == x as usize;
                        if k < r0.len() {
                            assert(r0[k] == x as usize);
                        } else {
                            assert(r@[k] == best);
                        }
                    }
                }
            }
            assert forall|a: int, b: int| 0 <= a < b < r@.len() implies listed_before(kv, r@[a] as int, r@[b] as int) by {
                if b == r0.len() {
                    assert(r@[a] == r0[a]);
                } else {
                    assert(r@[a] == r0[a] && r@[b] == r0[b]);
                }
            }
            assert forall|x: int, a: int|
                0 <= x < n && 0 <= a < r@.len() && !r@.contains(x as usize) implies #[trigger] listed_before(
                    kv,
                    r@[a] as int,
                    x,
                ) by {
                assert(!r0.contains(x as usize)) by {
                    if r0.contains(x as usize) {
                        let k = choose|k: int| 0 <= k < r0.len() && r0[k] == x as usize;
                        assert(r@[k] == x as usize);
                    }
                }
                if a < r0.len() {
                    assert(r@[a] == r0[a]);
                } else {
                    assert(r@[a] == best);
                    assert(x != best) by {
                        assert(r@[r0.len() as int] == best);
                    }
                    assert(!taken@[x]);
                }
            }
        }
    }
    r
}

/// A sequence of distinct positions below `n` that covers all of them is
/// at least `n` long.
proof fn lemma_distinct_prefix_len(r: Seq<usize>, n: usize)
    requires
        forall|q: usize| q < n ==> #[trigger] r.contains(q),
    ensures
        r.len() >= n,
{
    let s = Set::new(|q: usize| q < n);
    let rs = r.to_set();
    assert(s.subset_of(rs)) by {
        assert forall|q: usize| s.contains(q) implies rs.contains(q) by {
            assert(r.contains(q));
        }
    }
    vstd::set_lib::lemma_len_subset(s, rs);
    r.lemma_cardinality_of_set();
    lemma_range_set_len(n);
}

proof fn lemma_range_set_len(n: usize)
    ensures
        Set::new(|q: usize| q < n).len() == n,
        Set::new(|q: usize| q < n).finite(),
    decreases n,
{
    if n == 0 {
        assert(Set::new(|q: usize| q < n) =~= Set::<usize>::empty());
    } else {
        lemma_range_set_len((n - 1) as usize);
        assert(Set::new(|q: usize| q < n) =~= Set::new(|q: usize| q < (n - 1) as usize).insert((n - 1) as usize));
    }
}

} // verus!
