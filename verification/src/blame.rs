//! Line blame: which snapshot introduced each line of a file.
//!
//! A blame entry is `(line, scan id, detected at)`. Going from one snapshot
//! to the next, lines that the longest common subsequence keeps inherit
//! their old entry, and the other lines are attributed to the new snapshot.
use vstd::prelude::*;
use crate::records::BlameLine;
use crate::text::{lines_exec, lines_spec, owned};

verus! {

/// One blamed line: its text, the snapshot that introduced it, and when.
pub type BlameEntry = (String, Option<i64>, Option<String>);

/// Larger inputs use the position-by-position comparison instead of the
/// quadratic table.
pub const LCS_LIMIT: usize = 2500;

/// `e` is the entry the new snapshot gives to a line with text `line`.
pub open spec fn fresh_entry(e: BlameEntry, line: Seq<char>, id: i64, at: Seq<char>) -> bool {
    &&& e.0@ == line
    &&& e.1 == Some(id)
    &&& e.2 matches Some(a) && a@ == at
}

/// What every blame step guarantees: one entry per new line, carrying that
/// line's text, and each entry either inherited unchanged from the old
/// blame or fresh for the new snapshot.
pub open spec fn blame_step_ok(
    old: Seq<BlameEntry>,
    new_lines: Seq<String>,
    id: i64,
    at: Seq<char>,
    r: Seq<BlameEntry>,
) -> bool {
    &&& r.len() == new_lines.len()
    &&& forall|k: int| 0 <= k < r.len() ==> (#[trigger] r[k]).0@ == new_lines[k]@
    &&& forall|k: int|
        0 <= k < r.len() ==> fresh_entry(#[trigger] r[k], new_lines[k]@, id, at) || exists|i: int|
            0 <= i < old.len() && r[k] == old[i]
}

/// A blame entry as values: line text, snapshot id, detection time.
pub type BlameView = (Seq<char>, Option<i64>, Option<Seq<char>>);

/// The text of an optional string.
pub open spec fn opt_text(o: Option<String>) -> Option<Seq<char>> {
    match o {
        Some(s) => Some(s@),
        None => None,
    }
}

/// A blame entry seen as values.
pub open spec fn entry_view(e: BlameEntry) -> BlameView {
    (e.0@, e.1, opt_text(e.2))
}

/// The entry the new snapshot gives to a line it introduced.
pub open spec fn fresh_view(line: Seq<char>, id: i64, at: Seq<char>) -> BlameView {
    (line, Some(id), Some(at))
}

/// Length of a longest common subsequence of the first `i` lines of `a`
/// and the first `j` lines of `b`.
pub open spec fn lcs_len(a: Seq<Seq<char>>, b: Seq<Seq<char>>, i: nat, j: nat) -> int
    decreases i + j,
{
    if i == 0 || j == 0 {
        0
    } else if a[i - 1] == b[j - 1] {
        lcs_len(a, b, (i - 1) as nat, (j - 1) as nat) + 1
    } else {
        let up = lcs_len(a, b, (i - 1) as nat, j);
        let left = lcs_len(a, b, i, (j - 1) as nat);
        if up >= left {
            up
        } else {
            left
        }
    }
}

/// The texts of blame entries.
pub open spec fn texts(old: Seq<BlameView>) -> Seq<Seq<char>> {
    old.map_values(|v: BlameView| v.0)
}

/// The blame of the first `j` new lines, walking the table back from
/// `(i, j)`: a line equal to the current old line inherits its entry; else
/// a new line is preferred over skipping an old one when that keeps the
/// common subsequence as long.
pub open spec fn lcs_walk(
    old: Seq<BlameView>,
    news: Seq<Seq<char>>,
    id: i64,
    at: Seq<char>,
    i: nat,
    j: nat,
) -> Seq<BlameView>
    decreases i + j,
{
    if i == 0 && j == 0 {
        Seq::empty()
    } else if i > 0 && j > 0 && old[i - 1].0 == news[j - 1] {
        lcs_walk(old, news, id, at, (i - 1) as nat, (j - 1) as nat).push(old[i - 1])
    } else if j > 0 && (i == 0 || lcs_len(texts(old), news, i, (j - 1) as nat) >= lcs_len(
        texts(old),
        news,
        (i - 1) as nat,
        j,
    )) {
        lcs_walk(old, news, id, at, i, (j - 1) as nat).push(fresh_view(news[j - 1], id, at))
    } else {
        lcs_walk(old, news, id, at, (i - 1) as nat, j)
    }
}

/// The blame of the new lines when the files are too large for the table:
/// a line keeps its entry only where the old file had the same text at the
/// same index.
pub open spec fn positional_blame(old: Seq<BlameView>, news: Seq<Seq<char>>, id: i64, at: Seq<char>) -> Seq<BlameView> {
    Seq::new(
        news.len(),
        |k: int|
            if k < old.len() && old[k].0 == news[k] {
                old[k]
            } else {
                fresh_view(news[k], id, at)
            },
    )
}

/// One blame step from the blame of the previous snapshot to the lines of
/// the next one.
pub open spec fn blame_step(old: Seq<BlameView>, news: Seq<Seq<char>>, id: i64, at: Seq<char>) -> Seq<BlameView> {
    if old.len() > LCS_LIMIT || news.len() > LCS_LIMIT {
        positional_blame(old, news, id, at)
    } else {
        lcs_walk(old, news, id, at, old.len(), news.len())
    }
}

/// The table never exceeds the number of old lines considered.
proof fn lemma_lcs_bounds(a: Seq<Seq<char>>, b: Seq<Seq<char>>, i: nat, j: nat)
    ensures
        0 <= lcs_len(a, b, i, j) <= i,
        lcs_len(a, b, i, j) <= j,
    decreases i + j,
{
    if i > 0 && j > 0 {
        lemma_lcs_bounds(a, b, (i - 1) as nat, (j - 1) as nat);
        lemma_lcs_bounds(a, b, (i - 1) as nat, j);
        lemma_lcs_bounds(a, b, i, (j - 1) as nat);
    }
}

/// The walk yields one entry per new line.
proof fn lemma_walk_len(old: Seq<BlameView>, news: Seq<Seq<char>>, id: i64, at: Seq<char>, i: nat, j: nat)
    ensures
        lcs_walk(old, news, id, at, i, j).len() == j,
    decreases i + j,
{
    if i == 0 && j == 0 {
    } else if i > 0 && j > 0 && old[i - 1].0 == news[j - 1] {
        lemma_walk_len(old, news, id, at, (i - 1) as nat, (j - 1) as nat);
    } else if j > 0 && (i == 0 || lcs_len(texts(old), news, i, (j - 1) as nat) >= lcs_len(
        texts(old),
        news,
        (i - 1) as nat,
        j,
    )) {
        lemma_walk_len(old, news, id, at, i, (j - 1) as nat);
    } else {
        lemma_walk_len(old, news, id, at, (i - 1) as nat, j);
    }
}

/// `s` lists index pairs of equal lines of `a` and `b`, increasing in
/// both: a common subsequence of the two line lists.
pub open spec fn is_common_subsequence(a: Seq<Seq<char>>, b: Seq<Seq<char>>, s: Seq<(int, int)>) -> bool {
    &&& forall|k: int|
        0 <= k < s.len() ==> 0 <= (#[trigger] s[k]).0 < a.len() && 0 <= s[k].1 < b.len() && a[s[k].0]
            == b[s[k].1]
    &&& forall|k1: int, k2: int| 0 <= k1 < k2 < s.len() ==> s[k1].0 < s[k2].0 && s[k1].1 < s[k2].1
}

/// The pairs `(old index, new index)` at which the walk lets a new line
/// inherit an old entry.
pub open spec fn walk_pairs(old: Seq<BlameView>, news: Seq<Seq<char>>, i: nat, j: nat) -> Seq<(int, int)>
    decreases i + j,
{
    if i == 0 && j == 0 {
        Seq::empty()
    } else if i > 0 && j > 0 && old[i - 1].0 == news[j - 1] {
        walk_pairs(old, news, (i - 1) as nat, (j - 1) as nat).push((i - 1, j - 1))
    } else if j > 0 && (i == 0 || lcs_len(texts(old), news, i, (j - 1) as nat) >= lcs_len(
        texts(old),
        news,
        (i - 1) as nat,
        j,
    )) {
        walk_pairs(old, news, i, (j - 1) as nat)
    } else {
        walk_pairs(old, news, (i - 1) as nat, j)
    }
}

/// The table grows by at most one per line, and never shrinks.
proof fn lemma_lcs_steps(a: Seq<Seq<char>>, b: Seq<Seq<char>>, i: nat, j: nat)
    ensures
        i > 0 ==> lcs_len(a, b, (i - 1) as nat, j) <= lcs_len(a, b, i, j) <= lcs_len(a, b, (i - 1) as nat, j) + 1,
        j > 0 ==> lcs_len(a, b, i, (j - 1) as nat) <= lcs_len(a, b, i, j) <= lcs_len(a, b, i, (j - 1) as nat) + 1,
    decreases i + j,
{
    if i > 0 && j > 0 {
        lemma_lcs_steps(a, b, (i - 1) as nat, j);
        lemma_lcs_steps(a, b, i, (j - 1) as nat);
        lemma_lcs_steps(a, b, (i - 1) as nat, (j - 1) as nat);
    }
}

/// No common subsequence within the first `i` and `j` lines is longer than
/// the table's entry.
proof fn lemma_lcs_upper(a: Seq<Seq<char>>, b: Seq<Seq<char>>, i: nat, j: nat, s: Seq<(int, int)>)
    requires
        is_common_subsequence(a, b, s),
        forall|k: int| 0 <= k < s.len() ==> (#[trigger] s[k]).0 < i && s[k].1 < j,
    ensures
        s.len() <= lcs_len(a, b, i, j),
    decreases i + j,
{
    lemma_lcs_bounds(a, b, i, j);
    if s.len() > 0 {
        let last = s.last();
        assert(last == s[s.len() - 1]);
        let rest = s.drop_last();
        assert(is_common_subsequence(a, b, rest)) by {
            assert forall|k: int| 0 <= k < rest.len() implies 0 <= (#[trigger] rest[k]).0 < a.len()
                && 0 <= rest[k].1 < b.len() && a[rest[k].0] == b[rest[k].1] by {
                assert(rest[k] == s[k]);
            }
            assert forall|k1: int, k2: int| 0 <= k1 < k2 < rest.len() implies rest[k1].0 < rest[k2].0
                && rest[k1].1 < rest[k2].1 by {
                assert(rest[k1] == s[k1] && rest[k2] == s[k2]);
            }
        }
        lemma_lcs_steps(a, b, i, j);
        if last.0 == i - 1 && last.1 == j - 1 {
            assert forall|k: int| 0 <= k < rest.len() implies (#[trigger] rest[k]).0 < i - 1 && rest[k].1
                < j - 1 by {
                assert(rest[k] == s[k]);
            }
            lemma_lcs_upper(a, b, (i - 1) as nat, (j - 1) as nat, rest);
            assert(a[i - 1] == b[j - 1]);
            assert(lcs_len(a, b, i, j) == lcs_len(a, b, (i - 1) as nat, (j - 1) as nat) + 1);
            assert(s.len() == rest.len() + 1);
        } else if last.0 < i - 1 {
            assert forall|k: int| 0 <= k < s.len() implies (#[trigger] s[k]).0 < i - 1 && s[k].1 < j by {
                if k < s.len() - 1 {
                    assert(s[k].0 < last.0);
                }
            }
            lemma_lcs_upper(a, b, (i - 1) as nat, j, s);
            assert(s.len() <= lcs_len(a, b, i, j));
        } else {
            assert(last.1 < j - 1);
            assert forall|k: int| 0 <= k < s.len() implies (#[trigger] s[k]).0 < i && s[k].1 < j - 1 by {
                if k < s.len() - 1 {
                    assert(s[k].1 < last.1);
                }
            }
            lemma_lcs_upper(a, b, i, (j - 1) as nat, s);
            assert(s.len() <= lcs_len(a, b, i, j));
        }
    }
}

/// The walk's pairs are a common subsequence of the table's length, within
/// the first `i` and `j` lines, and the walk gives each paired new line its
/// old entry and every other new line a fresh one.
proof fn lemma_walk_pairs(old: Seq<BlameView>, news: Seq<Seq<char>>, id: i64, at: Seq<char>, i: nat, j: nat)
    requires
        i <= old.len(),
        j <= news.len(),
    ensures
        ({
            let ps = walk_pairs(old, news, i, j);
            let w = lcs_walk(old, news, id, at, i, j);
            &&& is_common_subsequence(texts(old), news, ps)
            &&& forall|k: int| 0 <= k < ps.len() ==> (#[trigger] ps[k]).0 < i && ps[k].1 < j
            &&& ps.len() == lcs_len(texts(old), news, i, j)
            &&& w.len() == j
            &&& forall|k: int| 0 <= k < ps.len() ==> w[(#[trigger] ps[k]).1] == old[ps[k].0]
            &&& forall|q: int|
                0 <= q < j && (forall|k: int| 0 <= k < ps.len() ==> (#[trigger] ps[k]).1 != q) ==> w[q]
                    == fresh_view(news[q], id, at)
        }),
    decreases i + j,
{
    lemma_walk_len(old, news, id, at, i, j);
    let ps = walk_pairs(old, news, i, j);
    let w = lcs_walk(old, news, id, at, i, j);
    if i == 0 && j == 0 {
    } else if i > 0 && j > 0 && old[i - 1].0 == news[j - 1] {
        let ni = (i - 1) as nat;
        let nj = (j - 1) as nat;
        lemma_walk_pairs(old, news, id, at, ni, nj);
        let ps0 = walk_pairs(old, news, ni, nj);
        let w0 = lcs_walk(old, news, id, at, ni, nj);
        assert(ps == ps0.push((i - 1, j - 1)));
        assert(w == w0.push(old[i - 1]));
        assert(texts(old)[i - 1] == old[i - 1].0);
        assert forall|k: int| 0 <= k < ps.len() implies 0 <= (#[trigger] ps[k]).0 < texts(old).len() && 0
            <= ps[k].1 < news.len() && texts(old)[ps[k].0] == news[ps[k].1] by {
            if k < ps0.len() {
                assert(ps[k] == ps0[k]);
            }
        }
        assert forall|k1: int, k2: int| 0 <= k1 < k2 < ps.len() implies ps[k1].0 < ps[k2].0 && ps[k1].1
            < ps[k2].1 by {
            assert(ps[k1] == ps0[k1]);
            if k2 < ps0.len() {
                assert(ps[k2] == ps0[k2]);
            }
        }
        assert forall|k: int| 0 <= k < ps.len() implies (#[trigger] ps[k]).0 < i && ps[k].1 < j by {
            if k < ps0.len() {
                assert(ps[k] == ps0[k]);
            }
        }
        assert forall|k: int| 0 <= k < ps.len() implies w[(#[trigger] ps[k]).1] == old[ps[k].0] by {
            if k < ps0.len() {
                assert(ps[k] == ps0[k]);
                assert(w[ps0[k].1] == w0[ps0[k].1]);
            }
        }
        assert forall|q: int|
            0 <= q < j && (forall|k: int| 0 <= k < ps.len() ==> (#[trigger] ps[k]).1 != q) implies w[q]
                == fresh_view(news[q], id, at) by {
            assert(ps[ps.len() - 1].1 == j - 1);
            assert forall|k: int| 0 <= k < ps0.len() implies (#[trigger] ps0[k]).1 != q by {
                assert(ps[k] == ps0[k]);
            }
            assert(w[q] == w0[q]);
        }
    } else if j > 0 && (i == 0 || lcs_len(texts(old), news, i, (j - 1) as nat) >= lcs_len(
        texts(old),
        news,
        (i - 1) as nat,
        j,
    )) {
        let nj = (j - 1) as nat;
        lemma_walk_pairs(old, news, id, at, i, nj);
        let w0 = lcs_walk(old, news, id, at, i, nj);
        assert(ps == walk_pairs(old, news, i, nj));
        assert(w == w0.push(fresh_view(news[j - 1], id, at)));
        assert forall|k: int| 0 <= k < ps.len() implies w[(#[trigger] ps[k]).1] == old[ps[k].0] by {
            assert(w[ps[k].1] == w0[ps[k].1]);
        }
        assert forall|q: int|
            0 <= q < j && (forall|k: int| 0 <= k < ps.len() ==> (#[trigger] ps[k]).1 != q) implies w[q]
                == fresh_view(news[q], id, at) by {
            if q < j - 1 {
                assert(w[q] == w0[q]);
            }
        }
    } else {
        let ni = (i - 1) as nat;
        lemma_walk_pairs(old, news, id, at, ni, j);
        lemma_lcs_steps(texts(old), news, i, j);
        assert forall|k: int| 0 <= k < ps.len() implies (#[trigger] ps[k]).0 < i && ps[k].1 < j by {}
    }
}

/// Blame keeps a longest common subsequence of lines: within the table's
/// size limit, the new lines that inherit an entry are paired, in order,
/// with equal old lines, no common subsequence of the two line lists is
/// longer, each paired line carries its old line's entry, and every other
/// line carries the new snapshot's entry.
pub proof fn lemma_blame_keeps_lcs(
    old: Seq<BlameView>,
    news: Seq<Seq<char>>,
    id: i64,
    at: Seq<char>,
    other: Seq<(int, int)>,
)
    requires
        old.len() <= LCS_LIMIT,
        news.len() <= LCS_LIMIT,
        is_common_subsequence(texts(old), news, other),
    ensures
        ({
            let ps = walk_pairs(old, news, old.len(), news.len());
            let r = blame_step(old, news, id, at);
            &&& is_common_subsequence(texts(old), news, ps)
            &&& other.len() <= ps.len()
            &&& r.len() == news.len()
            &&& forall|k: int| 0 <= k < ps.len() ==> r[(#[trigger] ps[k]).1] == old[ps[k].0]
            &&& forall|q: int|
                0 <= q < news.len() && (forall|k: int| 0 <= k < ps.len() ==> (#[trigger] ps[k]).1 != q)
                    ==> r[q] == fresh_view(news[q], id, at)
        }),
{
    lemma_walk_pairs(old, news, id, at, old.len(), news.len());
    assert forall|k: int| 0 <= k < other.len() implies (#[trigger] other[k]).0 < old.len() && other[k].1
        < news.len() by {}
    lemma_lcs_upper(texts(old), news, old.len(), news.len(), other);
}

fn clone_opt_string(o: &Option<String>) -> (r: Option<String>)
    ensures
        r == *o,
{
    match o {
        Some(s) => Some(s.clone()),
        None => None,
    }
}

fn clone_entry(e: &BlameEntry) -> (r: BlameEntry)
    ensures
        r == *e,
{
    (e.0.clone(), e.1, clone_opt_string(&e.2))
}

fn fresh(line: &String, id: i64, at: &String) -> (r: BlameEntry)
    ensures
        fresh_entry(r, line@, id, at@),
        entry_view(r) == fresh_view(line@, id, at@),
{
    (line.clone(), Some(id), Some(at.clone()))
}

/// The longest-common-subsequence table: `dp[i][j]` is the length for the
/// first `i` old lines and the first `j` new lines.
fn lcs_table(old_blame: &[BlameEntry], new_lines: &[String]) -> (dp: Vec<Vec<i32>>)
    requires
        old_blame@.len() <= LCS_LIMIT,
        new_lines@.len() <= LCS_LIMIT,
    ensures
        dp@.len() == old_blame@.len() + 1,
        forall|a: int| 0 <= a < dp@.len() ==> (#[trigger] dp@[a])@.len() == new_lines@.len() + 1,
        forall|a: int, b: int|
            0 <= a < dp@.len() && 0 <= b <= new_lines@.len() ==> #[trigger] dp@[a]@[b] == lcs_len(
                texts(old_blame@.map_values(|e: BlameEntry| entry_view(e))),
                new_lines@.map_values(|s: String| s@),
                a as nat,
                b as nat,
            ),
{
    let ghost ov = texts(old_blame@.map_values(|e: BlameEntry| entry_view(e)));
    let ghost nv = new_lines@.map_values(|s: String| s@);
    let n = old_blame.len();
    let m = new_lines.len();
    let mut dp: Vec<Vec<i32>> = Vec::new();
    let mut i: usize = 0;
    while i <= n
        invariant
            n <= LCS_LIMIT,
            m <= LCS_LIMIT,
            n == old_blame@.len(),
            m == new_lines@.len(),
            ov == texts(old_blame@.map_values(|e: BlameEntry| entry_view(e))),
            nv == new_lines@.map_values(|s: String| s@),
            i <= n + 1,
            dp@.len() == i,
            forall|a: int| 0 <= a < dp@.len() ==> (#[trigger] dp@[a])@.len() == m + 1,
            forall|a: int, b: int|
                0 <= a < dp@.len() && 0 <= b <= m ==> #[trigger] dp@[a]@[b] == lcs_len(ov, nv, a as nat, b as nat),
        decreases n + 1 - i,
    {
        let mut row: Vec<i32> = Vec::new();
        row.push(0);
        let mut j: usize = 1;
        while j <= m
            invariant
                n <= LCS_LIMIT,
                m <= LCS_LIMIT,
                n == old_blame@.len(),
                m == new_lines@.len(),
                ov == texts(old_blame@.map_values(|e: BlameEntry| entry_view(e))),
                nv == new_lines@.map_values(|s: String| s@),
                i <= n,
                1 <= j <= m + 1,
                dp@.len() == i,
                row@.len() == j,
                forall|a: int| 0 <= a < dp@.len() ==> (#[trigger] dp@[a])@.len() == m + 1,
                forall|a: int, b: int|
                    0 <= a < dp@.len() && 0 <= b <= m ==> #[trigger] dp@[a]@[b] == lcs_len(ov, nv, a as nat, b as nat),
                forall|b: int| 0 <= b < row@.len() ==> #[trigger] row@[b] == lcs_len(ov, nv, i as nat, b as nat),
            decreases m + 1 - j,
        {
            proof {
                lemma_lcs_bounds(ov, nv, i as nat, j as nat);
                if i > 0 {
                    lemma_lcs_bounds(ov, nv, (i - 1) as nat, (j - 1) as nat);
                    assert(ov[i - 1] == old_blame@[i - 1].0@);
                    assert(nv[j - 1] == new_lines@[j - 1]@);
                }
            }
            let v: i32 = if i == 0 {
                0
            } else if old_blame[i - 1].0 == new_lines[j - 1] {
                dp[i - 1][j - 1] + 1
            } else {
                let up = dp[i - 1][j];
                let left = row[j - 1];
                if up >= left {
                    up
                } else {
                    left
                }
            };
            row.push(v);
            j = j + 1;
        }
        dp.push(row);
        i = i + 1;
    }
    dp
}

/// Blame for `new_lines` given the blame of the previous snapshot.
pub fn lcs_blame(
    old_blame: &[BlameEntry],
    new_lines: &[String],
    new_snap_id: i64,
    new_detected_at: String,
) -> (r: Vec<BlameEntry>)
    ensures
        r@.map_values(|e: BlameEntry| entry_view(e)) == blame_step(
            old_blame@.map_values(|e: BlameEntry| entry_view(e)),
            new_lines@.map_values(|s: String| s@),
            new_snap_id,
            new_detected_at@,
        ),
        blame_step_ok(old_blame@, new_lines@, new_snap_id, new_detected_at@, r@),
{
    let ghost ov = old_blame@.map_values(|e: BlameEntry| entry_view(e));
    let ghost nv = new_lines@.map_values(|s: String| s@);
    let n = old_blame.len();
    let m = new_lines.len();
    if n > LCS_LIMIT || m > LCS_LIMIT {
        // Position-by-position: a line keeps its entry only where the old
        // file had the same text at the same index.
        let ghost want = positional_blame(ov, nv, new_snap_id, new_detected_at@);
        let mut r: Vec<BlameEntry> = Vec::new();
        let mut idx: usize = 0;
        while idx < m
            invariant
                idx <= m == new_lines.len(),
                n == old_blame.len(),
                ov == old_blame@.map_values(|e: BlameEntry| entry_view(e)),
                nv == new_lines@.map_values(|s: String| s@),
                want == positional_blame(ov, nv, new_snap_id, new_detected_at@),
                r@.len() == idx,
                forall|k: int| 0 <= k < idx ==> entry_view(#[trigger] r@[k]) == want[k],
                blame_step_ok(
                    old_blame@,
                    new_lines@.subrange(0, idx as int),
                    new_snap_id,
                    new_detected_at@,
                    r@,
                ),
            decreases m - idx,
        {
            let same = idx < n && old_blame[idx].0 == new_lines[idx];
            let e = if same {
                clone_entry(&old_blame[idx])
            } else {
                fresh(&new_lines[idx], new_snap_id, &new_detected_at)
            };
            proof {
                if idx < n {
                    assert(ov[idx as int].0 == old_blame@[idx as int].0@);
                }
                assert(nv[idx as int] == new_lines@[idx as int]@);
                assert(entry_view(e) == want[idx as int]);
            }
            let ghost r0 = r@;
            r.push(e);
            proof {
                let nl = new_lines@.subrange(0, idx + 1);
                assert forall|k: int| 0 <= k < r@.len() implies (#[trigger] r@[k]).0@ == nl[k]@ by {
                    if k < idx {
                        assert(r@[k] == r0[k]);
                    }
                }
                assert forall|k: int| 0 <= k < r@.len() implies fresh_entry(
                    #[trigger] r@[k],
                    nl[k]@,
                    new_snap_id,
                    new_detected_at@,
                ) || exists|i: int| 0 <= i < old_blame@.len() && r@[k] == old_blame@[i] by {
                    if k < idx {
                        assert(r@[k] == r0[k]);
                        assert(nl[k] == new_lines@.subrange(0, idx as int)[k]);
                    } else if r@[k] == old_blame@[idx as int] {
                    }
                }
                assert forall|k: int| 0 <= k < idx + 1 implies entry_view(#[trigger] r@[k]) == want[k] by {
                    if k < idx {
                        assert(r@[k] == r0[k]);
                    }
                }
            }
            idx = idx + 1;
        }
        assert(new_lines@.subrange(0, m as int) =~= new_lines@);
        assert(r@.map_values(|e: BlameEntry| entry_view(e)) =~= want);
        return r;
    }
    let dp = lcs_table(old_blame, new_lines);
    let ghost w = lcs_walk(ov, nv, new_snap_id, new_detected_at@, n as nat, m as nat);
    proof {
        lemma_walk_len(ov, nv, new_snap_id, new_detected_at@, n as nat, m as nat);
        assert(texts(ov) == texts(old_blame@.map_values(|e: BlameEntry| entry_view(e))));
        assert(w.subrange(0, m as int) =~= w);
    }
    // Walk back from the bottom-right corner.
    let mut i: usize = n;
    let mut j: usize = m;
    let mut rev: Vec<BlameEntry> = Vec::new();
    while i > 0 || j > 0
        invariant
            n == old_blame.len(),
            m == new_lines.len(),
            ov == old_blame@.map_values(|e: BlameEntry| entry_view(e)),
            nv == new_lines@.map_values(|s: String| s@),
            w == lcs_walk(ov, nv, new_snap_id, new_detected_at@, n as nat, m as nat),
            w.len() == m,
            dp@.len() == n + 1,
            forall|a: int| 0 <= a < dp@.len() ==> (#[trigger] dp@[a])@.len() == m + 1,
            forall|a: int, b: int|
                0 <= a < dp@.len() && 0 <= b <= m ==> #[trigger] dp@[a]@[b] == lcs_len(
                    texts(ov),
                    nv,
                    a as nat,
                    b as nat,
                ),
            i <= n,
            j <= m,
            lcs_walk(ov, nv, new_snap_id, new_detected_at@, i as nat, j as nat) == w.subrange(0, j as int),
            rev@.len() == m - j,
            forall|k: int| 0 <= k < rev@.len() ==> entry_view(#[trigger] rev@[k]) == w[m - 1 - k],
            forall|k: int|
                0 <= k < rev@.len() ==> (#[trigger] rev@[k]).0@ == new_lines@[m - 1 - k]@,
            forall|k: int|
                0 <= k < rev@.len() ==> fresh_entry(
                    #[trigger] rev@[k],
                    new_lines@[m - 1 - k]@,
                    new_snap_id,
                    new_detected_at@,
                ) || exists|x: int| 0 <= x < old_blame@.len() && rev@[k] == old_blame@[x],
        decreases i + j,
    {
        let ghost wi = lcs_walk(ov, nv, new_snap_id, new_detected_at@, i as nat, j as nat);
        proof {
            if i > 0 {
                assert(ov[i - 1].0 == old_blame@[i - 1].0@);
            }
            if j > 0 {
                assert(nv[j - 1] == new_lines@[j - 1]@);
            }
        }
        if i > 0 && j > 0 && old_blame[i - 1].0 == new_lines[j - 1] {
            let e = clone_entry(&old_blame[i - 1]);
            proof {
                lemma_walk_len(ov, nv, new_snap_id, new_detected_at@, (i - 1) as nat, (j - 1) as nat);
                assert(wi == lcs_walk(ov, nv, new_snap_id, new_detected_at@, (i - 1) as nat, (j - 1) as nat).push(
                    ov[i - 1],
                ));
                assert(w[j - 1] == wi[j - 1]);
                assert(lcs_walk(ov, nv, new_snap_id, new_detected_at@, (i - 1) as nat, (j - 1) as nat)
                    =~= w.subrange(0, j - 1));
            }
            rev.push(e);
            proof {
                let k = rev.len() - 1;
                assert(rev@[k] == old_blame@[i - 1]);
            }
            i = i - 1;
            j = j - 1;
        } else if j > 0 && (i == 0 || dp[i][j - 1] >= dp[i - 1][j]) {
            let e = fresh(&new_lines[j - 1], new_snap_id, &new_detected_at);
            proof {
                lemma_walk_len(ov, nv, new_snap_id, new_detected_at@, i as nat, (j - 1) as nat);
                assert(wi == lcs_walk(ov, nv, new_snap_id, new_detected_at@, i as nat, (j - 1) as nat).push(
                    fresh_view(nv[j - 1], new_snap_id, new_detected_at@),
                ));
                assert(w[j - 1] == wi[j - 1]);
                assert(lcs_walk(ov, nv, new_snap_id, new_detected_at@, i as nat, (j - 1) as nat)
                    =~= w.subrange(0, j - 1));
            }
            rev.push(e);
            j = j - 1;
        } else {
            proof {
                assert(wi == lcs_walk(ov, nv, new_snap_id, new_detected_at@, (i - 1) as nat, j as nat));
            }
            i = i - 1;
        }
    }
    // Reverse into file order.
    let mut r: Vec<BlameEntry> = Vec::new();
    let mut k: usize = rev.len();
    while k > 0
        invariant
            k <= rev.len() == m == new_lines.len(),
            r.len() == m - k,
            forall|q: int| 0 <= q < r.len() ==> #[trigger] r@[q] == rev@[m - 1 - q],
        decreases k,
    {
        k = k - 1;
        let e = clone_entry(&rev[k]);
        r.push(e);
    }
    proof {
        assert forall|q: int| 0 <= q < r@.len() implies fresh_entry(
            #[trigger] r@[q],
            new_lines@[q]@,
            new_snap_id,
            new_detected_at@,
        ) || exists|x: int| 0 <= x < old_blame@.len() && r@[q] == old_blame@[x] by {
            assert(r@[q] == rev@[m - 1 - q]);
            assert(m - 1 - (m - 1 - q) == q);
        }
        assert forall|q: int| 0 <= q < r@.len() implies (#[trigger] r@[q]).0@ == new_lines@[q]@ by {
            assert(r@[q] == rev@[m - 1 - q]);
            assert(m - 1 - (m - 1 - q) == q);
        }
        assert forall|q: int| 0 <= q < r@.len() implies r@.map_values(|e: BlameEntry| entry_view(e))[q] == w[q] by {
            assert(r@[q] == rev@[m - 1 - q]);
            assert(m - 1 - (m - 1 - q) == q);
        }
        assert(r@.map_values(|e: BlameEntry| entry_view(e)) =~= w);
    }
    r
}

/// The entry carries the id and time of one of the snapshots.
pub open spec fn from_some_snapshot(e: BlameEntry, snaps: Seq<(i64, String, String)>) -> bool {
    exists|j: int|
        0 <= j < snaps.len() && e.1 == Some(#[trigger] snaps[j].0) && (e.2 matches Some(a) && a@
            == snaps[j].2@)
}

/// The blame, as values, once the snapshots from `k` to the oldest (the
/// last) are applied: the oldest owns all its lines, and each newer one
/// takes one blame step.
pub open spec fn blame_chain(snaps: Seq<(i64, String, String)>, k: int) -> Seq<BlameView>
    decreases snaps.len() - k,
{
    if k >= snaps.len() - 1 {
        lines_spec(snaps.last().1@).map_values(|l: Seq<char>| fresh_view(l, snaps.last().0, snaps.last().2@))
    } else {
        blame_step(blame_chain(snaps, k + 1), lines_spec(snaps[k].1@), snaps[k].0, snaps[k].2@)
    }
}

/// What blaming a file's snapshots (newest first) yields: one line per
/// line of the newest content, numbered from one, carrying the entry that
/// the chain of blame steps gives it (and so attributed to one of the
/// snapshots).
pub open spec fn blame_ok(snaps: Seq<(i64, String, String)>, r: Seq<BlameLine>) -> bool {
    &&& snaps.len() == 0 ==> r.len() == 0
    &&& snaps.len() > 0 ==> r.len() == lines_spec(snaps[0].1@).len()
    &&& snaps.len() > 0 ==> r.len() == blame_chain(snaps, 0).len()
    &&& forall|k: int|
        0 <= k < r.len() ==> {
            let b = #[trigger] r[k];
            &&& b.line_number == k + 1
            &&& b.content@ == lines_spec(snaps[0].1@)[k]
            &&& b.change_type@ == (if b.scan_batch_id is Some {
                "known"@
            } else {
                "unknown"@
            })
            &&& (b.content@, b.scan_batch_id, opt_text(b.detected_at)) == blame_chain(snaps, 0)[k]
            &&& from_some_snapshot((b.content, b.scan_batch_id, b.detected_at), snaps)
        }
}

/// Blame lines as values: text, snapshot id, detection time.
pub open spec fn blamed(r: Seq<BlameLine>) -> Seq<BlameView> {
    r.map_values(|b: BlameLine| (b.content@, b.scan_batch_id, opt_text(b.detected_at)))
}

proof fn lemma_chain_shift(snaps: Seq<(i64, String, String)>, k: int)
    requires
        snaps.len() >= 2,
        0 <= k,
    ensures
        blame_chain(snaps, k + 1) == blame_chain(snaps.drop_first(), k),
    decreases snaps.len() - k,
{
    let rest = snaps.drop_first();
    if k + 1 >= snaps.len() - 1 {
        assert(snaps.last() == rest.last());
    } else {
        lemma_chain_shift(snaps, k + 1);
        assert(snaps[k + 1] == rest[k]);
    }
}

proof fn lemma_blamed_is_chain(snaps: Seq<(i64, String, String)>, r: Seq<BlameLine>)
    requires
        snaps.len() > 0,
        blame_ok(snaps, r),
    ensures
        blamed(r) == blame_chain(snaps, 0),
{
    assert forall|k: int| 0 <= k < r.len() implies blamed(r)[k] == blame_chain(snaps, 0)[k] by {
        let b = r[k];
        assert((b.content@, b.scan_batch_id, opt_text(b.detected_at)) == blame_chain(snaps, 0)[k]);
    }
    assert(blamed(r) =~= blame_chain(snaps, 0));
}

/// Law: blame is carried through every snapshot in turn. The blame of a
/// history is the blame of the same history without its newest snapshot,
/// taken one blame step further to the newest snapshot's lines; so a line
/// that an intermediate snapshot introduced, and that later snapshots
/// keep, stays attributed to that intermediate snapshot.
pub proof fn lemma_blame_chains(snaps: Seq<(i64, String, String)>, r: Seq<BlameLine>, older: Seq<BlameLine>)
    requires
        snaps.len() >= 2,
        blame_ok(snaps, r),
        blame_ok(snaps.drop_first(), older),
    ensures
        blamed(r) == blame_step(blamed(older), lines_spec(snaps[0].1@), snaps[0].0, snaps[0].2@),
{
    lemma_blamed_is_chain(snaps, r);
    lemma_blamed_is_chain(snaps.drop_first(), older);
    lemma_chain_shift(snaps, 0);
}

/// Law: a file with a single snapshot has every line attributed to that
/// snapshot.
pub proof fn lemma_blame_single(snaps: Seq<(i64, String, String)>, r: Seq<BlameLine>)
    requires
        snaps.len() == 1,
        blame_ok(snaps, r),
    ensures
        blamed(r) == lines_spec(snaps[0].1@).map_values(|l: Seq<char>| fresh_view(l, snaps[0].0, snaps[0].2@)),
{
    lemma_blamed_is_chain(snaps, r);
    assert(snaps.last() == snaps[0]);
}

/// Blame of a file from its snapshot contents, given newest first as
/// `(snapshot id, content, created at)`: the oldest snapshot owns all its
/// lines, and each later one takes over the lines it introduced.
pub fn blame_from_snapshots(snaps: &Vec<(i64, String, String)>) -> (r: Vec<BlameLine>)
    requires
        snaps@.len() < usize::MAX,
    ensures
        blame_ok(snaps@, r@),
{
    if snaps.len() == 0 {
        return Vec::new();
    }
    let last = snaps.len() - 1;
    let oldest = lines_exec(snaps[last].1.as_str());
    let mut blame: Vec<BlameEntry> = Vec::new();
    let mut q: usize = 0;
    while q < oldest.len()
        invariant
            q <= oldest@.len(),
            last == snaps@.len() - 1,
            blame@.len() == q,
            forall|k: int| 0 <= k < blame@.len() ==> (#[trigger] blame@[k]).0@ == oldest@[k]@,
            forall|k: int| 0 <= k < blame@.len() ==> from_some_snapshot(#[trigger] blame@[k], snaps@),
            forall|k: int|
                0 <= k < blame@.len() ==> entry_view(#[trigger] blame@[k]) == fresh_view(
                    oldest@[k]@,
                    snaps@[last as int].0,
                    snaps@[last as int].2@,
                ),
        decreases oldest.len() - q,
    {
        let e: BlameEntry = (oldest[q].clone(), Some(snaps[last].0), Some(snaps[last].2.clone()));
        assert(from_some_snapshot(e, snaps@)) by {
            assert(e.1 == Some(snaps@[last as int].0));
        }
        blame.push(e);
        q = q + 1;
    }
    proof {
        assert(oldest@.map_values(|x: String| x@) == lines_spec(snaps@[last as int].1@));
        assert(snaps@.last() == snaps@[last as int]);
        assert forall|k: int| 0 <= k < blame@.len() implies blame@.map_values(|e: BlameEntry| entry_view(e))[k]
            == blame_chain(snaps@, last as int)[k] by {
            assert(oldest@.map_values(|x: String| x@)[k] == oldest@[k]@);
        }
        assert(blame@.map_values(|e: BlameEntry| entry_view(e)) =~= blame_chain(snaps@, last as int));
    }
    let mut idx: usize = last;
    let mut cur_lines = oldest;
    while idx > 0
        invariant
            idx <= last == snaps@.len() - 1,
            blame@.len() == cur_lines@.len(),
            cur_lines@.map_values(|x: String| x@) == lines_spec(snaps@[idx as int].1@),
            forall|k: int| 0 <= k < blame@.len() ==> (#[trigger] blame@[k]).0@ == cur_lines@[k]@,
            forall|k: int| 0 <= k < blame@.len() ==> from_some_snapshot(#[trigger] blame@[k], snaps@),
            blame@.map_values(|e: BlameEntry| entry_view(e)) == blame_chain(snaps@, idx as int),
        decreases idx,
    {
        idx = idx - 1;
        let new_lines = lines_exec(snaps[idx].1.as_str());
        let next = lcs_blame(blame.as_slice(), new_lines.as_slice(), snaps[idx].0, snaps[idx].2.clone());
        proof {
            assert forall|k: int| 0 <= k < next@.len() implies from_some_snapshot(#[trigger] next@[k], snaps@) by {
                if fresh_entry(next@[k], new_lines@[k]@, snaps@[idx as int].0, snaps@[idx as int].2@) {
                    assert(next@[k].1 == Some(snaps@[idx as int].0));
                } else {
                    let x = choose|x: int| 0 <= x < blame@.len() && next@[k] == blame@[x];
                    assert(from_some_snapshot(blame@[x], snaps@));
                }
            }
        }
        proof {
            assert(blame_chain(snaps@, idx as int) == blame_step(
                blame_chain(snaps@, idx + 1),
                lines_spec(snaps@[idx as int].1@),
                snaps@[idx as int].0,
                snaps@[idx as int].2@,
            ));
        }
        blame = next;
        cur_lines = new_lines;
    }
    let mut r: Vec<BlameLine> = Vec::new();
    let mut k: usize = 0;
    while k < blame.len()
        invariant
            k <= blame@.len() == cur_lines@.len(),
            snaps@.len() > 0,
            cur_lines@.map_values(|x: String| x@) == lines_spec(snaps@[0].1@),
            forall|q: int| 0 <= q < blame@.len() ==> (#[trigger] blame@[q]).0@ == cur_lines@[q]@,
            forall|q: int| 0 <= q < blame@.len() ==> from_some_snapshot(#[trigger] blame@[q], snaps@),
            blame@.map_values(|e: BlameEntry| entry_view(e)) == blame_chain(snaps@, 0),
            r@.len() == k,
            forall|q: int|
                0 <= q < r@.len() ==> {
                    let b = #[trigger] r@[q];
                    &&& b.line_number == q + 1
                    &&& b.content@ == lines_spec(snaps@[0].1@)[q]
                    &&& b.change_type@ == (if b.scan_batch_id is Some {
                        "known"@
                    } else {
                        "unknown"@
                    })
                    &&& (b.content@, b.scan_batch_id, opt_text(b.detected_at)) == blame_chain(snaps@, 0)[q]
                    &&& from_some_snapshot((b.content, b.scan_batch_id, b.detected_at), snaps@)
                },
        decreases blame.len() - k,
    {
        let e = clone_entry(&blame[k]);
        let kind = if e.1.is_some() { owned("known") } else { owned("unknown") };
        proof {
            assert(cur_lines@.map_values(|x: String| x@)[k as int] == cur_lines@[k as int]@);
            assert(from_some_snapshot(blame@[k as int], snaps@));
            assert(blame@.map_values(|e: BlameEntry| entry_view(e))[k as int] == entry_view(blame@[k as int]));
        }
        let b = BlameLine {
            line_number: k + 1,
            content: e.0,
            change_type: kind,
            scan_batch_id: e.1,
            detected_at: e.2,
        };
        proof {
            assert((b.content, b.scan_batch_id, b.detected_at) == blame@[k as int]);
        }
        r.push(b);
        k = k + 1;
    }
    r
}

} // verus!
