//! Properties that hold of the library's rules over all inputs.
use vstd::prelude::*;
use crate::crypto::{migration_failures, migration_spec};
use crate::webhook::join;
use crate::text::{decimal, starts_with};
use crate::dispatch::{capped, distinct_events, upper_type, ChangeItem};
use crate::duplicates::{distinct_keys, positions};
use crate::reports::{daily_field, csv_field, double_quotes, export_field, html_char, html_escaped, needs_quoting, strip_bidi};
use crate::security::{drop_controls, sanitized, MAX_FILENAME_CHARS};
use crate::settings::{
    ident_above, idents_above, newer, readable_settings, version_core, version_newer, version_parts,
    version_pre, writable_settings,
};
use crate::recency::lemma_text_order_strict_total;
use crate::text::split_char;
use crate::snapshots::{decompressed_within, restore_verdict, zstd_decoded};
use crate::text::{contains_seq, is_control, replace_char};
use crate::webhook::MAX_CHANGES_PER_WEBHOOK;

verus! {

/// A character a spreadsheet reads as the start of a formula.
pub open spec fn formula_start(c: char) -> bool {
    c == '=' || c == '+' || c == '-' || c == '@'
}

/// Law: a field of the daily CSV export never opens with a formula
/// character or a tab unless it is quoted.
pub proof fn lemma_csv_field_not_formula(s: Seq<char>)
    ensures
        csv_field(s).len() > 0 ==> (csv_field(s)[0] == '"' || !(formula_start(csv_field(s)[0])
            || csv_field(s)[0] == '\t')),
{
    let c = strip_bidi(s);
    if needs_quoting(c) {
        assert(("\""@ + double_quotes(c) + "\""@)[0] == '"') by {
            reveal_strlit("\"");
        }
    }
}

proof fn lemma_double_quotes_plain(s: Seq<char>)
    requires
        !s.contains('"'),
    ensures
        double_quotes(s) == s,
    decreases s.len(),
{
    if s.len() > 0 {
        assert(!s.drop_last().contains('"')) by {
            if s.drop_last().contains('"') {
                let i = choose|i: int| 0 <= i < s.drop_last().len() && s.drop_last()[i] == '"';
                assert(s[i] == '"');
            }
        }
        lemma_double_quotes_plain(s.drop_last());
        assert(s.last() != '"') by {
            if s.last() == '"' {
                assert(s[s.len() - 1] == '"');
            }
        }
        assert(s.drop_last().push(s.last()) =~= s);
    }
}

/// Law: every field of a daily export row is one quoted CSV field: its
/// text without bidirectional overrides, quotes doubled, inside one pair
/// of quotes. So each change is one six-field record.
pub proof fn lemma_daily_field_quoted_once(s: Seq<char>)
    ensures
        daily_field(s) == "\""@ + double_quotes(strip_bidi(s)) + "\""@,
{
    let c = strip_bidi(s);
    if !needs_quoting(c) {
        lemma_double_quotes_plain(c);
    }
}

/// Law: a field of the full CSV export never opens with a formula
/// character.
pub proof fn lemma_export_field_not_formula(s: Seq<char>)
    ensures
        export_field(s).len() > 0 ==> !formula_start(export_field(s)[0]),
{
    let e = if s.contains(',') || s.contains('"') || s.contains('\n') {
        "\""@ + double_quotes(s) + "\""@
    } else {
        s
    };
    reveal_strlit("\"");
    reveal_strlit("'");
    if s.contains(',') || s.contains('"') || s.contains('\n') {
        assert(e[0] == '"');
    }
    if e.len() > 0 && formula_start(e[0]) {
        assert(("'"@ + e)[0] == '\'');
    }
}

proof fn lemma_html_char_safe(c: char)
    ensures
        forall|i: int|
            0 <= i < html_char(c).len() ==> html_char(c)[i] != '<' && html_char(c)[i] != '>'
                && html_char(c)[i] != '"' && html_char(c)[i] != '\'',
{
    reveal_strlit("&amp;");
    reveal_strlit("&lt;");
    reveal_strlit("&gt;");
    reveal_strlit("&quot;");
    reveal_strlit("&#x27;");
}

/// Law: escaped HTML text holds no `<`, `>`, `"` or `'`.
pub proof fn lemma_html_escaped_safe(s: Seq<char>)
    ensures
        forall|i: int|
            0 <= i < html_escaped(s).len() ==> html_escaped(s)[i] != '<' && html_escaped(s)[i] != '>'
                && html_escaped(s)[i] != '"' && html_escaped(s)[i] != '\'',
    decreases s.len(),
{
    if s.len() > 0 {
        lemma_html_escaped_safe(s.drop_last());
        lemma_html_char_safe(s.last());
        let a = html_escaped(s.drop_last());
        let b = html_char(s.last());
        assert forall|i: int| 0 <= i < (a + b).len() implies (a + b)[i] != '<' && (a + b)[i] != '>'
            && (a + b)[i] != '"' && (a + b)[i] != '\'' by {
            if i < a.len() {
                assert((a + b)[i] == a[i]);
            } else {
                assert((a + b)[i] == b[i - a.len()]);
            }
        }
    }
}

proof fn lemma_drop_controls_clean(s: Seq<char>)
    ensures
        forall|i: int| 0 <= i < drop_controls(s).len() ==> !is_control(drop_controls(s)[i]),
    decreases s.len(),
{
    if s.len() > 0 {
        lemma_drop_controls_clean(s.drop_last());
        let d = drop_controls(s.drop_last());
        if !is_control(s.last()) {
            assert forall|i: int| 0 <= i < d.push(s.last()).len() implies !is_control(d.push(s.last())[i]) by {
                if i < d.len() {
                    assert(d.push(s.last())[i] == d[i]);
                }
            }
        }
    }
}

/// Law: a stored file name has no control characters and at most 255
/// characters.
pub proof fn lemma_sanitized_clean(name: Seq<char>)
    ensures
        sanitized(name).len() <= MAX_FILENAME_CHARS,
        forall|i: int| 0 <= i < sanitized(name).len() ==> !is_control(sanitized(name)[i]),
{
    lemma_drop_controls_clean(name);
    let d = drop_controls(name);
    if d.len() > MAX_FILENAME_CHARS {
        assert forall|i: int| 0 <= i < sanitized(name).len() implies !is_control(sanitized(name)[i]) by {
            assert(sanitized(name)[i] == d[i]);
        }
    }
}

proof fn lemma_newer_irreflexive(v: Seq<nat>)
    ensures
        !newer(v, v),
    decreases v.len(),
{
    if v.len() > 0 {
        lemma_newer_irreflexive(v.drop_first());
    }
}

proof fn lemma_newer_asymmetric(a: Seq<nat>, b: Seq<nat>)
    ensures
        newer(a, b) ==> !newer(b, a),
    decreases a.len(),
{
    if a.len() > 0 && b.len() > 0 && a[0] == b[0] {
        lemma_newer_asymmetric(a.drop_first(), b.drop_first());
    }
}

proof fn lemma_ident_above_strict(a: Seq<char>, b: Seq<char>)
    ensures
        !ident_above(a, a),
        ident_above(a, b) ==> !ident_above(b, a),
{
    lemma_text_order_strict_total(a, b, a);
    lemma_text_order_strict_total(b, a, b);
}

proof fn lemma_idents_above_strict(xs: Seq<Seq<char>>, ys: Seq<Seq<char>>)
    ensures
        !idents_above(xs, xs),
        idents_above(xs, ys) ==> !idents_above(ys, xs),
    decreases xs.len(),
{
    if xs.len() > 0 {
        lemma_ident_above_strict(xs[0], xs[0]);
        lemma_idents_above_strict(xs.drop_first(), xs.drop_first());
    }
    if xs.len() > 0 && ys.len() > 0 {
        lemma_ident_above_strict(xs[0], ys[0]);
        lemma_ident_above_strict(ys[0], xs[0]);
        lemma_idents_above_strict(xs.drop_first(), ys.drop_first());
    }
}

/// Law: no version is newer than itself.
pub proof fn lemma_version_newer_irreflexive(v: Seq<char>)
    ensures
        !version_newer(v, v),
{
    lemma_newer_irreflexive(version_parts(version_core(v)));
    if let Some(p) = version_pre(v) {
        lemma_idents_above_strict(split_char(p, '.'), split_char(p, '.'));
    }
}

/// Law: of two versions, at most one is newer than the other.
pub proof fn lemma_version_newer_asymmetric(a: Seq<char>, b: Seq<char>)
    ensures
        version_newer(a, b) ==> !version_newer(b, a),
{
    let l = version_parts(version_core(a));
    let c = version_parts(version_core(b));
    lemma_newer_asymmetric(l, c);
    lemma_newer_asymmetric(c, l);
    if let (Some(x), Some(y)) = (version_pre(a), version_pre(b)) {
        lemma_idents_above_strict(split_char(x, '.'), split_char(y, '.'));
    }
}

/// Law: the interface may read back every setting it may change.
pub proof fn lemma_writable_readable(k: Seq<char>)
    ensures
        writable_settings().contains(k) ==> readable_settings().contains(k),
{
    if writable_settings().contains(k) {
        let i = choose|i: int| 0 <= i < writable_settings().len() && writable_settings()[i] == k;
        let j = if i < 12 {
            i
        } else {
            i + 1
        };
        assert(readable_settings()[j] == k);
    }
}

/// Law: a restore destination with a `..` component between separators
/// is always refused as traversal.
pub proof fn lemma_restore_refuses_traversal(p: Seq<char>)
    ensures
        contains_seq(replace_char(p, '\\', '/'), "/../"@) ==> restore_verdict(p) == Some(
            "Path traversal detected"@,
        ),
{
}

/// Law: a webhook round carries at most `MAX_CHANGES_PER_WEBHOOK` changes,
/// the first ones submitted.
pub proof fn lemma_capped_prefix(cs: Seq<ChangeItem>)
    ensures
        capped(cs).len() <= MAX_CHANGES_PER_WEBHOOK,
        capped(cs) == cs.take(capped(cs).len() as int),
{
    if cs.len() <= MAX_CHANGES_PER_WEBHOOK {
        assert(cs.take(cs.len() as int) =~= cs);
    }
}

/// Law: every event type of a round is listed once, and every change with
/// a type has its (upper-cased) type listed.
pub proof fn lemma_events_cover_changes(cs: Seq<ChangeItem>)
    ensures
        forall|a: int, b: int|
            0 <= a < b < distinct_events(cs).len() ==> distinct_events(cs)[a] != distinct_events(cs)[b],
        forall|k: int|
            0 <= k < cs.len() && (#[trigger] upper_type(cs[k])) is Some ==> distinct_events(cs).contains(
                upper_type(cs[k])->Some_0,
            ),
    decreases cs.len(),
{
    if cs.len() > 0 {
        let p = cs.drop_last();
        lemma_events_cover_changes(p);
        let d = distinct_events(p);
        assert forall|k: int|
            0 <= k < cs.len() && (#[trigger] upper_type(cs[k])) is Some implies distinct_events(cs).contains(
            upper_type(cs[k])->Some_0,
        ) by {
            if k < cs.len() - 1 {
                assert(cs[k] == p[k]);
                assert(d.contains(upper_type(p[k])->Some_0));
                let j = choose|j: int| 0 <= j < d.len() && d[j] == upper_type(p[k])->Some_0;
                if let Some(e) = upper_type(cs.last()) {
                    if !d.contains(e) {
                        assert(d.push(e)[j] == d[j]);
                    }
                }
            } else {
                let e = upper_type(cs.last())->Some_0;
                if !d.contains(e) {
                    assert(d.push(e)[d.len() as int] == e);
                }
            }
        }
        if let Some(e) = upper_type(cs.last()) {
            if !d.contains(e) {
                assert forall|a: int, b: int| 0 <= a < b < d.push(e).len() implies d.push(e)[a] != d.push(e)[b] by {
                    if b == d.len() && d[a] == e {
                        assert(d.contains(e));
                    }
                }
            }
        }
    }
}

/// Law: a position is in the group of a key exactly when it holds that
/// key; so every file lands in its own key's group and in no other.
pub proof fn lemma_positions_exact(keys: Seq<Seq<char>>, k: Seq<char>, i: int)
    ensures
        positions(keys, k).contains(i) <==> (0 <= i < keys.len() && keys[i] == k),
    decreases keys.len(),
{
    if keys.len() > 0 {
        let p = keys.drop_last();
        lemma_positions_exact(p, k, i);
        let a = positions(p, k);
        let tail = if keys.last() == k {
            seq![keys.len() - 1]
        } else {
            Seq::<int>::empty()
        };
        if (a + tail).contains(i) {
            let j = choose|j: int| 0 <= j < (a + tail).len() && (a + tail)[j] == i;
            if j < a.len() {
                assert(a[j] == i);
                assert(a.contains(i));
                assert(keys[i] == p[i]);
            } else {
                assert(tail[j - a.len()] == i);
            }
        }
        if 0 <= i < keys.len() && keys[i] == k {
            if i < keys.len() - 1 {
                assert(p[i] == k);
                let j = choose|j: int| 0 <= j < a.len() && a[j] == i;
                assert((a + tail)[j] == i);
            } else {
                assert((a + tail)[a.len() as int] == i);
            }
        }
    }
}

/// The encryptions that failed among a migration's outcomes.
pub open spec fn failed_outcomes(outs: Seq<Result<String, String>>) -> Seq<Result<String, String>> {
    outs.filter(|o: Result<String, String>| o is Err)
}

proof fn lemma_failures_count(rows: Seq<(i64, String)>, outs: Seq<Result<String, String>>)
    requires
        rows.len() == outs.len(),
    ensures
        migration_failures(rows, outs).len() == failed_outcomes(outs).len(),
        failed_outcomes(outs).len() > 0 <==> exists|k: int| 0 <= k < outs.len() && (#[trigger] outs[k]) is Err,
    decreases rows.len(),
{
    reveal(Seq::filter);
    if rows.len() > 0 {
        let (r0, o0) = (rows.drop_last(), outs.drop_last());
        lemma_failures_count(r0, o0);
        assert(failed_outcomes(outs) == (if outs.last() is Err {
            failed_outcomes(o0).push(outs.last())
        } else {
            failed_outcomes(o0)
        }));
        if exists|k: int| 0 <= k < o0.len() && (#[trigger] o0[k]) is Err {
            let k = choose|k: int| 0 <= k < o0.len() && (#[trigger] o0[k]) is Err;
            assert(outs[k] == o0[k]);
        }
        if exists|k: int| 0 <= k < outs.len() && (#[trigger] outs[k]) is Err {
            let k = choose|k: int| 0 <= k < outs.len() && (#[trigger] outs[k]) is Err;
            if k < o0.len() {
                assert(o0[k] == outs[k]);
            }
        }
    }
}

/// Law: a migration of plain-text secrets fails exactly when some of its
/// encryptions failed, and its error gives the number of failed
/// encryptions.
pub proof fn lemma_migration_fails_iff_encryption_fails(
    rows: Seq<(i64, String)>,
    outs: Seq<Result<String, String>>,
)
    requires
        rows.len() == outs.len(),
    ensures
        migration_spec(rows, outs) is Err <==> exists|k: int| 0 <= k < outs.len() && (#[trigger] outs[k]) is Err,
        migration_spec(rows, outs) is Err ==> starts_with(
            migration_spec(rows, outs)->Err_0,
            "Migration failed for "@ + decimal(failed_outcomes(outs).len()) + " secrets: "@,
        ),
{
    lemma_failures_count(rows, outs);
    let f = migration_failures(rows, outs);
    if f.len() > 0 {
        let p = "Migration failed for "@ + decimal(failed_outcomes(outs).len()) + " secrets: "@;
        let e = p + join(f, "; "@);
        assert(e.subrange(0, p.len() as int) =~= p);
    }
}

/// Law: what a snapshot stores, decompression gives back. Bytes that
/// decode to `content` (as the compressed bytes of a prepared snapshot
/// do) decompress to exactly the content under any limit that it fits,
/// and are refused under a smaller one.
pub proof fn lemma_snapshot_round_trip(content: Seq<u8>, compressed: Seq<u8>, max_bytes: nat)
    requires
        zstd_decoded(compressed) == Some(content),
    ensures
        content.len() <= max_bytes ==> decompressed_within(compressed, max_bytes) == Some(content),
        content.len() > max_bytes ==> decompressed_within(compressed, max_bytes) is None,
{
}

} // verus!
