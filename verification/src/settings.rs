//! User settings and request validation: which keys exist, which values
//! they accept, how stored values are read, and the checks that commands
//! apply to their arguments before acting.
use vstd::prelude::*;
use crate::numparse::{parse_i64, parse_i64_spec, parse_u32, parse_u32_spec, parse_u64, parse_u64_spec};
use crate::text::{
    all_whitespace, chars_eq, chars_of, contains_seq, ends_with, has_char, has_infix, has_prefix,
    has_suffix, is_blank, is_digit, owned, push_all, push_str, replace_char, replace_char_exec,
    split_char, split_exec, starts_with, str_eq, to_lowercase, trim, trim_exec, unicode_alphanumeric,
    unicode_lowercase, is_alphanumeric,
};
use vstd::utf8::encode_utf8;
use crate::autostart::{first_index, lemma_first_index_is, lemma_first_index_none};
use crate::recency::{text_less, text_lt};
use crate::text::string_of;

verus! {

// ---------------------------------------------------------------------
// Lists of keys
// ---------------------------------------------------------------------

/// Setting keys the user interface may change.
pub open spec fn writable_settings() -> Seq<Seq<char>> {
    seq![
        "scan_frequency"@, "auto_scan_enabled"@, "file_snapshots_enabled"@, "snapshot_max_size"@,
        "snapshot_retention_days"@, "snapshot_extensions"@, "notifications_enabled"@,
        "daily_summary_enabled"@, "start_minimized"@, "cloud_detection_enabled"@,
        "autostart_enabled"@, "dark_mode"@, "daily_summary_webhook_enabled"@,
        "daily_summary_time"@,
    ]
}

/// Setting keys the user interface may read: the writable ones and the
/// latest webhook report.
pub open spec fn readable_settings() -> Seq<Seq<char>> {
    seq![
        "scan_frequency"@, "auto_scan_enabled"@, "file_snapshots_enabled"@, "snapshot_max_size"@,
        "snapshot_retention_days"@, "snapshot_extensions"@, "notifications_enabled"@,
        "daily_summary_enabled"@, "start_minimized"@, "cloud_detection_enabled"@,
        "autostart_enabled"@, "dark_mode"@, "webhook_latest_report"@,
        "daily_summary_webhook_enabled"@, "daily_summary_time"@,
    ]
}

/// Whether `s` is one of the strings of `list`.
pub fn str_in(s: &str, list: &[&str]) -> (r: bool)
    ensures
        r == list@.map_values(|x: &str| x@).contains(s@),
{
    let ghost views = list@.map_values(|x: &str| x@);
    let mut k: usize = 0;
    while k < list.len()
        invariant
            k <= list.len(),
            views == list@.map_values(|x: &str| x@),
            forall|q: int| 0 <= q < k ==> views[q] != s@,
        decreases list.len() - k,
    {
        if str_eq(list[k], s) {
            assert(views[k as int] == s@);
            return true;
        }
        k = k + 1;
    }
    false
}

/// Whether the user interface may read a setting.
pub fn is_readable_setting(key: &str) -> (r: bool)
    ensures
        r == readable_settings().contains(key@),
{
    let list = [
        "scan_frequency", "auto_scan_enabled", "file_snapshots_enabled", "snapshot_max_size",
        "snapshot_retention_days", "snapshot_extensions", "notifications_enabled",
        "daily_summary_enabled", "start_minimized", "cloud_detection_enabled", "autostart_enabled",
        "dark_mode", "webhook_latest_report", "daily_summary_webhook_enabled",
        "daily_summary_time",
    ];
    assert(list@.map_values(|x: &str| x@) =~= readable_settings());
    str_in(key, &list)
}

/// Whether the user interface may change a setting.
pub fn is_writable_setting(key: &str) -> (r: bool)
    ensures
        r == writable_settings().contains(key@),
{
    let list = [
        "scan_frequency", "auto_scan_enabled", "file_snapshots_enabled", "snapshot_max_size",
        "snapshot_retention_days", "snapshot_extensions", "notifications_enabled",
        "daily_summary_enabled", "start_minimized", "cloud_detection_enabled", "autostart_enabled",
        "dark_mode", "daily_summary_webhook_enabled", "daily_summary_time",
    ];
    assert(list@.map_values(|x: &str| x@) =~= writable_settings());
    str_in(key, &list)
}

/// Reading a setting by key: unknown keys are refused.
pub fn check_readable_setting(key: &str) -> (r: Result<(), String>)
    ensures
        r is Ok <==> readable_settings().contains(key@),
        r matches Err(e) ==> e@ == "Unknown setting"@,
{
    if is_readable_setting(key) {
        Ok(())
    } else {
        Err(owned("Unknown setting"))
    }
}

/// The settings the user interface may see, in the given order.
pub fn readable_only(all: Vec<(String, String)>) -> (r: Vec<(String, String)>)
    ensures
        r@ == all@.filter(|kv: (String, String)| readable_settings().contains(kv.0@)),
{
    let ghost pred = |kv: (String, String)| readable_settings().contains(kv.0@);
    let ghost orig = all@;
    let mut all = all;
    let mut r: Vec<(String, String)> = Vec::new();
    let ghost mut i: int = 0;
    while all.len() > 0
        invariant
            0 <= i <= orig.len(),
            all@ == orig.subrange(i, orig.len() as int),
            r@ == orig.subrange(0, i).filter(pred),
            pred == (|kv: (String, String)| readable_settings().contains(kv.0@)),
        decreases all.len(),
    {
        let e = all.remove(0);
        let keep = is_readable_setting(e.0.as_str());
        proof {
            assert(e == orig[i]);
            assert(orig.subrange(0, i + 1).drop_last() =~= orig.subrange(0, i));
            reveal_with_fuel(Seq::filter, 1);
        }
        if keep {
            r.push(e);
        }
        proof {
            i = i + 1;
            assert(all@ =~= orig.subrange(i, orig.len() as int));
        }
    }
    assert(orig.subrange(0, i) =~= orig);
    r
}

// ---------------------------------------------------------------------
// Validation of new values
// ---------------------------------------------------------------------

/// One entry of a snapshot extension list after trimming and dropping
/// leading dots.
pub open spec fn ext_entry(piece: Seq<char>) -> Seq<char> {
    strip_leading_dots(trim(piece))
}

/// `s` without its leading dots.
pub open spec fn strip_leading_dots(s: Seq<char>) -> Seq<char>
    decreases s.len(),
{
    if s.len() > 0 && s[0] == '.' {
        strip_leading_dots(s.drop_first())
    } else {
        s
    }
}

/// An acceptable extension: non-empty, letters, digits or `_`, at most 20
/// bytes.
pub open spec fn ext_ok(e: Seq<char>) -> bool {
    &&& e.len() > 0
    &&& forall|i: int| 0 <= i < e.len() ==> unicode_alphanumeric(#[trigger] e[i]) || e[i] == '_'
    &&& encode_utf8(e).len() <= 20
}

/// Index of the first unacceptable entry of an extension list.
pub open spec fn first_bad_ext(v: Seq<char>) -> int {
    choose|k: int|
        0 <= k < split_char(v, ',').len() && !ext_ok(ext_entry(split_char(v, ',')[k])) && forall|
            j: int,
        | 0 <= j < k ==> ext_ok(ext_entry(#[trigger] split_char(v, ',')[j]))
}

/// Verdict on a new setting value: `None` when accepted.
pub open spec fn setting_verdict(key: Seq<char>, value: Seq<char>) -> Option<Seq<char>> {
    if !writable_settings().contains(key) {
        Some("Unknown setting: "@ + key)
    } else if key == "scan_frequency"@ {
        match parse_u64_spec(value) {
            None => Some("Must be a positive integer"@),
            Some(m) => if m < 1 || m > 1440 {
                Some("Frequency must be between 1 and 1440 minutes"@)
            } else {
                None
            },
        }
    } else if key == "snapshot_max_size"@ {
        match parse_i64_spec(value) {
            None => Some("Must be a positive integer"@),
            Some(m) => if m < 1024 || m > 10_000_000 {
                Some("Max size must be between 1KB and 10MB"@)
            } else {
                None
            },
        }
    } else if key == "snapshot_retention_days"@ {
        match parse_i64_spec(value) {
            None => Some("Must be a positive integer"@),
            Some(m) => if m < 1 || m > 365 {
                Some("Retention must be between 1 and 365 days"@)
            } else {
                None
            },
        }
    } else if key == "snapshot_extensions"@ {
        if exists|k: int|
            0 <= k < split_char(value, ',').len() && !ext_ok(
                ext_entry(#[trigger] split_char(value, ',')[k]),
            ) {
            Some(
                "Invalid extension: '"@ + ext_entry(split_char(value, ',')[first_bad_ext(value)])
                    + "'. Use comma-separated extensions (e.g., txt,rs,py)"@,
            )
        } else {
            None
        }
    } else {
        None
    }
}

fn strip_leading_dots_exec(s: &[char]) -> (r: Vec<char>)
    ensures
        r@ == strip_leading_dots(s@),
{
    let mut a: usize = 0;
    assert(s@.subrange(0, s@.len() as int) =~= s@);
    while a < s.len() && s[a] == '.'
        invariant
            a <= s.len(),
            strip_leading_dots(s@) == strip_leading_dots(s@.subrange(a as int, s@.len() as int)),
        decreases s.len() - a,
    {
        assert(s@.subrange(a as int, s@.len() as int).drop_first() =~= s@.subrange(
            a + 1,
            s@.len() as int,
        ));
        a = a + 1;
    }
    let mut r: Vec<char> = Vec::new();
    let mut i: usize = a;
    while i < s.len()
        invariant
            a <= i <= s.len(),
            r@ == s@.subrange(a as int, i as int),
        decreases s.len() - i,
    {
        r.push(s[i]);
        i = i + 1;
        assert(r@ =~= s@.subrange(a as int, i as int));
    }
    r
}

fn ext_ok_exec(e: &[char]) -> (r: bool)
    ensures
        r == ext_ok(e@),
{
    if e.len() == 0 {
        return false;
    }
    let mut i: usize = 0;
    while i < e.len()
        invariant
            i <= e.len(),
            forall|k: int| 0 <= k < i ==> unicode_alphanumeric(#[trigger] e@[k]) || e@[k] == '_',
        decreases e.len() - i,
    {
        if !(is_alphanumeric(e[i]) || e[i] == '_') {
            return false;
        }
        i = i + 1;
    }
    let s = crate::text::string_of(e);
    s.as_str().as_bytes().len() <= 20
}

/// Checks a new value for a setting; the reason when it is refused.
pub fn validate_setting(key: &str, value: &str) -> (r: Result<(), String>)
    ensures
        match r {
            Ok(()) => setting_verdict(key@, value@) is None,
            Err(e) => setting_verdict(key@, value@) == Some(e@),
        },
{
    if !is_writable_setting(key) {
        let mut e = owned("Unknown setting: ");
        push_str(&mut e, key);
        return Err(e);
    }
    if str_eq(key, "scan_frequency") {
        return match parse_u64(value) {
            None => Err(owned("Must be a positive integer")),
            Some(m) => if m < 1 || m > 1440 {
                Err(owned("Frequency must be between 1 and 1440 minutes"))
            } else {
                Ok(())
            },
        };
    }
    if str_eq(key, "snapshot_max_size") {
        return match parse_i64(value) {
            None => Err(owned("Must be a positive integer")),
            Some(m) => if m < 1024 || m > 10_000_000 {
                Err(owned("Max size must be between 1KB and 10MB"))
            } else {
                Ok(())
            },
        };
    }
    if str_eq(key, "snapshot_retention_days") {
        return match parse_i64(value) {
            None => Err(owned("Must be a positive integer")),
            Some(m) => if m < 1 || m > 365 {
                Err(owned("Retention must be between 1 and 365 days"))
            } else {
                Ok(())
            },
        };
    }
    if str_eq(key, "snapshot_extensions") {
        let v = chars_of(value);
        let parts = split_exec(&v, ',');
        let mut k: usize = 0;
        while k < parts.len()
            invariant
                v@ == value@,
                key@ == "snapshot_extensions"@,
                key@ != "scan_frequency"@,
                key@ != "snapshot_max_size"@,
                key@ != "snapshot_retention_days"@,
                writable_settings().contains(key@),
                k <= parts@.len() == split_char(v@, ',').len(),
                forall|q: int| 0 <= q < parts@.len() ==> (#[trigger] parts@[q])@ == split_char(v@, ',')[q],
                forall|q: int| 0 <= q < k ==> ext_ok(ext_entry(#[trigger] split_char(v@, ',')[q])),
            decreases parts.len() - k,
        {
            let t = trim_exec(&parts[k]);
            let e = strip_leading_dots_exec(&t);
            if !ext_ok_exec(&e) {
                let mut msg = owned("Invalid extension: '");
                push_all(&mut msg, &e);
                push_str(&mut msg, "'. Use comma-separated extensions (e.g., txt,rs,py)");
                proof {
                    let sp = split_char(v@, ',');
                    assert(e@ == ext_entry(sp[k as int]));
                    assert(!ext_ok(ext_entry(sp[k as int])));
                    assert(0 <= k < sp.len() && !ext_ok(ext_entry(sp[k as int])) && forall|j: int|
                        0 <= j < k ==> ext_ok(ext_entry(#[trigger] sp[j])));
                    let c = first_bad_ext(value@);
                    assert(0 <= c < sp.len() && !ext_ok(ext_entry(sp[c])) && forall|j: int|
                        0 <= j < c ==> ext_ok(ext_entry(#[trigger] sp[j])));
                    if c < k {
                        assert(ext_ok(ext_entry(sp[c])));
                    } else if c > k {
                        assert(ext_ok(ext_entry(sp[k as int])));
                    }
                    assert(c == k);
                    assert(msg@ == "Invalid extension: '"@ + ext_entry(sp[c])
                        + "'. Use comma-separated extensions (e.g., txt,rs,py)"@);
                }
                return Err(msg);
            }
            k = k + 1;
        }
        return Ok(());
    }
    Ok(())
}

// ---------------------------------------------------------------------
// Reading stored values
// ---------------------------------------------------------------------

/// A flag that is on unless stored as `false`.
pub open spec fn flag_unless_false(v: Option<Seq<char>>) -> bool {
    match v {
        Some(s) => s != "false"@,
        None => true,
    }
}

/// A flag that is on exactly when stored as `true`, or `default` when unset.
pub open spec fn flag_true(v: Option<Seq<char>>, default: bool) -> bool {
    match v {
        Some(s) => s == "true"@,
        None => default,
    }
}

/// The view of an optional string.
pub open spec fn opt_string_view(v: &Option<String>) -> Option<Seq<char>> {
    match v {
        Some(s) => Some(s@),
        None => None,
    }
}

/// A flag setting that is on unless stored as `false`.
pub fn setting_on_unless_false(v: &Option<String>) -> (r: bool)
    ensures
        r == flag_unless_false(opt_string_view(v)),
{
    match v {
        Some(s) => !str_eq(s.as_str(), "false"),
        None => true,
    }
}

/// A flag setting that is on when stored as `true`, or `default` when unset.
pub fn setting_true(v: &Option<String>, default: bool) -> (r: bool)
    ensures
        r == flag_true(opt_string_view(v), default),
{
    match v {
        Some(s) => str_eq(s.as_str(), "true"),
        None => default,
    }
}

/// Minutes between periodic scans: the stored number, or 15.
pub fn scan_frequency_minutes(v: &Option<String>) -> (r: u64)
    ensures
        r == (match opt_string_view(v) {
            Some(s) => match parse_u64_spec(s) {
                Some(n) => n,
                None => 15,
            },
            None => 15,
        }),
{
    match v {
        Some(s) => match parse_u64(s.as_str()) {
            Some(n) => n,
            None => 15,
        },
        None => 15,
    }
}

/// A signed number setting, or `default` when unset or unreadable.
pub fn setting_i64(v: &Option<String>, default: i64) -> (r: i64)
    ensures
        r == (match opt_string_view(v) {
            Some(s) => match parse_i64_spec(s) {
                Some(n) => n,
                None => default as int,
            },
            None => default as int,
        }),
{
    match v {
        Some(s) => match parse_i64(s.as_str()) {
            Some(n) => n,
            None => default,
        },
        None => default,
    }
}

// ---------------------------------------------------------------------
// Checks on command arguments
// ---------------------------------------------------------------------

/// The text of a report date is `YYYY-MM-DD` with year 2000–2100, month
/// 1–12 and day 1–31.
pub open spec fn date_verdict(date: Seq<char>) -> Option<Seq<char>> {
    if !(forall|i: int| 0 <= i < date.len() ==> is_digit(#[trigger] date[i]) || date[i] == '-')
        || date.len() != 10 {
        Some("Date must be in YYYY-MM-DD format"@)
    } else {
        let parts = split_char(date, '-');
        if parts.len() != 3 || parts[0].len() != 4 || parts[1].len() != 2 || parts[2].len() != 2 {
            Some("Date must be in YYYY-MM-DD format"@)
        } else {
            let y = crate::numparse::digits_value(parts[0]);
            let m = crate::numparse::digits_value(parts[1]);
            let d = crate::numparse::digits_value(parts[2]);
            if y < 2000 || y > 2100 || m < 1 || m > 12 || d < 1 || d > 31 {
                Some("Date values out of range"@)
            } else {
                None
            }
        }
    }
}

/// Checks the date argument of a daily report.
pub fn validate_report_date(date: &str) -> (r: Result<(), String>)
    ensures
        match r {
            Ok(()) => date_verdict(date@) is None,
            Err(e) => date_verdict(date@) == Some(e@),
        },
{
    let d = chars_of(date);
    let mut i: usize = 0;
    while i < d.len()
        invariant
            i <= d.len(),
            d@ == date@,
            forall|k: int| 0 <= k < i ==> is_digit(#[trigger] d@[k]) || d@[k] == '-',
        decreases d.len() - i,
    {
        if !(('0' <= d[i] && d[i] <= '9') || d[i] == '-') {
            assert(!(is_digit(d@[i as int]) || d@[i as int] == '-'));
            return Err(owned("Date must be in YYYY-MM-DD format"));
        }
        i = i + 1;
    }
    if d.len() != 10 {
        return Err(owned("Date must be in YYYY-MM-DD format"));
    }
    let parts = split_exec(&d, '-');
    if parts.len() != 3 || parts[0].len() != 4 || parts[1].len() != 2 || parts[2].len() != 2 {
        return Err(owned("Date must be in YYYY-MM-DD format"));
    }
    let ys = crate::text::string_of(&parts[0]);
    let ms = crate::text::string_of(&parts[1]);
    let ds = crate::text::string_of(&parts[2]);
    proof {
        let sp = split_char(d@, '-');
        lemma_pieces_digits(d@, '-');
        assert forall|q: int| 0 <= q < 3 implies crate::numparse::all_digits(#[trigger] sp[q]) by {
            assert(sp[q].len() > 0);
        }
        assert(sp[0].len() == 4 && sp[1].len() == 2 && sp[2].len() == 2);
        lemma_small_digits_value(sp[0]);
        lemma_small_digits_value(sp[1]);
        lemma_small_digits_value(sp[2]);
    }
    let y = parse_u32(ys.as_str());
    let m = parse_u32(ms.as_str());
    let dd = parse_u32(ds.as_str());
    match (y, m, dd) {
        (Some(y), Some(m), Some(dd)) => {
            if y < 2000 || y > 2100 || m < 1 || m > 12 || dd < 1 || dd > 31 {
                return Err(owned("Date values out of range"));
            }
            Ok(())
        },
        _ => Err(owned("Date must be valid numbers")),
    }
}

/// Every piece of `s` split at `c` is made of characters of `s` other than `c`.
proof fn lemma_pieces_digits(s: Seq<char>, c: char)
    requires
        forall|i: int| 0 <= i < s.len() ==> is_digit(#[trigger] s[i]) || s[i] == c,
        !is_digit(c),
    ensures
        forall|k: int, j: int|
            0 <= k < split_char(s, c).len() && 0 <= j < split_char(s, c)[k].len() ==> is_digit(
                #[trigger] split_char(s, c)[k][j],
            ),
    decreases s.len(),
{
    if s.len() > 0 {
        lemma_pieces_digits(s.drop_last(), c);
        crate::text::lemma_split_nonempty(s.drop_last(), c);
        let p = split_char(s.drop_last(), c);
        assert forall|k: int, j: int|
            0 <= k < split_char(s, c).len() && 0 <= j < split_char(s, c)[k].len() implies is_digit(
            #[trigger] split_char(s, c)[k][j],
        ) by {
            if s.last() != c {
                if k == p.len() - 1 && j == p.last().len() {
                    assert(split_char(s, c)[k][j] == s.last());
                } else if k == p.len() - 1 {
                    assert(split_char(s, c)[k][j] == p[k][j]);
                }
            }
        }
    }
}

/// A run of at most four digits has a value below ten thousand (so it fits
/// every integer type used here).
proof fn lemma_small_digits_value(s: Seq<char>)
    requires
        s.len() <= 4,
        crate::numparse::all_digits(s),
    ensures
        crate::numparse::digits_value(s) < 10000,
        crate::numparse::parse_u32_spec(s) == Some(crate::numparse::digits_value(s)),
    decreases s.len(),
{
    lemma_digits_bound(s);
    assert(s.len() == 0 || s[0] != '+');
}

/// A digit run of length `n` has a value below `10^n`.
proof fn lemma_digits_bound(s: Seq<char>)
    requires
        s.len() <= 4,
        forall|i: int| 0 <= i < s.len() ==> is_digit(#[trigger] s[i]),
    ensures
        crate::numparse::digits_value(s) < (if s.len() == 0 {
            1nat
        } else if s.len() == 1 {
            10nat
        } else if s.len() == 2 {
            100nat
        } else if s.len() == 3 {
            1000nat
        } else {
            10000nat
        }),
    decreases s.len(),
{
    if s.len() > 0 {
        lemma_digits_bound(s.drop_last());
        assert(is_digit(s.last()));
    }
}

/// Checks the destination of a snapshot download.
pub open spec fn destination_verdict(dest: Seq<char>) -> Option<Seq<char>> {
    let normalized = replace_char(dest, '\\', '/');
    if all_whitespace(dest) {
        Some("Destination path cannot be empty"@)
    } else if encode_utf8(dest).len() > 260 {
        Some("Path too long (max 260 characters)"@)
    } else if contains_seq(normalized, "/../"@) || ends_with(normalized, "/.."@) || normalized
        == ".."@ {
        Some("Path traversal detected"@)
    } else if dest.contains('\0') || dest.contains('`') || dest.contains('$') {
        Some("Invalid characters in path"@)
    } else if starts_with(dest, "\\\\"@) || starts_with(dest, "//"@) {
        Some("Network paths are not allowed"@)
    } else {
        None
    }
}

/// Checks the destination path of a snapshot download (the file need not
/// exist yet).
pub fn validate_snapshot_destination(dest: &str) -> (r: Result<(), String>)
    ensures
        match r {
            Ok(()) => destination_verdict(dest@) is None,
            Err(e) => destination_verdict(dest@) == Some(e@),
        },
{
    let p = chars_of(dest);
    if is_blank(&p) {
        return Err(owned("Destination path cannot be empty"));
    }
    if dest.as_bytes().len() > 260 {
        return Err(owned("Path too long (max 260 characters)"));
    }
    let normalized = replace_char_exec(&p, '\\', '/');
    let t1 = has_infix(&normalized, &chars_of("/../"));
    let t2 = has_suffix(&normalized, &chars_of("/.."));
    let t3 = chars_eq(&normalized, &chars_of(".."));
    if t1 || t2 || t3 {
        return Err(owned("Path traversal detected"));
    }
    if has_char(&p, '\0') || has_char(&p, '`') || has_char(&p, '$') {
        return Err(owned("Invalid characters in path"));
    }
    let n1 = has_prefix(&p, &chars_of("\\\\"));
    let n2 = has_prefix(&p, &chars_of("//"));
    if n1 || n2 {
        return Err(owned("Network paths are not allowed"));
    }
    Ok(())
}

/// Search queries longer than 1000 bytes are refused.
pub fn validate_search_query(query: &str) -> (r: Result<(), String>)
    ensures
        r is Ok <==> encode_utf8(query@).len() <= 1000,
        r matches Err(e) ==> e@ == "Search query too long (max 1000 characters)"@,
{
    if query.as_bytes().len() > 1000 {
        Err(owned("Search query too long (max 1000 characters)"))
    } else {
        Ok(())
    }
}

/// Ignore patterns are of type `glob`, `regex` or `contains`.
pub fn validate_pattern_type(pattern_type: &str) -> (r: Result<(), String>)
    ensures
        r is Ok <==> (pattern_type@ == "glob"@ || pattern_type@ == "regex"@ || pattern_type@
            == "contains"@),
        r matches Err(e) ==> e@ == "Invalid pattern type '"@ + pattern_type@
            + "'. Must be one of: glob, regex, contains"@,
{
    if str_eq(pattern_type, "glob") || str_eq(pattern_type, "regex") || str_eq(
        pattern_type,
        "contains",
    ) {
        Ok(())
    } else {
        let mut e = owned("Invalid pattern type '");
        push_str(&mut e, pattern_type);
        push_str(&mut e, "'. Must be one of: glob, regex, contains");
        Err(e)
    }
}

/// The message shown to the user whatever went wrong inside a command; the
/// details stay in the log.
pub fn log_and_user_error(context: &str, e: &str) -> (r: String)
    ensures
        r@ == "Something went wrong. Please try again."@,
{
    owned("Something went wrong. Please try again.")
}

// ---------------------------------------------------------------------
// Versions
// ---------------------------------------------------------------------

/// The numeric pieces of a dotted version; pieces that are no `u32` are
/// skipped.
pub open spec fn version_parts(v: Seq<char>) -> Seq<nat> {
    parsed_pieces(split_char(v, '.'))
}

/// The pieces that read as `u32`, in order.
pub open spec fn parsed_pieces(ps: Seq<Seq<char>>) -> Seq<nat>
    decreases ps.len(),
{
    if ps.len() == 0 {
        Seq::empty()
    } else {
        let r = parsed_pieces(ps.drop_last());
        match parse_u32_spec(ps.last()) {
            Some(v) => r.push(v),
            None => r,
        }
    }
}

/// `l` is newer than `c`: the first differing piece is larger, or all
/// shared pieces agree and `l` has more.
pub open spec fn newer(l: Seq<nat>, c: Seq<nat>) -> bool
    decreases l.len(),
{
    if l.len() == 0 || c.len() == 0 {
        l.len() > c.len()
    } else if l[0] > c[0] {
        true
    } else if l[0] < c[0] {
        false
    } else {
        newer(l.drop_first(), c.drop_first())
    }
}

fn version_parts_exec(v: &str) -> (r: Vec<u32>)
    ensures
        r@.map_values(|x: u32| x as nat) == version_parts(v@),
{
    let c = chars_of(v);
    let parts = split_exec(&c, '.');
    let mut r: Vec<u32> = Vec::new();
    let mut k: usize = 0;
    while k < parts.len()
        invariant
            c@ == v@,
            k <= parts@.len() == split_char(c@, '.').len(),
            forall|q: int| 0 <= q < parts@.len() ==> (#[trigger] parts@[q])@ == split_char(c@, '.')[q],
            r@.map_values(|x: u32| x as nat) == parsed_pieces(split_char(c@, '.').subrange(0, k as int)),
        decreases parts.len() - k,
    {
        let s = crate::text::string_of(&parts[k]);
        let ghost sp = split_char(c@, '.');
        assert(sp.subrange(0, k + 1).drop_last() =~= sp.subrange(0, k as int));
        match parse_u32(s.as_str()) {
            Some(x) => {
                r.push(x);
            },
            None => {},
        }
        k = k + 1;
        assert(r@.map_values(|x: u32| x as nat) =~= parsed_pieces(sp.subrange(0, k as int)));
    }
    assert(split_char(c@, '.').subrange(0, parts.len() as int) =~= split_char(c@, '.'));
    r
}

/// Whether `l` is newer than `c`, pieces given as machine integers.
fn newer_exec(l: &Vec<u32>, c: &Vec<u32>) -> (r: bool)
    ensures
        r == newer(l@.map_values(|x: u32| x as nat), c@.map_values(|x: u32| x as nat)),
{
    let ghost lv = l@.map_values(|x: u32| x as nat);
    let ghost cv = c@.map_values(|x: u32| x as nat);
    let mut i: usize = 0;
    assert(lv.skip(0) =~= lv);
    assert(cv.skip(0) =~= cv);
    while i < l.len() && i < c.len()
        invariant
            lv == l@.map_values(|x: u32| x as nat),
            cv == c@.map_values(|x: u32| x as nat),
            i <= l.len(),
            i <= c.len(),
            newer(lv, cv) == newer(lv.skip(i as int), cv.skip(i as int)),
        decreases l.len() - i,
    {
        assert(lv.skip(i as int)[0] == l@[i as int] as nat);
        assert(cv.skip(i as int)[0] == c@[i as int] as nat);
        assert(lv.skip(i as int).len() > 0 && cv.skip(i as int).len() > 0);
        if l[i] > c[i] {
            return true;
        }
        if l[i] < c[i] {
            return false;
        }
        assert(lv.skip(i as int).drop_first() =~= lv.skip(i + 1));
        assert(cv.skip(i as int).drop_first() =~= cv.skip(i + 1));
        i = i + 1;
    }
    l.len() > c.len()
}

/// The text before the first `c`, and the text after it when there is one.
pub open spec fn cut_at(s: Seq<char>, c: char) -> (Seq<char>, Option<Seq<char>>) {
    let i = first_index(s, c);
    if i < 0 {
        (s, None)
    } else {
        (s.take(i), Some(s.skip(i + 1)))
    }
}

fn cut_exec(v: &Vec<char>, c: char) -> (r: (Vec<char>, Option<Vec<char>>))
    ensures
        r.0@ == cut_at(v@, c).0,
        match r.1 {
            Some(x) => cut_at(v@, c).1 == Some(x@),
            None => cut_at(v@, c).1 is None,
        },
{
    let mut i: usize = 0;
    while i < v.len() && v[i] != c
        invariant
            i <= v@.len(),
            forall|j: int| 0 <= j < i ==> v@[j] != c,
        decreases v.len() - i,
    {
        i = i + 1;
    }
    let mut head: Vec<char> = Vec::new();
    let mut k: usize = 0;
    while k < i
        invariant
            k <= i <= v@.len(),
            head@ == v@.take(k as int),
        decreases i - k,
    {
        head.push(v[k]);
        k = k + 1;
        assert(head@ =~= v@.take(k as int));
    }
    if i == v.len() {
        proof {
            lemma_first_index_none(v@, c);
            assert(v@.take(i as int) =~= v@);
        }
        (head, None)
    } else {
        proof {
            lemma_first_index_is(v@, c, i as int);
        }
        let mut tail: Vec<char> = Vec::new();
        let mut q: usize = i + 1;
        while q < v.len()
            invariant
                i < v@.len(),
                i + 1 <= q <= v@.len(),
                tail@ == v@.subrange(i + 1, q as int),
            decreases v.len() - q,
        {
            tail.push(v[q]);
            q = q + 1;
            assert(tail@ =~= v@.subrange(i + 1, q as int));
        }
        assert(tail@ =~= v@.skip(i + 1));
        (head, Some(tail))
    }
}

/// The parts of a version that decide precedence: build metadata (after
/// `+`) is dropped; the core is what comes before the first `-`, the
/// pre-release what comes after it.
pub open spec fn version_core(v: Seq<char>) -> Seq<char> {
    cut_at(cut_at(v, '+').0, '-').0
}

/// The pre-release part of a version, if it has one.
pub open spec fn version_pre(v: Seq<char>) -> Option<Seq<char>> {
    cut_at(cut_at(v, '+').0, '-').1
}

/// Pre-release identifier `a` ranks above `b`: two numeric identifiers
/// (read as `u64`) by value; a numeric one below any other; two others by
/// text order.
pub open spec fn ident_above(a: Seq<char>, b: Seq<char>) -> bool {
    match (parse_u64_spec(a), parse_u64_spec(b)) {
        (Some(x), Some(y)) => x > y,
        (Some(_), None) => false,
        (None, Some(_)) => true,
        (None, None) => text_lt(b, a),
    }
}

/// Dot-separated pre-release identifiers `xs` rank above `ys`: the first
/// identifier that differs decides, and if all shared ones agree, the
/// longer list ranks higher.
pub open spec fn idents_above(xs: Seq<Seq<char>>, ys: Seq<Seq<char>>) -> bool
    decreases xs.len(),
{
    if xs.len() == 0 || ys.len() == 0 {
        xs.len() > ys.len()
    } else if ident_above(xs[0], ys[0]) {
        true
    } else if ident_above(ys[0], xs[0]) {
        false
    } else {
        idents_above(xs.drop_first(), ys.drop_first())
    }
}

/// Semantic-version precedence: `latest` is newer than `current` when its
/// numeric core is newer; with equal cores, a release is newer than a
/// pre-release, and two pre-releases compare by their identifiers.
pub open spec fn version_newer(latest: Seq<char>, current: Seq<char>) -> bool {
    let l = version_parts(version_core(latest));
    let c = version_parts(version_core(current));
    if newer(l, c) {
        true
    } else if newer(c, l) {
        false
    } else {
        match (version_pre(latest), version_pre(current)) {
            (None, None) => false,
            (None, Some(_)) => true,
            (Some(_), None) => false,
            (Some(a), Some(b)) => idents_above(split_char(a, '.'), split_char(b, '.')),
        }
    }
}

fn ident_above_exec(a: &Vec<char>, b: &Vec<char>) -> (r: bool)
    ensures
        r == ident_above(a@, b@),
{
    let sa = string_of(a);
    let sb = string_of(b);
    match (parse_u64(sa.as_str()), parse_u64(sb.as_str())) {
        (Some(x), Some(y)) => x > y,
        (Some(_), None) => false,
        (None, Some(_)) => true,
        (None, None) => text_less(sb.as_str(), sa.as_str()),
    }
}

fn idents_above_exec(xs: &Vec<Vec<char>>, ys: &Vec<Vec<char>>) -> (r: bool)
    ensures
        r == idents_above(xs@.map_values(|x: Vec<char>| x@), ys@.map_values(|y: Vec<char>| y@)),
{
    let ghost xv = xs@.map_values(|x: Vec<char>| x@);
    let ghost yv = ys@.map_values(|y: Vec<char>| y@);
    let mut i: usize = 0;
    assert(xv.skip(0) =~= xv);
    assert(yv.skip(0) =~= yv);
    while i < xs.len() && i < ys.len()
        invariant
            xv == xs@.map_values(|x: Vec<char>| x@),
            yv == ys@.map_values(|y: Vec<char>| y@),
            i <= xs.len(),
            i <= ys.len(),
            idents_above(xv, yv) == idents_above(xv.skip(i as int), yv.skip(i as int)),
        decreases xs.len() - i,
    {
        assert(xv.skip(i as int)[0] == xs@[i as int]@);
        assert(yv.skip(i as int)[0] == ys@[i as int]@);
        if ident_above_exec(&xs[i], &ys[i]) {
            return true;
        }
        if ident_above_exec(&ys[i], &xs[i]) {
            return false;
        }
        assert(xv.skip(i as int).drop_first() =~= xv.skip(i + 1));
        assert(yv.skip(i as int).drop_first() =~= yv.skip(i + 1));
        i = i + 1;
    }
    xs.len() > ys.len()
}

fn split_pieces(v: &Vec<char>) -> (r: Vec<Vec<char>>)
    ensures
        r@.map_values(|x: Vec<char>| x@) == split_char(v@, '.'),
{
    let ps = split_exec(v.as_slice(), '.');
    proof {
        assert(ps@.map_values(|x: Vec<char>| x@) =~= split_char(v@, '.'));
    }
    ps
}

/// Whether `latest` is a newer version than `current`, by semantic-version
/// precedence.
pub fn compare_versions(latest: &str, current: &str) -> (r: bool)
    ensures
        r == version_newer(latest@, current@),
{
    let lc = chars_of(latest);
    let cc = chars_of(current);
    let (lb, _) = cut_exec(&lc, '+');
    let (cb, _) = cut_exec(&cc, '+');
    let (lcore, lpre) = cut_exec(&lb, '-');
    let (ccore, cpre) = cut_exec(&cb, '-');
    let lparts = version_parts_exec(string_of(&lcore).as_str());
    let cparts = version_parts_exec(string_of(&ccore).as_str());
    if newer_exec(&lparts, &cparts) {
        return true;
    }
    if newer_exec(&cparts, &lparts) {
        return false;
    }
    match (lpre, cpre) {
        (None, None) => false,
        (None, Some(_)) => true,
        (Some(_), None) => false,
        (Some(a), Some(b)) => {
            let xs = split_pieces(&a);
            let ys = split_pieces(&b);
            idents_above_exec(&xs, &ys)
        },
    }
}

} // verus!
