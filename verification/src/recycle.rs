//! Reading the recycle bin: the original path recorded in a Windows `$I`
//! file, the fields of a freedesktop `.trashinfo` file, which bin entries
//! belong to known files, and which files a restore may touch.
use vstd::prelude::*;
use vstd::utf8::{decode_utf8, encode_utf8, valid_utf8};
use crate::hexcodec::nibble;
use crate::paths::file_name_spec;
use crate::records::FileRecord;
use crate::text::{
    chars_of, contains_seq, has_char, has_infix, lines_exec, lines_spec, owned, starts_with,
    str_eq, string_of,
};

verus! {

// ---------------------------------------------------------------------
// Windows `$I` files
// ---------------------------------------------------------------------

/// Bytes before the path in a `$I` file.
pub const INFO_HEADER_LEN: usize = 24;

/// The 16-bit units of little-endian byte pairs; an odd last byte is
/// dropped.
pub open spec fn le_units(b: Seq<u8>) -> Seq<u16> {
    Seq::new(b.len() / 2, |i: int| (b[2 * i] + 256 * b[2 * i + 1]) as u16)
}

/// A surrogate code unit.
pub open spec fn is_surrogate(u: u16) -> bool {
    0xD800 <= u <= 0xDFFF
}

/// UTF-16 decoding in which every unpaired surrogate becomes U+FFFD
/// (what `String::from_utf16_lossy` documents).
pub open spec fn utf16_lossy(us: Seq<u16>) -> Seq<char>
    decreases us.len(),
{
    if us.len() == 0 {
        Seq::empty()
    } else if !is_surrogate(us[0]) {
        seq![us[0] as char] + utf16_lossy(us.drop_first())
    } else if us[0] <= 0xDBFF && us.len() >= 2 && 0xDC00 <= us[1] <= 0xDFFF {
        seq![(0x10000 + (us[0] - 0xD800) * 0x400 + (us[1] - 0xDC00)) as char] + utf16_lossy(
            us.subrange(2, us.len() as int),
        )
    } else {
        seq!['\u{FFFD}'] + utf16_lossy(us.drop_first())
    }
}

/// The characters before the first NUL.
pub open spec fn before_nul(s: Seq<char>) -> Seq<char>
    decreases s.len(),
{
    if s.len() == 0 || s[0] == '\0' {
        Seq::empty()
    } else {
        seq![s[0]] + before_nul(s.drop_first())
    }
}

/// The original path recorded in a `$I` file that has its header.
pub open spec fn info_path(content: Seq<u8>) -> Seq<char> {
    before_nul(utf16_lossy(le_units(content.subrange(INFO_HEADER_LEN as int, content.len() as int))))
}

/// A Unicode scalar value.
pub open spec fn is_scalar_value(x: u32) -> bool {
    x < 0xD800 || (0xE000 <= x && x <= 0x10FFFF)
}

/// `char::from_u32`: a character exactly for scalar values.
#[verifier::external_body]
fn char_from_u32(x: u32) -> (r: Option<char>)
    ensures
        is_scalar_value(x) ==> r == Some(x as char),
        !is_scalar_value(x) ==> r is None,
{
    char::from_u32(x)
}

fn scalar_char(x: u32) -> (c: char)
    requires
        is_scalar_value(x),
    ensures
        c == x as char,
{
    match char_from_u32(x) {
        Some(c) => c,
        None => '\u{FFFD}',
    }
}

/// Decodes the path of a `$I` file: the UTF-16LE text after the header,
/// up to the first NUL.
pub fn info_file_path(content: &[u8]) -> (r: String)
    requires
        content@.len() >= INFO_HEADER_LEN,
    ensures
        r@ == info_path(content@),
{
    let ghost body = content@.subrange(INFO_HEADER_LEN as int, content@.len() as int);
    let ghost us = le_units(body);
    let n: usize = (content.len() - INFO_HEADER_LEN) / 2;
    let total: usize = content.len();
    let mut units: Vec<u16> = Vec::new();
    let mut k: usize = 0;
    assert(INFO_HEADER_LEN + 2 * n <= content@.len()) by (nonlinear_arith)
        requires
            n == (content@.len() - INFO_HEADER_LEN) / 2,
            content@.len() >= INFO_HEADER_LEN,
    ;
    while k < n
        invariant
            n == (content@.len() - INFO_HEADER_LEN) / 2,
            INFO_HEADER_LEN + 2 * n <= content@.len(),
            content@.len() == total,
            body == content@.subrange(INFO_HEADER_LEN as int, content@.len() as int),
            us == le_units(body),
            k <= n,
            units@ == us.subrange(0, k as int),
        decreases n - k,
    {
        let lo = content[INFO_HEADER_LEN + 2 * k];
        let hi = content[INFO_HEADER_LEN + 2 * k + 1];
        let u: u16 = lo as u16 + (hi as u16) * 256;
        assert(u == us[k as int]);
        units.push(u);
        k = k + 1;
        assert(units@ =~= us.subrange(0, k as int));
    }
    assert(units@ =~= us);
    let mut out: Vec<char> = Vec::new();
    let mut i: usize = 0;
    assert(us.subrange(0, us.len() as int) =~= us);
    while i < units.len()
        invariant
            content@.len() >= INFO_HEADER_LEN,
            body == content@.subrange(INFO_HEADER_LEN as int, content@.len() as int),
            us == le_units(body),
            units@ == us,
            i <= units@.len(),
            before_nul(utf16_lossy(us)) == out@ + before_nul(
                utf16_lossy(us.subrange(i as int, us.len() as int)),
            ),
        decreases units.len() - i,
    {
        let u = units[i];
        let ghost rest = us.subrange(i as int, us.len() as int);
        let c: char;
        let step: usize;
        if u < 0xD800 || u > 0xDFFF {
            c = scalar_char(u as u32);
            step = 1;
            proof {
                assert(rest.drop_first() =~= us.subrange(i + 1, us.len() as int));
            }
        } else if u <= 0xDBFF && i + 1 < units.len() && 0xDC00 <= units[i + 1] && units[i + 1] <= 0xDFFF {
            let x: u32 = 0x10000 + (u as u32 - 0xD800) * 0x400 + (units[i + 1] as u32 - 0xDC00);
            c = scalar_char(x);
            step = 2;
            proof {
                assert(rest.subrange(2, rest.len() as int) =~= us.subrange(i + 2, us.len() as int));
            }
        } else {
            c = '\u{FFFD}';
            step = 1;
            proof {
                assert(rest.drop_first() =~= us.subrange(i + 1, us.len() as int));
            }
        }
        proof {
            assert(utf16_lossy(rest) == seq![c] + utf16_lossy(
                us.subrange(i + step, us.len() as int),
            ));
        }
        if c == '\0' {
            proof {
                assert(before_nul(utf16_lossy(rest)) =~= Seq::<char>::empty()) by {
                    assert((seq![c] + utf16_lossy(us.subrange(i + step, us.len() as int)))[0] == c);
                }
            }
            assert(out@ + Seq::<char>::empty() =~= out@);
            return string_of(&out);
        }
        proof {
            let tail = utf16_lossy(us.subrange(i + step, us.len() as int));
            assert((seq![c] + tail).drop_first() =~= tail);
            assert(before_nul(seq![c] + tail) == seq![c] + before_nul(tail));
            assert(out@.push(c) + before_nul(tail) =~= out@ + (seq![c] + before_nul(tail)));
        }
        out.push(c);
        i = i + step;
    }
    proof {
        assert(us.subrange(i as int, us.len() as int) =~= Seq::<u16>::empty());
        assert(out@ + Seq::<char>::empty() =~= out@);
    }
    string_of(&out)
}

/// The original path of a `$I` file found while listing the bin: `None`
/// for a file shorter than its header or one whose path is empty.
pub fn listed_info_path(content: &[u8]) -> (r: Option<String>)
    ensures
        content@.len() < INFO_HEADER_LEN ==> r is None,
        content@.len() >= INFO_HEADER_LEN ==> (match r {
            Some(p) => p@ == info_path(content@) && p@.len() > 0,
            None => info_path(content@).len() == 0,
        }),
{
    if content.len() < INFO_HEADER_LEN {
        return None;
    }
    let p = info_file_path(content);
    if p.as_str().is_empty() {
        None
    } else {
        Some(p)
    }
}

/// The name of the `$R` (or `$I`) file paired with a bin file name: the
/// same suffix after the two-letter prefix.
pub open spec fn paired_name(name: Seq<char>, prefix: Seq<char>) -> Seq<char> {
    prefix + name.subrange(2, name.len() as int)
}

/// The paired file's name, for a name that starts with `$I` or `$R`.
pub fn paired_file_name(name: &str, prefix: &str) -> (r: String)
    requires
        name@.len() >= 2,
    ensures
        r@ == paired_name(name@, prefix@),
{
    let c = chars_of(name);
    let mut r = owned(prefix);
    let mut i: usize = 2;
    let ghost start = r@;
    while i < c.len()
        invariant
            2 <= i <= c@.len(),
            c@ == name@,
            start == prefix@,
            r@ == start + c@.subrange(2, i as int),
        decreases c.len() - i,
    {
        crate::text::push_char(&mut r, c[i]);
        i = i + 1;
        assert(r@ =~= start + c@.subrange(2, i as int));
    }
    r
}

/// The file name of a path, or `fallback` when it has none.
pub open spec fn name_or(p: Seq<char>, fallback: Seq<char>) -> Seq<char> {
    match file_name_spec(p) {
        Some(n) => n,
        None => fallback,
    }
}

/// The file name of a path, or `fallback` when it has none.
pub fn name_or_exec(p: &str, fallback: &str) -> (r: String)
    ensures
        r@ == name_or(p@, fallback@),
{
    match crate::paths::file_name_of(p) {
        Some(n) => n,
        None => owned(fallback),
    }
}

/// A bin file found by name may be restored when its size agrees with the
/// expected one (unknown when zero) and its recorded path names the file.
pub open spec fn name_search_accepts(expected_size: u64, size: u64, recorded_path: Seq<char>, filename: Seq<char>) -> bool {
    !(expected_size > 0 && size != expected_size) && name_or(recorded_path, ""@) == filename
}

/// Whether a bin file found by name is the one to restore.
pub fn name_search_accepts_exec(expected_size: u64, size: u64, recorded_path: &str, filename: &str) -> (r: bool)
    ensures
        r == name_search_accepts(expected_size, size, recorded_path@, filename@),
{
    if expected_size > 0 && size != expected_size {
        return false;
    }
    let n = name_or_exec(recorded_path, "");
    str_eq(n.as_str(), filename)
}

// ---------------------------------------------------------------------
// Freedesktop trash
// ---------------------------------------------------------------------

/// The value of the last line with this key prefix, or empty.
pub open spec fn last_field(ls: Seq<Seq<char>>, key: Seq<char>) -> Seq<char>
    decreases ls.len(),
{
    if ls.len() == 0 {
        Seq::empty()
    } else if starts_with(ls.last(), key) {
        ls.last().subrange(key.len() as int, ls.last().len() as int)
    } else {
        last_field(ls.drop_last(), key)
    }
}

/// The `Path=` and `DeletionDate=` values of a `.trashinfo` text (the
/// last of each; empty when absent).
pub open spec fn trashinfo_spec(content: Seq<char>) -> (Seq<char>, Seq<char>) {
    (last_field(lines_spec(content), "Path="@), last_field(lines_spec(content), "DeletionDate="@))
}

fn field_value(line: &String, key: &str) -> (r: Option<String>)
    ensures
        match r {
            Some(v) => starts_with(line@, key@) && v@ == line@.subrange(key@.len() as int, line@.len() as int),
            None => !starts_with(line@, key@),
        },
{
    let l = chars_of(line.as_str());
    let k = chars_of(key);
    if !crate::text::has_prefix(&l, &k) {
        return None;
    }
    let mut v: Vec<char> = Vec::new();
    let mut i: usize = k.len();
    while i < l.len()
        invariant
            k@.len() <= i <= l@.len(),
            v@ == l@.subrange(k@.len() as int, i as int),
        decreases l.len() - i,
    {
        v.push(l[i]);
        i = i + 1;
        assert(v@ =~= l@.subrange(k@.len() as int, i as int));
    }
    Some(string_of(&v))
}

/// Reads the original path (still percent-encoded) and the deletion date
/// of a `.trashinfo` file.
pub fn parse_trashinfo(content: &str) -> (r: (String, String))
    ensures
        (r.0@, r.1@) == trashinfo_spec(content@),
{
    let ls = lines_exec(content);
    let ghost lv = ls@.map_values(|x: String| x@);
    let mut path: String = String::new();
    let mut date: String = String::new();
    let mut i: usize = 0;
    proof {
        assert(lv.take(0) =~= Seq::<Seq<char>>::empty());
    }
    while i < ls.len()
        invariant
            i <= ls.len(),
            lv == ls@.map_values(|x: String| x@),
            path@ == last_field(lv.take(i as int), "Path="@),
            date@ == last_field(lv.take(i as int), "DeletionDate="@),
        decreases ls.len() - i,
    {
        proof {
            assert(lv.take(i + 1).drop_last() =~= lv.take(i as int));
            assert(lv.take(i + 1).last() == ls@[i as int]@);
        }
        match field_value(&ls[i], "Path=") {
            Some(v) => {
                path = v;
            },
            None => {},
        }
        match field_value(&ls[i], "DeletionDate=") {
            Some(v) => {
                date = v;
            },
            None => {},
        }
        i = i + 1;
    }
    assert(lv.take(ls.len() as int) =~= lv);
    (path, date)
}

/// Percent-decoding of bytes: each `%` followed by two hex digits (either
/// case) becomes the byte they spell; every other byte, `+` and a `%`
/// without two hex digits among them, stays as it is.
pub open spec fn percent_decode_bytes(b: Seq<u8>) -> Seq<u8>
    decreases b.len(),
{
    if b.len() == 0 {
        Seq::empty()
    } else if b[0] == 0x25 && b.len() >= 3 && nibble(b[1]) is Some && nibble(b[2]) is Some {
        seq![(nibble(b[1])->0 * 16 + nibble(b[2])->0) as u8] + percent_decode_bytes(b.subrange(3, b.len() as int))
    } else {
        seq![b[0]] + percent_decode_bytes(b.drop_first())
    }
}

/// What `urlencoding::decode` makes of a text: its UTF-8 bytes
/// percent-decoded, read back as UTF-8, or `None` when they are no UTF-8.
pub open spec fn percent_decoded(s: Seq<char>) -> Option<Seq<char>> {
    let b = percent_decode_bytes(encode_utf8(s));
    if valid_utf8(b) {
        Some(decode_utf8(b))
    } else {
        None
    }
}

/// `urlencoding::decode`: the text percent-decoded as `percent_decoded`
/// states, or `None` where the crate reports invalid UTF-8.
#[verifier::external_body]
fn url_decode(s: &str) -> (r: Option<String>)
    ensures
        match r {
            Some(d) => percent_decoded(s@) == Some(d@),
            None => percent_decoded(s@) is None,
        },
{
    match urlencoding::decode(s) {
        Ok(d) => Some(d.into_owned()),
        Err(_) => None,
    }
}

/// A trash entry as the bin listing records it.
pub struct TrashEntry {
    pub original_path: String,
    pub filename: String,
    pub deleted_at: String,
}

/// The entry a `.trashinfo` text describes: nothing without a path; the
/// path decoded (empty when it is no UTF-8); its file name, or `unknown`.
pub open spec fn trash_entry_spec(content: Seq<char>) -> Option<(Seq<char>, Seq<char>, Seq<char>)> {
    let (p, d) = trashinfo_spec(content);
    if p.len() == 0 {
        None
    } else {
        let decoded = match percent_decoded(p) {
            Some(x) => x,
            None => Seq::empty(),
        };
        Some((decoded, name_or(decoded, "unknown"@), d))
    }
}

/// Reads a `.trashinfo` text into a bin entry.
pub fn trash_entry(content: &str) -> (r: Option<TrashEntry>)
    ensures
        match r {
            Some(e) => trash_entry_spec(content@) == Some((e.original_path@, e.filename@, e.deleted_at@)),
            None => trash_entry_spec(content@) is None,
        },
{
    let (p, d) = parse_trashinfo(content);
    if p.as_str().is_empty() {
        return None;
    }
    let decoded = match url_decode(p.as_str()) {
        Some(x) => x,
        None => String::new(),
    };
    let filename = name_or_exec(decoded.as_str(), "unknown");
    Some(TrashEntry { original_path: decoded, filename, deleted_at: d })
}

/// A file name that may be joined to the trash directory: no separators
/// and no `..`.
pub open spec fn trash_name_ok(name: Seq<char>) -> bool {
    !name.contains('/') && !name.contains('\\') && !contains_seq(name, ".."@)
}

/// Checks the file name of a trash restore.
pub fn check_trash_filename(filename: &str) -> (r: Result<(), String>)
    ensures
        r is Ok <==> trash_name_ok(filename@),
        r matches Err(e) ==> e@ == "Invalid filename: path traversal detected"@,
{
    let c = chars_of(filename);
    if has_char(&c, '/') || has_char(&c, '\\') || has_infix(&c, &chars_of("..")) {
        return Err(owned("Invalid filename: path traversal detected"));
    }
    Ok(())
}

// ---------------------------------------------------------------------
// Matching bin entries with known files
// ---------------------------------------------------------------------

/// Whether a path is known as deleted: the last known record with that
/// path decides (later records replace earlier ones).
pub open spec fn known_deleted(known: Seq<FileRecord>, path: Seq<char>) -> bool
    decreases known.len(),
{
    if known.len() == 0 {
        false
    } else if known.last().path@ == path {
        known.last().is_deleted
    } else {
        known_deleted(known.drop_last(), path)
    }
}

/// Whether a bin entry's original path belongs to a deleted known file.
pub fn is_known_deleted(known: &Vec<FileRecord>, path: &str) -> (r: bool)
    ensures
        r == known_deleted(known@, path@),
{
    let mut k: usize = known.len();
    assert(known@.take(k as int) =~= known@);
    while k > 0
        invariant
            k <= known@.len(),
            known_deleted(known@, path@) == known_deleted(known@.take(k as int), path@),
        decreases k,
    {
        assert(known@.take(k as int).last() == known@[k - 1]);
        if str_eq(known[k - 1].path.as_str(), path) {
            return known[k - 1].is_deleted;
        }
        assert(known@.take(k as int).drop_last() =~= known@.take(k - 1));
        k = k - 1;
    }
    false
}

// ---------------------------------------------------------------------
// Listing the bin
// ---------------------------------------------------------------------

/// At most this many bin entries are listed, the latest deleted first.
pub const MAX_BIN_ENTRIES: usize = 200;

} // verus!
