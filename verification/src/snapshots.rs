//! File-content snapshots: which files are kept, under which name and
//! hash, the quota they must fit, where a snapshot may be restored, and
//! the checks on what is read back.
use vstd::prelude::*;
use crate::hexcodec::{hex_encode, hex_encode_exec};
use crate::paths::{extension_spec, extension_of};
use crate::security::is_ascii_alpha;
use crate::text::{
    chars_of, contains_seq, decimal_int, ends_with, has_infix, has_prefix, has_suffix, owned,
    push_str, replace_char, replace_char_exec, split_char, split_exec, starts_with, str_eq,
    string_of, to_lowercase, trim, trim_exec, unicode_lowercase,
};
use vstd::utf8::{decode_utf8, encode_utf8, valid_utf8};

verus! {

/// Largest file kept by default, in bytes.
pub const DEFAULT_MAX_SIZE: i64 = 102400;

/// Most bytes a snapshot may decompress to.
pub const MAX_DECOMPRESSED_BYTES: usize = 10485760;

/// Deepest folder level a snapshot pass enters.
pub const MAX_RECURSION_DEPTH: u32 = 10;

/// Most bytes all snapshots together may take.
pub const MAX_TOTAL_SNAPSHOT_BYTES: i64 = 524288000;

/// Most snapshots kept.
pub const MAX_SNAPSHOT_COUNT: i64 = 10000;

/// Largest file a snapshot is ever taken of, in bytes.
pub const MAX_SNAPSHOT_FILE_SIZE: u64 = 10485760;

// ---------------------------------------------------------------------
// Which files are kept
// ---------------------------------------------------------------------

/// Extensions kept when the user chose none.
pub open spec fn default_extensions() -> Seq<Seq<char>> {
    seq![
        ".txt"@, ".md"@, ".js"@, ".ts"@, ".jsx"@, ".tsx"@, ".py"@, ".json"@, ".yaml"@, ".yml"@,
        ".toml"@, ".cfg"@, ".xml"@, ".html"@, ".css"@, ".sql"@, ".rs"@, ".go"@, ".java"@, ".c"@,
        ".cpp"@, ".h"@, ".sh"@, ".bat"@, ".ps1"@, ".rb"@, ".php"@, ".swift"@, ".kt"@, ".scala"@,
        ".vue"@, ".svelte"@, ".graphql"@, ".proto"@, ".env"@, ".ini"@, ".conf"@, ".log"@, ".csv"@,
        ".tsv"@,
    ]
}

/// The extension list of the settings: each comma-separated entry trimmed
/// and lower-cased; the defaults when nothing is stored.
pub open spec fn extension_list(setting: Option<Seq<char>>) -> Seq<Seq<char>> {
    match setting {
        Some(v) => split_char(v, ',').map_values(|p: Seq<char>| unicode_lowercase(trim(p))),
        None => default_extensions(),
    }
}

/// The extensions whose files are kept, read from the stored setting.
pub fn snapshot_extensions(setting: &Option<String>) -> (r: Vec<String>)
    ensures
        r@.map_values(|x: String| x@) == extension_list(
            match setting {
                Some(s) => Some(s@),
                None => None,
            },
        ),
{
    match setting {
        Some(v) => {
            let c = chars_of(v.as_str());
            let ps = split_exec(&c, ',');
            let ghost sp = split_char(c@, ',');
            let ghost want = sp.map_values(|p: Seq<char>| unicode_lowercase(trim(p)));
            let mut r: Vec<String> = Vec::new();
            let mut i: usize = 0;
            while i < ps.len()
                invariant
                    i <= ps@.len() == sp.len(),
                    forall|q: int| 0 <= q < ps@.len() ==> (#[trigger] ps@[q])@ == sp[q],
                    want == sp.map_values(|p: Seq<char>| unicode_lowercase(trim(p))),
                    r@.map_values(|x: String| x@) == want.subrange(0, i as int),
                decreases ps.len() - i,
            {
                let t = trim_exec(&ps[i]);
                let ts = string_of(&t);
                let l = to_lowercase(ts.as_str());
                let ghost before = r@.map_values(|x: String| x@);
                r.push(l);
                assert(r@.map_values(|x: String| x@) =~= before.push(l@));
                i = i + 1;
                assert(r@.map_values(|x: String| x@) =~= want.subrange(0, i as int));
            }
            assert(want.subrange(0, ps.len() as int) =~= want);
            r
        },
        None => {
            let list = [
                ".txt", ".md", ".js", ".ts", ".jsx", ".tsx", ".py", ".json", ".yaml", ".yml",
                ".toml", ".cfg", ".xml", ".html", ".css", ".sql", ".rs", ".go", ".java", ".c",
                ".cpp", ".h", ".sh", ".bat", ".ps1", ".rb", ".php", ".swift", ".kt", ".scala",
                ".vue", ".svelte", ".graphql", ".proto", ".env", ".ini", ".conf", ".log", ".csv",
                ".tsv",
            ];
            let ghost want = list@.map_values(|x: &str| x@);
            assert(want =~= default_extensions());
            let mut r: Vec<String> = Vec::new();
            let mut i: usize = 0;
            while i < list.len()
                invariant
                    i <= list@.len(),
                    want == list@.map_values(|x: &str| x@),
                    r@.map_values(|x: String| x@) == want.subrange(0, i as int),
                decreases list.len() - i,
            {
                let s = owned(list[i]);
                let ghost before = r@.map_values(|x: String| x@);
                r.push(s);
                assert(r@.map_values(|x: String| x@) =~= before.push(s@));
                i = i + 1;
                assert(r@.map_values(|x: String| x@) =~= want.subrange(0, i as int));
            }
            assert(want.subrange(0, list.len() as int) =~= want);
            r
        },
    }
}

/// The dotted, lower-cased extension of a path, or empty without one.
pub open spec fn dotted_extension(path: Seq<char>) -> Seq<char> {
    match extension_spec(path) {
        Some(e) => "."@ + unicode_lowercase(e),
        None => Seq::empty(),
    }
}

/// A file is kept when its size is positive and at most the limit and its
/// dotted extension is listed.
pub open spec fn snapshot_eligible(path: Seq<char>, size: int, max_size: int, exts: Seq<Seq<char>>) -> bool {
    !(size > max_size || size == 0) && exts.contains(dotted_extension(path))
}

/// Whether a file is kept, given the size limit and extension list.
pub fn should_snapshot_with(path: &str, size: i64, max_size: i64, extensions: &Vec<String>) -> (r: bool)
    ensures
        r == snapshot_eligible(path@, size as int, max_size as int, extensions@.map_values(|x: String| x@)),
{
    if size > max_size || size == 0 {
        return false;
    }
    let ext = match extension_of(path) {
        Some(e) => {
            let mut d = owned(".");
            let l = to_lowercase(e.as_str());
            push_str(&mut d, l.as_str());
            d
        },
        None => String::new(),
    };
    assert(ext@ == dotted_extension(path@));
    let ghost views = extensions@.map_values(|x: String| x@);
    let mut k: usize = 0;
    while k < extensions.len()
        invariant
            k <= extensions.len(),
            views == extensions@.map_values(|x: String| x@),
            ext@ == dotted_extension(path@),
            !(size > max_size || size == 0),
            forall|q: int| 0 <= q < k ==> views[q] != ext@,
        decreases extensions.len() - k,
    {
        if str_eq(extensions[k].as_str(), ext.as_str()) {
            assert(views[k as int] == ext@);
            return true;
        }
        k = k + 1;
    }
    false
}

/// Folders a snapshot pass does not enter: hidden ones and dependency or
/// cache folders.
pub open spec fn snapshot_skips(name: Seq<char>) -> bool {
    starts_with(name, "."@) || name == "node_modules"@ || name == "__pycache__"@ || name == ".git"@
}

/// Whether a snapshot pass skips a folder of this name.
pub fn snapshot_skips_dir(name: &str) -> (r: bool)
    ensures
        r == snapshot_skips(name@),
{
    let c = chars_of(name);
    has_prefix(&c, &chars_of(".")) || str_eq(name, "node_modules") || str_eq(name, "__pycache__")
        || str_eq(name, ".git")
}

/// Whether a snapshot pass may enter a folder at this depth.
pub fn depth_allowed(depth: u32) -> (r: bool)
    ensures
        r == (depth < MAX_RECURSION_DEPTH),
{
    depth < MAX_RECURSION_DEPTH
}

// ---------------------------------------------------------------------
// Limits
// ---------------------------------------------------------------------

/// The quota verdict for a store that holds `count` snapshots of
/// `total` bytes.
pub open spec fn quota_verdict(count: i64, total: i64) -> Option<Seq<char>> {
    if count >= MAX_SNAPSHOT_COUNT {
        Some(
            "Snapshot limit reached ("@ + decimal_int(count as int) + "/10000). Run cleanup or increase retention."@,
        )
    } else if total >= MAX_TOTAL_SNAPSHOT_BYTES {
        Some(
            "Snapshot disk quota reached ("@ + decimal_int(total as int / 1048576) + "/500 MB). Run cleanup or increase retention."@,
        )
    } else {
        None
    }
}

/// Refuses a new snapshot when the store is full.
pub fn check_quota(count: i64, total_size: i64) -> (r: Result<(), String>)
    ensures
        match r {
            Ok(()) => quota_verdict(count, total_size) is None,
            Err(e) => quota_verdict(count, total_size) == Some(e@),
        },
{
    if count >= MAX_SNAPSHOT_COUNT {
        let mut e = owned("Snapshot limit reached (");
        let n = crate::text::decimal_i64(count);
        push_str(&mut e, n.as_str());
        push_str(&mut e, "/10000). Run cleanup or increase retention.");
        return Err(e);
    }
    if total_size >= MAX_TOTAL_SNAPSHOT_BYTES {
        let mut e = owned("Snapshot disk quota reached (");
        let mb = total_size / 1048576;
        let n = crate::text::decimal_i64(mb);
        push_str(&mut e, n.as_str());
        push_str(&mut e, "/500 MB). Run cleanup or increase retention.");
        return Err(e);
    }
    Ok(())
}

/// Refuses files over the hard size cap.
pub fn check_file_size(len: u64) -> (r: Result<(), String>)
    ensures
        r is Ok <==> len <= MAX_SNAPSHOT_FILE_SIZE,
        r matches Err(e) ==> e@ == "File too large for snapshot ("@ + crate::text::decimal(len as nat)
            + " bytes, max 10MB)"@,
{
    if len > MAX_SNAPSHOT_FILE_SIZE {
        let mut e = owned("File too large for snapshot (");
        let n = crate::text::decimal_u64(len);
        push_str(&mut e, n.as_str());
        push_str(&mut e, " bytes, max 10MB)");
        return Err(e);
    }
    Ok(())
}

/// What zstd decoding makes of some bytes (`zstd::decode_all`): the
/// decompressed bytes of the frames, or `None` when they are no valid zstd
/// data.
pub uninterp spec fn zstd_decoded(b: Seq<u8>) -> Option<Seq<u8>>;

/// A zstd `Decoder` over the bytes, read to the end through
/// `Read::take(cap)`: at most `cap` bytes, which are the start of the
/// decoding; fewer than `cap` bytes only when the whole data decoded to
/// them. Data that decodes as a whole is read without error (the decoder
/// is the one `decode_all` uses; a failure to allocate its context is
/// left aside).
#[verifier::external_body]
fn zstd_decode_at_most(b: &[u8], cap: usize) -> (r: Result<Vec<u8>, String>)
    ensures
        zstd_decoded(b@) is Some ==> r is Ok,
        r matches Ok(d) ==> d@.len() <= cap,
        r matches Ok(d) ==> (d@.len() < cap ==> zstd_decoded(b@) == Some(d@)),
        r matches Ok(d) ==> (zstd_decoded(b@) matches Some(f) ==> d@ == f.take(
            if f.len() < cap {
                f.len() as int
            } else {
                cap as int
            },
        )),
{
    let decoder = zstd::Decoder::new(b).map_err(|e| e.to_string())?;
    let mut out = Vec::new();
    std::io::Read::read_to_end(&mut std::io::Read::take(decoder, cap as u64), &mut out).map_err(|e| e.to_string())?;
    Ok(out)
}

/// The refusal of a decompression that would pass `max_bytes`.
pub open spec fn bomb_message(max_bytes: nat) -> Seq<char> {
    "Decompressed size exceeds "@ + crate::text::decimal(max_bytes) + " byte limit (possible decompression bomb)"@
}

/// What decompression under a limit gives: the decompressed bytes when
/// the data is valid zstd and decodes to at most `max_bytes`.
pub open spec fn decompressed_within(compressed: Seq<u8>, max_bytes: nat) -> Option<Seq<u8>> {
    match zstd_decoded(compressed) {
        Some(f) => if f.len() <= max_bytes {
            Some(f)
        } else {
            None
        },
        None => None,
    }
}

/// Decompresses zstd data, refusing to produce more than `max_bytes`
/// (protection against decompression bombs): the decompressed bytes when
/// the data is valid and decodes to at most `max_bytes`; an error when it
/// is invalid or decodes to more.
pub fn decompress_with_limit(compressed: &[u8], max_bytes: usize) -> (r: Result<Vec<u8>, String>)
    requires
        max_bytes < usize::MAX,
    ensures
        r is Ok <==> decompressed_within(compressed@, max_bytes as nat) is Some,
        r matches Ok(d) ==> decompressed_within(compressed@, max_bytes as nat) == Some(d@),
        (zstd_decoded(compressed@) matches Some(f) && f.len() > max_bytes) ==> (r matches Err(e) && e@
            == bomb_message(max_bytes as nat)),
        r matches Err(e) ==> e@ == bomb_message(max_bytes as nat) || starts_with(e@, "Decompression failed: "@),
        r matches Err(e) ==> e@ == bomb_message(max_bytes as nat) || starts_with(
            e@,
            "Decompression failed: "@,
        ),
{
    match zstd_decode_at_most(compressed, max_bytes + 1) {
        Err(e) => {
            let mut m = owned("Decompression failed: ");
            push_str(&mut m, e.as_str());
            proof {
                reveal_strlit("Decompression failed: ");
                assert(m@.subrange(0, "Decompression failed: "@.len() as int) =~= "Decompression failed: "@);
            }
            Err(m)
        },
        Ok(d) => {
            if d.len() > max_bytes {
                let mut e = owned("Decompressed size exceeds ");
                let m = crate::text::decimal_u64(max_bytes as u64);
                push_str(&mut e, m.as_str());
                push_str(&mut e, " byte limit (possible decompression bomb)");
                Err(e)
            } else {
                proof {
                    if let Some(f) = zstd_decoded(compressed@) {
                        if f.len() > max_bytes {
                            assert(d@ == f.take(max_bytes + 1));
                        }
                    }
                }
                Ok(d)
            }
        },
    }
}

/// The longest text a snapshot is shown with, in bytes.
pub const MAX_SNAPSHOT_TEXT: usize = 52428800;

/// The text of a compressed snapshot: its decompressed bytes, when they
/// are at most `MAX_SNAPSHOT_TEXT` long and valid UTF-8.
pub open spec fn snapshot_text_spec(compressed: Seq<u8>) -> Option<Seq<char>> {
    match zstd_decoded(compressed) {
        Some(f) => if f.len() <= MAX_SNAPSHOT_TEXT && valid_utf8(f) {
            Some(decode_utf8(f))
        } else {
            None
        },
        None => None,
    }
}

/// The text of a compressed snapshot, or why it cannot be shown.
pub fn snapshot_text(compressed: &[u8]) -> (r: Result<String, String>)
    ensures
        r is Ok <==> snapshot_text_spec(compressed@) is Some,
        r matches Ok(s) ==> snapshot_text_spec(compressed@) == Some(s@),
{
    let bytes = decompress_with_limit(compressed, MAX_SNAPSHOT_TEXT)?;
    crate::crypto::utf8_string(bytes)
}

// ---------------------------------------------------------------------
// Hashes, names and compression
// ---------------------------------------------------------------------

/// SHA-256 of a byte string, as the `sha2` crate computes it.
pub uninterp spec fn sha256(b: Seq<u8>) -> Seq<u8>;

/// `Sha256::new`, `update`, `finalize`: the digest is named by `sha256`
/// and has 32 bytes.
#[verifier::external_body]
fn sha256_digest(b: &[u8]) -> (r: Vec<u8>)
    ensures
        r@ == sha256(b@),
        r@.len() == 32,
{
    let mut h = <sha2::Sha256 as sha2::Digest>::new();
    sha2::Digest::update(&mut h, b);
    sha2::Digest::finalize(h).to_vec()
}

/// Lower-case hex of the SHA-256 of the bytes (`format!("{:x}", ..)`).
pub open spec fn content_hash_spec(b: Seq<u8>) -> Seq<char> {
    hex_encode(sha256(b))
}

/// The hash under which file content is recorded.
pub fn content_hash(b: &[u8]) -> (r: String)
    ensures
        r@ == content_hash_spec(b@),
        r@.len() == 64,
{
    let d = sha256_digest(b);
    hex_encode_exec(&d)
}

/// The stored name of a file's snapshots: the first 32 hex digits of the
/// SHA-256 of its path, and `.zst`.
pub open spec fn snapshot_name(path: Seq<char>) -> Seq<char> {
    content_hash_spec(encode_utf8(path)).take(32) + ".zst"@
}

/// The file name a snapshot of `path` is stored under.
pub fn snapshot_file_name(path: &str) -> (r: String)
    ensures
        r@ == snapshot_name(path@),
{
    let h = content_hash(path.as_bytes());
    let c = chars_of(h.as_str());
    let mut r: Vec<char> = Vec::new();
    let mut i: usize = 0;
    while i < 32
        invariant
            c@.len() == 64,
            i <= 32,
            r@ == c@.take(i as int),
        decreases 32 - i,
    {
        r.push(c[i]);
        i = i + 1;
        assert(r@ =~= c@.take(i as int));
    }
    let mut s = string_of(&r);
    push_str(&mut s, ".zst");
    s
}

/// zstd compression at level one, as the `zstd` crate produces it.
pub uninterp spec fn zstd_level1(b: Seq<u8>) -> Seq<u8>;

/// `zstd::encode_all(content, 1)`: the compressed bytes are named by
/// `zstd_level1`, and decoding them gives the content back (zstd is
/// lossless). In-memory input gives no error (a failure to allocate the
/// compression context is left aside).
#[verifier::external_body]
fn zstd_compress(b: &[u8]) -> (r: Result<Vec<u8>, String>)
    ensures
        r is Ok,
        r matches Ok(c) ==> c@ == zstd_level1(b@),
        r matches Ok(c) ==> zstd_decoded(c@) == Some(b@),
{
    zstd::encode_all(b, 1).map_err(|e| e.to_string())
}

/// What a snapshot pass does with a file's content.
pub enum SnapshotPrep {
    /// The newest snapshot already holds this content.
    Unchanged,
    /// To be stored: content hash and compressed bytes.
    Ready(String, Vec<u8>),
}

/// Prepares the snapshot of a file's content: unchanged when the newest
/// snapshot has its hash, otherwise its hash and compressed bytes. What a
/// snapshot stores, decompression gives back: under any limit that the
/// content fits, the compressed bytes decompress to the content.
pub fn prepare_snapshot(content: &[u8], latest_hash: Option<&str>) -> (r: Result<SnapshotPrep, String>)
    ensures
        (latest_hash matches Some(l) && l@ == content_hash_spec(content@)) ==> r matches Ok(
            SnapshotPrep::Unchanged,
        ),
        !(latest_hash matches Some(l) && l@ == content_hash_spec(content@)) ==> (r matches Ok(
            SnapshotPrep::Ready(h, c),
        ) && h@ == content_hash_spec(content@) && c@ == zstd_level1(content@) && zstd_decoded(c@) == Some(
            content@,
        )),
        r matches Ok(SnapshotPrep::Ready(_, c)) ==> forall|m: nat|
            content@.len() <= m ==> #[trigger] decompressed_within(c@, m) == Some(content@),
{
    let h = content_hash(content);
    match latest_hash {
        Some(l) => {
            if str_eq(l, h.as_str()) {
                return Ok(SnapshotPrep::Unchanged);
            }
        },
        None => {},
    }
    match zstd_compress(content) {
        Ok(c) => Ok(SnapshotPrep::Ready(h, c)),
        Err(e) => {
            let mut m = owned("Failed to compress: ");
            push_str(&mut m, e.as_str());
            proof {
                reveal_strlit("Failed to compress: ");
                assert(m@.take(20) =~= "Failed to compress: "@);
            }
            Err(m)
        },
    }
}

/// The integrity verdict on restored content against its recorded hash
/// (none recorded: accepted).
pub open spec fn integrity_ok(expected: Option<Seq<char>>, content: Seq<u8>) -> bool {
    match expected {
        Some(h) => h == content_hash_spec(content),
        None => true,
    }
}

/// Checks restored content against its recorded hash.
pub fn check_integrity(expected: Option<&str>, content: &[u8]) -> (r: Result<(), String>)
    ensures
        r is Ok <==> integrity_ok(
            match expected {
                Some(h) => Some(h@),
                None => None,
            },
            content@,
        ),
        r matches Err(e) ==> e@ == "Integrity check failed: expected hash "@ + expected->Some_0@
            + ", got "@ + content_hash_spec(content@)
            + ". Snapshot may be corrupted or tampered."@,
{
    match expected {
        Some(h) => {
            let actual = content_hash(content);
            if !str_eq(actual.as_str(), h) {
                let mut e = owned("Integrity check failed: expected hash ");
                push_str(&mut e, h);
                push_str(&mut e, ", got ");
                push_str(&mut e, actual.as_str());
                push_str(&mut e, ". Snapshot may be corrupted or tampered.");
                return Err(e);
            }
            Ok(())
        },
        None => Ok(()),
    }
}

/// Checks downloaded content against its recorded hash.
pub fn check_download_integrity(expected: Option<&str>, content: &[u8]) -> (r: Result<(), String>)
    ensures
        r is Ok <==> integrity_ok(
            match expected {
                Some(h) => Some(h@),
                None => None,
            },
            content@,
        ),
        r matches Err(e) ==> e@ == "Snapshot integrity check failed — file may be corrupted"@,
{
    match expected {
        Some(h) => {
            let actual = content_hash(content);
            if !str_eq(actual.as_str(), h) {
                return Err(owned("Snapshot integrity check failed — file may be corrupted"));
            }
            Ok(())
        },
        None => Ok(()),
    }
}

// ---------------------------------------------------------------------
// Where a snapshot may be restored
// ---------------------------------------------------------------------

/// System folders no snapshot is restored into.
pub open spec fn restore_blocked() -> Seq<Seq<char>> {
    seq![
        "/windows/system32"@, "/windows/syswow64"@, "/windows/servicing"@, "/program files"@,
        "/program files (x86)"@, "/usr/bin"@, "/usr/sbin"@, "/usr/lib"@, "/sbin"@, "/bin"@,
        "/etc"@, "/proc"@, "/sys"@,
    ]
}

/// `s` without one leading colon.
pub open spec fn after_colon(s: Seq<char>) -> Seq<char> {
    if s.len() > 0 && s[0] == ':' {
        s.drop_first()
    } else {
        s
    }
}

/// The lower-cased path falls under blocked folder `b`, directly or after
/// a leading letter (and colon).
pub open spec fn restore_hit(lower: Seq<char>, b: Seq<char>) -> bool {
    starts_with(lower, b) || (lower.len() > 0 && is_ascii_alpha(lower[0]) && starts_with(
        after_colon(lower.drop_first()),
        b,
    ))
}

/// The first blocked folder, from position `k` of the list on, that the
/// path falls under.
pub open spec fn first_restore_hit(lower: Seq<char>, k: int) -> Option<int>
    decreases restore_blocked().len() - k,
{
    if k < 0 || k >= restore_blocked().len() {
        None
    } else if restore_hit(lower, restore_blocked()[k]) {
        Some(k)
    } else {
        first_restore_hit(lower, k + 1)
    }
}

/// The verdict on a restore destination: traversal, system folders and
/// extended-length prefixes are refused.
pub open spec fn restore_verdict(p: Seq<char>) -> Option<Seq<char>> {
    let ps = replace_char(p, '\\', '/');
    if contains_seq(ps, "/../"@) || ends_with(ps, "/.."@) {
        Some("Path traversal detected"@)
    } else {
        match first_restore_hit(unicode_lowercase(ps), 0) {
            Some(k) => Some("Cannot restore to system directory: "@ + restore_blocked()[k]),
            None => if starts_with(p, "\\\\?\\"@) || starts_with(p, "\\\\.\\"@) {
                Some("Extended-length paths not allowed"@)
            } else {
                None
            },
        }
    }
}

fn is_ascii_alpha_exec(c: char) -> (r: bool)
    ensures
        r == is_ascii_alpha(c),
{
    ('a' <= c && c <= 'z') || ('A' <= c && c <= 'Z')
}

fn restore_hit_exec(lower: &[char], b: &[char]) -> (r: bool)
    ensures
        r == restore_hit(lower@, b@),
{
    if has_prefix(lower, b) {
        return true;
    }
    if lower.len() == 0 || !is_ascii_alpha_exec(lower[0]) {
        return false;
    }
    let mut rest: Vec<char> = Vec::new();
    let start: usize = if lower.len() > 1 && lower[1] == ':' { 2 } else { 1 };
    let mut i: usize = start;
    while i < lower.len()
        invariant
            1 <= start <= i <= lower@.len(),
            rest@ == lower@.subrange(start as int, i as int),
        decreases lower.len() - i,
    {
        rest.push(lower[i]);
        i = i + 1;
        assert(rest@ =~= lower@.subrange(start as int, i as int));
    }
    proof {
        let d = lower@.drop_first();
        if start == 2 {
            assert(after_colon(d) =~= lower@.subrange(2, lower@.len() as int));
        } else {
            assert(after_colon(d) =~= lower@.subrange(1, lower@.len() as int));
        }
    }
    has_prefix(&rest, b)
}

/// Checks that a snapshot may be restored to `original_path`.
pub fn validate_restore_path(original_path: &str) -> (r: Result<(), String>)
    ensures
        match r {
            Ok(()) => restore_verdict(original_path@) is None,
            Err(e) => restore_verdict(original_path@) == Some(e@),
        },
{
    let ps = replace_char_exec(&chars_of(original_path), '\\', '/');
    if has_infix(&ps, &chars_of("/../")) || has_suffix(&ps, &chars_of("/..")) {
        return Err(owned("Path traversal detected"));
    }
    let pss = string_of(&ps);
    let lower_s = to_lowercase(pss.as_str());
    let lower = chars_of(lower_s.as_str());
    let blocked = [
        "/windows/system32", "/windows/syswow64", "/windows/servicing", "/program files",
        "/program files (x86)", "/usr/bin", "/usr/sbin", "/usr/lib", "/sbin", "/bin", "/etc",
        "/proc", "/sys",
    ];
    let ghost bl = blocked@.map_values(|x: &str| x@);
    assert(bl =~= restore_blocked());
    let mut k: usize = 0;
    while k < blocked.len()
        invariant
            k <= blocked@.len() == restore_blocked().len(),
            bl == blocked@.map_values(|x: &str| x@),
            bl == restore_blocked(),
            lower@ == unicode_lowercase(replace_char(original_path@, '\\', '/')),
            ps@ == replace_char(original_path@, '\\', '/'),
            !(contains_seq(ps@, "/../"@) || ends_with(ps@, "/.."@)),
            first_restore_hit(lower@, 0) == first_restore_hit(lower@, k as int),
        decreases blocked.len() - k,
    {
        let b = chars_of(blocked[k]);
        assert(b@ == restore_blocked()[k as int]);
        if restore_hit_exec(&lower, &b) {
            let mut e = owned("Cannot restore to system directory: ");
            push_str(&mut e, blocked[k]);
            return Err(e);
        }
        k = k + 1;
    }
    let orig = chars_of(original_path);
    if has_prefix(&orig, &chars_of("\\\\?\\")) || has_prefix(&orig, &chars_of("\\\\.\\")) {
        return Err(owned("Extended-length paths not allowed"));
    }
    Ok(())
}

} // verus!
