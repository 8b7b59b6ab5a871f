//! Path validation and suspicious-file classification.
//!
//! The validators decide on the path text and on facts about the file system
//! that the caller has gathered beforehand (`PathFacts`): whether the path
//! exists, what it resolves to, and so on.
use vstd::prelude::*;
use crate::text::{
    all_whitespace, chars_of, contains_seq, decimal, decimal_u64, ends_with, has_char, has_infix,
    has_prefix, has_suffix, is_blank, push_all, push_str, replace_char, replace_char_exec,
    starts_with, to_lowercase, to_uppercase, unicode_lowercase, unicode_uppercase, is_control,
    is_control_exec, owned,
};

verus! {

/// Namespace of the path checks.
pub struct PathValidator;

/// Longest accepted path, in bytes.
pub const MAX_PATH_LENGTH: usize = 260;

/// Deepest accepted path, in components.
pub const MAX_PATH_DEPTH: usize = 32;

/// Longest stored file name, in characters.
pub const MAX_FILENAME_CHARS: usize = 255;

/// What the file system says about a path, gathered before validation.
#[derive(Debug)]
pub struct PathFacts {
    /// The path exists.
    pub exists: bool,
    /// The path is a directory (following links).
    pub is_dir: bool,
    /// `Ok(is_symlink)` from reading the link's own metadata, or the error text.
    pub symlink: Result<bool, String>,
    /// The canonical form of the path (lossy text), or the error text.
    pub canonical: Result<String, String>,
    /// Number of components of the canonical path.
    pub depth: usize,
    /// Final component of the canonical path, when it is valid text.
    pub canonical_file_name: Option<String>,
    /// Whether the Windows-only checks apply.
    pub windows: bool,
}

/// Severity of a suspicious path.
#[derive(Debug, Clone, Copy, PartialEq, Eq, Structural)]
pub enum ThreatSeverity {
    Low,
    Medium,
    High,
}

/// Result of suspicious path analysis.
#[derive(Debug, Clone)]
pub struct SuspiciousFileResult {
    pub is_suspicious: bool,
    pub severity: ThreatSeverity,
    pub threat_category: String,
}

// ---------------------------------------------------------------------
// Specification
// ---------------------------------------------------------------------

/// `s` with control characters removed.
pub open spec fn drop_controls(s: Seq<char>) -> Seq<char>
    decreases s.len(),
{
    if s.len() == 0 {
        s
    } else if is_control(s.last()) {
        drop_controls(s.drop_last())
    } else {
        drop_controls(s.drop_last()).push(s.last())
    }
}

/// The stored form of a file name.
pub open spec fn sanitized(name: Seq<char>) -> Seq<char> {
    let d = drop_controls(name);
    if d.len() <= MAX_FILENAME_CHARS {
        d
    } else {
        d.subrange(0, MAX_FILENAME_CHARS as int)
    }
}

/// The lower-cased path ends in an extension that runs code.
pub open spec fn has_exec_extension(lower: Seq<char>) -> bool {
    ends_with(lower, ".exe"@) || ends_with(lower, ".dll"@) || ends_with(lower, ".bat"@)
        || ends_with(lower, ".cmd"@) || ends_with(lower, ".ps1"@) || ends_with(lower, ".vbs"@)
        || ends_with(lower, ".js"@) || ends_with(lower, ".wsf"@)
}

/// Classification of a lower-cased path: suspicious?, severity, category.
pub open spec fn classify(lower: Seq<char>) -> (bool, ThreatSeverity, Seq<char>) {
    if contains_seq(lower, ".exe.bat"@) {
        (true, ThreatSeverity::High, "Double extension: "@ + ".exe.bat"@)
    } else if contains_seq(lower, ".exe.cmd"@) {
        (true, ThreatSeverity::High, "Double extension: "@ + ".exe.cmd"@)
    } else if contains_seq(lower, ".com.exe"@) {
        (true, ThreatSeverity::High, "Double extension: "@ + ".com.exe"@)
    } else if contains_seq(lower, ".scr"@) {
        (true, ThreatSeverity::Medium, "Suspicious extension: "@ + ".scr"@)
    } else if contains_seq(lower, ".pif"@) {
        (true, ThreatSeverity::Medium, "Suspicious extension: "@ + ".pif"@)
    } else if contains_seq(
        lower,
        "\\appdata\\roaming\\microsoft\\windows\\start menu\\programs\\startup\\"@,
    ) {
        (true, ThreatSeverity::High, "Startup folder persistence"@)
    } else if contains_seq(lower, "\\windows\\system32\\drivers\\etc\\"@) {
        (true, ThreatSeverity::High, "Hosts file modification"@)
    } else if (contains_seq(lower, "\\appdata\\local\\temp\\"@) || contains_seq(lower, "\\tmp\\"@))
        && has_exec_extension(lower) {
        (true, ThreatSeverity::Medium, "Temp folder executable"@)
    } else {
        (false, ThreatSeverity::Low, Seq::empty())
    }
}

/// Some position holds `%` followed by two ASCII hex digits (byte-wise).
pub open spec fn has_percent_escape(b: Seq<u8>) -> bool {
    exists|i: int|
        0 <= i && i + 2 < b.len() && b[i] == 0x25u8 && is_hex_byte(#[trigger] b[i + 1])
            && is_hex_byte(b[i + 2])
}

/// ASCII hex digit byte.
pub open spec fn is_hex_byte(c: u8) -> bool {
    (0x30 <= c && c <= 0x39) || (0x41 <= c && c <= 0x46) || (0x61 <= c && c <= 0x66)
}

/// The checks on the path text alone, shared by both validators.
pub open spec fn text_error(path: Seq<char>, bytes: Seq<u8>) -> Option<Seq<char>> {
    let normalized = replace_char(path, '\\', '/');
    if all_whitespace(path) {
        Some("Path cannot be empty"@)
    } else if bytes.len() > MAX_PATH_LENGTH {
        Some("Path exceeds maximum length of 260 characters"@)
    } else if contains_seq(normalized, "/../"@) || ends_with(normalized, "/.."@) || normalized
        == ".."@ || starts_with(normalized, "../"@) {
        Some("Path traversal detected (.. is not allowed)"@)
    } else if contains_seq(normalized, "/./"@) || ends_with(normalized, "/."@) {
        Some("Redundant path components (.) are not allowed"@)
    } else if path.contains('\0') {
        Some("Null bytes in path are not allowed"@)
    } else if path.contains('`') || path.contains('$') {
        Some("Special characters in path are not allowed"@)
    } else if path.contains('%') && has_percent_escape(bytes) {
        Some("URL-encoded sequences in path are not allowed"@)
    } else {
        None
    }
}

/// The blocked system directories: as written, and normalised (forward
/// slashes, lower case) for comparison.
pub open spec fn blocked_dirs() -> Seq<(Seq<char>, Seq<char>)> {
    seq![
        ("C:\\Windows"@, "c:/windows"@),
        ("C:\\Program Files"@, "c:/program files"@),
        ("C:\\Program Files (x86)"@, "c:/program files (x86)"@),
        ("C:\\ProgramData"@, "c:/programdata"@),
        ("C:\\$Recycle.Bin"@, "c:/$recycle.bin"@),
        ("C:\\System Volume Information"@, "c:/system volume information"@),
        ("C:\\Boot"@, "c:/boot"@),
        ("C:\\Recovery"@, "c:/recovery"@),
        ("/etc"@, "/etc"@),
        ("/boot"@, "/boot"@),
        ("/proc"@, "/proc"@),
        ("/sys"@, "/sys"@),
        ("/dev"@, "/dev"@),
        ("/sbin"@, "/sbin"@),
        ("/usr/sbin"@, "/usr/sbin"@),
        ("/root"@, "/root"@),
        ("/var/log"@, "/var/log"@),
        ("/var/run"@, "/var/run"@),
        ("/run"@, "/run"@),
    ]
}

/// The normalised canonical path is a blocked directory or lies inside one.
pub open spec fn under_blocked(c: Seq<char>, k: int) -> bool {
    let b = blocked_dirs()[k].1;
    c == b || starts_with(c, b + "/"@)
}

/// Index of the first blocked directory that covers `c`, if any.
pub open spec fn first_blocked(c: Seq<char>, from: int) -> Option<int>
    decreases 19 - from,
{
    if from < 0 || from >= 19 {
        None
    } else if under_blocked(c, from) {
        Some(from)
    } else {
        first_blocked(c, from + 1)
    }
}

/// Windows device names that cannot be used as file names.
pub open spec fn reserved_names() -> Seq<Seq<char>> {
    seq![
        "CON"@, "PRN"@, "AUX"@, "NUL"@, "COM1"@, "COM2"@, "COM3"@, "COM4"@, "COM5"@, "COM6"@,
        "COM7"@, "COM8"@, "COM9"@, "LPT1"@, "LPT2"@, "LPT3"@, "LPT4"@, "LPT5"@, "LPT6"@, "LPT7"@,
        "LPT8"@, "LPT9"@,
    ]
}

/// Text before the first `.` of a file name.
pub open spec fn stem(name: Seq<char>) -> Seq<char>
    decreases name.len(),
{
    if name.len() == 0 || name[0] == '.' {
        Seq::empty()
    } else {
        seq![name[0]] + stem(name.drop_first())
    }
}

/// `s` with all trailing `c` removed.
pub open spec fn trim_end_char(s: Seq<char>, c: char) -> Seq<char>
    decreases s.len(),
{
    if s.len() > 0 && s.last() == c {
        trim_end_char(s.drop_last(), c)
    } else {
        s
    }
}

/// The path starts with a one-byte character followed by `:` (a drive
/// prefix as the byte-wise test sees it).
pub open spec fn has_drive_colon(s: Seq<char>) -> bool {
    s.len() >= 2 && (s[0] as u32) < 128 && s[1] == ':'
}

/// An ASCII letter.
pub open spec fn is_ascii_alpha(c: char) -> bool {
    ('a' <= c && c <= 'z') || ('A' <= c && c <= 'Z')
}

/// The Windows-only checks.
pub open spec fn windows_error(path: Seq<char>, f: PathFacts) -> Option<Seq<char>> {
    let ads = trim_end_char(trim_end_char(crate::text::trim(path), '\\'), '/');
    if has_drive_colon(path) && !is_ascii_alpha(path[0]) {
        Some("Invalid drive letter"@)
    } else if f.canonical_file_name matches Some(name) && reserved_names().contains(
        unicode_uppercase(stem(name@)),
    ) {
        Some("Windows reserved name is not allowed"@)
    } else if has_drive_colon(ads) && ads.subrange(2, ads.len() as int).contains(':') {
        Some("Alternate data streams are not allowed"@)
    } else {
        None
    }
}

/// Verdict of the validators: `None` when the path is accepted, otherwise
/// the reason. `want_dir` distinguishes the directory validator.
pub open spec fn path_verdict(path: Seq<char>, bytes: Seq<u8>, f: PathFacts, want_dir: bool) -> Option<
    Seq<char>,
> {
    if text_error(path, bytes) is Some {
        text_error(path, bytes)
    } else if !f.exists {
        Some("Path does not exist: "@ + path)
    } else if want_dir && !f.is_dir {
        Some("Path is not a directory: "@ + path)
    } else if f.symlink is Err {
        Some("Cannot read path metadata: "@ + f.symlink->Err_0@)
    } else if f.symlink == Ok::<bool, String>(true) {
        Some("Symbolic links are not allowed for security reasons"@)
    } else if f.canonical is Err {
        Some("Cannot resolve path: "@ + f.canonical->Err_0@)
    } else if first_blocked(unicode_lowercase(replace_char(f.canonical->Ok_0@, '\\', '/')), 0)
        is Some {
        Some("Access to system directory '"@ + blocked_dirs()[first_blocked(
            unicode_lowercase(replace_char(f.canonical->Ok_0@, '\\', '/')),
            0,
        )->Some_0].0 + "' is blocked for security"@)
    } else if f.depth > MAX_PATH_DEPTH {
        Some("Path too deep ("@ + decimal(f.depth as nat) + " levels). Maximum is 32"@)
    } else if starts_with(path, "\\\\"@) || starts_with(path, "//"@) {
        Some("Network paths (UNC/SMB) are not allowed"@)
    } else if f.windows {
        windows_error(path, f)
    } else {
        None
    }
}

/// Whether the result of a validator is the given verdict.
pub open spec fn verdict_is(r: Result<(), String>, v: Option<Seq<char>>) -> bool {
    match r {
        Ok(()) => v is None,
        Err(e) => v == Some(e@),
    }
}

// ---------------------------------------------------------------------
// Implementation
// ---------------------------------------------------------------------

fn err_of(s: &str) -> (r: Result<(), String>)
    ensures
        r matches Err(e) && e@ == s@,
{
    Err(owned(s))
}

fn err_concat(a: &str, b: &[char]) -> (r: Result<(), String>)
    ensures
        r matches Err(e) && e@ == a@ + b@,
{
    let mut s = owned(a);
    push_all(&mut s, b);
    Err(s)
}

fn is_hex_byte_exec(c: u8) -> (r: bool)
    ensures
        r == is_hex_byte(c),
{
    (0x30 <= c && c <= 0x39) || (0x41 <= c && c <= 0x46) || (0x61 <= c && c <= 0x66)
}

fn percent_escape_exec(b: &[u8]) -> (r: bool)
    ensures
        r == has_percent_escape(b@),
{
    let n = b.len();
    let stop: usize = if n >= 2 { n - 2 } else { 0 };
    let mut i: usize = 0;
    while i < stop
        invariant
            n == b.len(),
            stop == (if n >= 2 { n - 2 } else { 0 }),
            i <= stop,
            forall|j: int|
                0 <= j < i ==> !(b@[j] == 0x25u8 && is_hex_byte(#[trigger] b@[j + 1]) && is_hex_byte(
                    b@[j + 2],
                )),
        decreases stop - i,
    {
        if b[i] == 0x25u8 && is_hex_byte_exec(b[i + 1]) && is_hex_byte_exec(b[i + 2]) {
            return true;
        }
        i = i + 1;
    }
    assert forall|j: int|
        0 <= j && j + 2 < b@.len() && b@[j] == 0x25u8 && is_hex_byte(#[trigger] b@[j + 1])
            implies !is_hex_byte(b@[j + 2]) by {
        assert(j < stop);
    }
    false
}

fn text_checks(path: &str) -> (r: Result<(), String>)
    ensures
        verdict_is(r, text_error(path@, vstd::utf8::encode_utf8(path@))),
{
    let p = chars_of(path);
    if is_blank(&p) {
        return err_of("Path cannot be empty");
    }
    let bytes = path.as_bytes();
    if bytes.len() > MAX_PATH_LENGTH {
        return err_of("Path exceeds maximum length of 260 characters");
    }
    let normalized = replace_char_exec(&p, '\\', '/');
    let t1 = has_infix(&normalized, &chars_of("/../"));
    let t2 = has_suffix(&normalized, &chars_of("/.."));
    let t3 = crate::text::chars_eq(&normalized, &chars_of(".."));
    assert(t1 == contains_seq(replace_char(path@, '\\', '/'), "/../"@));
    assert(t2 == ends_with(replace_char(path@, '\\', '/'), "/.."@));
    assert(t3 == (replace_char(path@, '\\', '/') == ".."@));
    let t4 = has_prefix(&normalized, &chars_of("../"));
    if t1 || t2 || t3 || t4 {
        return err_of("Path traversal detected (.. is not allowed)");
    }
    let r1 = has_infix(&normalized, &chars_of("/./"));
    let r2 = has_suffix(&normalized, &chars_of("/."));
    if r1 || r2 {
        return err_of("Redundant path components (.) are not allowed");
    }
    if has_char(&p, '\0') {
        return err_of("Null bytes in path are not allowed");
    }
    if has_char(&p, '`') || has_char(&p, '$') {
        return err_of("Special characters in path are not allowed");
    }
    if has_char(&p, '%') && percent_escape_exec(bytes) {
        return err_of("URL-encoded sequences in path are not allowed");
    }
    Ok(())
}

fn blocked_exec() -> (v: Vec<(&'static str, &'static str)>)
    ensures
        v@.len() == 19,
        forall|k: int|
            0 <= k < 19 ==> (#[trigger] v@[k]).0@ == blocked_dirs()[k].0 && v@[k].1@
                == blocked_dirs()[k].1,
{
    let v = vec![
        ("C:\\Windows", "c:/windows"),
        ("C:\\Program Files", "c:/program files"),
        ("C:\\Program Files (x86)", "c:/program files (x86)"),
        ("C:\\ProgramData", "c:/programdata"),
        ("C:\\$Recycle.Bin", "c:/$recycle.bin"),
        ("C:\\System Volume Information", "c:/system volume information"),
        ("C:\\Boot", "c:/boot"),
        ("C:\\Recovery", "c:/recovery"),
        ("/etc", "/etc"),
        ("/boot", "/boot"),
        ("/proc", "/proc"),
        ("/sys", "/sys"),
        ("/dev", "/dev"),
        ("/sbin", "/sbin"),
        ("/usr/sbin", "/usr/sbin"),
        ("/root", "/root"),
        ("/var/log", "/var/log"),
        ("/var/run", "/var/run"),
        ("/run", "/run"),
    ];
    v
}

fn find_blocked(c: &[char]) -> (r: Option<usize>)
    ensures
        match r {
            Some(k) => first_blocked(c@, 0) == Some(k as int) && k < 19,
            None => first_blocked(c@, 0) is None,
        },
{
    let dirs = blocked_exec();
    let mut k: usize = 0;
    while k < 19
        invariant
            k <= 19,
            dirs@.len() == 19,
            forall|q: int|
                0 <= q < 19 ==> (#[trigger] dirs@[q]).0@ == blocked_dirs()[q].0 && dirs@[q].1@
                    == blocked_dirs()[q].1,
            first_blocked(c@, 0) == first_blocked(c@, k as int),
        decreases 19 - k,
    {
        let b = chars_of(dirs[k].1);
        let mut bs = b.clone();
        bs.push('/');
        assert(bs@ =~= blocked_dirs()[k as int].1 + "/"@) by {
            reveal_strlit("/");
        }
        if crate::text::chars_eq(c, &b) || has_prefix(c, &bs) {
            return Some(k);
        }
        k = k + 1;
    }
    None
}

fn stem_exec(name: &[char]) -> (r: Vec<char>)
    ensures
        r@ == stem(name@),
{
    let mut r: Vec<char> = Vec::new();
    let mut i: usize = 0;
    assert(name@.subrange(0, name@.len() as int) =~= name@);
    assert(r@ + stem(name@) =~= stem(name@));
    while i < name.len() && name[i] != '.'
        invariant
            i <= name.len(),
            forall|k: int| 0 <= k < i ==> name@[k] != '.',
            stem(name@) == r@ + stem(name@.subrange(i as int, name@.len() as int)),
        decreases name.len() - i,
    {
        let ghost rest = name@.subrange(i as int, name@.len() as int);
        assert(rest.drop_first() =~= name@.subrange(i + 1, name@.len() as int));
        r.push(name[i]);
        i = i + 1;
        assert(stem(name@) =~= r@ + stem(name@.subrange(i as int, name@.len() as int)));
    }
    assert(stem(name@.subrange(i as int, name@.len() as int)) =~= Seq::<char>::empty());
    assert(r@ + Seq::<char>::empty() =~= r@);
    assert(name@.subrange(0, name@.len() as int) =~= name@);
    r
}

fn trim_end_char_exec(s: &[char], c: char) -> (r: Vec<char>)
    ensures
        r@ == trim_end_char(s@, c),
{
    let mut n: usize = s.len();
    assert(s@.subrange(0, s.len() as int) =~= s@);
    while n > 0 && s[n - 1] == c
        invariant
            n <= s.len(),
            trim_end_char(s@, c) == trim_end_char(s@.subrange(0, n as int), c),
        decreases n,
    {
        assert(s@.subrange(0, n as int).drop_last() =~= s@.subrange(0, n - 1));
        n = n - 1;
    }
    let mut r: Vec<char> = Vec::new();
    let mut i: usize = 0;
    while i < n
        invariant
            i <= n <= s.len(),
            r@ == s@.subrange(0, i as int),
        decreases n - i,
    {
        r.push(s[i]);
        i = i + 1;
        assert(r@ =~= s@.subrange(0, i as int));
    }
    proof {
        assert(s@.subrange(0, s.len() as int) =~= s@);
    }
    r
}

fn is_reserved(name: &[char]) -> (r: bool)
    ensures
        r == reserved_names().contains(name@),
{
    let names = vec![
        "CON", "PRN", "AUX", "NUL", "COM1", "COM2", "COM3", "COM4", "COM5", "COM6", "COM7",
        "COM8", "COM9", "LPT1", "LPT2", "LPT3", "LPT4", "LPT5", "LPT6", "LPT7", "LPT8", "LPT9",
    ];
    assert(names@.len() == 22);
    let ghost spec_names = reserved_names();
    assert forall|k: int| 0 <= k < 22 implies (#[trigger] names@[k])@ == spec_names[k] by {}
    let mut k: usize = 0;
    while k < 22
        invariant
            k <= 22,
            names@.len() == 22,
            spec_names == reserved_names(),
            forall|q: int| 0 <= q < 22 ==> (#[trigger] names@[q])@ == spec_names[q],
            forall|q: int| 0 <= q < k ==> spec_names[q] != name@,
        decreases 22 - k,
    {
        if crate::text::chars_eq(name, &chars_of(names[k])) {
            assert(spec_names[k as int] == name@);
            return true;
        }
        k = k + 1;
    }
    assert(!spec_names.contains(name@));
    false
}

fn has_drive_colon_exec(s: &[char]) -> (r: bool)
    ensures
        r == has_drive_colon(s@),
{
    s.len() >= 2 && (s[0] as u32) < 128 && s[1] == ':'
}

fn windows_checks(path: &str, f: &PathFacts) -> (r: Result<(), String>)
    ensures
        verdict_is(r, windows_error(path@, *f)),
{
    let p = chars_of(path);
    if has_drive_colon_exec(&p) {
        let d = p[0];
        if !(('a' <= d && d <= 'z') || ('A' <= d && d <= 'Z')) {
            return err_of("Invalid drive letter");
        }
    }
    if let Some(name) = &f.canonical_file_name {
        let nm = chars_of(name.as_str());
        let st = stem_exec(&nm);
        let st_s = crate::text::string_of(&st);
        let up = to_uppercase(st_s.as_str());
        if is_reserved(&chars_of(up.as_str())) {
            return err_of("Windows reserved name is not allowed");
        }
    }
    let trimmed = crate::text::trim_exec(&p);
    let t1 = trim_end_char_exec(&trimmed, '\\');
    let ads = trim_end_char_exec(&t1, '/');
    if has_drive_colon_exec(&ads) {
        let mut rest: Vec<char> = Vec::new();
        let mut i: usize = 2;
        while i < ads.len()
            invariant
                2 <= i <= ads.len(),
                rest@ == ads@.subrange(2, i as int),
            decreases ads.len() - i,
        {
            rest.push(ads[i]);
            i = i + 1;
            assert(rest@ =~= ads@.subrange(2, i as int));
        }
        if has_char(&rest, ':') {
            return err_of("Alternate data streams are not allowed");
        }
    }
    Ok(())
}

fn fs_checks(path: &str, f: &PathFacts, want_dir: bool) -> (r: Result<(), String>)
    requires
        text_error(path@, vstd::utf8::encode_utf8(path@)) is None,
    ensures
        verdict_is(r, path_verdict(path@, vstd::utf8::encode_utf8(path@), *f, want_dir)),
{
    let p = chars_of(path);
    if !f.exists {
        return err_concat("Path does not exist: ", &p);
    }
    if want_dir && !f.is_dir {
        return err_concat("Path is not a directory: ", &p);
    }
    match &f.symlink {
        Err(e) => {
            return err_concat("Cannot read path metadata: ", &chars_of(e.as_str()));
        },
        Ok(is_link) => {
            if *is_link {
                return err_of("Symbolic links are not allowed for security reasons");
            }
        },
    }
    match &f.canonical {
        Err(e) => {
            return err_concat("Cannot resolve path: ", &chars_of(e.as_str()));
        },
        Ok(c) => {
            let cv = chars_of(c.as_str());
            let slashed = crate::text::string_of(&replace_char_exec(&cv, '\\', '/'));
            let lower = to_lowercase(slashed.as_str());
            let dirs = blocked_exec();
            match find_blocked(&chars_of(lower.as_str())) {
                Some(k) => {
                    let mut s = owned("Access to system directory '");
                    push_str(&mut s, dirs[k].0);
                    push_str(&mut s, "' is blocked for security");
                    return Err(s);
                },
                None => {},
            }
        },
    }
    if f.depth > MAX_PATH_DEPTH {
        let mut s = owned("Path too deep (");
        let d = decimal_u64(f.depth as u64);
        push_str(&mut s, d.as_str());
        push_str(&mut s, " levels). Maximum is 32");
        return Err(s);
    }
    if has_prefix(&p, &chars_of("\\\\")) || has_prefix(&p, &chars_of("//")) {
        return err_of("Network paths (UNC/SMB) are not allowed");
    }
    if f.windows {
        return windows_checks(path, f);
    }
    Ok(())
}

impl PathValidator {
    /// Validate a directory path is safe to scan, given what the file system
    /// reports about it. Returns the reason when it is not.
    pub fn validate_directory(path: &str, facts: &PathFacts) -> (r: Result<(), String>)
        ensures
            verdict_is(r, path_verdict(path@, vstd::utf8::encode_utf8(path@), *facts, true)),
    {
        match text_checks(path) {
            Err(e) => Err(e),
            Ok(()) => fs_checks(path, facts, true),
        }
    }

    /// Validate a file or directory path, given what the file system reports
    /// about it. Returns the reason when it is not acceptable.
    pub fn validate_file_path(path: &str, facts: &PathFacts) -> (r: Result<(), String>)
        ensures
            verdict_is(r, path_verdict(path@, vstd::utf8::encode_utf8(path@), *facts, false)),
    {
        match text_checks(path) {
            Err(e) => Err(e),
            Ok(()) => fs_checks(path, facts, false),
        }
    }

    /// Sanitize a file name for storage: control characters removed, at most
    /// 255 characters kept.
    pub fn sanitize_filename(name: &str) -> (r: String)
        ensures
            r@ == sanitized(name@),
    {
        let v = chars_of(name);
        let mut out: Vec<char> = Vec::new();
        let mut i: usize = 0;
        while i < v.len()
            invariant
                i <= v.len(),
                out@ == sanitized(v@.subrange(0, i as int)),
            decreases v.len() - i,
        {
            let ghost pre = v@.subrange(0, i as int);
            assert(v@.subrange(0, i + 1).drop_last() =~= pre);
            if !is_control_exec(v[i]) && out.len() < MAX_FILENAME_CHARS {
                out.push(v[i]);
            }
            i = i + 1;
            proof {
                let d0 = drop_controls(pre);
                let d1 = drop_controls(v@.subrange(0, i as int));
                if d0.len() > MAX_FILENAME_CHARS {
                    if !is_control(v@[i - 1]) {
                        assert(d1.subrange(0, MAX_FILENAME_CHARS as int) =~= d0.subrange(
                            0,
                            MAX_FILENAME_CHARS as int,
                        ));
                    }
                } else if d0.len() == MAX_FILENAME_CHARS && !is_control(v@[i - 1]) {
                    assert(d1.subrange(0, MAX_FILENAME_CHARS as int) =~= d0);
                }
            }
        }
        assert(v@.subrange(0, v.len() as int) =~= v@);
        crate::text::string_of(&out)
    }

    /// Check if a file path looks suspicious, with severity classification.
    pub fn analyze_suspicious_path(path: &str) -> (r: SuspiciousFileResult)
        ensures
            (r.is_suspicious, r.severity, r.threat_category@) == classify(
                unicode_lowercase(path@),
            ),
    {
        let lower_s = to_lowercase(path);
        let lower = chars_of(lower_s.as_str());
        let high_ext = [".exe.bat", ".exe.cmd", ".com.exe"];
        let mut i: usize = 0;
        while i < 3
            invariant
                i <= 3,
                lower@ == unicode_lowercase(path@),
                high_ext@ == seq![".exe.bat", ".exe.cmd", ".com.exe"],
                forall|k: int| 0 <= k < i ==> !contains_seq(lower@, (#[trigger] high_ext@[k])@),
            decreases 3 - i,
        {
            let ext = high_ext[i];
            if has_infix(&lower, &chars_of(ext)) {
                let mut cat = owned("Double extension: ");
                push_str(&mut cat, ext);
                return SuspiciousFileResult {
                    is_suspicious: true,
                    severity: ThreatSeverity::High,
                    threat_category: cat,
                };
            }
            i = i + 1;
        }
        assert(!contains_seq(lower@, ".exe.bat"@) && !contains_seq(lower@, ".exe.cmd"@) && !contains_seq(lower@, ".com.exe"@)) by {
            assert(high_ext@[0]@ == ".exe.bat"@);
            assert(high_ext@[1]@ == ".exe.cmd"@);
            assert(high_ext@[2]@ == ".com.exe"@);
        }
        if has_infix(&lower, &chars_of(".scr")) {
            let mut cat = owned("Suspicious extension: ");
            push_str(&mut cat, ".scr");
            return SuspiciousFileResult {
                is_suspicious: true,
                severity: ThreatSeverity::Medium,
                threat_category: cat,
            };
        }
        if has_infix(&lower, &chars_of(".pif")) {
            let mut cat = owned("Suspicious extension: ");
            push_str(&mut cat, ".pif");
            return SuspiciousFileResult {
                is_suspicious: true,
                severity: ThreatSeverity::Medium,
                threat_category: cat,
            };
        }
        if has_infix(
            &lower,
            &chars_of("\\appdata\\roaming\\microsoft\\windows\\start menu\\programs\\startup\\"),
        ) {
            return SuspiciousFileResult {
                is_suspicious: true,
                severity: ThreatSeverity::High,
                threat_category: owned("Startup folder persistence"),
            };
        }
        if has_infix(&lower, &chars_of("\\windows\\system32\\drivers\\etc\\")) {
            return SuspiciousFileResult {
                is_suspicious: true,
                severity: ThreatSeverity::High,
                threat_category: owned("Hosts file modification"),
            };
        }
        if has_infix(&lower, &chars_of("\\appdata\\local\\temp\\")) || has_infix(
            &lower,
            &chars_of("\\tmp\\"),
        ) {
            let has_exec_ext = has_suffix(&lower, &chars_of(".exe")) || has_suffix(
                &lower,
                &chars_of(".dll"),
            ) || has_suffix(&lower, &chars_of(".bat")) || has_suffix(&lower, &chars_of(".cmd"))
                || has_suffix(&lower, &chars_of(".ps1")) || has_suffix(&lower, &chars_of(".vbs"))
                || has_suffix(&lower, &chars_of(".js")) || has_suffix(&lower, &chars_of(".wsf"));
            if has_exec_ext {
                return SuspiciousFileResult {
                    is_suspicious: true,
                    severity: ThreatSeverity::Medium,
                    threat_category: owned("Temp folder executable"),
                };
            }
        }
        SuspiciousFileResult {
            is_suspicious: false,
            severity: ThreatSeverity::Low,
            threat_category: String::new(),
        }
    }

    /// Whether a path looks suspicious at all.
    pub fn is_suspicious_path(path: &str) -> (r: bool)
        ensures
            r == classify(unicode_lowercase(path@)).0,
    {
        Self::analyze_suspicious_path(path).is_suspicious
    }
}

} // verus!
