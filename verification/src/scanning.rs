//! Decisions of a scan: how one file counts, how results add up over the
//! folders of a scan, what happens to a file that disappeared, and when
//! the periodic scheduler scans.
use vstd::prelude::*;
use crate::paths::{display_name, display_name_of};
use crate::records::{FileRecord, MonitoredFolder, ScanResult, SuspiciousFile};
use crate::security::{classify, PathValidator, SuspiciousFileResult, ThreatSeverity};
use crate::text::{chars_of, owned, replace_char, replace_char_exec, str_eq, string_of, to_lowercase, unicode_lowercase};
use crate::webhook::{join, join_exec};

verus! {

// ---------------------------------------------------------------------
// One file of a scan
// ---------------------------------------------------------------------

/// How one file of a scan is recorded.
#[derive(Debug, Clone, Copy, PartialEq, Eq, Structural)]
pub enum FileVerdict {
    /// Known file whose modification time changed.
    Modified,
    /// Unknown file that is no move from elsewhere.
    New,
    /// Unknown file that looks like a moved one; the clean-up pass decides.
    PossibleMove,
    /// Known file, same modification time.
    Unchanged,
}

/// The verdict on a scanned file, from its stored modification time (if
/// the file is known), its current one, and whether a file of the same
/// name and size vanished elsewhere.
pub open spec fn verdict_spec(existing_mtime: Option<Seq<char>>, mtime: Seq<char>, potential_move: bool) -> FileVerdict {
    match existing_mtime {
        Some(m) => if m != mtime {
            FileVerdict::Modified
        } else {
            FileVerdict::Unchanged
        },
        None => if potential_move {
            FileVerdict::PossibleMove
        } else {
            FileVerdict::New
        },
    }
}

/// Decides how a scanned file is recorded.
pub fn classify_scanned_file(existing_mtime: Option<&str>, mtime: &str, potential_move: bool) -> (r:
    FileVerdict)
    ensures
        r == verdict_spec(
            match existing_mtime {
                Some(m) => Some(m@),
                None => None,
            },
            mtime@,
            potential_move,
        ),
{
    match existing_mtime {
        Some(m) => if str_eq(m, mtime) {
            FileVerdict::Unchanged
        } else {
            FileVerdict::Modified
        },
        None => if potential_move {
            FileVerdict::PossibleMove
        } else {
            FileVerdict::New
        },
    }
}

/// Running counts of one directory scan.
#[derive(Debug, Clone, Copy)]
pub struct ScanCounts {
    pub files_scanned: i64,
    pub new_files: i64,
    pub modified_files: i64,
    pub total_size: i64,
}

/// Counts before any file.
pub fn zero_counts() -> (r: ScanCounts)
    ensures
        r.files_scanned == 0 && r.new_files == 0 && r.modified_files == 0 && r.total_size == 0,
{
    ScanCounts { files_scanned: 0, new_files: 0, modified_files: 0, total_size: 0 }
}

/// The counts after one more recorded file of `size` bytes.
pub open spec fn counted(c: ScanCounts, size: i64, v: FileVerdict) -> (int, int, int, int) {
    (
        c.files_scanned + 1,
        c.new_files + (if v == FileVerdict::New {
            1int
        } else {
            0
        }),
        c.modified_files + (if v == FileVerdict::Modified {
            1int
        } else {
            0
        }),
        c.total_size + size,
    )
}

/// Adds one recorded file: it is scanned, its size adds up, and it counts
/// as new or modified by its verdict.
pub fn count_file(c: &mut ScanCounts, size: i64, v: FileVerdict)
    requires
        old(c).files_scanned < i64::MAX,
        old(c).new_files < i64::MAX,
        old(c).modified_files < i64::MAX,
        i64::MIN <= old(c).total_size + size <= i64::MAX,
    ensures
        (final(c).files_scanned as int, final(c).new_files as int, final(c).modified_files as int,
            final(c).total_size as int) == counted(*old(c), size, v),
{
    c.files_scanned = c.files_scanned + 1;
    c.total_size = c.total_size + size;
    match v {
        FileVerdict::New => {
            c.new_files = c.new_files + 1;
        },
        FileVerdict::Modified => {
            c.modified_files = c.modified_files + 1;
        },
        _ => {},
    }
}

/// The name a severity is reported under.
pub open spec fn severity_name(s: ThreatSeverity) -> Seq<char> {
    match s {
        ThreatSeverity::Low => "Low"@,
        ThreatSeverity::Medium => "Medium"@,
        ThreatSeverity::High => "High"@,
    }
}

/// The report entry of a scanned path, when the path looks suspicious.
pub fn suspicious_entry(path: &str) -> (r: Option<SuspiciousFile>)
    ensures
        (r is Some) == classify(unicode_lowercase(path@)).0,
        r matches Some(f) ==> f.path@ == path@ && f.severity@ == severity_name(
            classify(unicode_lowercase(path@)).1,
        ) && f.threat_category@ == classify(unicode_lowercase(path@)).2,
{
    let a: SuspiciousFileResult = PathValidator::analyze_suspicious_path(path);
    if !a.is_suspicious {
        return None;
    }
    let severity = match a.severity {
        ThreatSeverity::Low => owned("Low"),
        ThreatSeverity::Medium => owned("Medium"),
        ThreatSeverity::High => owned("High"),
    };
    Some(SuspiciousFile { path: owned(path), severity, threat_category: a.threat_category })
}

/// Converts a timestamp to RFC 3339 text in UTC (`chrono`), the epoch for
/// seconds that `chrono` cannot represent.
pub uninterp spec fn rfc3339_utc(secs: int) -> Seq<char>;

/// `DateTime::from_timestamp(secs, 0)` (the epoch when out of range)
/// rendered by `to_rfc3339`; the contract names the result.
#[verifier::external_body]
fn rfc3339_of(secs: i64) -> (r: String)
    ensures
        r@ == rfc3339_utc(secs as int),
{
    let dt: chrono::DateTime<chrono::Utc> = chrono::DateTime::from_timestamp(secs, 0).unwrap_or_default();
    dt.to_rfc3339()
}

/// The stored form of a file time.
pub fn timestamp_to_string(secs: i64) -> (r: String)
    ensures
        r@ == rfc3339_utc(secs as int),
{
    rfc3339_of(secs)
}

// ---------------------------------------------------------------------
// A scan over several folders
// ---------------------------------------------------------------------

/// The folders a scan visits: the enabled ones, in order.
pub fn active_folders(all: Vec<MonitoredFolder>) -> (r: Vec<MonitoredFolder>)
    ensures
        r@ == all@.filter(|f: MonitoredFolder| f.enabled),
{
    let ghost pred = |f: MonitoredFolder| f.enabled;
    let ghost orig = all@;
    let mut all = all;
    let mut r: Vec<MonitoredFolder> = Vec::new();
    let ghost mut i: int = 0;
    while all.len() > 0
        invariant
            0 <= i <= orig.len(),
            all@ == orig.subrange(i, orig.len() as int),
            r@ == orig.subrange(0, i).filter(pred),
            pred == (|f: MonitoredFolder| f.enabled),
        decreases all.len(),
    {
        let f = all.remove(0);
        proof {
            assert(f == orig[i]);
            assert(orig.subrange(0, i + 1).drop_last() =~= orig.subrange(0, i));
            reveal_with_fuel(Seq::filter, 1);
        }
        if f.enabled {
            r.push(f);
        }
        proof {
            i = i + 1;
            assert(all@ =~= orig.subrange(i, orig.len() as int));
        }
    }
    assert(orig.subrange(0, i) =~= orig);
    r
}

/// The folder list of a scan batch: each folder's name, comma-separated.
pub open spec fn folders_label(fs: Seq<MonitoredFolder>) -> Seq<char> {
    join(fs.map_values(|f: MonitoredFolder| display_name(f.path@)), ", "@)
}

/// The label under which a scan batch lists its folders.
pub fn folders_display(folders: &Vec<MonitoredFolder>) -> (r: String)
    ensures
        r@ == folders_label(folders@),
{
    let ghost want = folders@.map_values(|f: MonitoredFolder| display_name(f.path@));
    let mut names: Vec<String> = Vec::new();
    let mut i: usize = 0;
    while i < folders.len()
        invariant
            i <= folders.len(),
            want == folders@.map_values(|f: MonitoredFolder| display_name(f.path@)),
            names@.map_values(|s: String| s@) == want.subrange(0, i as int),
        decreases folders.len() - i,
    {
        let n = display_name_of(folders[i].path.as_str());
        let ghost before = names@.map_values(|s: String| s@);
        names.push(n);
        assert(names@.map_values(|s: String| s@) =~= before.push(n@));
        i = i + 1;
        assert(names@.map_values(|s: String| s@) =~= want.subrange(0, i as int));
    }
    assert(want.subrange(0, folders.len() as int) =~= want);
    join_exec(names.as_slice(), ", ")
}

/// Totals of a scan batch over its folders.
#[derive(Debug, Clone, Copy)]
pub struct BatchTotals {
    pub total_files: i64,
    pub new_files: i64,
    pub modified_files: i64,
    pub total_size: i64,
}

/// Sums of the per-folder results.
pub open spec fn sum_files(rs: Seq<ScanResult>) -> int
    decreases rs.len(),
{
    if rs.len() == 0 {
        0
    } else {
        sum_files(rs.drop_last()) + rs.last().files_scanned
    }
}

pub open spec fn sum_new(rs: Seq<ScanResult>) -> int
    decreases rs.len(),
{
    if rs.len() == 0 {
        0
    } else {
        sum_new(rs.drop_last()) + rs.last().new_files
    }
}

pub open spec fn sum_modified(rs: Seq<ScanResult>) -> int
    decreases rs.len(),
{
    if rs.len() == 0 {
        0
    } else {
        sum_modified(rs.drop_last()) + rs.last().modified_files
    }
}

pub open spec fn sum_size(rs: Seq<ScanResult>) -> int
    decreases rs.len(),
{
    if rs.len() == 0 {
        0
    } else {
        sum_size(rs.drop_last()) + rs.last().total_size
    }
}

/// Every partial sum of the results fits an `i64`.
pub open spec fn sums_fit(rs: Seq<ScanResult>) -> bool {
    forall|k: int|
        0 <= k <= rs.len() ==> i64::MIN <= #[trigger] sum_files(rs.take(k)) <= i64::MAX && i64::MIN
            <= sum_new(rs.take(k)) <= i64::MAX && i64::MIN <= sum_modified(rs.take(k)) <= i64::MAX
            && i64::MIN <= sum_size(rs.take(k)) <= i64::MAX
}

/// The totals of a scan batch: the sums of its folders' results.
pub fn batch_totals(results: &Vec<ScanResult>) -> (r: BatchTotals)
    requires
        sums_fit(results@),
    ensures
        r.total_files == sum_files(results@),
        r.new_files == sum_new(results@),
        r.modified_files == sum_modified(results@),
        r.total_size == sum_size(results@),
{
    let mut t = BatchTotals { total_files: 0, new_files: 0, modified_files: 0, total_size: 0 };
    let mut i: usize = 0;
    assert(results@.take(0) =~= Seq::<ScanResult>::empty());
    while i < results.len()
        invariant
            i <= results.len(),
            sums_fit(results@),
            t.total_files == sum_files(results@.take(i as int)),
            t.new_files == sum_new(results@.take(i as int)),
            t.modified_files == sum_modified(results@.take(i as int)),
            t.total_size == sum_size(results@.take(i as int)),
        decreases results.len() - i,
    {
        proof {
            assert(results@.take(i + 1).drop_last() =~= results@.take(i as int));
            assert(results@.take(i + 1).last() == results@[i as int]);
            assert(i64::MIN <= sum_files(results@.take(i + 1)) <= i64::MAX);
        }
        t.total_files = t.total_files + results[i].files_scanned;
        t.new_files = t.new_files + results[i].new_files;
        t.modified_files = t.modified_files + results[i].modified_files;
        t.total_size = t.total_size + results[i].total_size;
        i = i + 1;
    }
    assert(results@.take(results.len() as int) =~= results@);
    t
}

// ---------------------------------------------------------------------
// Files that disappeared
// ---------------------------------------------------------------------

/// What the clean-up pass records for a file that is gone.
#[derive(Debug, Clone, Copy, PartialEq, Eq, Structural)]
pub enum GoneVerdict {
    /// A tracked candidate (by index) still exists: the file moved there.
    MovedToCandidate(usize),
    /// The file-system search found it elsewhere.
    MovedToFound,
    /// Nowhere to be found.
    Deleted,
}

/// The first candidate that still exists, if any.
pub open spec fn first_true(flags: Seq<bool>) -> Option<int>
    decreases flags.len(),
{
    if flags.len() == 0 {
        None
    } else {
        match first_true(flags.drop_last()) {
            Some(k) => Some(k),
            None => if flags.last() {
                Some(flags.len() - 1)
            } else {
                None
            },
        }
    }
}

/// Decides what a missing file became, given which same-name, same-size
/// candidates exist on disk and whether a search found it.
pub fn gone_verdict(candidate_exists: &Vec<bool>, search_found: bool) -> (r: GoneVerdict)
    ensures
        match first_true(candidate_exists@) {
            Some(k) => r == GoneVerdict::MovedToCandidate(k as usize),
            None => r == (if search_found {
                GoneVerdict::MovedToFound
            } else {
                GoneVerdict::Deleted
            }),
        },
{
    let mut i: usize = 0;
    assert(candidate_exists@.take(0) =~= Seq::<bool>::empty());
    while i < candidate_exists.len()
        invariant
            i <= candidate_exists.len(),
            first_true(candidate_exists@.take(i as int)) is None,
        decreases candidate_exists.len() - i,
    {
        assert(candidate_exists@.take(i + 1).drop_last() =~= candidate_exists@.take(i as int));
        if candidate_exists[i] {
            proof {
                lemma_first_true_prefix(candidate_exists@, i as int);
            }
            return GoneVerdict::MovedToCandidate(i);
        }
        i = i + 1;
    }
    assert(candidate_exists@.take(candidate_exists.len() as int) =~= candidate_exists@);
    if search_found {
        GoneVerdict::MovedToFound
    } else {
        GoneVerdict::Deleted
    }
}

proof fn lemma_first_true_prefix(flags: Seq<bool>, i: int)
    requires
        0 <= i < flags.len(),
        flags[i],
        first_true(flags.take(i)) is None,
    ensures
        first_true(flags) == Some(i),
    decreases flags.len(),
{
    if i == flags.len() - 1 {
        assert(flags.drop_last() =~= flags.take(i));
    } else {
        assert(flags.drop_last().take(i) =~= flags.take(i));
        lemma_first_true_prefix(flags.drop_last(), i);
    }
}

/// A path with `\` turned into `/` and lower-cased, as the search
/// compares paths.
pub open spec fn search_key(p: Seq<char>) -> Seq<char> {
    unicode_lowercase(replace_char(p, '\\', '/'))
}

/// At most this many files are examined by one search for a moved file.
pub const MAX_SEARCH_FILES: usize = 100_000;

/// Whether a file met by the search for a moved file is the one sought:
/// not the old path itself, and of the same name and size.
pub open spec fn search_hit(entry_path: Seq<char>, entry_name: Seq<char>, entry_size: int, exclude: Seq<char>, filename: Seq<char>, size: int) -> bool {
    search_key(entry_path) != search_key(exclude) && entry_name == filename && entry_size == size
}

/// Whether a file met by the search is the one sought.
pub fn is_search_hit(entry_path: &str, entry_name: &str, entry_size: i64, exclude: &str, filename: &str, size: i64) -> (r: bool)
    ensures
        r == search_hit(entry_path@, entry_name@, entry_size as int, exclude@, filename@, size as int),
{
    let a = string_of(&replace_char_exec(&chars_of(entry_path), '\\', '/'));
    let b = string_of(&replace_char_exec(&chars_of(exclude), '\\', '/'));
    let ka = to_lowercase(a.as_str());
    let kb = to_lowercase(b.as_str());
    !str_eq(ka.as_str(), kb.as_str()) && str_eq(entry_name, filename) && entry_size == size
}

/// Law: what the search for a moved file takes for it has the sought name
/// and size, and is not the vanished path itself (nor that path written
/// with other slashes or case); any other file of that name and size is
/// taken.
pub proof fn lemma_search_hit_is_sought_file(
    entry_path: Seq<char>,
    entry_name: Seq<char>,
    entry_size: int,
    exclude: Seq<char>,
    filename: Seq<char>,
    size: int,
)
    ensures
        search_hit(entry_path, entry_name, entry_size, exclude, filename, size) ==> entry_name == filename
            && entry_size == size && entry_path != exclude,
        !search_hit(exclude, entry_name, entry_size, exclude, filename, size),
        entry_name == filename && entry_size == size && search_key(entry_path) != search_key(exclude)
            ==> search_hit(entry_path, entry_name, entry_size, exclude, filename, size),
{
}

// ---------------------------------------------------------------------
// The periodic scheduler
// ---------------------------------------------------------------------

/// What the scheduler does when its timer fires.
#[derive(Debug, Clone, Copy, PartialEq, Eq, Structural)]
pub enum SchedulerAction {
    /// Automatic scans are off: wait one interval.
    Wait,
    /// Another scan runs: skip this turn.
    Skip,
    /// Scan all active folders.
    Scan,
}

/// The scheduler's choice when its timer fires.
pub fn next_scheduler_action(auto_scan_enabled: bool, scan_in_progress: bool) -> (r: SchedulerAction)
    ensures
        r == (if !auto_scan_enabled {
            SchedulerAction::Wait
        } else if scan_in_progress {
            SchedulerAction::Skip
        } else {
            SchedulerAction::Scan
        }),
{
    if !auto_scan_enabled {
        SchedulerAction::Wait
    } else if scan_in_progress {
        SchedulerAction::Skip
    } else {
        SchedulerAction::Scan
    }
}

/// The pause between scans, in seconds, for a frequency in minutes.
pub fn scan_interval_secs(minutes: u64) -> (r: u64)
    requires
        minutes * 60 <= u64::MAX,
    ensures
        r == minutes * 60,
{
    minutes * 60
}

/// After a scheduled scan the day's summary is announced, unless it says
/// that nothing changed.
pub fn should_announce(summary: &str) -> (r: bool)
    ensures
        r == (summary@ != "No changes detected today."@),
{
    !str_eq(summary, "No changes detected today.")
}

} // verus!
