//! Small decisions of the user-facing commands: export formats, access to
//! file contents, limits on decompressed snapshot text, overlapping scans
//! and the update check.
use vstd::prelude::*;
use crate::records::MonitoredFolder;
use crate::settings::{compare_versions, version_newer};
use crate::text::{chars_of, has_prefix, owned, push_str, starts_with, str_eq, string_of};

verus! {

/// The formats a daily report can be exported in.
#[derive(Debug, Clone, Copy, PartialEq, Eq, Structural)]
pub enum ExportFormat {
    Json,
    Csv,
}

/// Reads the requested export format.
pub fn export_format(format: &str) -> (r: Result<ExportFormat, String>)
    ensures
        format@ == "json"@ ==> r == Ok::<ExportFormat, String>(ExportFormat::Json),
        format@ == "csv"@ ==> r == Ok::<ExportFormat, String>(ExportFormat::Csv),
        format@ != "json"@ && format@ != "csv"@ ==> (r matches Err(e) && e@ == "Unknown format: "@ + format@),
{
    proof {
        reveal_strlit("json");
        reveal_strlit("csv");
        assert("json"@.len() != "csv"@.len());
    }
    if str_eq(format, "json") {
        Ok(ExportFormat::Json)
    } else if str_eq(format, "csv") {
        Ok(ExportFormat::Csv)
    } else {
        let mut e = owned("Unknown format: ");
        push_str(&mut e, format);
        Err(e)
    }
}

/// The path lies in one of the folders (as text: the folder's path is a
/// prefix of it).
pub open spec fn under_some_folder(fs: Seq<MonitoredFolder>, path: Seq<char>) -> bool {
    exists|k: int| 0 <= k < fs.len() && starts_with(path, (#[trigger] fs[k]).path@)
}

/// Only files under a monitored folder may be read.
pub fn check_content_access(folders: &Vec<MonitoredFolder>, path: &str) -> (r: Result<(), String>)
    ensures
        r is Ok <==> under_some_folder(folders@, path@),
        r matches Err(e) ==> e@ == "File is not within a monitored directory"@,
{
    let p = chars_of(path);
    let mut k: usize = 0;
    while k < folders.len()
        invariant
            k <= folders@.len(),
            p@ == path@,
            forall|q: int| 0 <= q < k ==> !starts_with(path@, (#[trigger] folders@[q]).path@),
        decreases folders.len() - k,
    {
        if has_prefix(&p, &chars_of(folders[k].path.as_str())) {
            assert(starts_with(path@, folders@[k as int].path@));
            return Ok(());
        }
        k = k + 1;
    }
    Err(owned("File is not within a monitored directory"))
}

/// The answer to a scan request while another scan runs.
pub fn scan_in_progress_error() -> (r: String)
    ensures
        r@ == "A scan is already in progress. Please wait for it to complete."@,
{
    owned("A scan is already in progress. Please wait for it to complete.")
}

/// `s` without its leading `v`s.
pub open spec fn strip_vs(s: Seq<char>) -> Seq<char>
    decreases s.len(),
{
    if s.len() > 0 && s[0] == 'v' {
        strip_vs(s.drop_first())
    } else {
        s
    }
}

/// The version of a release tag (`v1.2.3` is `1.2.3`).
pub fn tag_version(tag: &str) -> (r: String)
    ensures
        r@ == strip_vs(tag@),
{
    let c = chars_of(tag);
    let mut a: usize = 0;
    assert(c@.subrange(0, c@.len() as int) =~= c@);
    while a < c.len() && c[a] == 'v'
        invariant
            a <= c@.len(),
            c@ == tag@,
            strip_vs(tag@) == strip_vs(c@.subrange(a as int, c@.len() as int)),
        decreases c.len() - a,
    {
        assert(c@.subrange(a as int, c@.len() as int).drop_first() =~= c@.subrange(a + 1, c@.len() as int));
        a = a + 1;
    }
    let mut v: Vec<char> = Vec::new();
    let mut i: usize = a;
    while i < c.len()
        invariant
            a <= i <= c@.len(),
            v@ == c@.subrange(a as int, i as int),
        decreases c.len() - i,
    {
        v.push(c[i]);
        i = i + 1;
        assert(v@ =~= c@.subrange(a as int, i as int));
    }
    string_of(&v)
}

/// What the update check reports.
#[derive(Debug)]
pub struct UpdateInfo {
    pub has_update: bool,
    pub current_version: String,
    pub latest_version: String,
    pub download_url: String,
    pub release_notes: String,
}

/// The report when the latest release could not be learned.
pub fn no_update_info(current: &str) -> (r: UpdateInfo)
    ensures
        !r.has_update,
        r.current_version@ == current@,
        r.latest_version@.len() == 0 && r.download_url@.len() == 0 && r.release_notes@.len() == 0,
{
    UpdateInfo {
        has_update: false,
        current_version: owned(current),
        latest_version: String::new(),
        download_url: String::new(),
        release_notes: String::new(),
    }
}

/// The report on the latest release, from its tag, page and notes.
pub fn update_info(current: &str, tag: &str, html_url: &str, notes: &str) -> (r: UpdateInfo)
    ensures
        r.latest_version@ == strip_vs(tag@),
        r.has_update == version_newer(strip_vs(tag@), current@),
        r.current_version@ == current@,
        r.download_url@ == html_url@,
        r.release_notes@ == notes@,
{
    let latest = tag_version(tag);
    let has_update = compare_versions(latest.as_str(), current);
    UpdateInfo {
        has_update,
        current_version: owned(current),
        latest_version: latest,
        download_url: owned(html_url),
        release_notes: owned(notes),
    }
}

} // verus!
