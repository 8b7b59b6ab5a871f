use whatchanged::ignore::{glob_match, regex_simple, should_ignore_file, simple_regex_match, RegexSimple};
use whatchanged::history::group_batch_rows;
use whatchanged::recency::latest_first;
use whatchanged::records::{ChangeRecord, FileRecord, IgnorePattern, MonitoredFolder, ScanBatch, ScanResult};
use whatchanged::scanning::{
    active_folders, batch_totals, classify_scanned_file, count_file, folders_display, gone_verdict,
    is_search_hit, next_scheduler_action, scan_interval_secs, should_announce, suspicious_entry,
    timestamp_to_string, zero_counts, FileVerdict, GoneVerdict, SchedulerAction,
};

fn folder(id: i64, path: &str, enabled: bool) -> MonitoredFolder {
    MonitoredFolder { id, path: path.to_string(), enabled, added_at: String::new() }
}

fn result(files: i64, new: i64, modified: i64, size: i64) -> ScanResult {
    ScanResult {
        directory: String::new(),
        files_scanned: files,
        new_files: new,
        modified_files: modified,
        total_size: size,
        errors: vec![],
        scanned_at: String::new(),
        suspicious_files: vec![],
    }
}

fn pattern(p: &str, t: &str) -> IgnorePattern {
    IgnorePattern { id: 1, folder_id: 1, pattern: p.to_string(), pattern_type: t.to_string(), created_at: String::new() }
}

#[test]
fn scanned_files_are_classified() {
    assert_eq!(classify_scanned_file(Some("t1"), "t2", false), FileVerdict::Modified);
    assert_eq!(classify_scanned_file(Some("t1"), "t1", true), FileVerdict::Unchanged);
    assert_eq!(classify_scanned_file(None, "t1", false), FileVerdict::New);
    assert_eq!(classify_scanned_file(None, "t1", true), FileVerdict::PossibleMove);
}

#[test]
fn counts_add_up() {
    let mut c = zero_counts();
    count_file(&mut c, 10, FileVerdict::New);
    count_file(&mut c, 5, FileVerdict::Modified);
    count_file(&mut c, 7, FileVerdict::PossibleMove);
    assert_eq!((c.files_scanned, c.new_files, c.modified_files, c.total_size), (3, 1, 1, 22));
}

#[test]
fn suspicious_files_are_reported() {
    let s = suspicious_entry("C:\\downloads\\document.exe.bat").unwrap();
    assert_eq!(s.severity, "High");
    assert_eq!(s.threat_category, "Double extension: .exe.bat");
    assert!(suspicious_entry("/home/u/notes.txt").is_none());
}

#[test]
fn file_times_in_rfc3339() {
    assert_eq!(timestamp_to_string(0), "1970-01-01T00:00:00+00:00");
    assert_eq!(timestamp_to_string(86400), "1970-01-02T00:00:00+00:00");
}

#[test]
fn batches_cover_enabled_folders() {
    let fs = vec![folder(1, "/home/u/Docs", true), folder(2, "/tmp/x", false), folder(3, "/", true)];
    let active = active_folders(fs);
    assert_eq!(active.len(), 2);
    assert_eq!(folders_display(&active), "Docs, /");
    let t = batch_totals(&vec![result(3, 1, 1, 100), result(4, 2, 0, 50)]);
    assert_eq!((t.total_files, t.new_files, t.modified_files, t.total_size), (7, 3, 1, 150));
}

#[test]
fn gone_files_move_or_are_deleted() {
    assert_eq!(gone_verdict(&vec![false, true, true], false), GoneVerdict::MovedToCandidate(1));
    assert_eq!(gone_verdict(&vec![false], true), GoneVerdict::MovedToFound);
    assert_eq!(gone_verdict(&vec![], false), GoneVerdict::Deleted);
}

#[test]
fn search_hits_need_same_name_and_size() {
    assert!(is_search_hit("/home/b/a.txt", "a.txt", 10, "/home/a/a.txt", "a.txt", 10));
    assert!(!is_search_hit("C:\\Home\\A.TXT", "a.txt", 10, "c:/home/a.txt", "a.txt", 10));
    assert!(!is_search_hit("/home/b/a.txt", "a.txt", 11, "/home/a/a.txt", "a.txt", 10));
}

#[test]
fn scheduler_decisions() {
    assert_eq!(next_scheduler_action(false, false), SchedulerAction::Wait);
    assert_eq!(next_scheduler_action(true, true), SchedulerAction::Skip);
    assert_eq!(next_scheduler_action(true, false), SchedulerAction::Scan);
    assert_eq!(scan_interval_secs(15), 900);
    assert!(!should_announce("No changes detected today."));
    assert!(should_announce("Today: 1 new"));
}

#[test]
fn simple_regex_semantics() {
    assert!(simple_regex_match("*.log", "app.log"));
    assert!(simple_regex_match("a?c", "abc"));
    assert!(simple_regex_match("a.c", "axc"));
    assert!(!simple_regex_match("a.c", "ac"));
    assert!(!simple_regex_match("*.*.*.*.*.*.*.*.*.*.*", "a.b"));
    let re: RegexSimple = regex_simple("*.TMP").unwrap();
    assert!(re.is_match("/x/file.tmp"));
}

#[test]
fn glob_patterns_ignore_case() {
    assert!(glob_match("*.LOG", "/var/app.log"));
    assert!(!glob_match("*.log", "/var/app.txt"));
    assert!(glob_match("[", "a[b"));
}

#[test]
fn ignore_patterns_by_type() {
    let ps = vec![pattern("*.bak", "glob"), pattern("Cache", "contains"), pattern("*.tmp", "regex"), pattern("x", "other")];
    assert!(should_ignore_file(&ps, "C:\\Data\\old.BAK"));
    assert!(should_ignore_file(&ps, "/home/u/.cache/f"));
    assert!(should_ignore_file(&ps, "/tmp/a.TMP"));
    assert!(!should_ignore_file(&ps, "/home/u/x.txt"));
    assert!(!should_ignore_file(&vec![], "/a"));
}

#[allow(dead_code)]
fn unused(_: FileRecord) {}

fn scan_batch(id: i64, started_at: &str) -> ScanBatch {
    ScanBatch {
        id,
        folder_count: 1,
        folders_scanned: "docs".to_string(),
        started_at: started_at.to_string(),
        completed_at: None,
        total_files: 0,
        new_files: 0,
        modified_files: 0,
        deleted_files: 0,
        moved_files: 0,
        total_size: 0,
    }
}

fn change(id: i64, name: &str) -> ChangeRecord {
    ChangeRecord {
        id,
        file_id: id,
        file_path: format!("/d/{}", name),
        filename: name.to_string(),
        change_type: "NEW".to_string(),
        detected_at: "2024-01-01T00:00:00".to_string(),
        previous_path: None,
        new_path: None,
    }
}

#[test]
fn joined_rows_gather_per_scan() {
    let rows = vec![
        (scan_batch(7, "2024-01-02T10:00:00"), Some(change(1, "a"))),
        (scan_batch(5, "2024-01-02T09:00:00"), None),
        (scan_batch(7, "2024-01-02T10:00:00"), Some(change(2, "b"))),
        (scan_batch(9, "2024-01-02T11:00:00"), Some(change(3, "c"))),
    ];
    let groups = group_batch_rows(rows);
    let shape: Vec<(i64, Vec<i64>)> =
        groups.iter().map(|g| (g.batch.id, g.changes.iter().map(|c| c.id).collect())).collect();
    assert_eq!(shape, vec![(7, vec![1, 2]), (5, vec![]), (9, vec![3])]);
    let keys: Vec<String> = groups.iter().map(|g| g.batch.started_at.clone()).collect();
    assert_eq!(latest_first(&keys, keys.len()), vec![2, 0, 1]);
}
