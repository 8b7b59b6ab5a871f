use whatchanged::blame::{blame_from_snapshots, lcs_blame, BlameEntry};
use whatchanged::notify::{cloud_folder_candidates, is_path_in_cloud_folder, should_send_notification};
use whatchanged::records::{
    ChangeRecord, ChangeStats, ChangelogEntry, CloudFolder, ExportData, ExtensionStat, NotificationProfile,
};
use whatchanged::reports::{
    build_daily_summary, escape_csv, escape_export_field, export_changes_csv, export_daily_csv,
    generate_changelog_markdown, generate_html_report, html_escape, CsvChangeRow,
};
use whatchanged::search::{advanced_search_query, export_changes_query, like_pattern_exec, SqlParam};

fn change(ct: &str, name: &str, prev: Option<&str>) -> ChangeRecord {
    ChangeRecord {
        id: 7,
        file_id: 3,
        file_path: format!("/home/u/{}", name),
        filename: name.to_string(),
        change_type: ct.to_string(),
        detected_at: "2024-05-01T10:00:00".to_string(),
        previous_path: prev.map(|s| s.to_string()),
        new_path: None,
    }
}

fn profile(enabled: bool, start: i64, end: i64, new: bool) -> NotificationProfile {
    NotificationProfile {
        id: 1,
        name: "p".to_string(),
        quiet_hours_start: start,
        quiet_hours_end: end,
        notify_new: new,
        notify_modified: true,
        notify_deleted: true,
        notify_moved: true,
        enabled,
        created_at: String::new(),
    }
}

fn param_text(p: &SqlParam) -> String {
    match p {
        SqlParam::Text(s) => s.clone(),
        SqlParam::Int(n) => format!("#{}", n),
    }
}

#[test]
fn daily_csv_fields_are_guarded() {
    assert_eq!(escape_csv("plain"), "plain");
    assert_eq!(escape_csv("=1+2"), "\"=1+2\"");
    assert_eq!(escape_csv("say \"hi\", ok"), "\"say \"\"hi\"\", ok\"");
    assert_eq!(escape_csv("a\u{202E}b"), "ab");
    assert_eq!(escape_csv("\tx"), "\"\tx\"");
}

#[test]
fn daily_csv_export() {
    let cs = vec![change("MOVED", "b,c.txt", Some("/old/b.txt"))];
    assert_eq!(
        export_daily_csv(&cs),
        "timestamp,filename,path,change_type,previous_path,new_path\n\"2024-05-01T10:00:00\",\"b,c.txt\",\"/home/u/b,c.txt\",\"MOVED\",\"/old/b.txt\",\"\"\n"
    );
    let q = vec![change("NEW", "say \"hi\"\u{202E}.txt", None)];
    let out = export_daily_csv(&q);
    let row = out.lines().nth(1).unwrap();
    assert_eq!(
        row,
        "\"2024-05-01T10:00:00\",\"say \"\"hi\"\".txt\",\"/home/u/say \"\"hi\"\".txt\",\"NEW\",\"\",\"\""
    );
}

#[test]
fn full_csv_export_guards_formulas() {
    assert_eq!(escape_export_field("-5"), "'-5");
    assert_eq!(escape_export_field("a,b"), "\"a,b\"");
    assert_eq!(escape_export_field("=x,y"), "\"=x,y\"");
    assert_eq!(escape_export_field("@cmd"), "'@cmd");
    let rows = vec![CsvChangeRow {
        id: 4,
        path: "/a/=b".to_string(),
        filename: "=b".to_string(),
        extension: "".to_string(),
        size: -1,
        change_type: "NEW".to_string(),
        detected_at: "2024".to_string(),
        previous_path: None,
        new_path: Some("x".to_string()),
    }];
    assert_eq!(
        export_changes_csv(&rows),
        "ID,Path,Filename,Extension,Size,Change Type,Detected At,Previous Path,New Path\n4,/a/=b,'=b,,-1,NEW,2024,,x\n"
    );
}

#[test]
fn html_is_escaped() {
    assert_eq!(html_escape("<a href='x'>&\"</a>"), "&lt;a href=&#x27;x&#x27;&gt;&amp;&quot;&lt;/a&gt;");
    assert_eq!(html_escape("&amp;"), "&amp;amp;");
}

#[test]
fn html_report_contents() {
    let long_name = "x".repeat(70);
    let entry = ChangelogEntry {
        date: "2024-05-01".to_string(),
        batch_id: 1,
        folders_scanned: "Docs".to_string(),
        total_files: 1,
        new_files: 1,
        modified_files: 0,
        deleted_files: 0,
        moved_files: 0,
        changes: vec![change("NEW", &long_name, None)],
    };
    let data = ExportData {
        generated_at: "now".to_string(),
        summary: ChangeStats { new_count: 1, modified_count: 2, deleted_count: 3, moved_count: 4 },
        batches: vec![entry],
        extension_stats: vec![ExtensionStat { extension: "<rs>".to_string(), count: 2, total_size: 2048 }],
        trends: vec![],
        snapshots: vec![],
        duplicate_groups: vec![],
        monitored_folders: vec![],
    };
    let html = generate_html_report(&data, &vec!["2.00 KB".to_string()]);
    assert!(html.starts_with("<!DOCTYPE html>\n"));
    assert!(html.contains("  <p>Generated: now</p>\n"));
    assert!(html.contains("<div class=\"card del\"><div class=\"value\">3</div><div class=\"label\">Deleted</div></div>"));
    assert!(html.contains("<tr><td><code>&lt;rs&gt;</code></td><td>2</td><td>2.00 KB</td></tr>\n"));
    let tail = &format!("/home/u/{}", long_name)[18..];
    assert!(html.contains(&format!("\">...{}</td>", tail)));
    assert!(html.ends_with("</body>\n</html>"));
}

#[test]
fn changelog_markdown() {
    let entry = ChangelogEntry {
        date: "2024-05-01".to_string(),
        batch_id: 12,
        folders_scanned: "Docs, Code".to_string(),
        total_files: 10,
        new_files: 1,
        modified_files: 2,
        deleted_files: 0,
        moved_files: 1,
        changes: vec![change("NEW", "a.txt", None), change("MOVED", "b.txt", Some("/old/b.txt"))],
    };
    let md = generate_changelog_markdown(&vec![entry]);
    assert_eq!(
        md,
        "# Changelog\n\nGenerated by What Changed?\n\n## 2024-05-01 (Scan #12)\n\nFolders: `Docs, Code`\n\n| Metric | Count |\n|--------|-------|\n| Files Scanned | 10 |\n| New | 1 |\n| Modified | 2 |\n| Deleted | 0 |\n| Moved | 1 |\n\n### Changes\n\n- 🆕 `a.txt`\n- 📦 `b.txt` ← `/old/b.txt`\n\n"
    );
    assert_eq!(generate_changelog_markdown(&vec![]), "# Changelog\n\nGenerated by What Changed?\n\n");
}

#[test]
fn one_line_summary() {
    let s = ChangeStats { new_count: 3, modified_count: 0, deleted_count: 1, moved_count: 2 };
    assert_eq!(build_daily_summary(&s), "Today: 3 new, 1 deleted, 2 moved");
    let z = ChangeStats { new_count: 0, modified_count: 0, deleted_count: 0, moved_count: 0 };
    assert_eq!(build_daily_summary(&z), "No changes detected today.");
}

#[test]
fn notification_profiles() {
    assert!(should_send_notification(&vec![], "NEW", 3));
    assert!(should_send_notification(&vec![profile(false, 0, 0, false)], "NEW", 3));
    assert!(!should_send_notification(&vec![profile(true, 0, 0, false)], "NEW", 3));
    assert!(!should_send_notification(&vec![profile(true, 22, 6, true)], "NEW", 23));
    assert!(!should_send_notification(&vec![profile(true, 22, 6, true)], "NEW", 2));
    assert!(should_send_notification(&vec![profile(true, 22, 6, true)], "NEW", 12));
    assert!(!should_send_notification(&vec![profile(true, 9, 17, true)], "MOVED", 9));
    assert!(should_send_notification(&vec![profile(true, 9, 17, true)], "MOVED", 17));
    assert!(should_send_notification(&vec![profile(true, 0, 0, false)], "OTHER", 1));
}

#[test]
fn cloud_folders() {
    let fs = vec![
        CloudFolder { id: 1, path: "/home/u/Dropbox".to_string(), provider: "dropbox".to_string(), display_name: None, is_active: true, detected_at: String::new() },
        CloudFolder { id: 2, path: "/home/u/OneDrive".to_string(), provider: "onedrive".to_string(), display_name: None, is_active: true, detected_at: String::new() },
    ];
    assert_eq!(is_path_in_cloud_folder(&fs, "/home/u/ONEDRIVE/x"), Some("onedrive".to_string()));
    assert_eq!(is_path_in_cloud_folder(&fs, "/home/u/Dropbox/a"), Some("dropbox".to_string()));
    assert_eq!(is_path_in_cloud_folder(&fs, "/home/u/Docs"), None);
    assert_eq!(cloud_folder_candidates().len(), 6);
}

#[test]
fn like_patterns_escape_wildcards() {
    assert_eq!(like_pattern_exec("50%_Off\\"), "%50\\%\\_off\\\\%");
}

#[test]
fn advanced_search_filters() {
    let q = advanced_search_query(Some("Re_p"), Some("ALL"), Some(""), Some("2024-05-31"), Some("RS"), Some(10), None, 50, 0);
    assert_eq!(
        q.count_sql,
        "SELECT COUNT(*) FROM changes c JOIN files f ON c.file_id = f.id WHERE (LOWER(f.path) LIKE ? ESCAPE '\\' OR LOWER(f.filename) LIKE ? ESCAPE '\\') AND DATE(c.detected_at) <= ? AND LOWER(f.extension) = ? AND f.size >= ?"
    );
    let ps: Vec<String> = q.data_params.iter().map(param_text).collect();
    assert_eq!(ps, vec!["%re\\_p%", "%re\\_p%", "2024-05-31", "rs", "#10", "#50", "#0"]);
    assert_eq!(q.count_params.len(), 5);
    assert!(q.data_sql.ends_with("\n             ORDER BY c.detected_at DESC LIMIT ? OFFSET ?"));
    let none = advanced_search_query(None, None, None, None, None, None, None, 5, 10);
    assert_eq!(none.count_sql, "SELECT COUNT(*) FROM changes c JOIN files f ON c.file_id = f.id ");
    assert_eq!(none.data_params.len(), 2);
}

#[test]
fn export_query_filters() {
    let (sql, ps) = export_changes_query(Some(""), None);
    assert!(sql.contains("f.id WHERE DATE(c.detected_at) >= ?\n"));
    assert_eq!(ps.len(), 1);
    let (sql, ps) = export_changes_query(None, None);
    assert!(sql.contains("ON c.file_id = f.id \n"));
    assert!(ps.is_empty());
}

#[test]
fn blame_across_snapshots() {
    let snaps = vec![
        (3i64, "a\nB\nc\nd".to_string(), "t3".to_string()),
        (2i64, "a\nb\nc".to_string(), "t2".to_string()),
        (1i64, "a\nc".to_string(), "t1".to_string()),
    ];
    let lines = blame_from_snapshots(&snaps);
    let got: Vec<(usize, String, Option<i64>)> =
        lines.iter().map(|l| (l.line_number, l.content.clone(), l.scan_batch_id)).collect();
    assert_eq!(
        got,
        vec![
            (1, "a".to_string(), Some(1)),
            (2, "B".to_string(), Some(3)),
            (3, "c".to_string(), Some(1)),
            (4, "d".to_string(), Some(3)),
        ]
    );
    assert!(lines.iter().all(|l| l.change_type == "known"));
    assert_eq!(lines[1].detected_at, Some("t3".to_string()));
    assert!(blame_from_snapshots(&vec![]).is_empty());
}

#[test]
fn lcs_keeps_common_lines() {
    let old: Vec<BlameEntry> = vec![
        ("x".to_string(), Some(1), Some("t1".to_string())),
        ("y".to_string(), Some(1), Some("t1".to_string())),
    ];
    let new_lines = vec!["y".to_string(), "z".to_string()];
    let r = lcs_blame(&old, &new_lines, 2, "t2".to_string());
    assert_eq!(r[0], ("y".to_string(), Some(1), Some("t1".to_string())));
    assert_eq!(r[1], ("z".to_string(), Some(2), Some("t2".to_string())));
}
