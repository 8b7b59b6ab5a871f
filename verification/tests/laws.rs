use whatchanged::recency::text_less;
use whatchanged::blame::{lcs_blame, BlameEntry};
use whatchanged::reports::{escape_csv, escape_export_field, html_escape};
use whatchanged::security::PathValidator;
use whatchanged::settings::{compare_versions, is_readable_setting};
use whatchanged::snapshots::validate_restore_path;

const FORMULA: [char; 4] = ['=', '+', '-', '@'];

#[test]
fn csv_fields_never_open_a_formula() {
    for s in ["=SUM(A1)", "+1", "-2", "@x", "\tt", "ok", "", "\u{202E}=x"] {
        let f = escape_csv(s);
        if let Some(c) = f.chars().next() {
            assert!(c == '"' || !(FORMULA.contains(&c) || c == '\t'), "{}", f);
        }
        let g = escape_export_field(s);
        if let Some(c) = g.chars().next() {
            assert!(!FORMULA.contains(&c), "{}", g);
        }
    }
}

#[test]
fn escaped_html_has_no_markup() {
    let e = html_escape("<script>alert('x')</script>\"");
    assert!(!e.contains('<') && !e.contains('>') && !e.contains('"') && !e.contains('\''));
}

#[test]
fn stored_names_are_clean() {
    let name = format!("{}\u{0}\u{1b}", "n".repeat(400));
    let s = PathValidator::sanitize_filename(&name);
    assert!(s.chars().count() <= 255);
    assert!(!s.chars().any(|c| c.is_control()));
}

#[test]
fn version_order_is_strict() {
    for (a, b) in [("1.0", "1.0"), ("1.2", "1.10"), ("2", "1.9"), ("1.0.0", "1.0")] {
        assert!(!(compare_versions(a, b) && compare_versions(b, a)));
        assert!(!compare_versions(a, a));
    }
}

#[test]
fn writable_settings_are_readable() {
    for k in ["scan_frequency", "dark_mode", "daily_summary_time", "snapshot_extensions"] {
        assert!(is_readable_setting(k));
    }
}

#[test]
fn restore_traversal_is_refused() {
    assert_eq!(validate_restore_path("/home/u/a/../../etc/x"), Err("Path traversal detected".to_string()));
    assert_eq!(validate_restore_path("C:\\Users\\..\\Windows\\x"), Err("Path traversal detected".to_string()));
}

#[test]
fn blame_keeps_a_longest_common_subsequence() {
    let old: Vec<BlameEntry> = ["a", "b", "c", "d", "e"]
        .iter()
        .map(|l| (l.to_string(), Some(1), Some("t1".to_string())))
        .collect();
    let new_lines: Vec<String> = ["a", "c", "x", "d", "b"].iter().map(|s| s.to_string()).collect();
    let r = lcs_blame(&old, &new_lines, 2, "t2".to_string());
    let inherited: Vec<&str> = r.iter().filter(|e| e.1 == Some(1)).map(|e| e.0.as_str()).collect();
    assert_eq!(inherited, vec!["a", "c", "d"]);
    assert_eq!(r[2], ("x".to_string(), Some(2), Some("t2".to_string())));
    assert_eq!(r[4], ("b".to_string(), Some(2), Some("t2".to_string())));
}

#[test]
fn text_order_is_strict_and_total() {
    let samples = ["", "a", "ab", "b", "2024-01-02T10:00", "2024-01-02T09:59", "é", "Z"];
    for a in samples {
        assert!(!text_less(a, a));
        for b in samples {
            assert!(!(text_less(a, b) && text_less(b, a)));
            if a != b {
                assert!(text_less(a, b) || text_less(b, a));
            }
            assert_eq!(text_less(a, b), a < b);
            for c in samples {
                if text_less(a, b) && text_less(b, c) {
                    assert!(text_less(a, c));
                }
            }
        }
    }
}
