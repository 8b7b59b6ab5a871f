use whatchanged::autostart::{
    autostart_points_to, desktop_entry, desktop_file_name, disable_autostart, enable_autostart,
    is_autostart_enabled, registered_exe, registry_autostart_enabled, registry_run_value,
};
use whatchanged::numparse::{parse_i64, parse_u32, parse_u64};
use whatchanged::paths::{display_name_of, extension_of, file_name_of, is_skipped, name_extension_of};
use whatchanged::text::{lines_exec, split_exec, trim_exec};

fn chars(s: &str) -> Vec<char> {
    s.chars().collect()
}

#[test]
fn lines_follow_str_lines() {
    assert_eq!(lines_exec("a\r\nb\n"), vec!["a".to_string(), "b".to_string()]);
    assert_eq!(lines_exec("a\r"), vec!["a\r".to_string()]);
    assert_eq!(lines_exec(""), Vec::<String>::new());
    assert_eq!(lines_exec("x\n\ny"), vec!["x".to_string(), "".to_string(), "y".to_string()]);
    let s = "one\r\ntwo\nthree";
    let expected: Vec<String> = s.lines().map(|l| l.to_string()).collect();
    assert_eq!(lines_exec(s), expected);
}

#[test]
fn split_and_trim() {
    let parts = split_exec(&chars("a,,b"), ',');
    assert_eq!(parts, vec![chars("a"), chars(""), chars("b")]);
    assert_eq!(trim_exec(&chars("  x y \t")), chars("x y"));
}

#[test]
fn file_names_follow_path_rules() {
    assert_eq!(file_name_of("/a/b.txt"), Some("b.txt".to_string()));
    assert_eq!(file_name_of("foo.txt/."), Some("foo.txt".to_string()));
    assert_eq!(file_name_of("foo.txt/.//"), Some("foo.txt".to_string()));
    assert_eq!(file_name_of("/"), None);
    assert_eq!(file_name_of("a/.."), None);
    assert_eq!(file_name_of(""), None);
    assert_eq!(display_name_of("/"), "/");
    assert_eq!(display_name_of("/home/u/Projects"), "Projects");
}

#[test]
fn extensions_follow_path_rules() {
    assert_eq!(extension_of("/x/archive.tar.gz"), Some("gz".to_string()));
    assert_eq!(extension_of("/x/.bashrc"), None);
    assert_eq!(extension_of("/x/noext"), None);
    assert_eq!(name_extension_of("a."), Some("".to_string()));
    assert_eq!(name_extension_of(".a.b"), Some("b".to_string()));
}

#[test]
fn skipped_directory_names() {
    assert!(is_skipped(".git"));
    assert!(is_skipped("node_modules"));
    assert!(is_skipped("System Volume Information"));
    assert!(is_skipped(".hidden"));
    assert!(!is_skipped("src"));
    assert!(!is_skipped("Build"));
}

#[test]
fn number_parsing() {
    assert_eq!(parse_u64("15"), Some(15));
    assert_eq!(parse_u64("+7"), Some(7));
    assert_eq!(parse_u64("-1"), None);
    assert_eq!(parse_u64(""), None);
    assert_eq!(parse_u64("18446744073709551616"), None);
    assert_eq!(parse_u32("4294967295"), Some(4294967295));
    assert_eq!(parse_u32("4294967296"), None);
    assert_eq!(parse_i64("-9223372036854775808"), Some(i64::MIN));
    assert_eq!(parse_i64("12a"), None);
}

#[test]
fn autostart_without_platform_support() {
    assert_eq!(enable_autostart(), Err("Auto-start not supported on this platform".to_string()));
    assert_eq!(disable_autostart(), Err("Auto-start not supported on this platform".to_string()));
    assert!(!is_autostart_enabled());
}

#[test]
fn autostart_registry_value_round_trip() {
    let v = registry_run_value("C:\\Apps\\WhatChanged.exe");
    assert_eq!(v, "\"C:\\Apps\\WhatChanged.exe\" --minimized");
    assert_eq!(registered_exe(&v), "C:\\Apps\\WhatChanged.exe");
    assert!(autostart_points_to(&v, "c:\\apps\\whatchanged.EXE"));
    assert!(!autostart_points_to(&v, "C:\\Other\\WhatChanged.exe"));
    assert_eq!(registered_exe("  /usr/bin/wc --minimized "), "/usr/bin/wc");
    assert_eq!(registered_exe("\"unterminated"), "\"unterminated");
    assert_eq!(registered_exe(""), "");
}

#[test]
fn autostart_registry_check() {
    let v = registry_run_value("C:\\New\\app.exe");
    assert!(registry_autostart_enabled(Some(&v), Some("c:\\new\\APP.exe")));
    assert!(!registry_autostart_enabled(Some("\"C:\\Old\\app.exe\" --minimized"), Some("C:\\New\\app.exe")));
    assert!(registry_autostart_enabled(Some(&v), None));
    assert!(!registry_autostart_enabled(None, Some("C:\\New\\app.exe")));
    assert!(!registry_autostart_enabled(None, None));
}

#[test]
fn autostart_desktop_entry() {
    let e = desktop_entry("/opt/wc/whatchanged");
    assert_eq!(
        e,
        "[Desktop Entry]\nType=Application\nName=What Changed?\nExec=/opt/wc/whatchanged --minimized\nHidden=false\nNoDisplay=false\nX-GNOME-Autostart-enabled=true\nComment=Monitor file system changes\n"
    );
    assert_eq!(desktop_file_name(), "WhatChanged.desktop");
}
