use whatchanged::security::{PathFacts, PathValidator, ThreatSeverity};

fn missing() -> PathFacts {
    PathFacts {
        exists: false,
        is_dir: false,
        symlink: Err("not found".to_string()),
        canonical: Err("not found".to_string()),
        depth: 0,
        canonical_file_name: None,
        windows: false,
    }
}

fn existing_dir(canonical: &str, depth: usize) -> PathFacts {
    PathFacts {
        exists: true,
        is_dir: true,
        symlink: Ok(false),
        canonical: Ok(canonical.to_string()),
        depth,
        canonical_file_name: canonical.rsplit('/').next().map(|s| s.to_string()),
        windows: false,
    }
}

#[test]
fn test_empty_path() {
    assert!(PathValidator::validate_directory("", &missing()).is_err());
    assert!(PathValidator::validate_directory("  ", &missing()).is_err());
}

#[test]
fn test_path_traversal() {
    assert!(PathValidator::validate_directory("C:\\Users\\..\\Windows", &missing()).is_err());
    assert!(PathValidator::validate_directory("/home/../../../etc", &missing()).is_err());
    let here = existing_dir("/home/u", 3);
    let traversal = Err("Path traversal detected (.. is not allowed)".to_string());
    assert_eq!(PathValidator::validate_directory("/home/u/../u", &here), traversal);
    assert_eq!(PathValidator::validate_directory("../", &here), traversal);
    assert_eq!(PathValidator::validate_directory("..\\u", &here), traversal);
    assert_eq!(PathValidator::validate_file_path("../x", &here), traversal);
    assert_eq!(PathValidator::validate_directory("/home/u", &here), Ok(()));
}

#[test]
fn test_null_bytes() {
    assert!(PathValidator::validate_directory("C:\\Users\0\\test", &missing()).is_err());
    assert_eq!(
        PathValidator::validate_directory("/home/u\0x", &existing_dir("/home/u", 3)),
        Err("Null bytes in path are not allowed".to_string())
    );
}

#[test]
fn test_network_paths() {
    assert!(PathValidator::validate_directory("\\\\server\\share", &missing()).is_err());
    assert!(PathValidator::validate_directory("//server/share", &missing()).is_err());
    assert_eq!(
        PathValidator::validate_directory("//server/share", &existing_dir("/server/share", 3)),
        Err("Network paths (UNC/SMB) are not allowed".to_string())
    );
}

#[test]
fn test_suspicious_double_extension() {
    let r = PathValidator::analyze_suspicious_path("C:\\downloads\\document.exe.bat");
    assert!(r.is_suspicious);
    assert_eq!(r.severity, ThreatSeverity::High);
}

#[test]
fn test_suspicious_scr_extension() {
    let r = PathValidator::analyze_suspicious_path("C:\\Users\\test\\screensaver.scr");
    assert!(r.is_suspicious);
    assert_eq!(r.severity, ThreatSeverity::Medium);
}

#[test]
fn test_suspicious_startup_path() {
    let r = PathValidator::analyze_suspicious_path(
        "C:\\Users\\test\\AppData\\Roaming\\Microsoft\\Windows\\Start Menu\\Programs\\Startup\\payload.bat",
    );
    assert!(r.is_suspicious);
    assert_eq!(r.severity, ThreatSeverity::High);
}

#[test]
fn test_clean_path_not_suspicious() {
    let r = PathValidator::analyze_suspicious_path("C:\\Users\\test\\Documents\\report.pdf");
    assert!(!r.is_suspicious);
}

#[test]
fn missing_directory_is_reported() {
    let r = PathValidator::validate_directory("/home/user/projects", &missing());
    assert!(r.is_err());
}

#[test]
fn existing_user_directory_is_accepted() {
    let facts = existing_dir("/home/user/projects", 3);
    assert_eq!(PathValidator::validate_directory("/home/user/projects", &facts), Ok(()));
}

#[test]
fn system_directory_is_refused() {
    let facts = existing_dir("/etc", 1);
    assert!(PathValidator::validate_directory("/etc", &facts).is_err());
}

#[test]
fn sanitize_filename_drops_controls() {
    assert_eq!(PathValidator::sanitize_filename("a\u{7}b\nc.txt"), "abc.txt");
    let long: String = std::iter::repeat('x').take(300).collect();
    assert_eq!(PathValidator::sanitize_filename(&long).chars().count(), 255);
}

#[test]
fn suspicious_path_flag_matches_analysis() {
    assert!(PathValidator::is_suspicious_path("C:\\downloads\\document.exe.bat"));
    assert!(!PathValidator::is_suspicious_path("/home/u/notes.txt"));
}
