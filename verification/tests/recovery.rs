use whatchanged::recency::{latest_first, text_less};
use whatchanged::records::FileRecord;
use whatchanged::recycle::{
    check_trash_filename, info_file_path, is_known_deleted, listed_info_path, name_search_accepts_exec,
    paired_file_name, parse_trashinfo, trash_entry, MAX_BIN_ENTRIES,
};
use whatchanged::snapshots::{
    check_download_integrity, decompress_with_limit, snapshot_text, check_file_size, check_integrity, check_quota,
    content_hash, depth_allowed, prepare_snapshot, should_snapshot_with, snapshot_extensions,
    snapshot_file_name, snapshot_skips_dir, validate_restore_path, SnapshotPrep,
};

fn info_bytes(path: &str) -> Vec<u8> {
    let mut v = vec![0u8; 24];
    for u in path.encode_utf16() {
        v.extend_from_slice(&u.to_le_bytes());
    }
    v.extend_from_slice(&[0, 0, 0x41, 0]);
    v
}

fn record(path: &str, deleted: bool) -> FileRecord {
    FileRecord {
        id: 1,
        path: path.to_string(),
        filename: String::new(),
        extension: None,
        size: 0,
        mtime: String::new(),
        ctime: String::new(),
        hash: None,
        first_seen: String::new(),
        last_seen: String::new(),
        is_deleted: deleted,
    }
}

#[test]
fn recycle_info_paths_are_decoded() {
    let b = info_bytes("C:\\Users\\me\\naïve 😀.txt");
    assert_eq!(info_file_path(&b), "C:\\Users\\me\\naïve 😀.txt");
    assert_eq!(listed_info_path(&b[..10]), None);
    assert_eq!(listed_info_path(&vec![0u8; 26]), None);
    let mut lone = vec![0u8; 24];
    lone.extend_from_slice(&[0x00, 0xD8, 0x41, 0x00]);
    assert_eq!(info_file_path(&lone), "\u{FFFD}A");
    let mut odd = info_bytes("ab");
    odd.truncate(24 + 4 + 1);
    assert_eq!(info_file_path(&odd), "ab");
}

#[test]
fn paired_bin_files() {
    assert_eq!(paired_file_name("$IABC123.txt", "$R"), "$RABC123.txt");
    assert!(name_search_accepts_exec(0, 99, "C:/a/b.txt", "b.txt"));
    assert!(!name_search_accepts_exec(0, 99, "C:\\a\\b.txt", "b.txt"));
    assert!(name_search_accepts_exec(10, 10, "C:/a/b.txt", "b.txt"));
    assert!(!name_search_accepts_exec(10, 11, "C:/a/b.txt", "b.txt"));
    assert!(!name_search_accepts_exec(0, 1, "C:/a/c.txt", "b.txt"));
}

#[test]
fn trashinfo_fields() {
    let info = "[Trash Info]\nPath=/home/u/My%20File.txt\nDeletionDate=2024-05-01T10:00:00\n";
    assert_eq!(
        parse_trashinfo(info),
        ("/home/u/My%20File.txt".to_string(), "2024-05-01T10:00:00".to_string())
    );
    let e = trash_entry(info).unwrap();
    assert_eq!(e.original_path, "/home/u/My File.txt");
    assert_eq!(e.filename, "My File.txt");
    assert_eq!(e.deleted_at, "2024-05-01T10:00:00");
    assert!(trash_entry("[Trash Info]\nDeletionDate=x\n").is_none());
    let bad = trash_entry("Path=%FF%FE\n").unwrap();
    assert_eq!(bad.original_path, "");
    assert_eq!(bad.filename, "unknown");
}

#[test]
fn trash_names_cannot_traverse() {
    assert_eq!(check_trash_filename("ok.txt"), Ok(()));
    assert!(check_trash_filename("../x").is_err());
    assert!(check_trash_filename("a\\b").is_err());
    assert_eq!(check_trash_filename("a..b"), Err("Invalid filename: path traversal detected".to_string()));
}

#[test]
fn known_deleted_files_last_record_wins() {
    let known = vec![record("/a", true), record("/b", false), record("/a", false)];
    assert!(!is_known_deleted(&known, "/a"));
    assert!(!is_known_deleted(&known, "/c"));
    assert!(is_known_deleted(&vec![record("/a", true)], "/a"));
}

#[test]
fn snapshot_extension_settings() {
    let defaults = snapshot_extensions(&None);
    assert_eq!(defaults.len(), 40);
    assert!(defaults.contains(&".rs".to_string()));
    let custom = snapshot_extensions(&Some(" .TXT, md ,".to_string()));
    assert_eq!(custom, vec![".txt".to_string(), "md".to_string(), "".to_string()]);
}

#[test]
fn snapshot_eligibility() {
    let exts = snapshot_extensions(&None);
    assert!(should_snapshot_with("/p/Main.RS", 100, 102400, &exts));
    assert!(!should_snapshot_with("/p/main.rs", 0, 102400, &exts));
    assert!(!should_snapshot_with("/p/main.rs", 102401, 102400, &exts));
    assert!(!should_snapshot_with("/p/photo.jpg", 100, 102400, &exts));
    assert!(!should_snapshot_with("/p/.env", 100, 102400, &exts));
    assert!(should_snapshot_with("/p/README", 5, 100, &vec!["".to_string()]));
}

#[test]
fn snapshot_walk_rules() {
    assert!(snapshot_skips_dir(".config"));
    assert!(snapshot_skips_dir("node_modules"));
    assert!(!snapshot_skips_dir("src"));
    assert!(depth_allowed(9));
    assert!(!depth_allowed(10));
}

#[test]
fn snapshot_limits() {
    assert_eq!(check_quota(9999, 0), Ok(()));
    assert_eq!(
        check_quota(10000, 0),
        Err("Snapshot limit reached (10000/10000). Run cleanup or increase retention.".to_string())
    );
    assert_eq!(
        check_quota(5, 600 * 1024 * 1024),
        Err("Snapshot disk quota reached (600/500 MB). Run cleanup or increase retention.".to_string())
    );
    assert_eq!(check_file_size(10 * 1024 * 1024), Ok(()));
    assert_eq!(
        check_file_size(10 * 1024 * 1024 + 1),
        Err("File too large for snapshot (10485761 bytes, max 10MB)".to_string())
    );
    let data: Vec<u8> = b"hello, snapshot ".iter().cycle().take(800).cloned().collect();
    let packed = zstd::encode_all(&data[..], 1).unwrap();
    assert_eq!(decompress_with_limit(&packed, 800), Ok(data.clone()));
    assert_eq!(decompress_with_limit(&packed, 10_000), Ok(data.clone()));
    assert_eq!(
        decompress_with_limit(&packed, 799),
        Err("Decompressed size exceeds 799 byte limit (possible decompression bomb)".to_string())
    );
    assert!(decompress_with_limit(b"not zstd at all", 100).unwrap_err().starts_with("Decompression failed: "));
    let truncated = &packed[..packed.len() - 3];
    assert!(decompress_with_limit(truncated, 10_000).is_err());
    assert_eq!(snapshot_text(&packed), Ok(String::from_utf8(data).unwrap()));
    let bad = zstd::encode_all(&[0xffu8, 0xfe][..], 1).unwrap();
    assert!(snapshot_text(&bad).is_err());
}

#[test]
fn snapshot_hashes_and_names() {
    let h = content_hash(b"abc");
    assert_eq!(h, "ba7816bf8f01cfea414140de5dae2223b00361a396177a9cb410ff61f20015ad");
    let name = snapshot_file_name("abc");
    assert_eq!(name, "ba7816bf8f01cfea414140de5dae2223.zst");
}

#[test]
fn snapshots_skip_unchanged_content() {
    let h = content_hash(b"hello");
    match prepare_snapshot(b"hello", Some(&h)).unwrap() {
        SnapshotPrep::Unchanged => {}
        _ => panic!("expected unchanged"),
    }
    match prepare_snapshot(b"hello", Some("other")).unwrap() {
        SnapshotPrep::Ready(hash, compressed) => {
            assert_eq!(hash, h);
            assert_eq!(zstd::decode_all(&compressed[..]).unwrap(), b"hello".to_vec());
        }
        _ => panic!("expected ready"),
    }
}

#[test]
fn prepared_snapshot_decompresses_to_content() {
    let content: Vec<u8> = b"line one\nline two\n".iter().cycle().take(4000).cloned().collect();
    match prepare_snapshot(&content, None).unwrap() {
        SnapshotPrep::Ready(hash, compressed) => {
            assert_eq!(hash, content_hash(&content));
            assert_eq!(decompress_with_limit(&compressed, 4000), Ok(content.clone()));
            assert_eq!(decompress_with_limit(&compressed, 1 << 20), Ok(content.clone()));
            assert_eq!(
                decompress_with_limit(&compressed, 3999),
                Err("Decompressed size exceeds 3999 byte limit (possible decompression bomb)".to_string())
            );
            assert_eq!(snapshot_text(&compressed), Ok(String::from_utf8(content).unwrap()));
        }
        _ => panic!("expected ready"),
    }
    match prepare_snapshot(b"", None).unwrap() {
        SnapshotPrep::Ready(_, compressed) => assert_eq!(decompress_with_limit(&compressed, 0), Ok(Vec::new())),
        _ => panic!("expected ready"),
    }
}

#[test]
fn restored_content_is_checked() {
    let h = content_hash(b"data");
    assert_eq!(check_integrity(Some(&h), b"data"), Ok(()));
    assert_eq!(check_integrity(None, b"anything"), Ok(()));
    let e = check_integrity(Some("deadbeef"), b"data").unwrap_err();
    assert_eq!(
        e,
        format!("Integrity check failed: expected hash deadbeef, got {}. Snapshot may be corrupted or tampered.", h)
    );
    assert_eq!(
        check_download_integrity(Some("x"), b"data"),
        Err("Snapshot integrity check failed — file may be corrupted".to_string())
    );
}

#[test]
fn restore_destinations() {
    assert_eq!(validate_restore_path("/home/u/file.txt"), Ok(()));
    assert_eq!(validate_restore_path("/home/u/../x"), Err("Path traversal detected".to_string()));
    assert_eq!(validate_restore_path("C:\\a\\.."), Err("Path traversal detected".to_string()));
    assert_eq!(
        validate_restore_path("/ETC/passwd"),
        Err("Cannot restore to system directory: /etc".to_string())
    );
    assert_eq!(
        validate_restore_path("C:\\Windows\\System32\\x.dll"),
        Err("Cannot restore to system directory: /windows/system32".to_string())
    );
    assert_eq!(
        validate_restore_path("a/usr/bin/x"),
        Err("Cannot restore to system directory: /usr/bin".to_string())
    );
    assert_eq!(
        validate_restore_path("\\\\?\\C:\\x"),
        Err("Extended-length paths not allowed".to_string())
    );
}

#[test]
fn bin_entries_latest_first() {
    let keys: Vec<String> = ["2024-01-02T10:00", "2024-01-03T09:00", "2024-01-02T10:00", "2024-01-01T23:59", ""]
        .iter()
        .map(|s| s.to_string())
        .collect();
    assert_eq!(latest_first(&keys, MAX_BIN_ENTRIES), vec![1, 0, 2, 3, 4]);
    assert_eq!(latest_first(&keys, 2), vec![1, 0]);
    let many: Vec<String> = (0..250).map(|i| format!("2024-02-{:03}", i)).collect();
    let order = latest_first(&many, MAX_BIN_ENTRIES);
    assert_eq!(order.len(), 200);
    assert_eq!(order[0], 249);
    assert_eq!(order[199], 50);
    assert!(text_less("abc", "abd") && text_less("ab", "abc") && !text_less("b", "abc") && !text_less("a", "a"));
}

#[test]
fn trash_paths_are_percent_decoded() {
    let e = trash_entry("Path=/t/a%41+b%zz%4%c3%A9%\n").unwrap();
    assert_eq!(e.original_path, "/t/aA+b%zz%4é%");
    assert_eq!(e.filename, "aA+b%zz%4é%");
}
