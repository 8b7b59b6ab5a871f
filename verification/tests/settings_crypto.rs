use whatchanged::crypto::{migration_result, CryptoManager};
use whatchanged::hexcodec::{hex_decode_exec, hex_encode_exec};
use whatchanged::settings::{
    check_readable_setting, compare_versions, is_readable_setting, is_writable_setting,
    log_and_user_error, readable_only, scan_frequency_minutes, setting_i64, setting_on_unless_false,
    setting_true, validate_pattern_type, validate_report_date, validate_search_query, validate_setting,
    validate_snapshot_destination,
};

fn key() -> Vec<u8> {
    (0u8..32).collect()
}

#[test]
fn test_encrypt_decrypt_round_trip() {
    let crypto = CryptoManager::from_key(&key()).unwrap();
    let plaintext = "my-super-secret-webhook-key-12345";
    let encrypted = crypto.encrypt(plaintext).unwrap();
    assert_ne!(encrypted, plaintext);
    let decrypted = crypto.decrypt(&encrypted).unwrap();
    assert_eq!(decrypted, plaintext);
}

#[test]
fn test_is_encrypted() {
    let crypto = CryptoManager::from_key(&key()).unwrap();
    let encrypted = crypto.encrypt("test").unwrap();
    assert!(encrypted.starts_with("wcenc:"));
    assert!(CryptoManager::is_encrypted(&encrypted));
    assert!(!CryptoManager::is_encrypted("plaintext-secret"));
    assert!(!CryptoManager::is_encrypted("short"));
    assert!(!CryptoManager::is_encrypted("SGVsbG8="));
}

#[test]
fn keys_must_be_32_bytes() {
    match CryptoManager::from_key(&[1u8; 16]) {
        Err(e) => assert_eq!(e, "Encryption key has wrong length (16 bytes, expected 32)"),
        Ok(_) => panic!("short key accepted"),
    }
}

#[test]
fn decryption_errors() {
    let crypto = CryptoManager::from_key(&key()).unwrap();
    assert_eq!(crypto.decrypt("plain"), Err("Data is not encrypted (missing wcenc: prefix)".to_string()));
    assert_eq!(crypto.decrypt("wcenc:AAAA"), Err("Ciphertext too short".to_string()));
    assert!(crypto.decrypt("wcenc:!!!").unwrap_err().starts_with("Invalid base64: "));
    let other = CryptoManager::from_key(&[7u8; 32]).unwrap();
    let enc = other.encrypt("x").unwrap();
    assert_eq!(
        crypto.decrypt(&enc),
        Err("Decryption failed (wrong key or corrupted data): aead::Error".to_string())
    );
}

#[test]
fn secrets_migration_encrypts_plaintext_only() {
    let crypto = CryptoManager::from_key(&key()).unwrap();
    let already = crypto.encrypt("old").unwrap();
    let rows = vec![(1i64, "plain-one".to_string()), (2i64, already.clone()), (3i64, "plain-two".to_string())];
    let updates = crypto.migrate_secrets(&rows).unwrap();
    assert_eq!(updates.len(), 2);
    assert_eq!(updates[0].0, 1);
    assert_eq!(updates[1].0, 3);
    assert_eq!(crypto.decrypt(&updates[0].1).unwrap(), "plain-one");
    assert_eq!(crypto.decrypt(&updates[1].1).unwrap(), "plain-two");
    assert!(crypto.migrate_secrets(&vec![(5i64, already)]).unwrap().is_empty());
}

#[test]
fn hex_round_trip() {
    assert_eq!(hex_encode_exec(&[0x00, 0xab, 0xff]), "00abff");
    assert_eq!(hex_decode_exec("00ABff"), Some(vec![0x00, 0xab, 0xff]));
    assert_eq!(hex_decode_exec("abc"), None);
    assert_eq!(hex_decode_exec("zz"), None);
}

#[test]
fn setting_keys() {
    assert!(is_readable_setting("webhook_latest_report"));
    assert!(!is_writable_setting("webhook_latest_report"));
    assert!(is_writable_setting("dark_mode"));
    assert_eq!(check_readable_setting("secret"), Err("Unknown setting".to_string()));
    let all = vec![
        ("dark_mode".to_string(), "true".to_string()),
        ("webhook_secret_migration_done".to_string(), "1".to_string()),
        ("scan_frequency".to_string(), "15".to_string()),
    ];
    let kept: Vec<String> = readable_only(all).into_iter().map(|(k, _)| k).collect();
    assert_eq!(kept, vec!["dark_mode".to_string(), "scan_frequency".to_string()]);
}

#[test]
fn setting_values_are_validated() {
    assert_eq!(validate_setting("nope", "1"), Err("Unknown setting: nope".to_string()));
    assert_eq!(validate_setting("scan_frequency", "15"), Ok(()));
    assert_eq!(validate_setting("scan_frequency", "0"), Err("Frequency must be between 1 and 1440 minutes".to_string()));
    assert_eq!(validate_setting("scan_frequency", "abc"), Err("Must be a positive integer".to_string()));
    assert_eq!(validate_setting("snapshot_max_size", "1023"), Err("Max size must be between 1KB and 10MB".to_string()));
    assert_eq!(validate_setting("snapshot_retention_days", "366"), Err("Retention must be between 1 and 365 days".to_string()));
    assert_eq!(validate_setting("snapshot_extensions", "txt, .rs,py_3"), Ok(()));
    assert_eq!(
        validate_setting("snapshot_extensions", "txt,,rs"),
        Err("Invalid extension: ''. Use comma-separated extensions (e.g., txt,rs,py)".to_string())
    );
    assert_eq!(
        validate_setting("snapshot_extensions", "txt,r-s"),
        Err("Invalid extension: 'r-s'. Use comma-separated extensions (e.g., txt,rs,py)".to_string())
    );
    assert_eq!(validate_setting("dark_mode", "anything"), Ok(()));
}

#[test]
fn stored_setting_reads() {
    assert!(setting_on_unless_false(&None));
    assert!(setting_on_unless_false(&Some("yes".to_string())));
    assert!(!setting_on_unless_false(&Some("false".to_string())));
    assert!(setting_true(&None, true));
    assert!(!setting_true(&Some("1".to_string()), true));
    assert_eq!(scan_frequency_minutes(&Some("30".to_string())), 30);
    assert_eq!(scan_frequency_minutes(&Some("x".to_string())), 15);
    assert_eq!(setting_i64(&Some("-4".to_string()), 30), -4);
    assert_eq!(setting_i64(&None, 30), 30);
}

#[test]
fn command_arguments() {
    assert_eq!(validate_report_date("2024-05-01"), Ok(()));
    assert_eq!(validate_report_date("2024-5-01"), Err("Date must be in YYYY-MM-DD format".to_string()));
    assert_eq!(validate_report_date("2024/05/01"), Err("Date must be in YYYY-MM-DD format".to_string()));
    assert_eq!(validate_report_date("1999-05-01"), Err("Date values out of range".to_string()));
    assert_eq!(validate_report_date("2024-13-01"), Err("Date values out of range".to_string()));
    assert_eq!(validate_report_date("20240-5-01"), Err("Date must be in YYYY-MM-DD format".to_string()));
    assert_eq!(validate_snapshot_destination("/home/u/out.txt"), Ok(()));
    assert_eq!(validate_snapshot_destination("  "), Err("Destination path cannot be empty".to_string()));
    assert_eq!(validate_snapshot_destination("a/../b"), Err("Path traversal detected".to_string()));
    assert_eq!(validate_snapshot_destination("/tmp/$x"), Err("Invalid characters in path".to_string()));
    assert_eq!(validate_snapshot_destination("//srv/share"), Err("Network paths are not allowed".to_string()));
    assert_eq!(validate_snapshot_destination(&"a".repeat(261)), Err("Path too long (max 260 characters)".to_string()));
    assert_eq!(validate_search_query(&"q".repeat(1000)), Ok(()));
    assert!(validate_search_query(&"q".repeat(1001)).is_err());
    assert_eq!(validate_pattern_type("regex"), Ok(()));
    assert_eq!(
        validate_pattern_type("fuzzy"),
        Err("Invalid pattern type 'fuzzy'. Must be one of: glob, regex, contains".to_string())
    );
    assert_eq!(log_and_user_error("command", "disk I/O error"), "Something went wrong. Please try again.");
}

#[test]
fn version_comparison() {
    assert!(compare_versions("1.2.0", "1.1.9"));
    assert!(!compare_versions("1.1.9", "1.2.0"));
    assert!(!compare_versions("1.2", "1.2"));
    assert!(compare_versions("1.2.1", "1.2"));
    assert!(compare_versions("1.x.5", "1.4"));
    assert!(compare_versions("2", "1.9.9"));
    assert!(compare_versions("1.0.1-beta", "1.0.0"));
    assert!(compare_versions("1.0.0-rc2", "1.0.0-rc1"));
    assert!(!compare_versions("1.0.0-rc1", "1.0.0-rc2"));
    assert!(compare_versions("1.0.0", "1.0.0-rc.1"));
    assert!(!compare_versions("1.0.0-rc.1", "1.0.0"));
    assert!(compare_versions("1.0.0-alpha.10", "1.0.0-alpha.9"));
    assert!(compare_versions("1.0.0-alpha.beta", "1.0.0-alpha.1"));
    assert!(compare_versions("1.0.0-alpha.1", "1.0.0-alpha"));
    assert!(!compare_versions("1.0.0+build.5", "1.0.0+build.4"));
    assert!(compare_versions("1.0.0-rc-2", "1.0.0-rc-1"));
}

#[test]
fn encrypted_text_is_padded_base64() {
    let crypto = CryptoManager::from_key(&key()).unwrap();
    for (plain, len) in [("", 6 + 40), ("a", 6 + 40), ("ab", 6 + 40), ("test", 6 + 44)] {
        let enc = crypto.encrypt(plain).unwrap();
        assert_eq!(enc.len(), len, "{}", enc);
        let body = &enc[6..];
        assert!(body.chars().all(|c| c.is_ascii_alphanumeric() || c == '+' || c == '/' || c == '='));
        assert_eq!(crypto.decrypt(&enc).unwrap(), plain);
    }
    assert!(crypto.encrypt("a").unwrap().ends_with('='));
}

#[test]
fn migration_reports_every_failure() {
    let rows = vec![(1i64, "a".to_string()), (2, "b".to_string()), (3, "c".to_string())];
    let all_ok = vec![Ok("wcenc:x".to_string()), Ok("wcenc:y".to_string()), Ok("wcenc:z".to_string())];
    assert_eq!(
        migration_result(&rows, all_ok),
        Ok(vec![(1, "wcenc:x".to_string()), (2, "wcenc:y".to_string()), (3, "wcenc:z".to_string())])
    );
    let some_fail = vec![
        Ok("wcenc:x".to_string()),
        Err("Encryption failed: boom".to_string()),
        Err("Encryption failed: z".to_string()),
    ];
    assert_eq!(
        migration_result(&rows, some_fail),
        Err("Migration failed for 2 secrets: webhook 2: Encryption failed: boom; webhook 3: Encryption failed: z"
            .to_string())
    );
    let crypto = CryptoManager::from_key(&key()).unwrap();
    let enc = crypto.encrypt_with_nonce(&[7u8; 12], "secret").unwrap();
    assert_eq!(enc, crypto.encrypt_with_nonce(&[7u8; 12], "secret").unwrap());
    assert_ne!(enc, crypto.encrypt_with_nonce(&[8u8; 12], "secret").unwrap());
    assert_eq!(crypto.decrypt(&enc).unwrap(), "secret");
}
