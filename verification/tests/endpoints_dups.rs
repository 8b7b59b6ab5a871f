use whatchanged::commands::{
    check_content_access, export_format, no_update_info, scan_in_progress_error,
    tag_version, update_info, ExportFormat,
};
use whatchanged::crypto::CryptoManager;
use whatchanged::duplicates::{duplicate_totals, group_by_key, repeated_only, size_keys, stored_wasted_bytes};
use whatchanged::endpoints::{
    check_changes_payload, check_webhook_url, check_webhook_url_text, dns_check, empty_direct_report,
    dns_target, ping_result, ping_text, prepare_endpoint, query_value, record_direct_outcome,
    telegram_chat_id, DirectOutcome, PingOutcome,
};
use whatchanged::records::{DuplicateGroupRecord, FileRecord, MonitoredFolder, WebhookEndpoint};
use whatchanged::webhook::IpAddress;

fn file(size: i64) -> FileRecord {
    FileRecord {
        id: 1,
        path: String::new(),
        filename: String::new(),
        extension: None,
        size,
        mtime: String::new(),
        ctime: String::new(),
        hash: None,
        first_seen: String::new(),
        last_seen: String::new(),
        is_deleted: false,
    }
}

fn ep() -> WebhookEndpoint {
    WebhookEndpoint {
        id: 5,
        name: "ci".to_string(),
        url: "https://hooks.example.com/x".to_string(),
        events: "ALL".to_string(),
        secret: None,
        enabled: true,
        last_triggered: None,
        last_status: None,
        created_at: String::new(),
    }
}

#[test]
fn webhook_url_text_checks() {
    assert_eq!(check_webhook_url_text("https://hooks.example.com/a"), Ok("hooks.example.com".to_string()));
    assert_eq!(check_webhook_url_text("ftp://example.com/"), Err("Only HTTP and HTTPS URLs are allowed".to_string()));
    assert_eq!(
        check_webhook_url_text("https://user:pw@example.com/"),
        Err("URLs with embedded credentials are not allowed".to_string())
    );
    assert!(check_webhook_url_text("not a url").unwrap_err().starts_with("Invalid URL: "));
    let long = format!("https://example.com/{}", "a".repeat(2100));
    assert_eq!(check_webhook_url_text(&long), Err("URL too long (max 2048 characters)".to_string()));
}

#[test]
fn webhook_url_address_checks() {
    assert_eq!(check_webhook_url("https://example.com/", None, Ok(true)), Ok(()));
    assert_eq!(
        check_webhook_url("http://127.0.0.1/", Some(IpAddress::V4([127, 0, 0, 1])), Ok(true)),
        Err("Webhook URLs cannot target localhost, private, or link-local addresses".to_string())
    );
    assert_eq!(
        check_webhook_url("https://example.com/", None, Ok(false)),
        Err("Webhook hostname resolves to a private/loopback address (DNS rebinding detected)".to_string())
    );
    assert_eq!(
        check_webhook_url("https://example.com/", None, Err("timeout".to_string())),
        Err("Cannot resolve webhook hostname: timeout".to_string())
    );
}

#[test]
fn resolution_checks() {
    assert_eq!(dns_check(Ok(vec![Some(IpAddress::V4([93, 184, 216, 34]))])), Ok(true));
    assert_eq!(dns_check(Ok(vec![None, Some(IpAddress::V4([10, 0, 0, 1]))])), Ok(false));
    assert_eq!(dns_check(Err("no such host".to_string())), Err("Cannot resolve hostname: no such host".to_string()));
}

#[test]
fn telegram_chat_ids() {
    assert_eq!(telegram_chat_id("https://api.telegram.org/bot1/sendMessage?chat_id=-100%2042&x=1"), "-100 42");
    assert_eq!(telegram_chat_id("https://api.telegram.org/bot1/sendMessage"), "");
    assert_eq!(query_value("https://h/p?a=1&b=2&a=3", "a"), Some("1".to_string()));
    assert_eq!(query_value("https://h/p?a=1&b=x+y", "b"), Some("x y".to_string()));
    assert_eq!(query_value("https://h/p?a=1", "c"), None);
    assert_eq!(query_value("not a url", "a"), None);
    assert_eq!(telegram_chat_id("::"), "");
}

#[test]
fn endpoints_are_prepared() {
    let crypto = CryptoManager::from_key(&[3u8; 32]).unwrap();
    let (ev, enc) = prepare_endpoint(&crypto, Some("new"), Some("s3")).unwrap();
    assert_eq!(ev, "NEW");
    assert_eq!(crypto.decrypt(&enc.unwrap()).unwrap(), "s3");
    let (ev, enc) = prepare_endpoint(&crypto, None, Some("")).unwrap();
    assert_eq!(ev, "ALL");
    assert!(enc.is_none());
    assert!(prepare_endpoint(&crypto, Some("x"), None).is_err());
}

#[test]
fn direct_fires_are_reported() {
    assert_eq!(check_changes_payload("[]"), Ok(()));
    assert_eq!(check_changes_payload(&"x".repeat(1_000_001)), Err("Changes payload too large (max 1MB)".to_string()));
    let mut r = empty_direct_report();
    record_direct_outcome(&mut r, &ep(), DirectOutcome::Status(200));
    record_direct_outcome(&mut r, &ep(), DirectOutcome::Status(302));
    record_direct_outcome(&mut r, &ep(), DirectOutcome::DnsBlocked);
    record_direct_outcome(&mut r, &ep(), DirectOutcome::DecryptFailed("bad".to_string()));
    record_direct_outcome(&mut r, &ep(), DirectOutcome::SendFailed("refused".to_string()));
    record_direct_outcome(&mut r, &ep(), DirectOutcome::DnsFailed("nx".to_string()));
    assert_eq!(r.triggered_ids, vec![5]);
    let reasons: Vec<String> = r.failures.iter().map(|f| f.reason.clone()).collect();
    assert_eq!(
        reasons,
        vec![
            "HTTP status 302".to_string(),
            "DNS rebinding detected".to_string(),
            "Secret decryption failed: bad".to_string(),
            "Request failed: refused".to_string(),
            "DNS resolution failed: nx".to_string(),
        ]
    );
    assert_eq!(r.failures[0].endpoint_url, "https://hooks.example.com/x");
}

#[test]
fn endpoint_tests() {
    assert_eq!(ping_result(PingOutcome::DnsStopped), Ok(0));
    assert_eq!(ping_result(PingOutcome::Status(204)), Ok(204));
    assert_eq!(ping_result(PingOutcome::DecryptFailed("e".to_string())), Err("Failed to decrypt webhook secret: e".to_string()));
    assert_eq!(ping_result(PingOutcome::SendFailed("t".to_string())), Err("Webhook test failed: t".to_string()));
    assert_eq!(ping_text(), "🧪 What Changed? webhook test ping");
}

#[test]
fn grouping_by_key() {
    let keys: Vec<String> = ["a", "b", "a", "c", "b", "a"].iter().map(|s| s.to_string()).collect();
    let g = group_by_key(&keys);
    assert_eq!(g, vec![vec![0, 2, 5], vec![1, 4], vec![3]]);
    assert_eq!(repeated_only(g), vec![vec![0, 2, 5], vec![1, 4]]);
    assert!(group_by_key(&vec![]).is_empty());
}

#[test]
fn size_keys_skip_small_files() {
    let files = vec![file(2048), file(10), file(4096), file(2048)];
    let (keys, idx) = size_keys(&files);
    assert_eq!(keys, vec!["2048".to_string(), "4096".to_string(), "2048".to_string()]);
    assert_eq!(idx, vec![0, 2, 3]);
}

#[test]
fn wasted_space() {
    let r = duplicate_totals(&vec![(2048, 3), (100, 2)]);
    assert_eq!(r.groups_found, 2);
    assert_eq!(r.wasted_bytes, 2 * 2048 + 100);
    let stored = vec![DuplicateGroupRecord {
        id: 1,
        hash: "h".to_string(),
        file_size: 10,
        created_at: String::new(),
        file_paths: vec![],
        file_count: 4,
    }];
    assert_eq!(stored_wasted_bytes(&stored), 30);
}

#[test]
fn command_decisions() {
    assert_eq!(export_format("json"), Ok(ExportFormat::Json));
    assert_eq!(export_format("csv"), Ok(ExportFormat::Csv));
    assert_eq!(export_format("xml"), Err("Unknown format: xml".to_string()));
    let folders = vec![MonitoredFolder { id: 1, path: "/home/u/Docs".to_string(), enabled: true, added_at: String::new() }];
    assert_eq!(check_content_access(&folders, "/home/u/Docs/a.txt"), Ok(()));
    assert_eq!(
        check_content_access(&folders, "/home/u/Other/a.txt"),
        Err("File is not within a monitored directory".to_string())
    );
    assert_eq!(scan_in_progress_error(), "A scan is already in progress. Please wait for it to complete.");
}

#[test]
fn update_checks() {
    assert_eq!(tag_version("vv1.2.0"), "1.2.0");
    let info = update_info("0.1.0", "v0.2.0", "https://x/rel", "notes");
    assert!(info.has_update);
    assert_eq!(info.latest_version, "0.2.0");
    let same = update_info("0.1.0", "0.1.0", "", "");
    assert!(!same.has_update);
    let none = no_update_info("0.1.0");
    assert!(!none.has_update);
    assert_eq!(none.current_version, "0.1.0");
}

#[test]
fn dns_targets() {
    assert_eq!(dns_target("https://example.com/x"), Ok(("example.com".to_string(), 443)));
    assert_eq!(dns_target("http://example.com:8080/x"), Ok(("example.com".to_string(), 8080)));
    assert_eq!(dns_target("http://example.com/"), Ok(("example.com".to_string(), 80)));
    assert!(dns_target("nope").unwrap_err().starts_with("Invalid URL: "));
    assert_eq!(dns_target("mailto:a@b.c"), Err("No hostname in URL".to_string()));
}
