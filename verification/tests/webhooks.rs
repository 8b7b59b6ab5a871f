use whatchanged::dispatch::{
    batch_for_event, cap_changes, change_line_exec, daily_summary_message, empty_report,
    enabled_endpoints, event_types_of, plan_event_messages, record_outcome, ChangeItem,
    EndpointOutcome,
};
use whatchanged::records::{ChangeRecord, ChangeStats, WebhookEndpoint, WebhookEndpointSafe};
use whatchanged::webhook::{
    active_webhooks_for_event, compute_signature, detail_text_raw, endpoint_wants_event,
    event_header_exec, is_ip_disallowed, is_telegram_url, join_exec, normalize_webhook_events,
    summarize_change_lines, verify_signature, IpAddress, MAX_CHANGES_PER_WEBHOOK,
};

fn item(ct: Option<&str>, fp: Option<&str>) -> ChangeItem {
    ChangeItem { change_type: ct.map(|s| s.to_string()), file_path: fp.map(|s| s.to_string()) }
}

fn endpoint(id: i64, events: &str, enabled: bool) -> WebhookEndpoint {
    WebhookEndpoint {
        id,
        name: format!("ep{}", id),
        url: "https://example.com/hook".to_string(),
        events: events.to_string(),
        secret: None,
        enabled,
        last_triggered: None,
        last_status: None,
        created_at: "2024-01-01".to_string(),
    }
}

fn change(ct: &str, path: &str, name: &str) -> ChangeRecord {
    ChangeRecord {
        id: 1,
        file_id: 1,
        file_path: path.to_string(),
        filename: name.to_string(),
        change_type: ct.to_string(),
        detected_at: "2024-05-01T10:00:00".to_string(),
        previous_path: None,
        new_path: None,
    }
}

#[test]
fn signature_matches_hmac_sha256_reference() {
    let sig = compute_signature("key", "The quick brown fox jumps over the lazy dog");
    assert_eq!(sig, "f7bc83f430538424b13298e6aa6fb143ef4d59a14946175997479dbc2d1a3cd8");
}

#[test]
fn signature_round_trip_and_rejection() {
    let sig = compute_signature("s3cret", "{\"a\":1}");
    assert!(verify_signature("s3cret", "{\"a\":1}", &sig));
    assert!(verify_signature("s3cret", "{\"a\":1}", &sig.to_uppercase()));
    assert!(!verify_signature("other", "{\"a\":1}", &sig));
    assert!(!verify_signature("s3cret", "{\"a\":2}", &sig));
    assert!(!verify_signature("s3cret", "{\"a\":1}", "zz"));
}

#[test]
fn private_addresses_are_disallowed() {
    assert!(is_ip_disallowed(Some(IpAddress::V4([127, 0, 0, 1]))));
    assert!(is_ip_disallowed(Some(IpAddress::V4([10, 1, 2, 3]))));
    assert!(is_ip_disallowed(Some(IpAddress::V4([172, 20, 0, 1]))));
    assert!(is_ip_disallowed(Some(IpAddress::V4([192, 168, 1, 1]))));
    assert!(is_ip_disallowed(Some(IpAddress::V4([169, 254, 0, 1]))));
    assert!(is_ip_disallowed(Some(IpAddress::V4([0, 0, 0, 0]))));
    assert!(!is_ip_disallowed(Some(IpAddress::V4([8, 8, 8, 8]))));
    assert!(!is_ip_disallowed(Some(IpAddress::V4([172, 32, 0, 1]))));
    assert!(is_ip_disallowed(Some(IpAddress::V6([0, 0, 0, 0, 0, 0, 0, 1]))));
    assert!(is_ip_disallowed(Some(IpAddress::V6([0, 0, 0, 0, 0, 0xffff, 0x7f00, 0x0001]))));
    assert!(!is_ip_disallowed(Some(IpAddress::V6([0x2001, 0xdb8, 0, 0, 0, 0, 0, 1]))));
    assert!(is_ip_disallowed(Some(IpAddress::V6([0xfe80, 0, 0, 0, 0, 0, 0, 1]))));
    assert!(is_ip_disallowed(Some(IpAddress::V6([0xfebf, 0, 0, 0, 0, 0, 0, 1]))));
    assert!(!is_ip_disallowed(Some(IpAddress::V6([0xfec0, 0, 0, 0, 0, 0, 0, 1]))));
    assert!(is_ip_disallowed(Some(IpAddress::V6([0xfd00, 0, 0, 0, 0, 0, 0, 1]))));
    assert!(is_ip_disallowed(Some(IpAddress::V6([0xfc00, 0, 0, 0, 0, 0, 0, 1]))));
    assert!(!is_ip_disallowed(Some(IpAddress::V6([0xfe00, 0, 0, 0, 0, 0, 0, 1]))));
    assert!(!is_ip_disallowed(None));
}

#[test]
fn event_lists_are_normalised() {
    assert_eq!(normalize_webhook_events(None), Ok("ALL".to_string()));
    assert_eq!(normalize_webhook_events(Some("new, moved")), Ok("NEW, MOVED".to_string()));
    assert_eq!(
        normalize_webhook_events(Some("new,bogus")),
        Err("Invalid event type 'BOGUS'. Valid types: ALL, NEW, MODIFIED, DELETED, MOVED".to_string())
    );
}

#[test]
fn endpoints_are_selected_by_event() {
    assert!(endpoint_wants_event(&endpoint(1, "new,MODIFIED", true), "modified"));
    assert!(!endpoint_wants_event(&endpoint(1, "new", true), "DELETED"));
    assert!(!endpoint_wants_event(&endpoint(1, "ALL", false), "NEW"));
    assert!(endpoint_wants_event(&endpoint(1, "all", true), "MOVED"));
    let all = vec![endpoint(1, "NEW", true), endpoint(2, "ALL", true), endpoint(3, "NEW", false), endpoint(4, "DELETED", true)];
    let picked: Vec<i64> = active_webhooks_for_event(all, "new").iter().map(|e| e.id).collect();
    assert_eq!(picked, vec![1, 2]);
}

#[test]
fn safe_endpoint_hides_secret() {
    let mut ep = endpoint(9, "ALL", true);
    ep.secret = Some("wcenc:abc".to_string());
    let safe = WebhookEndpointSafe::from(ep);
    assert!(safe.has_secret);
    assert_eq!(safe.id, 9);
}

#[test]
fn telegram_urls_are_recognised() {
    assert!(is_telegram_url("https://API.Telegram.org/bot123/sendMessage?chat_id=1"));
    assert!(!is_telegram_url("https://discord.com/api/webhooks/1"));
}

#[test]
fn summaries_cut_after_five_lines() {
    let few: Vec<String> = (1..=3).map(|i| format!("l{}", i)).collect();
    assert_eq!(summarize_change_lines(&few), "l1\nl2\nl3");
    let many: Vec<String> = (1..=7).map(|i| format!("l{}", i)).collect();
    assert_eq!(summarize_change_lines(&many), "l1\nl2\nl3\nl4\n\n…and 3 more");
    assert_eq!(detail_text_raw(&[]), "No details available.");
    assert_eq!(join_exec(&["a".to_string(), "b".to_string()], ", "), "a, b");
}

#[test]
fn headers_count_changes() {
    assert_eq!(event_header_exec("NEW", 1, false), "🔔 **What Changed?** — NEW 1 change");
    assert_eq!(event_header_exec("NEW", 2, false), "🔔 **What Changed?** — NEW 2 changes");
    assert_eq!(event_header_exec("NEW", 2, true), "🔔 **What Changed?** — NEW 2");
}

#[test]
fn changes_are_capped() {
    let many: Vec<ChangeItem> = (0..150).map(|_| item(Some("NEW"), Some("/a"))).collect();
    assert_eq!(cap_changes(many).len(), MAX_CHANGES_PER_WEBHOOK);
    let few: Vec<ChangeItem> = (0..3).map(|_| item(Some("NEW"), Some("/a"))).collect();
    assert_eq!(cap_changes(few).len(), 3);
}

#[test]
fn event_types_in_first_seen_order() {
    let cs = vec![
        item(Some("modified"), Some("/a")),
        item(None, Some("/b")),
        item(Some("NEW"), Some("/c")),
        item(Some("Modified"), Some("/d")),
    ];
    assert_eq!(event_types_of(&cs), vec!["MODIFIED".to_string(), "NEW".to_string()]);
    let batch = batch_for_event(&cs, "MODIFIED");
    let paths: Vec<String> = batch.iter().map(|c| c.file_path.clone().unwrap()).collect();
    assert_eq!(paths, vec!["/a".to_string(), "/d".to_string()]);
}

#[test]
fn change_lines_name_the_file() {
    assert_eq!(change_line_exec(&item(Some("NEW"), Some("/home/u/report.txt"))), "🟢 `report.txt` — NEW");
    assert_eq!(change_line_exec(&item(None, None)), "⚪ `?` — ?");
    assert_eq!(change_line_exec(&item(Some("new"), Some("/"))), "⚪ `/` — new");
}

#[test]
fn event_messages_are_planned() {
    let cs = vec![item(Some("NEW"), Some("/a/x.txt")), item(Some("DELETED"), Some("/a/y.txt")), item(Some("NEW"), Some("/b/z.txt"))];
    let plan = plan_event_messages(&cs);
    assert_eq!(plan.len(), 2);
    assert_eq!(plan[0].event, "NEW");
    assert_eq!(plan[0].changes.len(), 2);
    assert_eq!(plan[0].chat_text, "🔔 **What Changed?** — NEW 2 changes\n\n🟢 `x.txt` — NEW\n🟢 `z.txt` — NEW");
    assert_eq!(plan[0].telegram_text, "🔔 **What Changed?** — NEW 2\n\n🟢 `x.txt` — NEW\n🟢 `z.txt` — NEW");
    assert_eq!(plan[1].event, "DELETED");
    assert_eq!(plan[1].chat_text, "🔔 **What Changed?** — DELETED 1 change\n\n🔴 `y.txt` — DELETED");
}

#[test]
fn outcomes_are_tallied() {
    let mut r = empty_report();
    record_outcome(&mut r, "hook", EndpointOutcome::Responded(204, String::new()), false);
    record_outcome(&mut r, "hook", EndpointOutcome::DnsBlocked, false);
    record_outcome(&mut r, "hook", EndpointOutcome::DnsFailed("no such host".to_string()), false);
    record_outcome(&mut r, "hook", EndpointOutcome::DecryptFailed, false);
    record_outcome(&mut r, "hook", EndpointOutcome::Responded(500, "oops".to_string()), false);
    record_outcome(&mut r, "hook", EndpointOutcome::SendFailed("timed out".to_string()), false);
    assert_eq!(r.fired, 1);
    assert_eq!(r.failed, 5);
    assert_eq!(
        r.errors,
        vec![
            "hook: blocked (DNS rebinding detected)".to_string(),
            "hook: DNS resolution failed — no such host".to_string(),
            "hook: decrypt failed".to_string(),
            "hook: returned status 500 body=oops".to_string(),
            "hook: timed out".to_string(),
        ]
    );
}

#[test]
fn daily_outcomes_use_short_messages_and_cut_bodies() {
    let mut r = empty_report();
    record_outcome(&mut r, "d", EndpointOutcome::DnsBlocked, true);
    record_outcome(&mut r, "d", EndpointOutcome::DnsFailed("x".to_string()), true);
    let long = "é".repeat(300);
    record_outcome(&mut r, "d", EndpointOutcome::Responded(404, long), true);
    assert_eq!(r.errors[0], "d: blocked (DNS rebinding)");
    assert_eq!(r.errors[1], "d: DNS failed — x");
    assert_eq!(r.errors[2], format!("d: status 404 body={}", "é".repeat(250)));
}

#[test]
fn daily_summary_text() {
    let none = ChangeStats { new_count: 0, modified_count: 0, deleted_count: 0, moved_count: 0 };
    assert_eq!(daily_summary_message(&none, &vec![], "May 01, 2024"), None);
    let stats = ChangeStats { new_count: 2, modified_count: 0, deleted_count: 1, moved_count: 0 };
    let cs = vec![change("NEW", "/a/one.txt", "one.txt"), change("DELETED", "/", "root")];
    let msg = daily_summary_message(&stats, &cs, "May 01, 2024").unwrap();
    assert_eq!(
        msg,
        "📊 **What Changed? — Daily Summary**\nMay 01, 2024\n\n🟢 2 new  •  🔴 1 deleted\n\n🟢 `one.txt`\n🔴 `root`"
    );
    let many: Vec<ChangeRecord> = (0..12).map(|i| change("MOVED", &format!("/m/f{}", i), "f")).collect();
    let msg = daily_summary_message(&stats, &many, "d").unwrap();
    assert!(msg.ends_with("🟡 `f9`\n\n\n\n…and 2 more"));
}

#[test]
fn daily_summary_goes_to_enabled_endpoints() {
    let eps = vec![endpoint(1, "ALL", true), endpoint(2, "ALL", false), endpoint(3, "NEW", true)];
    let ids: Vec<i64> = enabled_endpoints(eps).iter().map(|e| e.id).collect();
    assert_eq!(ids, vec![1, 3]);
}
