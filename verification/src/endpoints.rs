//! Webhook endpoints: which URLs may be registered, what name resolution
//! must show before a request goes out, the Telegram chat of a URL, and
//! the report of firing one request per change.
use vstd::prelude::*;
use crate::crypto::{is_encrypted_spec, sealed_text, well_sealed, CryptoManager};
use crate::records::WebhookEndpoint;
use crate::text::{decimal_int, decimal_u64, owned, push_str, str_eq};
use crate::webhook::{ip_disallowed, is_ip_disallowed, normalize_webhook_events, normalized_events, opt_view, IpAddress};
use vstd::utf8::encode_utf8;

verus! {

// ---------------------------------------------------------------------
// URLs
// ---------------------------------------------------------------------

/// The parts of a URL that the checks read: scheme, user name, whether a
/// password is present, and the host text.
pub struct UrlParts {
    pub scheme: String,
    pub username: String,
    pub has_password: bool,
    pub host: Option<String>,
    pub port: Option<u16>,
}

/// A parsed URL as values: scheme, user name, whether it has a password,
/// host text, and port (given or the scheme's default).
pub type UrlView = (Seq<char>, Seq<char>, bool, Option<Seq<char>>, Option<u16>);

/// What `url::Url::parse` makes of a text: its scheme, user name, whether
/// it has a password, its host text and its port (or the scheme's known
/// default), or the parse error's message.
pub uninterp spec fn url_parsed(s: Seq<char>) -> Result<UrlView, Seq<char>>;

/// The view of the parts.
pub open spec fn parts_view(p: UrlParts) -> UrlView {
    (
        p.scheme@,
        p.username@,
        p.has_password,
        match p.host {
            Some(h) => Some(h@),
            None => None,
        },
        p.port,
    )
}

/// `url::Url::parse`, reading `scheme()`, `username()`, `password()`,
/// `host_str()` and `port_or_known_default()`; the result is named by
/// `url_parsed`.
#[verifier::external_body]
fn parse_url(s: &str) -> (r: Result<UrlParts, String>)
    ensures
        match r {
            Ok(p) => url_parsed(s@) == Ok::<UrlView, Seq<char>>(parts_view(p)),
            Err(e) => url_parsed(s@) == Err::<UrlView, Seq<char>>(e@),
        },
{
    match url::Url::parse(s) {
        Ok(u) => Ok(UrlParts {
            scheme: u.scheme().to_string(),
            username: u.username().to_string(),
            has_password: u.password().is_some(),
            host: match u.host_str() {
                Some(h) => Some(h.to_string()),
                None => None,
            },
            port: u.port_or_known_default(),
        }),
        Err(e) => Err(e.to_string()),
    }
}

/// The checks on a URL's text before any address is looked at: at most
/// 2048 bytes, parseable, `http` or `https`, no credentials, a non-empty
/// host. On success, the host.
pub open spec fn url_text_verdict(url: Seq<char>) -> Result<Seq<char>, Seq<char>> {
    if encode_utf8(url).len() > 2048 {
        Err("URL too long (max 2048 characters)"@)
    } else {
        match url_parsed(url) {
            Err(e) => Err("Invalid URL: "@ + e),
            Ok((scheme, user, has_password, host, _port)) => if scheme != "https"@ && scheme != "http"@ {
                Err("Only HTTP and HTTPS URLs are allowed"@)
            } else if user != ""@ || has_password {
                Err("URLs with embedded credentials are not allowed"@)
            } else {
                match host {
                    None => Err("URL must have a hostname"@),
                    Some(h) => if h.len() == 0 {
                        Err("URL must have a valid hostname"@)
                    } else {
                        Ok(h)
                    },
                }
            },
        }
    }
}

/// Checks the text of a webhook URL; returns its host.
pub fn check_webhook_url_text(url: &str) -> (r: Result<String, String>)
    ensures
        match r {
            Ok(h) => url_text_verdict(url@) == Ok::<Seq<char>, Seq<char>>(h@),
            Err(e) => url_text_verdict(url@) == Err::<Seq<char>, Seq<char>>(e@),
        },
{
    if url.as_bytes().len() > 2048 {
        return Err(owned("URL too long (max 2048 characters)"));
    }
    let p = match parse_url(url) {
        Ok(p) => p,
        Err(e) => {
            let mut m = owned("Invalid URL: ");
            push_str(&mut m, e.as_str());
            return Err(m);
        },
    };
    assert(url_parsed(url@) == Ok::<UrlView, Seq<char>>(parts_view(p)));
    if !str_eq(p.scheme.as_str(), "https") && !str_eq(p.scheme.as_str(), "http") {
        return Err(owned("Only HTTP and HTTPS URLs are allowed"));
    }
    proof {
        reveal_strlit("");
    }
    if !p.username.as_str().is_empty() || p.has_password {
        return Err(owned("URLs with embedded credentials are not allowed"));
    }
    assert(p.username@ == ""@);
    assert(!p.has_password);
    let ghost pv = parts_view(p);
    match p.host {
        None => Err(owned("URL must have a hostname")),
        Some(h) => if h.as_str().is_empty() {
            Err(owned("URL must have a valid hostname"))
        } else {
            assert(pv.3 == Some(h@));
            assert(url_text_verdict(url@) == Ok::<Seq<char>, Seq<char>>(h@));
            Ok(h)
        },
    }
}

/// The verdict on a webhook URL: its text, then its host when that is an
/// address literal, then what its name resolves to.
pub open spec fn url_verdict(
    url: Seq<char>,
    host_ip: Option<IpAddress>,
    dns: Result<bool, Seq<char>>,
) -> Option<Seq<char>> {
    match url_text_verdict(url) {
        Err(e) => Some(e),
        Ok(_) => if host_ip matches Some(a) && ip_disallowed(a) {
            Some("Webhook URLs cannot target localhost, private, or link-local addresses"@)
        } else {
            match dns {
                Ok(true) => None,
                Ok(false) => Some(
                    "Webhook hostname resolves to a private/loopback address (DNS rebinding detected)"@,
                ),
                Err(e) => Some("Cannot resolve webhook hostname: "@ + e),
            }
        },
    }
}

/// The final checks on a webhook URL whose text passed: `host_ip` is the
/// host read as an address (when it is one) and `dns` what the resolution
/// check answered.
pub fn check_webhook_url(url: &str, host_ip: Option<IpAddress>, dns: Result<bool, String>) -> (r: Result<(), String>)
    ensures
        match r {
            Ok(()) => url_verdict(url@, host_ip, match dns {
                Ok(b) => Ok(b),
                Err(e) => Err(e@),
            }) is None,
            Err(e) => url_verdict(url@, host_ip, match dns {
                Ok(b) => Ok(b),
                Err(e) => Err(e@),
            }) == Some(e@),
        },
{
    match check_webhook_url_text(url) {
        Err(e) => return Err(e),
        Ok(_) => {},
    }
    if is_ip_disallowed(host_ip) {
        return Err(owned("Webhook URLs cannot target localhost, private, or link-local addresses"));
    }
    match dns {
        Ok(true) => Ok(()),
        Ok(false) => Err(
            owned("Webhook hostname resolves to a private/loopback address (DNS rebinding detected)"),
        ),
        Err(e) => {
            let mut m = owned("Cannot resolve webhook hostname: ");
            push_str(&mut m, e.as_str());
            Err(m)
        },
    }
}

/// A resolved address that may not be targeted.
pub open spec fn addr_disallowed(o: Option<IpAddress>) -> bool {
    match o {
        Some(a) => ip_disallowed(a),
        None => false,
    }
}

/// What the resolution check answers: every resolved address allowed, or
/// one that is not, or the resolver's failure.
pub open spec fn dns_verdict(resolved: Result<Seq<Option<IpAddress>>, Seq<char>>) -> Result<bool, Seq<char>> {
    match resolved {
        Ok(addrs) => Ok(
            !exists|k: int| 0 <= k < addrs.len() && addr_disallowed(#[trigger] addrs[k]),
        ),
        Err(e) => Err("Cannot resolve hostname: "@ + e),
    }
}

/// Judges the addresses a host name resolved to (each read as an address
/// when it is one), or the resolver's failure.
pub fn dns_check(resolved: Result<Vec<Option<IpAddress>>, String>) -> (r: Result<bool, String>)
    ensures
        match r {
            Ok(b) => dns_verdict(match resolved {
                Ok(v) => Ok(v@),
                Err(e) => Err(e@),
            }) == Ok::<bool, Seq<char>>(b),
            Err(e) => dns_verdict(match resolved {
                Ok(v) => Ok(v@),
                Err(e) => Err(e@),
            }) == Err::<bool, Seq<char>>(e@),
        },
{
    match resolved {
        Ok(addrs) => {
            let mut k: usize = 0;
            while k < addrs.len()
                invariant
                    k <= addrs@.len(),
                    resolved matches Ok(v) && v@ == addrs@,
                    forall|q: int|
                        0 <= q < k ==> !addr_disallowed(#[trigger] addrs@[q]),
                decreases addrs.len() - k,
            {
                if is_ip_disallowed(addrs[k]) {
                    assert(addr_disallowed(addrs@[k as int]));
                    return Ok(false);
                }
                k = k + 1;
            }
            Ok(true)
        },
        Err(e) => {
            let mut m = owned("Cannot resolve hostname: ");
            push_str(&mut m, e.as_str());
            Err(m)
        },
    }
}

/// Where a fire-time name lookup goes: the URL's host and its port (given,
/// the scheme's default, or 80).
pub open spec fn dns_target_spec(url: Seq<char>) -> Result<(Seq<char>, u16), Seq<char>> {
    match url_parsed(url) {
        Err(e) => Err("Invalid URL: "@ + e),
        Ok((_scheme, _user, _pw, host, port)) => match host {
            None => Err("No hostname in URL"@),
            Some(h) => Ok(
                (
                    h,
                    match port {
                        Some(p) => p,
                        None => 80u16,
                    },
                ),
            ),
        },
    }
}

/// The host and port that a URL's name resolves at.
pub fn dns_target(url: &str) -> (r: Result<(String, u16), String>)
    ensures
        match r {
            Ok(t) => dns_target_spec(url@) == Ok::<(Seq<char>, u16), Seq<char>>((t.0@, t.1)),
            Err(e) => dns_target_spec(url@) == Err::<(Seq<char>, u16), Seq<char>>(e@),
        },
{
    let p = match parse_url(url) {
        Ok(p) => p,
        Err(e) => {
            let mut m = owned("Invalid URL: ");
            push_str(&mut m, e.as_str());
            return Err(m);
        },
    };
    let ghost pv = parts_view(p);
    let port = match p.port {
        Some(x) => x,
        None => 80,
    };
    match p.host {
        None => Err(owned("No hostname in URL")),
        Some(h) => {
            assert(pv.3 == Some(h@));
            Ok((h, port))
        },
    }
}

/// What `url::Url::parse(url)` and its `query_pairs()` give: the decoded
/// name/value pairs of the query, in order, or `None` when the URL does
/// not parse.
pub uninterp spec fn url_query_pairs(url: Seq<char>) -> Option<Seq<(Seq<char>, Seq<char>)>>;

/// `url::Url::parse(url)` and `query_pairs()`, each pair turned into two
/// strings; the result is named by `url_query_pairs`.
#[verifier::external_body]
fn query_pairs(url: &str) -> (r: Option<Vec<(String, String)>>)
    ensures
        match r {
            Some(v) => url_query_pairs(url@) == Some(v@.map_values(|p: (String, String)| (p.0@, p.1@))),
            None => url_query_pairs(url@) is None,
        },
{
    match url::Url::parse(url) {
        Ok(u) => Some(u.query_pairs().map(|(k, v)| (k.into_owned(), v.into_owned())).collect()),
        Err(_) => None,
    }
}

/// The value of the first pair named `key`, if any.
pub open spec fn first_value(pairs: Seq<(Seq<char>, Seq<char>)>, key: Seq<char>) -> Option<Seq<char>>
    decreases pairs.len(),
{
    if pairs.len() == 0 {
        None
    } else if pairs[0].0 == key {
        Some(pairs[0].1)
    } else {
        first_value(pairs.drop_first(), key)
    }
}

/// The first query value for `key` in a URL: `None` when the URL does not
/// parse or has no pair of that name.
pub open spec fn url_query_value(url: Seq<char>, key: Seq<char>) -> Option<Seq<char>> {
    match url_query_pairs(url) {
        Some(ps) => first_value(ps, key),
        None => None,
    }
}

/// The first query value for `key` in a URL.
pub fn query_value(url: &str, key: &str) -> (r: Option<String>)
    ensures
        match r {
            Some(v) => url_query_value(url@, key@) == Some(v@),
            None => url_query_value(url@, key@) is None,
        },
{
    let pairs = match query_pairs(url) {
        Some(p) => p,
        None => return None,
    };
    let ghost pv = pairs@.map_values(|p: (String, String)| (p.0@, p.1@));
    let mut i: usize = 0;
    assert(pv.skip(0) =~= pv);
    while i < pairs.len()
        invariant
            i <= pairs@.len(),
            pv == pairs@.map_values(|p: (String, String)| (p.0@, p.1@)),
            url_query_pairs(url@) == Some(pv),
            first_value(pv, key@) == first_value(pv.skip(i as int), key@),
        decreases pairs.len() - i,
    {
        assert(pv.skip(i as int)[0] == (pairs@[i as int].0@, pairs@[i as int].1@));
        if str_eq(pairs[i].0.as_str(), key) {
            return Some(pairs[i].1.clone());
        }
        assert(pv.skip(i as int).drop_first() =~= pv.skip(i + 1));
        i = i + 1;
    }
    None
}

/// The Telegram chat of a bot URL: its `chat_id` query value, or empty.
pub fn telegram_chat_id(url: &str) -> (r: String)
    ensures
        r@ == match url_query_value(url@, "chat_id"@) {
            Some(v) => v,
            None => Seq::empty(),
        },
{
    match query_value(url, "chat_id") {
        Some(v) => v,
        None => String::new(),
    }
}

// ---------------------------------------------------------------------
// Registering an endpoint
// ---------------------------------------------------------------------

/// What a new endpoint is stored with: its event list (upper-cased) and
/// its secret, encrypted (an empty secret counts as none).
pub fn prepare_endpoint(crypto: &CryptoManager, events: Option<&str>, secret: Option<&str>) -> (r: Result<(String, Option<String>), String>)
    ensures
        normalized_events(opt_view(events)) is Err ==> (r matches Err(e) && normalized_events(
            opt_view(events),
        ) == Err::<Seq<char>, Seq<char>>(e@)),
        r matches Ok((ev, enc)) ==> normalized_events(opt_view(events)) == Ok::<Seq<char>, Seq<char>>(ev@)
            && (match secret {
            Some(s) if s@.len() > 0 => enc matches Some(c) && is_encrypted_spec(c@) && exists|n: Seq<u8>|
                well_sealed(crypto.key_view(), n, s@) && c@ == #[trigger] sealed_text(crypto.key_view(), n, s@),
            _ => enc is None,
        }),
        r matches Err(e) ==> (normalized_events(opt_view(events)) is Ok ==> (secret matches Some(s) && s@.len() > 0
            && crate::text::starts_with(e@, "Encryption failed: "@))),
{
    let ev = match normalize_webhook_events(events) {
        Ok(e) => e,
        Err(m) => return Err(m),
    };
    match secret {
        Some(s) => {
            if s.is_empty() {
                return Ok((ev, None));
            }
            match crypto.encrypt(s) {
                Ok(c) => Ok((ev, Some(c))),
                Err(e) => {
                    let mut m = owned("Encryption failed: ");
                    push_str(&mut m, e.as_str());
                    proof {
                        reveal_strlit("Encryption failed: ");
                        assert(m@.subrange(0, "Encryption failed: "@.len() as int) =~= "Encryption failed: "@);
                    }
                    Err(m)
                },
            }
        },
        None => Ok((ev, None)),
    }
}

// ---------------------------------------------------------------------
// One request per change
// ---------------------------------------------------------------------

/// Submitted change lists larger than this many bytes are refused.
pub const MAX_CHANGES_JSON_BYTES: usize = 1_000_000;

/// Refuses an oversized change list.
pub fn check_changes_payload(json: &str) -> (r: Result<(), String>)
    ensures
        r is Ok <==> encode_utf8(json@).len() <= MAX_CHANGES_JSON_BYTES,
        r matches Err(e) ==> e@ == "Changes payload too large (max 1MB)"@,
{
    if json.as_bytes().len() > MAX_CHANGES_JSON_BYTES {
        Err(owned("Changes payload too large (max 1MB)"))
    } else {
        Ok(())
    }
}

/// What happened to one request for one change.
pub enum DirectOutcome {
    DnsBlocked,
    DnsFailed(String),
    DecryptFailed(String),
    SendFailed(String),
    Status(i64),
}

/// An endpoint that did not take a change, and why.
pub struct FireFailure {
    pub endpoint_id: i64,
    pub endpoint_name: String,
    pub endpoint_url: String,
    pub reason: String,
}

/// The endpoints that took the changes, and the failures.
pub struct DirectFireReport {
    pub triggered_ids: Vec<i64>,
    pub failures: Vec<FireFailure>,
}

/// Why a request failed, or nothing when it was accepted.
pub open spec fn direct_reason(o: DirectOutcome) -> Option<Seq<char>> {
    match o {
        DirectOutcome::DnsBlocked => Some("DNS rebinding detected"@),
        DirectOutcome::DnsFailed(e) => Some("DNS resolution failed: "@ + e@),
        DirectOutcome::DecryptFailed(e) => Some("Secret decryption failed: "@ + e@),
        DirectOutcome::SendFailed(e) => Some("Request failed: "@ + e@),
        DirectOutcome::Status(s) => if 200 <= s < 300 {
            None
        } else {
            Some("HTTP status "@ + decimal_int(s as int))
        },
    }
}

/// A report before any request.
pub fn empty_direct_report() -> (r: DirectFireReport)
    ensures
        r.triggered_ids@.len() == 0,
        r.failures@.len() == 0,
{
    DirectFireReport { triggered_ids: Vec::new(), failures: Vec::new() }
}

/// Records one request: an accepted one adds the endpoint's id, any other
/// outcome adds a failure with its reason.
pub fn record_direct_outcome(report: &mut DirectFireReport, ep: &WebhookEndpoint, outcome: DirectOutcome)
    ensures
        direct_reason(outcome) is None ==> final(report).triggered_ids@ == old(report).triggered_ids@.push(ep.id)
            && final(report).failures@ == old(report).failures@,
        direct_reason(outcome) matches Some(reason) ==> final(report).triggered_ids@ == old(
            report,
        ).triggered_ids@ && final(report).failures@.len() == old(report).failures@.len() + 1 && ({
            let f = final(report).failures@.last();
            &&& f.endpoint_id == ep.id
            &&& f.endpoint_name@ == ep.name@
            &&& f.endpoint_url@ == ep.url@
            &&& f.reason@ == reason
        }) && forall|k: int|
            0 <= k < old(report).failures@.len() ==> #[trigger] final(report).failures@[k] == old(
                report,
            ).failures@[k],
{
    let reason = match outcome {
        DirectOutcome::DnsBlocked => owned("DNS rebinding detected"),
        DirectOutcome::DnsFailed(e) => {
            let mut m = owned("DNS resolution failed: ");
            push_str(&mut m, e.as_str());
            m
        },
        DirectOutcome::DecryptFailed(e) => {
            let mut m = owned("Secret decryption failed: ");
            push_str(&mut m, e.as_str());
            m
        },
        DirectOutcome::SendFailed(e) => {
            let mut m = owned("Request failed: ");
            push_str(&mut m, e.as_str());
            m
        },
        DirectOutcome::Status(s) => {
            if s >= 200 && s < 300 {
                report.triggered_ids.push(ep.id);
                return;
            }
            let mut m = owned("HTTP status ");
            let d = crate::text::decimal_i64(s);
            push_str(&mut m, d.as_str());
            m
        },
    };
    report.failures.push(
        FireFailure {
            endpoint_id: ep.id,
            endpoint_name: ep.name.clone(),
            endpoint_url: ep.url.clone(),
            reason,
        },
    );
}

/// What testing an endpoint answers: the status it returned (zero when
/// name resolution stopped the test), or the error.
pub enum PingOutcome {
    DnsStopped,
    DecryptFailed(String),
    SendFailed(String),
    Status(i64),
}

/// The result of testing an endpoint.
pub fn ping_result(o: PingOutcome) -> (r: Result<i64, String>)
    ensures
        match o {
            PingOutcome::DnsStopped => r == Ok::<i64, String>(0),
            PingOutcome::DecryptFailed(e) => r matches Err(m) && m@ == "Failed to decrypt webhook secret: "@ + e@,
            PingOutcome::SendFailed(e) => r matches Err(m) && m@ == "Webhook test failed: "@ + e@,
            PingOutcome::Status(s) => r == Ok::<i64, String>(s),
        },
{
    match o {
        PingOutcome::DnsStopped => Ok(0),
        PingOutcome::DecryptFailed(e) => {
            let mut m = owned("Failed to decrypt webhook secret: ");
            push_str(&mut m, e.as_str());
            Err(m)
        },
        PingOutcome::SendFailed(e) => {
            let mut m = owned("Webhook test failed: ");
            push_str(&mut m, e.as_str());
            Err(m)
        },
        PingOutcome::Status(s) => Ok(s),
    }
}

/// The text of a test ping.
pub fn ping_text() -> (r: String)
    ensures
        r@ == "🧪 What Changed? webhook test ping"@,
{
    owned("🧪 What Changed? webhook test ping")
}

} // verus!
