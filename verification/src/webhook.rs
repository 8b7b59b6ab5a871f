//! Webhook rules: payload signatures, address screening, endpoint
//! selection and the text of the messages sent.
use vstd::prelude::*;
use crate::hexcodec::{hex_decode, hex_decode_exec, hex_encode, hex_encode_exec, lemma_hex_roundtrip};
use crate::records::WebhookEndpoint;
use crate::text::{
    chars_eq, chars_of, contains_seq, decimal, decimal_u64, has_infix, owned, push_all, push_str,
    split_char, split_exec, str_eq, to_lowercase, to_uppercase, trim, trim_exec, unicode_lowercase,
    unicode_uppercase,
};
use vstd::utf8::encode_utf8;
use hmac::Mac;

verus! {

/// At most this many changes go into one webhook payload.
pub const MAX_CHANGES_PER_WEBHOOK: usize = 100;

// ---------------------------------------------------------------------
// Signatures
// ---------------------------------------------------------------------

/// HMAC-SHA256 of `msg` under `key`, as the `hmac` crate computes it.
pub uninterp spec fn hmac_sha256(key: Seq<u8>, msg: Seq<u8>) -> Seq<u8>;

/// `Hmac::<Sha256>::new_from_slice(key)`, `update(msg)`, `finalize()`: the
/// tag is named by `hmac_sha256` and is 32 bytes long. HMAC accepts keys of
/// any length, so construction cannot fail.
#[verifier::external_body]
fn hmac_sha256_tag(key: &[u8], msg: &[u8]) -> (r: Vec<u8>)
    ensures
        r@ == hmac_sha256(key@, msg@),
        r@.len() == 32,
{
    let mut mac = hmac::Hmac::<sha2::Sha256>::new_from_slice(key).unwrap();
    mac.update(msg);
    mac.finalize().into_bytes().to_vec()
}

/// `Mac::verify_slice` after `update(msg)`: in constant time, whether `tag`
/// is exactly the HMAC-SHA256 tag of `msg` under `key`.
#[verifier::external_body]
fn hmac_sha256_verify(key: &[u8], msg: &[u8], tag: &[u8]) -> (r: bool)
    ensures
        r == (tag@ == hmac_sha256(key@, msg@)),
{
    let mut mac = hmac::Hmac::<sha2::Sha256>::new_from_slice(key).unwrap();
    mac.update(msg);
    mac.verify_slice(tag).is_ok()
}

/// The signature text of `body` under `secret`: hex of HMAC-SHA256 over the
/// UTF-8 bytes.
pub open spec fn signature_text(secret: Seq<char>, body: Seq<char>) -> Seq<char> {
    hex_encode(hmac_sha256(encode_utf8(secret), encode_utf8(body)))
}

/// Whether `signature` is accepted for `body` under `secret`.
pub open spec fn signature_accepted(secret: Seq<char>, body: Seq<char>, signature: Seq<char>) -> bool {
    hex_decode(encode_utf8(signature)) == Some(hmac_sha256(encode_utf8(secret), encode_utf8(body)))
}

/// HMAC-SHA256 signature of the payload body, as lower-case hex.
pub fn compute_signature(secret: &str, body: &str) -> (r: String)
    ensures
        r@ == signature_text(secret@, body@),
{
    let tag = hmac_sha256_tag(secret.as_bytes(), body.as_bytes());
    hex_encode_exec(&tag)
}

/// Verify a hex HMAC-SHA256 signature of the payload body (the comparison
/// is made in constant time by the `hmac` crate).
pub fn verify_signature(secret: &str, body: &str, signature: &str) -> (r: bool)
    ensures
        r == signature_accepted(secret@, body@, signature@),
{
    match hex_decode_exec(signature) {
        Some(bytes) => hmac_sha256_verify(secret.as_bytes(), body.as_bytes(), &bytes),
        None => false,
    }
}

/// Law: a body's own signature is always accepted.
pub proof fn lemma_signature_roundtrip(secret: Seq<char>, body: Seq<char>)
    ensures
        signature_accepted(secret, body, signature_text(secret, body)),
{
    lemma_hex_roundtrip(hmac_sha256(encode_utf8(secret), encode_utf8(body)));
}

// ---------------------------------------------------------------------
// Address screening
// ---------------------------------------------------------------------

/// A parsed IP address.
#[derive(Debug, Clone, Copy)]
pub enum IpAddress {
    V4([u8; 4]),
    V6([u16; 8]),
}

/// 127.0.0.0/8, 0.0.0.0, 169.254.0.0/16, 10.0.0.0/8, 172.16.0.0/12 or
/// 192.168.0.0/16.
pub open spec fn ipv4_disallowed(o: Seq<u8>) -> bool {
    ||| o[0] == 127
    ||| (o[0] == 0 && o[1] == 0 && o[2] == 0 && o[3] == 0)
    ||| (o[0] == 169 && o[1] == 254)
    ||| o[0] == 10
    ||| (o[0] == 172 && 16 <= o[1] && o[1] <= 31)
    ||| (o[0] == 192 && o[1] == 168)
}

/// The screening rule: IPv4-mapped IPv6 addresses are judged as IPv4;
/// other IPv6 addresses are refused when loopback (`::1`), unspecified
/// (`::`), link-local (`fe80::/10`) or unique local, i.e. private
/// (`fc00::/7`).
pub open spec fn ip_disallowed(a: IpAddress) -> bool {
    match a {
        IpAddress::V4(o) => ipv4_disallowed(o@),
        IpAddress::V6(s) => if s@[0] == 0 && s@[1] == 0 && s@[2] == 0 && s@[3] == 0 && s@[4] == 0
            && s@[5] == 0xffff {
            ipv4_disallowed(
                seq![
                    (s@[6] / 256) as u8,
                    (s@[6] % 256) as u8,
                    (s@[7] / 256) as u8,
                    (s@[7] % 256) as u8,
                ],
            )
        } else {
            (s@[0] == 0 && s@[1] == 0 && s@[2] == 0 && s@[3] == 0 && s@[4] == 0 && s@[5] == 0 && s@[6]
                == 0 && (s@[7] == 0 || s@[7] == 1)) || (0xfe80 <= s@[0] && s@[0] <= 0xfebf) || (0xfc00
                <= s@[0] && s@[0] <= 0xfdff)
        },
    }
}

fn ipv4_disallowed_exec(o: [u8; 4]) -> (r: bool)
    ensures
        r == ipv4_disallowed(o@),
{
    o[0] == 127 || (o[0] == 0 && o[1] == 0 && o[2] == 0 && o[3] == 0) || (o[0] == 169 && o[1]
        == 254) || o[0] == 10 || (o[0] == 172 && 16 <= o[1] && o[1] <= 31) || (o[0] == 192 && o[1]
        == 168)
}

/// Whether an address is private, loopback, link-local or unspecified.
/// `None` (text that is no IP address, i.e. a host name) is allowed here;
/// host names are screened after resolution.
pub fn is_ip_disallowed(ip: Option<IpAddress>) -> (r: bool)
    ensures
        r == (ip matches Some(a) && ip_disallowed(a)),
{
    match ip {
        None => false,
        Some(IpAddress::V4(o)) => ipv4_disallowed_exec(o),
        Some(IpAddress::V6(s)) => {
            if s[0] == 0 && s[1] == 0 && s[2] == 0 && s[3] == 0 && s[4] == 0 && s[5] == 0xffff {
                let o: [u8; 4] = [
                    (s[6] / 256) as u8,
                    (s[6] % 256) as u8,
                    (s[7] / 256) as u8,
                    (s[7] % 256) as u8,
                ];
                assert(o@ =~= seq![
                    (s@[6] / 256) as u8,
                    (s@[6] % 256) as u8,
                    (s@[7] / 256) as u8,
                    (s@[7] % 256) as u8,
                ]);
                ipv4_disallowed_exec(o)
            } else {
                (s[0] == 0 && s[1] == 0 && s[2] == 0 && s[3] == 0 && s[4] == 0 && s[5] == 0 && s[6]
                    == 0 && (s[7] == 0 || s[7] == 1)) || (0xfe80 <= s[0] && s[0] <= 0xfebf) || (0xfc00
                    <= s[0] && s[0] <= 0xfdff)
            }
        },
    }
}

// ---------------------------------------------------------------------
// Endpoint selection and event lists
// ---------------------------------------------------------------------

/// The event list of an endpoint names `ct` (upper-cased), or `ALL`.
pub open spec fn events_match(events_upper: Seq<char>, ct_upper: Seq<char>) -> bool {
    events_upper == "ALL"@ || exists|k: int|
        0 <= k < split_char(events_upper, ',').len() && (trim(
            #[trigger] split_char(events_upper, ',')[k],
        ) == ct_upper || trim(split_char(events_upper, ',')[k]) == "ALL"@)
}

/// An endpoint receives changes of type `change_type` (case-insensitive).
pub open spec fn endpoint_wants(ep: WebhookEndpoint, change_type: Seq<char>) -> bool {
    ep.enabled && events_match(unicode_uppercase(ep.events@), unicode_uppercase(change_type))
}

fn events_match_exec(events_upper: &[char], ct_upper: &[char]) -> (r: bool)
    ensures
        r == events_match(events_upper@, ct_upper@),
{
    let all = chars_of("ALL");
    if chars_eq(events_upper, &all) {
        return true;
    }
    let parts = split_exec(events_upper, ',');
    let mut k: usize = 0;
    while k < parts.len()
        invariant
            k <= parts@.len() == split_char(events_upper@, ',').len(),
            all@ == "ALL"@,
            forall|q: int| 0 <= q < parts@.len() ==> (#[trigger] parts@[q])@ == split_char(events_upper@, ',')[q],
            forall|q: int|
                0 <= q < k ==> !(trim(#[trigger] split_char(events_upper@, ',')[q]) == ct_upper@
                    || trim(split_char(events_upper@, ',')[q]) == "ALL"@),
        decreases parts.len() - k,
    {
        let t = trim_exec(&parts[k]);
        if chars_eq(&t, ct_upper) || chars_eq(&t, &all) {
            return true;
        }
        k = k + 1;
    }
    false
}

/// Whether an endpoint should receive a change of the given type.
pub fn endpoint_wants_event(ep: &WebhookEndpoint, change_type: &str) -> (r: bool)
    ensures
        r == endpoint_wants(*ep, change_type@),
{
    if !ep.enabled {
        return false;
    }
    let eu = to_uppercase(ep.events.as_str());
    let cu = to_uppercase(change_type);
    events_match_exec(&chars_of(eu.as_str()), &chars_of(cu.as_str()))
}

/// Law: an enabled endpoint receives every event type that its list
/// names, whatever spaces surround the name in the comma-separated list
/// (names compared upper-cased).
pub proof fn lemma_listed_event_delivered(ep: WebhookEndpoint, change_type: Seq<char>, k: int)
    requires
        ep.enabled,
        0 <= k < split_char(unicode_uppercase(ep.events@), ',').len(),
        trim(split_char(unicode_uppercase(ep.events@), ',')[k]) == unicode_uppercase(change_type),
    ensures
        endpoint_wants(ep, change_type),
{
    let _ = split_char(unicode_uppercase(ep.events@), ',')[k];
}

/// Law: an enabled endpoint whose list is `ALL`, or names `ALL` among its
/// entries, receives changes of every type; a disabled endpoint receives
/// none.
pub proof fn lemma_all_events_delivered(ep: WebhookEndpoint, change_type: Seq<char>, k: int)
    requires
        0 <= k < split_char(unicode_uppercase(ep.events@), ',').len(),
        unicode_uppercase(ep.events@) == "ALL"@ || trim(split_char(unicode_uppercase(ep.events@), ',')[k])
            == "ALL"@,
    ensures
        ep.enabled ==> endpoint_wants(ep, change_type),
        !ep.enabled ==> !endpoint_wants(ep, change_type),
{
    let _ = split_char(unicode_uppercase(ep.events@), ',')[k];
}

/// Law: an endpoint receives only what it subscribes to: it is enabled,
/// and its list is `ALL` or names the event type or `ALL` among its
/// comma-separated entries (spaces around an entry ignored).
pub proof fn lemma_delivered_only_if_listed(ep: WebhookEndpoint, change_type: Seq<char>)
    requires
        endpoint_wants(ep, change_type),
    ensures
        ep.enabled,
        unicode_uppercase(ep.events@) == "ALL"@ || exists|k: int|
            0 <= k < split_char(unicode_uppercase(ep.events@), ',').len() && (trim(
                #[trigger] split_char(unicode_uppercase(ep.events@), ',')[k],
            ) == unicode_uppercase(change_type) || trim(split_char(unicode_uppercase(ep.events@), ',')[k])
                == "ALL"@),
{
}

/// Law: every entry of an accepted event list selects its own event type:
/// for the list `normalize_webhook_events` keeps, each comma-separated
/// entry, with the spaces around it removed, matches.
pub proof fn lemma_normalized_entries_match(events: Option<Seq<char>>, e: Seq<char>, k: int)
    requires
        normalized_events(events) == Ok::<Seq<char>, Seq<char>>(e),
        0 <= k < split_char(e, ',').len(),
    ensures
        events_match(e, trim(split_char(e, ',')[k])),
{
    let _ = split_char(e, ',')[k];
}

/// The endpoints that receive changes of `change_type`, in order.
pub fn active_webhooks_for_event(all: Vec<WebhookEndpoint>, change_type: &str) -> (r: Vec<
    WebhookEndpoint,
>)
    ensures
        r@ == all@.filter(|ep: WebhookEndpoint| endpoint_wants(ep, change_type@)),
{
    let ghost pred = |ep: WebhookEndpoint| endpoint_wants(ep, change_type@);
    let ghost orig = all@;
    let mut all = all;
    let mut r: Vec<WebhookEndpoint> = Vec::new();
    let ghost mut i: int = 0;
    while all.len() > 0
        invariant
            0 <= i <= orig.len(),
            all@ == orig.subrange(i, orig.len() as int),
            r@ == orig.subrange(0, i).filter(pred),
            pred == (|ep: WebhookEndpoint| endpoint_wants(ep, change_type@)),
        decreases all.len(),
    {
        let e = all.remove(0);
        let keep = endpoint_wants_event(&e, change_type);
        proof {
            assert(e == orig[i]);
            assert(orig.subrange(0, i + 1).drop_last() =~= orig.subrange(0, i));
            assert(orig.subrange(0, i + 1).last() == e);
            reveal_with_fuel(Seq::filter, 1);
        }
        if keep {
            r.push(e);
        }
        proof {
            i = i + 1;
            assert(all@ =~= orig.subrange(i, orig.len() as int));
        }
    }
    assert(orig.subrange(0, i) =~= orig);
    r
}

/// Checks a requested event list and returns it upper-cased; no list means
/// `ALL`.
pub open spec fn normalized_events(events: Option<Seq<char>>) -> Result<Seq<char>, Seq<char>> {
    events_verdict(
        unicode_uppercase(
            match events {
                Some(e) => e,
                None => "ALL"@,
            },
        ),
    )
}

/// Verdict on an upper-cased event list.
pub open spec fn events_verdict(up: Seq<char>) -> Result<Seq<char>, Seq<char>> {
    if up == "ALL"@ {
        Ok(up)
    } else if exists|k: int|
        0 <= k < split_char(up, ',').len() && !valid_event(trim(#[trigger] split_char(up, ',')[k])) {
        Err(
            "Invalid event type '"@ + trim(split_char(up, ',')[first_invalid_event(up)])
                + "'. Valid types: ALL, NEW, MODIFIED, DELETED, MOVED"@,
        )
    } else {
        Ok(up)
    }
}

/// The view of an optional string slice.
pub open spec fn opt_view(o: Option<&str>) -> Option<Seq<char>> {
    match o {
        Some(e) => Some(e@),
        None => None,
    }
}

/// A known event name.
pub open spec fn valid_event(e: Seq<char>) -> bool {
    e == "ALL"@ || e == "NEW"@ || e == "MODIFIED"@ || e == "DELETED"@ || e == "MOVED"@
}

/// Index of the first piece that is no known event name.
pub open spec fn first_invalid_event(up: Seq<char>) -> int {
    choose|k: int|
        0 <= k < split_char(up, ',').len() && !valid_event(trim(split_char(up, ',')[k])) && forall|
            j: int,
        | 0 <= j < k ==> valid_event(trim(#[trigger] split_char(up, ',')[j]))
}

fn valid_event_exec(e: &[char]) -> (r: bool)
    ensures
        r == valid_event(e@),
{
    chars_eq(e, &chars_of("ALL")) || chars_eq(e, &chars_of("NEW")) || chars_eq(
        e,
        &chars_of("MODIFIED"),
    ) || chars_eq(e, &chars_of("DELETED")) || chars_eq(e, &chars_of("MOVED"))
}

/// Validates the event list of a new endpoint (case-insensitive) and
/// returns it upper-cased.
pub fn normalize_webhook_events(events: Option<&str>) -> (r: Result<String, String>)
    ensures
        match r {
            Ok(s) => normalized_events(opt_view(events)) == Ok::<Seq<char>, Seq<char>>(s@),
            Err(m) => normalized_events(opt_view(events)) == Err::<Seq<char>, Seq<char>>(m@),
        },
{
    let ghost ev = opt_view(events);
    let up = match events {
        Some(e) => to_uppercase(e),
        None => to_uppercase("ALL"),
    };
    let uv = chars_of(up.as_str());
    assert(up@ == unicode_uppercase(
        match ev {
            Some(e) => e,
            None => "ALL"@,
        },
    ));
    if chars_eq(&uv, &chars_of("ALL")) {
        return Ok(up);
    }
    let parts = split_exec(&uv, ',');
    let mut k: usize = 0;
    while k < parts.len()
        invariant
            ev == opt_view(events),
            uv@ == up@,
            up@ == unicode_uppercase(
                match ev {
                    Some(e) => e,
                    None => "ALL"@,
                },
            ),
            up@ != "ALL"@,
            k <= parts@.len() == split_char(uv@, ',').len(),
            forall|q: int| 0 <= q < parts@.len() ==> (#[trigger] parts@[q])@ == split_char(uv@, ',')[q],
            forall|q: int| 0 <= q < k ==> valid_event(trim(#[trigger] split_char(uv@, ',')[q])),
        decreases parts.len() - k,
    {
        let t = trim_exec(&parts[k]);
        if !valid_event_exec(&t) {
            proof {
                let w = first_invalid_event(uv@);
                assert(!valid_event(trim(split_char(uv@, ',')[k as int])));
                assert(w == k) by {
                    let c = choose|c: int|
                        0 <= c < split_char(uv@, ',').len() && !valid_event(
                            trim(split_char(uv@, ',')[c]),
                        ) && forall|j: int|
                            0 <= j < c ==> valid_event(trim(#[trigger] split_char(uv@, ',')[j]));
                    if c < k {
                        assert(valid_event(trim(split_char(uv@, ',')[c])));
                    } else if c > k {
                        assert(valid_event(trim(split_char(uv@, ',')[k as int])));
                    }
                }
            }
            assert(0 <= k < split_char(uv@, ',').len() && !valid_event(
                trim(split_char(uv@, ',')[k as int]),
            ));
            let mut msg = owned("Invalid event type '");
            push_all(&mut msg, &t);
            push_str(&mut msg, "'. Valid types: ALL, NEW, MODIFIED, DELETED, MOVED");
            proof {
                let sp = split_char(uv@, ',');
                assert(t@ == trim(sp[k as int]));
                assert(exists|j: int| 0 <= j < sp.len() && !valid_event(trim(#[trigger] sp[j])));
                assert(first_invalid_event(up@) == k);
                assert(msg@ =~= "Invalid event type '"@ + trim(sp[first_invalid_event(up@)])
                    + "'. Valid types: ALL, NEW, MODIFIED, DELETED, MOVED"@);
                assert(events_verdict(up@) == Err::<Seq<char>, Seq<char>>(msg@));
            }
            return Err(msg);
        }
        k = k + 1;
    }
    Ok(up)
}

// ---------------------------------------------------------------------
// Message text
// ---------------------------------------------------------------------

/// The URL is a Telegram bot endpoint.
pub open spec fn is_telegram(url: Seq<char>) -> bool {
    contains_seq(unicode_lowercase(url), "api.telegram.org"@)
}

/// Whether a webhook URL points at the Telegram bot API.
pub fn is_telegram_url(url: &str) -> (r: bool)
    ensures
        r == is_telegram(url@),
{
    let lower = to_lowercase(url);
    has_infix(&chars_of(lower.as_str()), &chars_of("api.telegram.org"))
}

/// Lines of a detail list, or a fixed note when there are none.
pub open spec fn detail_text(lines: Seq<Seq<char>>) -> Seq<char> {
    if lines.len() == 0 {
        "No details available."@
    } else {
        join(lines, "\n"@)
    }
}

/// `parts` joined with `sep` between consecutive parts.
pub open spec fn join(parts: Seq<Seq<char>>, sep: Seq<char>) -> Seq<char>
    decreases parts.len(),
{
    if parts.len() == 0 {
        Seq::empty()
    } else if parts.len() == 1 {
        parts[0]
    } else {
        join(parts.drop_last(), sep) + sep + parts.last()
    }
}

/// Joins the views of `parts` with `sep`.
pub fn join_exec(parts: &[String], sep: &str) -> (r: String)
    ensures
        r@ == join(parts@.map_values(|s: String| s@), sep@),
{
    let ghost views = parts@.map_values(|s: String| s@);
    let mut r = String::new();
    let mut i: usize = 0;
    while i < parts.len()
        invariant
            i <= parts.len(),
            views == parts@.map_values(|s: String| s@),
            r@ == join(views.subrange(0, i as int), sep@),
        decreases parts.len() - i,
    {
        assert(views.subrange(0, i + 1).drop_last() =~= views.subrange(0, i as int));
        if i > 0 {
            push_str(&mut r, sep);
        } else {
            assert(r@ =~= Seq::<char>::empty());
        }
        push_str(&mut r, parts[i].as_str());
        i = i + 1;
        assert(r@ =~= join(views.subrange(0, i as int), sep@)) by {
            assert(views.subrange(0, i as int).last() == parts@[i - 1]@);
        }
    }
    assert(views.subrange(0, parts.len() as int) =~= views);
    r
}

/// The detail block of a daily summary.
pub fn detail_text_raw(lines: &[String]) -> (r: String)
    ensures
        r@ == detail_text(lines@.map_values(|s: String| s@)),
{
    if lines.len() == 0 {
        owned("No details available.")
    } else {
        join_exec(lines, "\n")
    }
}

/// Icon for a change type in chat messages.
pub open spec fn change_icon(ct: Seq<char>) -> Seq<char> {
    if ct == "NEW"@ {
        "🟢"@
    } else if ct == "MODIFIED"@ {
        "🔵"@
    } else if ct == "DELETED"@ {
        "🔴"@
    } else if ct == "MOVED"@ {
        "🟡"@
    } else {
        "⚪"@
    }
}

/// Icon for a change type in chat messages.
pub fn change_icon_exec(ct: &str) -> (r: String)
    ensures
        r@ == change_icon(ct@),
{
    if str_eq(ct, "NEW") {
        owned("🟢")
    } else if str_eq(ct, "MODIFIED") {
        owned("🔵")
    } else if str_eq(ct, "DELETED") {
        owned("🔴")
    } else if str_eq(ct, "MOVED") {
        owned("🟡")
    } else {
        owned("⚪")
    }
}

/// At most five lines as they are; more are cut to four and a count of
/// the rest.
pub open spec fn summary_text(lines: Seq<Seq<char>>) -> Seq<char> {
    if lines.len() <= 5 {
        join(lines, "\n"@)
    } else {
        join(lines.subrange(0, 4), "\n"@) + "\n\n…and "@ + decimal((lines.len() - 4) as nat)
            + " more"@
    }
}

/// Summary of the change lines of one event type.
pub fn summarize_change_lines(lines: &Vec<String>) -> (r: String)
    ensures
        r@ == summary_text(lines@.map_values(|s: String| s@)),
{
    if lines.len() <= 5 {
        join_exec(lines.as_slice(), "\n")
    } else {
        let mut first: Vec<String> = Vec::new();
        let mut i: usize = 0;
        while i < 4
            invariant
                i <= 4 < lines.len(),
                first@ == lines@.subrange(0, i as int),
            decreases 4 - i,
        {
            first.push(lines[i].clone());
            i = i + 1;
            assert(first@ =~= lines@.subrange(0, i as int));
        }
        let mut r = join_exec(first.as_slice(), "\n");
        push_str(&mut r, "\n\n…and ");
        let n = decimal_u64((lines.len() - 4) as u64);
        push_str(&mut r, n.as_str());
        push_str(&mut r, " more");
        assert(first@.map_values(|s: String| s@) =~= lines@.map_values(|s: String| s@).subrange(
            0,
            4,
        ));
        r
    }
}

/// Header line of a per-event chat message: Telegram carries the bare
/// count, other targets a pluralised "change".
pub open spec fn event_header(event: Seq<char>, count: nat, telegram: bool) -> Seq<char> {
    if telegram {
        "🔔 **What Changed?** — "@ + event + " "@ + decimal(count)
    } else {
        "🔔 **What Changed?** — "@ + event + " "@ + decimal(count) + " change"@ + (if count == 1 {
            ""@
        } else {
            "s"@
        })
    }
}

/// Header line of a per-event chat message.
pub fn event_header_exec(event: &str, count: usize, telegram: bool) -> (r: String)
    ensures
        r@ == event_header(event@, count as nat, telegram),
{
    let mut r = owned("🔔 **What Changed?** — ");
    push_str(&mut r, event);
    push_str(&mut r, " ");
    let n = decimal_u64(count as u64);
    push_str(&mut r, n.as_str());
    if !telegram {
        push_str(&mut r, " change");
        if count != 1 {
            push_str(&mut r, "s");
        } else {
            assert(r@ =~= r@ + ""@) by { reveal_strlit(""); }
        }
    }
    r
}

} // verus!
