//! Planning a webhook round: which event types a batch of changes holds,
//! the message text of each event, and the tally of what each endpoint
//! answered. Sending, name resolution and decryption happen elsewhere; the
//! functions here decide what is sent and what each answer counts as.
use vstd::prelude::*;
use crate::paths::{display_name, display_name_of};
use crate::records::{ChangeRecord, ChangeStats, WebhookEndpoint, WebhookFireReport};
use crate::text::{decimal, decimal_i64, decimal_u64, owned, push_str, str_eq, to_uppercase, unicode_uppercase};
use crate::webhook::{
    change_icon, change_icon_exec, detail_text, detail_text_raw, event_header, event_header_exec,
    join, join_exec, summarize_change_lines, summary_text, MAX_CHANGES_PER_WEBHOOK,
};
use vstd::utf8::{encode_utf8, is_char_boundary};
use vstd::string::StringSliceAdditionalSpecFns;

verus! {

/// A change as a webhook round reads it: its type and its path, each of
/// which may be missing from the submitted list.
#[derive(Debug)]
pub struct ChangeItem {
    pub change_type: Option<String>,
    pub file_path: Option<String>,
}

/// View of an optional string.
pub open spec fn opt_seq(o: Option<String>) -> Option<Seq<char>> {
    match o {
        Some(s) => Some(s@),
        None => None,
    }
}

/// The upper-cased type of a change, when it has one.
pub open spec fn upper_type(c: ChangeItem) -> Option<Seq<char>> {
    match c.change_type {
        Some(t) => Some(unicode_uppercase(t@)),
        None => None,
    }
}

/// The event types of a list of changes, upper-cased, each once, in the
/// order in which they first occur.
pub open spec fn distinct_events(cs: Seq<ChangeItem>) -> Seq<Seq<char>>
    decreases cs.len(),
{
    if cs.len() == 0 {
        Seq::empty()
    } else {
        let d = distinct_events(cs.drop_last());
        match upper_type(cs.last()) {
            Some(e) => if d.contains(e) {
                d
            } else {
                d.push(e)
            },
            None => d,
        }
    }
}

/// The changes of one (upper-cased) event type, in their order.
pub open spec fn batch_of(cs: Seq<ChangeItem>, event: Seq<char>) -> Seq<ChangeItem> {
    cs.filter(|c: ChangeItem| upper_type(c) == Some(event))
}

/// The chat line of one change: icon, file name and type.
pub open spec fn change_line(c: ChangeItem) -> Seq<char> {
    let ct = match c.change_type {
        Some(t) => t@,
        None => "?"@,
    };
    let fp = match c.file_path {
        Some(p) => p@,
        None => "?"@,
    };
    change_icon(ct) + " `"@ + display_name(fp) + "` — "@ + ct
}

/// Header and summary joined into a message body.
pub open spec fn message_text(header: Seq<char>, summary: Seq<char>) -> Seq<char> {
    header + "\n\n"@ + summary
}

/// The submitted changes, cut to the most a payload may carry.
pub open spec fn capped(cs: Seq<ChangeItem>) -> Seq<ChangeItem> {
    if cs.len() > MAX_CHANGES_PER_WEBHOOK {
        cs.take(MAX_CHANGES_PER_WEBHOOK as int)
    } else {
        cs
    }
}

fn copy_opt(o: &Option<String>) -> (r: Option<String>)
    ensures
        opt_seq(r) == opt_seq(*o),
{
    match o {
        Some(s) => Some(s.clone()),
        None => None,
    }
}

fn copy_item(c: &ChangeItem) -> (r: ChangeItem)
    ensures
        opt_seq(r.change_type) == opt_seq(c.change_type),
        opt_seq(r.file_path) == opt_seq(c.file_path),
        upper_type(r) == upper_type(*c),
        change_line(r) == change_line(*c),
{
    ChangeItem { change_type: copy_opt(&c.change_type), file_path: copy_opt(&c.file_path) }
}

/// Keeps at most `MAX_CHANGES_PER_WEBHOOK` changes, the first ones.
pub fn cap_changes(changes: Vec<ChangeItem>) -> (r: Vec<ChangeItem>)
    ensures
        r@ == capped(changes@),
{
    let mut changes = changes;
    if changes.len() > MAX_CHANGES_PER_WEBHOOK {
        changes.truncate(MAX_CHANGES_PER_WEBHOOK);
    }
    changes
}

fn upper_type_exec(c: &ChangeItem) -> (r: Option<String>)
    ensures
        opt_seq(r) == upper_type(*c),
{
    match &c.change_type {
        Some(t) => Some(to_uppercase(t.as_str())),
        None => None,
    }
}

fn contains_str(v: &Vec<String>, s: &String) -> (r: bool)
    ensures
        r == v@.map_values(|x: String| x@).contains(s@),
{
    let ghost views = v@.map_values(|x: String| x@);
    let mut k: usize = 0;
    while k < v.len()
        invariant
            k <= v.len(),
            views == v@.map_values(|x: String| x@),
            forall|q: int| 0 <= q < k ==> views[q] != s@,
        decreases v.len() - k,
    {
        if str_eq(v[k].as_str(), s.as_str()) {
            assert(views[k as int] == s@);
            return true;
        }
        k = k + 1;
    }
    false
}

/// The event types present in a list of changes, upper-cased, each once,
/// in first-seen order.
pub fn event_types_of(changes: &Vec<ChangeItem>) -> (r: Vec<String>)
    ensures
        r@.map_values(|x: String| x@) == distinct_events(changes@),
{
    let mut r: Vec<String> = Vec::new();
    let mut i: usize = 0;
    while i < changes.len()
        invariant
            i <= changes.len(),
            r@.map_values(|x: String| x@) == distinct_events(changes@.subrange(0, i as int)),
        decreases changes.len() - i,
    {
        proof {
            assert(changes@.subrange(0, i + 1).drop_last() =~= changes@.subrange(0, i as int));
            assert(changes@.subrange(0, i + 1).last() == changes@[i as int]);
        }
        match upper_type_exec(&changes[i]) {
            Some(e) => {
                if !contains_str(&r, &e) {
                    r.push(e);
                    assert(r@.map_values(|x: String| x@) =~= distinct_events(
                        changes@.subrange(0, i as int),
                    ).push(e@));
                }
            },
            None => {},
        }
        i = i + 1;
    }
    assert(changes@.subrange(0, changes.len() as int) =~= changes@);
    r
}

/// The changes whose upper-cased type is `event`, in their order.
pub fn batch_for_event(changes: &Vec<ChangeItem>, event: &str) -> (r: Vec<ChangeItem>)
    ensures
        r@.len() == batch_of(changes@, event@).len(),
        forall|k: int|
            0 <= k < r@.len() ==> opt_seq(#[trigger] r@[k].change_type) == opt_seq(
                batch_of(changes@, event@)[k].change_type,
            ) && opt_seq(r@[k].file_path) == opt_seq(batch_of(changes@, event@)[k].file_path),
{
    let ghost pred = |c: ChangeItem| upper_type(c) == Some(event@);
    let mut r: Vec<ChangeItem> = Vec::new();
    let mut i: usize = 0;
    while i < changes.len()
        invariant
            i <= changes.len(),
            pred == (|c: ChangeItem| upper_type(c) == Some(event@)),
            r@.len() == changes@.subrange(0, i as int).filter(pred).len(),
            forall|k: int|
                0 <= k < r@.len() ==> opt_seq(#[trigger] r@[k].change_type) == opt_seq(
                    changes@.subrange(0, i as int).filter(pred)[k].change_type,
                ) && opt_seq(r@[k].file_path) == opt_seq(
                    changes@.subrange(0, i as int).filter(pred)[k].file_path,
                ),
        decreases changes.len() - i,
    {
        proof {
            assert(changes@.subrange(0, i + 1).drop_last() =~= changes@.subrange(0, i as int));
            assert(changes@.subrange(0, i + 1).last() == changes@[i as int]);
            reveal_with_fuel(Seq::filter, 1);
        }
        let keep = match upper_type_exec(&changes[i]) {
            Some(u) => str_eq(u.as_str(), event),
            None => false,
        };
        if keep {
            r.push(copy_item(&changes[i]));
        }
        i = i + 1;
    }
    assert(changes@.subrange(0, changes.len() as int) =~= changes@);
    r
}

/// The positions of the changes whose upper-cased type is `event`.
pub open spec fn batch_positions_spec(cs: Seq<ChangeItem>, event: Seq<char>) -> Seq<int>
    decreases cs.len(),
{
    if cs.len() == 0 {
        Seq::empty()
    } else {
        batch_positions_spec(cs.drop_last(), event) + (if upper_type(cs.last()) == Some(event) {
            seq![cs.len() - 1]
        } else {
            Seq::empty()
        })
    }
}

/// Where the changes of one event type stand in the list, in order.
pub fn batch_positions(changes: &Vec<ChangeItem>, event: &str) -> (r: Vec<usize>)
    ensures
        r@.map_values(|i: usize| i as int) == batch_positions_spec(changes@, event@),
{
    let mut r: Vec<usize> = Vec::new();
    let mut i: usize = 0;
    assert(changes@.take(0) =~= Seq::<ChangeItem>::empty());
    while i < changes.len()
        invariant
            i <= changes@.len(),
            r@.map_values(|q: usize| q as int) == batch_positions_spec(changes@.take(i as int), event@),
        decreases changes.len() - i,
    {
        proof {
            assert(changes@.take(i + 1).drop_last() =~= changes@.take(i as int));
            assert(changes@.take(i + 1).last() == changes@[i as int]);
        }
        let keep = match upper_type_exec(&changes[i]) {
            Some(u) => str_eq(u.as_str(), event),
            None => false,
        };
        let ghost before = r@.map_values(|q: usize| q as int);
        if keep {
            r.push(i);
            assert(r@.map_values(|q: usize| q as int) =~= before.push(i as int));
        } else {
            assert(before + Seq::<int>::empty() =~= before);
        }
        i = i + 1;
    }
    assert(changes@.take(changes.len() as int) =~= changes@);
    r
}

/// The chat line of one change.
pub fn change_line_exec(c: &ChangeItem) -> (r: String)
    ensures
        r@ == change_line(*c),
{
    let ct = match &c.change_type {
        Some(t) => t.clone(),
        None => owned("?"),
    };
    let fp = match &c.file_path {
        Some(p) => p.clone(),
        None => owned("?"),
    };
    let mut r = change_icon_exec(ct.as_str());
    push_str(&mut r, " `");
    let name = display_name_of(fp.as_str());
    push_str(&mut r, name.as_str());
    push_str(&mut r, "` — ");
    push_str(&mut r, ct.as_str());
    r
}

/// What goes out for one event type: the changes, and the message text
/// for Telegram and for every other target.
pub struct EventMessage {
    pub event: String,
    pub changes: Vec<ChangeItem>,
    pub telegram_text: String,
    pub chat_text: String,
}

/// The messages of one event type over a list of changes: the lines of its
/// changes are summarised, and each text is a header and that summary.
pub open spec fn event_message_ok(m: EventMessage, cs: Seq<ChangeItem>) -> bool {
    let b = batch_of(cs, m.event@);
    let lines = b.map_values(|c: ChangeItem| change_line(c));
    &&& m.changes@.len() == b.len()
    &&& forall|k: int|
        0 <= k < b.len() ==> opt_seq(#[trigger] m.changes@[k].change_type) == opt_seq(
            b[k].change_type,
        ) && opt_seq(m.changes@[k].file_path) == opt_seq(b[k].file_path)
    &&& m.telegram_text@ == message_text(
        event_header(m.event@, b.len(), true),
        summary_text(lines),
    )
    &&& m.chat_text@ == message_text(event_header(m.event@, b.len(), false), summary_text(lines))
}

/// Plans a webhook round: one message per event type present, in the order
/// in which the types first occur.
pub fn plan_event_messages(changes: &Vec<ChangeItem>) -> (r: Vec<EventMessage>)
    ensures
        r@.map_values(|m: EventMessage| m.event@) == distinct_events(changes@),
        forall|k: int| 0 <= k < r@.len() ==> event_message_ok(#[trigger] r@[k], changes@),
{
    let events = event_types_of(changes);
    let ghost ev = events@.map_values(|x: String| x@);
    let mut r: Vec<EventMessage> = Vec::new();
    let mut i: usize = 0;
    while i < events.len()
        invariant
            i <= events.len(),
            ev == events@.map_values(|x: String| x@),
            ev == distinct_events(changes@),
            r@.map_values(|m: EventMessage| m.event@) == ev.subrange(0, i as int),
            forall|k: int| 0 <= k < r@.len() ==> event_message_ok(#[trigger] r@[k], changes@),
        decreases events.len() - i,
    {
        let event = events[i].clone();
        assert(event@ == ev[i as int]);
        let batch = batch_for_event(changes, event.as_str());
        let ghost b = batch_of(changes@, event@);
        let mut lines: Vec<String> = Vec::new();
        let mut j: usize = 0;
        while j < batch.len()
            invariant
                j <= batch@.len() == b.len(),
                forall|k: int|
                    0 <= k < b.len() ==> opt_seq(#[trigger] batch@[k].change_type) == opt_seq(
                        b[k].change_type,
                    ) && opt_seq(batch@[k].file_path) == opt_seq(b[k].file_path),
                lines@.map_values(|s: String| s@) == b.map_values(|c: ChangeItem| change_line(c)).subrange(
                    0,
                    j as int,
                ),
            decreases batch.len() - j,
        {
            let line = change_line_exec(&batch[j]);
            proof {
                assert(opt_seq(batch@[j as int].change_type) == opt_seq(b[j as int].change_type));
                assert(opt_seq(batch@[j as int].file_path) == opt_seq(b[j as int].file_path));
                assert(change_line(batch@[j as int]) == change_line(b[j as int]));
                assert(b.map_values(|c: ChangeItem| change_line(c))[j as int] == change_line(b[j as int]));
            }
            let ghost before = lines@.map_values(|s: String| s@);
            lines.push(line);
            assert(lines@.map_values(|s: String| s@) =~= before.push(line@));
            j = j + 1;
            assert(lines@.map_values(|s: String| s@) =~= b.map_values(|c: ChangeItem| change_line(c)).subrange(
                0,
                j as int,
            ));
        }
        assert(b.map_values(|c: ChangeItem| change_line(c)).subrange(0, b.len() as int) =~= b.map_values(
            |c: ChangeItem| change_line(c),
        ));
        let summary = summarize_change_lines(&lines);
        let n = batch.len();
        let mut telegram_text = event_header_exec(event.as_str(), n, true);
        push_str(&mut telegram_text, "\n\n");
        push_str(&mut telegram_text, summary.as_str());
        let mut chat_text = event_header_exec(event.as_str(), n, false);
        push_str(&mut chat_text, "\n\n");
        push_str(&mut chat_text, summary.as_str());
        let m = EventMessage { event, changes: batch, telegram_text, chat_text };
        assert(event_message_ok(m, changes@));
        let ghost before = r@.map_values(|m: EventMessage| m.event@);
        r.push(m);
        assert(r@.map_values(|m: EventMessage| m.event@) =~= before.push(m.event@));
        i = i + 1;
        assert(r@.map_values(|m: EventMessage| m.event@) =~= ev.subrange(0, i as int));
    }
    assert(ev.subrange(0, events.len() as int) =~= ev);
    r
}

// ---------------------------------------------------------------------
// Tally of endpoint answers
// ---------------------------------------------------------------------

/// What happened when one endpoint was due.
pub enum EndpointOutcome {
    /// Its host name resolved to an address that may not be targeted.
    DnsBlocked,
    /// Its host name did not resolve; the resolver's message.
    DnsFailed(String),
    /// Its stored secret could not be decrypted.
    DecryptFailed,
    /// It answered with this status and body text.
    Responded(u16, String),
    /// The request could not be sent; the client's message.
    SendFailed(String),
}

/// Which round the answer belongs to: the daily summary words some
/// messages more briefly.
pub open spec fn outcome_message(name: Seq<char>, o: EndpointOutcome, daily: bool) -> Option<Seq<char>> {
    match o {
        EndpointOutcome::DnsBlocked => Some(
            name + (if daily {
                ": blocked (DNS rebinding)"@
            } else {
                ": blocked (DNS rebinding detected)"@
            }),
        ),
        EndpointOutcome::DnsFailed(e) => Some(
            name + (if daily {
                ": DNS failed — "@
            } else {
                ": DNS resolution failed — "@
            }) + e@,
        ),
        EndpointOutcome::DecryptFailed => Some(name + ": decrypt failed"@),
        EndpointOutcome::Responded(status, body) => if 200 <= status < 300 {
            None
        } else {
            Some(
                name + (if daily {
                    ": status "@
                } else {
                    ": returned status "@
                }) + decimal(status as nat) + " body="@ + body_head(body@),
            )
        },
        EndpointOutcome::SendFailed(e) => Some(name + ": "@ + e@),
    }
}

/// The length in bytes of the part of a response body that is reported.
pub open spec fn head_len(body: Seq<char>) -> int {
    let n = encode_utf8(body).len();
    if n < 500 {
        n as int
    } else {
        500
    }
}

/// The reported part of a response body: its first 500 bytes.
pub open spec fn body_head(body: Seq<char>) -> Seq<char> {
    choose|h: Seq<char>| encode_utf8(h) == encode_utf8(body).subrange(0, head_len(body))
}

/// The cut after 500 bytes falls between two characters, so the body can
/// be sliced there.
pub open spec fn body_cut_ok(body: Seq<char>) -> bool {
    &&& encode_utf8(body).len() <= usize::MAX
    &&& is_char_boundary(encode_utf8(body), head_len(body))
}

/// An outcome whose report can be written.
pub open spec fn outcome_reportable(o: EndpointOutcome) -> bool {
    match o {
        EndpointOutcome::Responded(_, body) => body_cut_ok(body@),
        _ => true,
    }
}

/// The endpoint answered with a success status.
pub open spec fn outcome_fired(o: EndpointOutcome) -> bool {
    match o {
        EndpointOutcome::Responded(status, _) => 200 <= status < 300,
        _ => false,
    }
}

/// The first 500 bytes of a response body, as text.
fn body_head_exec(body: &str) -> (r: String)
    requires
        body_cut_ok(body@),
    ensures
        r@ == body_head(body@),
{
    let n = body.len();
    assert(body.spec_bytes() == encode_utf8(body@));
    let cut: usize = if n < 500 { n } else { 500 };
    assert(cut == head_len(body@));
    let (head, _tail) = body.split_at(cut);
    let r = head.to_owned();
    proof {
        assert(head.spec_bytes() == encode_utf8(head@));
        assert(encode_utf8(r@) == encode_utf8(body@).subrange(0, head_len(body@)));
        let h = body_head(body@);
        assert(encode_utf8(h) == encode_utf8(body@).subrange(0, head_len(body@)));
        vstd::utf8::encode_utf8_decode_utf8(r@);
        vstd::utf8::encode_utf8_decode_utf8(h);
    }
    r
}

/// Counts one endpoint's outcome: a success status is fired; everything
/// else is failed and leaves a message.
pub fn record_outcome(report: &mut WebhookFireReport, name: &str, outcome: EndpointOutcome, daily: bool)
    requires
        outcome_reportable(outcome),
        old(report).fired < u64::MAX,
        old(report).failed < u64::MAX,
    ensures
        outcome_fired(outcome) ==> final(report).fired == old(report).fired + 1
            && final(report).failed == old(report).failed && final(report).errors@ == old(
            report,
        ).errors@,
        !outcome_fired(outcome) ==> final(report).fired == old(report).fired
            && final(report).failed == old(report).failed + 1,
        !outcome_fired(outcome) ==> final(report).errors@.map_values(|s: String| s@) == old(
            report,
        ).errors@.map_values(|s: String| s@).push(
            outcome_message(name@, outcome, daily)->Some_0,
        ),
        outcome_fired(outcome) <==> outcome_message(name@, outcome, daily) is None,
{
    let mut msg = owned(name);
    match outcome {
        EndpointOutcome::DnsBlocked => {
            if daily {
                push_str(&mut msg, ": blocked (DNS rebinding)");
            } else {
                push_str(&mut msg, ": blocked (DNS rebinding detected)");
            }
        },
        EndpointOutcome::DnsFailed(e) => {
            if daily {
                push_str(&mut msg, ": DNS failed — ");
            } else {
                push_str(&mut msg, ": DNS resolution failed — ");
            }
            push_str(&mut msg, e.as_str());
        },
        EndpointOutcome::DecryptFailed => {
            push_str(&mut msg, ": decrypt failed");
        },
        EndpointOutcome::Responded(status, body) => {
            if 200 <= status && status < 300 {
                report.fired = report.fired + 1;
                return;
            }
            if daily {
                push_str(&mut msg, ": status ");
            } else {
                push_str(&mut msg, ": returned status ");
            }
            let s = decimal_u64(status as u64);
            push_str(&mut msg, s.as_str());
            push_str(&mut msg, " body=");
            let head = body_head_exec(body.as_str());
            push_str(&mut msg, head.as_str());
        },
        EndpointOutcome::SendFailed(e) => {
            push_str(&mut msg, ": ");
            push_str(&mut msg, e.as_str());
        },
    }
    report.failed = report.failed + 1;
    let ghost before = report.errors@;
    report.errors.push(msg);
    assert(report.errors@.map_values(|s: String| s@) =~= before.map_values(|s: String| s@).push(
        msg@,
    ));
}

/// A report of a round in which nothing was sent.
pub fn empty_report() -> (r: WebhookFireReport)
    ensures
        r.fired == 0,
        r.failed == 0,
        r.errors@.len() == 0,
{
    WebhookFireReport { fired: 0, failed: 0, errors: Vec::new() }
}

// ---------------------------------------------------------------------
// The daily summary
// ---------------------------------------------------------------------

/// All changes counted today.
pub open spec fn stats_total(s: ChangeStats) -> int {
    s.new_count + s.modified_count + s.deleted_count + s.moved_count
}

/// One piece of the counts line, present when its count is positive.
pub open spec fn count_piece(icon: Seq<char>, n: i64, word: Seq<char>) -> Seq<Seq<char>> {
    if n > 0 {
        seq![icon + " "@ + crate::text::decimal_int(n as int) + " "@ + word]
    } else {
        Seq::empty()
    }
}

/// The pieces of the counts line of a daily summary.
pub open spec fn daily_parts(s: ChangeStats) -> Seq<Seq<char>> {
    count_piece("🟢"@, s.new_count, "new"@) + count_piece("🔵"@, s.modified_count, "modified"@)
        + count_piece("🔴"@, s.deleted_count, "deleted"@) + count_piece(
        "🟡"@,
        s.moved_count,
        "moved"@,
    )
}

/// One detail line of a daily summary: icon and file name (the stored
/// name when the path has none).
pub open spec fn daily_line(c: ChangeRecord) -> Seq<char> {
    let name = match crate::paths::file_name_spec(c.file_path@) {
        Some(n) => n,
        None => c.filename@,
    };
    change_icon(c.change_type@) + " `"@ + name + "`"@
}

/// The detail block: the first ten lines, and a count of the rest.
pub open spec fn daily_details(cs: Seq<ChangeRecord>) -> Seq<char> {
    let shown = if cs.len() <= 10 {
        cs
    } else {
        cs.take(10)
    };
    let lines = shown.map_values(|c: ChangeRecord| daily_line(c));
    if lines.len() < cs.len() {
        detail_text(lines) + "\n\n"@ + "\n\n…and "@ + decimal((cs.len() - 10) as nat) + " more"@
    } else {
        detail_text(lines)
    }
}

/// The daily summary message for `today`, or nothing when no change was
/// counted.
pub open spec fn daily_message(s: ChangeStats, cs: Seq<ChangeRecord>, today: Seq<char>) -> Option<
    Seq<char>,
> {
    if stats_total(s) == 0 {
        None
    } else {
        Some(
            "📊 **What Changed? — Daily Summary**\n"@ + today + "\n\n"@ + join(
                daily_parts(s),
                "  •  "@,
            ) + "\n\n"@ + daily_details(cs),
        )
    }
}

fn push_count_piece(parts: &mut Vec<String>, icon: &str, n: i64, word: &str)
    ensures
        final(parts)@.map_values(|x: String| x@) == old(parts)@.map_values(|x: String| x@) + count_piece(
            icon@,
            n,
            word@,
        ),
{
    if n > 0 {
        let mut p = owned(icon);
        push_str(&mut p, " ");
        let d = decimal_i64(n);
        push_str(&mut p, d.as_str());
        push_str(&mut p, " ");
        push_str(&mut p, word);
        let ghost before = parts@.map_values(|x: String| x@);
        parts.push(p);
        assert(parts@.map_values(|x: String| x@) =~= before + count_piece(icon@, n, word@));
    } else {
        assert(parts@.map_values(|x: String| x@) =~= parts@.map_values(|x: String| x@) + count_piece(
            icon@,
            n,
            word@,
        ));
    }
}

fn daily_line_exec(c: &ChangeRecord) -> (r: String)
    ensures
        r@ == daily_line(*c),
{
    let mut r = change_icon_exec(c.change_type.as_str());
    push_str(&mut r, " `");
    match crate::paths::file_name_of(c.file_path.as_str()) {
        Some(n) => push_str(&mut r, n.as_str()),
        None => push_str(&mut r, c.filename.as_str()),
    }
    push_str(&mut r, "`");
    r
}

/// The text of the daily summary webhook, or `None` when there is nothing
/// to report today.
pub fn daily_summary_message(stats: &ChangeStats, changes: &Vec<ChangeRecord>, today: &str) -> (r:
    Option<String>)
    requires
        i64::MIN <= stats_total(*stats) <= i64::MAX,
        i64::MIN <= stats.new_count + stats.modified_count <= i64::MAX,
        i64::MIN <= stats.new_count + stats.modified_count + stats.deleted_count <= i64::MAX,
    ensures
        opt_seq(r) == daily_message(*stats, changes@, today@),
{
    let total = stats.new_count + stats.modified_count + stats.deleted_count + stats.moved_count;
    if total == 0 {
        return None;
    }
    let mut parts: Vec<String> = Vec::new();
    push_count_piece(&mut parts, "🟢", stats.new_count, "new");
    push_count_piece(&mut parts, "🔵", stats.modified_count, "modified");
    push_count_piece(&mut parts, "🔴", stats.deleted_count, "deleted");
    push_count_piece(&mut parts, "🟡", stats.moved_count, "moved");
    assert(parts@.map_values(|x: String| x@) =~= daily_parts(*stats));
    let stats_text = join_exec(parts.as_slice(), "  •  ");
    let ghost shown = if changes@.len() <= 10 {
        changes@
    } else {
        changes@.take(10)
    };
    let mut lines: Vec<String> = Vec::new();
    let mut i: usize = 0;
    while i < changes.len() && i < 10
        invariant
            i <= changes@.len(),
            i <= 10,
            shown == (if changes@.len() <= 10 {
                changes@
            } else {
                changes@.take(10)
            }),
            lines@.map_values(|x: String| x@) == shown.map_values(|c: ChangeRecord| daily_line(c)).subrange(
                0,
                i as int,
            ),
        decreases changes.len() - i,
    {
        let l = daily_line_exec(&changes[i]);
        proof {
            assert(shown[i as int] == changes@[i as int]);
            assert(shown.map_values(|c: ChangeRecord| daily_line(c))[i as int] == daily_line(changes@[i as int]));
        }
        let ghost before = lines@.map_values(|x: String| x@);
        lines.push(l);
        assert(lines@.map_values(|x: String| x@) =~= before.push(l@));
        i = i + 1;
        assert(lines@.map_values(|x: String| x@) =~= shown.map_values(|c: ChangeRecord| daily_line(c)).subrange(
            0,
            i as int,
        ));
    }
    assert(shown.map_values(|c: ChangeRecord| daily_line(c)).subrange(0, i as int) =~= shown.map_values(
        |c: ChangeRecord| daily_line(c),
    ));
    let mut details = detail_text_raw(lines.as_slice());
    if lines.len() < changes.len() {
        push_str(&mut details, "\n\n");
        push_str(&mut details, "\n\n…and ");
        let d = decimal_u64((changes.len() - 10) as u64);
        push_str(&mut details, d.as_str());
        push_str(&mut details, " more");
    }
    let mut text = owned("📊 **What Changed? — Daily Summary**\n");
    push_str(&mut text, today);
    push_str(&mut text, "\n\n");
    push_str(&mut text, stats_text.as_str());
    push_str(&mut text, "\n\n");
    push_str(&mut text, details.as_str());
    Some(text)
}

/// The endpoints that a daily summary goes to: the enabled ones, in order.
pub fn enabled_endpoints(all: Vec<WebhookEndpoint>) -> (r: Vec<WebhookEndpoint>)
    ensures
        r@ == all@.filter(|e: WebhookEndpoint| e.enabled),
{
    let ghost pred = |e: WebhookEndpoint| e.enabled;
    let ghost orig = all@;
    let mut all = all;
    let mut r: Vec<WebhookEndpoint> = Vec::new();
    let ghost mut i: int = 0;
    while all.len() > 0
        invariant
            0 <= i <= orig.len(),
            all@ == orig.subrange(i, orig.len() as int),
            r@ == orig.subrange(0, i).filter(pred),
            pred == (|e: WebhookEndpoint| e.enabled),
        decreases all.len(),
    {
        let e = all.remove(0);
        proof {
            assert(e == orig[i]);
            assert(orig.subrange(0, i + 1).drop_last() =~= orig.subrange(0, i));
            reveal_with_fuel(Seq::filter, 1);
        }
        if e.enabled {
            r.push(e);
        }
        proof {
            i = i + 1;
            assert(all@ =~= orig.subrange(i, orig.len() as int));
        }
    }
    assert(orig.subrange(0, i) =~= orig);
    r
}

} // verus!
