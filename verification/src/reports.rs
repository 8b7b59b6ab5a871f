//! Text exports: CSV of changes (with formula-injection guards), HTML
//! escaping and the HTML report, the Markdown changelog and the day's
//! one-line summary.
use vstd::prelude::*;
use crate::records::{ChangeRecord, ChangeStats, ChangelogEntry, ExportData};
use crate::text::{chars_of, decimal, decimal_i64, decimal_int, decimal_u64, owned, push_char, push_str, str_eq, string_of};
use crate::webhook::{join, join_exec};

verus! {

// ---------------------------------------------------------------------
// Shared pieces
// ---------------------------------------------------------------------

/// The texts of `parts` one after another.
pub open spec fn concat(parts: Seq<Seq<char>>) -> Seq<char>
    decreases parts.len(),
{
    if parts.len() == 0 {
        Seq::empty()
    } else {
        concat(parts.drop_last()) + parts.last()
    }
}

/// `s` with every double quote doubled.
pub open spec fn double_quotes(s: Seq<char>) -> Seq<char>
    decreases s.len(),
{
    if s.len() == 0 {
        Seq::empty()
    } else {
        double_quotes(s.drop_last()) + (if s.last() == '"' {
            seq!['"', '"']
        } else {
            seq![s.last()]
        })
    }
}

/// Appends `s` with every double quote doubled.
fn push_doubled(out: &mut String, s: &str)
    ensures
        final(out)@ == old(out)@ + double_quotes(s@),
{
    let c = chars_of(s);
    let mut i: usize = 0;
    let ghost start = out@;
    assert(c@.subrange(0, 0) =~= Seq::<char>::empty());
    while i < c.len()
        invariant
            i <= c@.len(),
            c@ == s@,
            out@ == start + double_quotes(c@.subrange(0, i as int)),
        decreases c.len() - i,
    {
        assert(c@.subrange(0, i + 1).drop_last() =~= c@.subrange(0, i as int));
        if c[i] == '"' {
            push_char(out, '"');
            push_char(out, '"');
        } else {
            push_char(out, c[i]);
        }
        i = i + 1;
        assert(out@ =~= start + double_quotes(c@.subrange(0, i as int)));
    }
    assert(c@.subrange(0, c.len() as int) =~= c@);
}

// ---------------------------------------------------------------------
// Daily CSV export
// ---------------------------------------------------------------------

/// A Unicode bidirectional override character.
pub open spec fn is_bidi_override(c: char) -> bool {
    '\u{202A}' <= c <= '\u{202E}'
}

/// `s` without bidirectional overrides.
pub open spec fn strip_bidi(s: Seq<char>) -> Seq<char> {
    s.filter(|c: char| !is_bidi_override(c))
}

/// A field that a spreadsheet could read as a formula, or that holds a
/// separator, quote, line break or tab, is quoted.
pub open spec fn needs_quoting(s: Seq<char>) -> bool {
    (s.len() > 0 && (s[0] == '=' || s[0] == '+' || s[0] == '-' || s[0] == '@' || s[0] == '\t'))
        || s.contains(',') || s.contains('"') || s.contains('\n') || s.contains('\r') || s.contains(
        '\t',
    )
}

/// A CSV field of the daily export.
pub open spec fn csv_field(s: Seq<char>) -> Seq<char> {
    let c = strip_bidi(s);
    if needs_quoting(c) {
        "\""@ + double_quotes(c) + "\""@
    } else {
        c
    }
}

fn strip_bidi_exec(s: &str) -> (r: Vec<char>)
    ensures
        r@ == strip_bidi(s@),
{
    let c = chars_of(s);
    let ghost pred = |x: char| !is_bidi_override(x);
    let mut r: Vec<char> = Vec::new();
    let mut i: usize = 0;
    while i < c.len()
        invariant
            i <= c@.len(),
            c@ == s@,
            pred == (|x: char| !is_bidi_override(x)),
            r@ == c@.subrange(0, i as int).filter(pred),
        decreases c.len() - i,
    {
        proof {
            assert(c@.subrange(0, i + 1).drop_last() =~= c@.subrange(0, i as int));
            reveal_with_fuel(Seq::filter, 1);
        }
        if !('\u{202A}' <= c[i] && c[i] <= '\u{202E}') {
            r.push(c[i]);
        }
        i = i + 1;
    }
    assert(c@.subrange(0, c.len() as int) =~= c@);
    r
}

fn contains_char(s: &[char], x: char) -> (r: bool)
    ensures
        r == s@.contains(x),
{
    let mut i: usize = 0;
    while i < s.len()
        invariant
            i <= s@.len(),
            forall|k: int| 0 <= k < i ==> s@[k] != x,
        decreases s.len() - i,
    {
        if s[i] == x {
            assert(s@[i as int] == x);
            return true;
        }
        i = i + 1;
    }
    false
}

/// One field of the daily CSV export: bidirectional overrides removed,
/// quoted when needed.
pub fn escape_csv(s: &str) -> (r: String)
    ensures
        r@ == csv_field(s@),
{
    let c = strip_bidi_exec(s);
    let starts_risky = c.len() > 0 && (c[0] == '=' || c[0] == '+' || c[0] == '-' || c[0] == '@'
        || c[0] == '\t');
    let needs = starts_risky || contains_char(&c, ',') || contains_char(&c, '"') || contains_char(
        &c,
        '\n',
    ) || contains_char(&c, '\r') || contains_char(&c, '\t');
    let cs = string_of(&c);
    if needs {
        let mut r = owned("\"");
        push_doubled(&mut r, cs.as_str());
        push_str(&mut r, "\"");
        r
    } else {
        cs
    }
}

/// Head line of the daily CSV export.
pub open spec fn daily_csv_header() -> Seq<char> {
    "timestamp,filename,path,change_type,previous_path,new_path\n"@
}

/// A missing path as an empty text.
pub open spec fn or_empty(o: Option<String>) -> Seq<char> {
    match o {
        Some(s) => s@,
        None => Seq::empty(),
    }
}

/// A field of a daily export row, quoted exactly once: the escaped field
/// when escaping already quoted it, and the escaped field in quotes
/// otherwise (it then holds no quote, separator or line break).
pub open spec fn daily_field(s: Seq<char>) -> Seq<char> {
    if needs_quoting(strip_bidi(s)) {
        csv_field(s)
    } else {
        "\""@ + csv_field(s) + "\""@
    }
}

/// One row of the daily CSV export: six fields, each quoted once.
pub open spec fn daily_csv_row(c: ChangeRecord) -> Seq<char> {
    daily_field(c.detected_at@) + ","@ + daily_field(c.filename@) + ","@ + daily_field(c.file_path@)
        + ","@ + daily_field(c.change_type@) + ","@ + daily_field(or_empty(c.previous_path)) + ","@
        + daily_field(or_empty(c.new_path)) + "\n"@
}

/// The daily CSV export of a list of changes.
pub open spec fn daily_csv(cs: Seq<ChangeRecord>) -> Seq<char> {
    daily_csv_header() + concat(cs.map_values(|c: ChangeRecord| daily_csv_row(c)))
}

fn opt_text(o: &Option<String>) -> (r: String)
    ensures
        r@ == or_empty(*o),
{
    match o {
        Some(s) => s.clone(),
        None => String::new(),
    }
}

/// Appends one daily field.
fn push_daily_field(csv: &mut String, s: &str)
    ensures
        final(csv)@ == old(csv)@ + daily_field(s@),
{
    let e = escape_csv(s);
    let ec = chars_of(e.as_str());
    proof {
        reveal_strlit("\"");
        let c = strip_bidi(s@);
        if needs_quoting(c) {
            assert(ec@ == "\""@ + double_quotes(c) + "\""@);
            assert(ec@[0] == '"');
        }
        if !needs_quoting(c) && c.len() > 0 {
            assert(!c.contains('"'));
            assert(c[0] != '"') by {
                if c[0] == '"' {
                    assert(c.contains('"'));
                }
            }
        }
    }
    let quoted = ec.len() > 0 && ec[0] == '"';
    proof {
        assert(quoted == needs_quoting(strip_bidi(s@)));
    }
    if quoted {
        push_str(csv, e.as_str());
    } else {
        push_str(csv, "\"");
        push_str(csv, e.as_str());
        push_str(csv, "\"");
    }
}

fn push_daily_row(csv: &mut String, c: &ChangeRecord)
    ensures
        final(csv)@ == old(csv)@ + daily_csv_row(*c),
{
    let ghost start = csv@;
    push_daily_field(csv, c.detected_at.as_str());
    push_str(csv, ",");
    push_daily_field(csv, c.filename.as_str());
    push_str(csv, ",");
    push_daily_field(csv, c.file_path.as_str());
    push_str(csv, ",");
    push_daily_field(csv, c.change_type.as_str());
    push_str(csv, ",");
    let p = opt_text(&c.previous_path);
    push_daily_field(csv, p.as_str());
    push_str(csv, ",");
    let n = opt_text(&c.new_path);
    push_daily_field(csv, n.as_str());
    push_str(csv, "\n");
    assert(csv@ =~= start + daily_csv_row(*c));
}

/// The daily CSV export of the day's changes.
pub fn export_daily_csv(changes: &Vec<ChangeRecord>) -> (r: String)
    ensures
        r@ == daily_csv(changes@),
{
    let mut csv = owned("timestamp,filename,path,change_type,previous_path,new_path\n");
    let ghost rows = changes@.map_values(|c: ChangeRecord| daily_csv_row(c));
    let mut i: usize = 0;
    assert(rows.subrange(0, 0) =~= Seq::<Seq<char>>::empty());
    while i < changes.len()
        invariant
            i <= changes@.len(),
            rows == changes@.map_values(|c: ChangeRecord| daily_csv_row(c)),
            csv@ == daily_csv_header() + concat(rows.subrange(0, i as int)),
        decreases changes.len() - i,
    {
        let c = &changes[i];
        let ghost before = csv@;
        push_daily_row(&mut csv, c);
        proof {
            assert(csv@ =~= before + daily_csv_row(*c));
            assert(rows.subrange(0, i + 1).drop_last() =~= rows.subrange(0, i as int));
            assert(rows.subrange(0, i + 1).last() == daily_csv_row(changes@[i as int]));
        }
        i = i + 1;
    }
    assert(rows.subrange(0, changes.len() as int) =~= rows);
    csv
}

// ---------------------------------------------------------------------
// Full CSV export
// ---------------------------------------------------------------------

/// One change as the full export lists it.
pub struct CsvChangeRow {
    pub id: i64,
    pub path: String,
    pub filename: String,
    pub extension: String,
    pub size: i64,
    pub change_type: String,
    pub detected_at: String,
    pub previous_path: Option<String>,
    pub new_path: Option<String>,
}

/// A field of the full export: quoted when it holds a separator, quote or
/// line feed, then prefixed with `'` when it would start a formula.
pub open spec fn export_field(s: Seq<char>) -> Seq<char> {
    let e = if s.contains(',') || s.contains('"') || s.contains('\n') {
        "\""@ + double_quotes(s) + "\""@
    } else {
        s
    };
    if e.len() > 0 && (e[0] == '=' || e[0] == '+' || e[0] == '-' || e[0] == '@') {
        "'"@ + e
    } else {
        e
    }
}

/// One field of the full export.
pub fn escape_export_field(s: &str) -> (r: String)
    ensures
        r@ == export_field(s@),
{
    let c = chars_of(s);
    let e = if contains_char(&c, ',') || contains_char(&c, '"') || contains_char(&c, '\n') {
        let mut q = owned("\"");
        push_doubled(&mut q, s);
        push_str(&mut q, "\"");
        q
    } else {
        owned(s)
    };
    let ec = chars_of(e.as_str());
    if ec.len() > 0 && (ec[0] == '=' || ec[0] == '+' || ec[0] == '-' || ec[0] == '@') {
        let mut r = owned("'");
        push_str(&mut r, e.as_str());
        r
    } else {
        e
    }
}

/// Head line of the full export.
pub open spec fn export_csv_header() -> Seq<char> {
    "ID,Path,Filename,Extension,Size,Change Type,Detected At,Previous Path,New Path\n"@
}

/// One line of the full export.
pub open spec fn export_csv_row(r: CsvChangeRow) -> Seq<char> {
    decimal_int(r.id as int) + ","@ + export_field(r.path@) + ","@ + export_field(r.filename@) + ","@
        + export_field(r.extension@) + ","@ + decimal_int(r.size as int) + ","@ + export_field(
        r.change_type@,
    ) + ","@ + export_field(r.detected_at@) + ","@ + export_field(or_empty(r.previous_path)) + ","@
        + export_field(or_empty(r.new_path)) + "\n"@
}

/// The full export of a list of changes.
pub open spec fn export_csv(rs: Seq<CsvChangeRow>) -> Seq<char> {
    export_csv_header() + concat(rs.map_values(|r: CsvChangeRow| export_csv_row(r)))
}

fn push_export_row(csv: &mut String, row: &CsvChangeRow)
    ensures
        final(csv)@ == old(csv)@ + export_csv_row(*row),
{
    let id = decimal_i64(row.id);
    push_str(csv, id.as_str());
    push_str(csv, ",");
    let a = escape_export_field(row.path.as_str());
    push_str(csv, a.as_str());
    push_str(csv, ",");
    let b = escape_export_field(row.filename.as_str());
    push_str(csv, b.as_str());
    push_str(csv, ",");
    let c = escape_export_field(row.extension.as_str());
    push_str(csv, c.as_str());
    push_str(csv, ",");
    let sz = decimal_i64(row.size);
    push_str(csv, sz.as_str());
    push_str(csv, ",");
    let d = escape_export_field(row.change_type.as_str());
    push_str(csv, d.as_str());
    push_str(csv, ",");
    let e = escape_export_field(row.detected_at.as_str());
    push_str(csv, e.as_str());
    push_str(csv, ",");
    let pp = opt_text(&row.previous_path);
    let f = escape_export_field(pp.as_str());
    push_str(csv, f.as_str());
    push_str(csv, ",");
    let np = opt_text(&row.new_path);
    let g = escape_export_field(np.as_str());
    push_str(csv, g.as_str());
    push_str(csv, "\n");
    assert(csv@ =~= old(csv)@ + export_csv_row(*row));
}

/// The full CSV export of the given changes.
pub fn export_changes_csv(rows: &Vec<CsvChangeRow>) -> (r: String)
    ensures
        r@ == export_csv(rows@),
{
    let mut csv = owned("ID,Path,Filename,Extension,Size,Change Type,Detected At,Previous Path,New Path\n");
    let ghost lines = rows@.map_values(|r: CsvChangeRow| export_csv_row(r));
    let mut i: usize = 0;
    assert(lines.subrange(0, 0) =~= Seq::<Seq<char>>::empty());
    while i < rows.len()
        invariant
            i <= rows@.len(),
            lines == rows@.map_values(|r: CsvChangeRow| export_csv_row(r)),
            csv@ == export_csv_header() + concat(lines.subrange(0, i as int)),
        decreases rows.len() - i,
    {
        let row = &rows[i];
        let ghost before = csv@;
        push_export_row(&mut csv, row);
        proof {
            assert(csv@ =~= before + export_csv_row(*row));
            assert(lines.subrange(0, i + 1).drop_last() =~= lines.subrange(0, i as int));
            assert(lines.subrange(0, i + 1).last() == export_csv_row(rows@[i as int]));
        }
        i = i + 1;
    }
    assert(lines.subrange(0, rows.len() as int) =~= lines);
    csv
}

// ---------------------------------------------------------------------
// HTML
// ---------------------------------------------------------------------

/// The entity for one character of HTML text.
pub open spec fn html_char(c: char) -> Seq<char> {
    if c == '&' {
        "&amp;"@
    } else if c == '<' {
        "&lt;"@
    } else if c == '>' {
        "&gt;"@
    } else if c == '"' {
        "&quot;"@
    } else if c == '\'' {
        "&#x27;"@
    } else {
        seq![c]
    }
}

/// `s` with the five HTML-special characters replaced by entities.
pub open spec fn html_escaped(s: Seq<char>) -> Seq<char>
    decreases s.len(),
{
    if s.len() == 0 {
        Seq::empty()
    } else {
        html_escaped(s.drop_last()) + html_char(s.last())
    }
}

/// Escapes text for HTML.
pub fn html_escape(s: &str) -> (r: String)
    ensures
        r@ == html_escaped(s@),
{
    let c = chars_of(s);
    let mut r = String::new();
    let mut i: usize = 0;
    assert(c@.subrange(0, 0) =~= Seq::<char>::empty());
    while i < c.len()
        invariant
            i <= c@.len(),
            c@ == s@,
            r@ == html_escaped(c@.subrange(0, i as int)),
        decreases c.len() - i,
    {
        assert(c@.subrange(0, i + 1).drop_last() =~= c@.subrange(0, i as int));
        let x = c[i];
        if x == '&' {
            push_str(&mut r, "&amp;");
        } else if x == '<' {
            push_str(&mut r, "&lt;");
        } else if x == '>' {
            push_str(&mut r, "&gt;");
        } else if x == '"' {
            push_str(&mut r, "&quot;");
        } else if x == '\'' {
            push_str(&mut r, "&#x27;");
        } else {
            push_char(&mut r, x);
        }
        i = i + 1;
    }
    assert(c@.subrange(0, c.len() as int) =~= c@);
    r
}

/// The last sixty characters of a path (all of a shorter one).
pub open spec fn tail60(s: Seq<char>) -> Seq<char> {
    if s.len() <= 60 {
        s
    } else {
        s.subrange(s.len() - 60, s.len() as int)
    }
}

fn tail60_exec(s: &str) -> (r: String)
    ensures
        r@ == tail60(s@),
{
    let c = chars_of(s);
    let start: usize = if c.len() <= 60 { 0 } else { c.len() - 60 };
    let mut v: Vec<char> = Vec::new();
    let mut i: usize = start;
    while i < c.len()
        invariant
            start <= i <= c@.len(),
            v@ == c@.subrange(start as int, i as int),
        decreases c.len() - i,
    {
        v.push(c[i]);
        i = i + 1;
        assert(v@ =~= c@.subrange(start as int, i as int));
    }
    assert(c@.len() <= 60 ==> c@.subrange(0, c@.len() as int) =~= c@);
    string_of(&v)
}

/// The badge class of a change type in the report.
pub open spec fn badge_class(ct: Seq<char>) -> Seq<char> {
    if ct == "NEW"@ {
        "new"@
    } else if ct == "MODIFIED"@ {
        "mod"@
    } else if ct == "DELETED"@ {
        "del"@
    } else if ct == "MOVED"@ {
        "mov"@
    } else {
        ""@
    }
}

fn badge_class_exec(ct: &str) -> (r: &'static str)
    ensures
        r@ == badge_class(ct@),
{
    if str_eq(ct, "NEW") {
        "new"
    } else if str_eq(ct, "MODIFIED") {
        "mod"
    } else if str_eq(ct, "DELETED") {
        "del"
    } else if str_eq(ct, "MOVED") {
        "mov"
    } else {
        ""
    }
}

/// One row of the report's change table.
pub open spec fn report_change_row(c: ChangeRecord) -> Seq<char> {
    "<tr><td><span class=\"badge "@ + badge_class(c.change_type@) + "\">"@ + html_escaped(
        c.change_type@,
    ) + "</span></td><td>"@ + html_escaped(c.filename@) + "</td><td title=\""@ + html_escaped(
        c.file_path@,
    ) + "\">..."@ + html_escaped(tail60(c.file_path@)) + "</td><td>"@ + html_escaped(
        c.detected_at@,
    ) + "</td></tr>\n"@
}

/// The report rows of one changelog entry.
pub open spec fn entry_rows(e: ChangelogEntry) -> Seq<char> {
    concat(e.changes@.map_values(|c: ChangeRecord| report_change_row(c)))
}

fn push_change_row(html: &mut String, c: &ChangeRecord)
    ensures
        final(html)@ == old(html)@ + report_change_row(*c),
{
    push_str(html, "<tr><td><span class=\"badge ");
    push_str(html, badge_class_exec(c.change_type.as_str()));
    push_str(html, "\">");
    let t = html_escape(c.change_type.as_str());
    push_str(html, t.as_str());
    push_str(html, "</span></td><td>");
    let f = html_escape(c.filename.as_str());
    push_str(html, f.as_str());
    push_str(html, "</td><td title=\"");
    let p = html_escape(c.file_path.as_str());
    push_str(html, p.as_str());
    push_str(html, "\">...");
    let short = tail60_exec(c.file_path.as_str());
    let s = html_escape(short.as_str());
    push_str(html, s.as_str());
    push_str(html, "</td><td>");
    let d = html_escape(c.detected_at.as_str());
    push_str(html, d.as_str());
    push_str(html, "</td></tr>\n");
    assert(html@ =~= old(html)@ + report_change_row(*c));
}

fn push_entry_rows(html: &mut String, e: &ChangelogEntry)
    ensures
        final(html)@ == old(html)@ + entry_rows(*e),
{
    let ghost rows = e.changes@.map_values(|c: ChangeRecord| report_change_row(c));
    let ghost start = html@;
    let mut i: usize = 0;
    assert(rows.subrange(0, 0) =~= Seq::<Seq<char>>::empty());
    while i < e.changes.len()
        invariant
            i <= e.changes@.len(),
            rows == e.changes@.map_values(|c: ChangeRecord| report_change_row(c)),
            html@ == start + concat(rows.subrange(0, i as int)),
        decreases e.changes.len() - i,
    {
        push_change_row(html, &e.changes[i]);
        proof {
            assert(rows.subrange(0, i + 1).drop_last() =~= rows.subrange(0, i as int));
            assert(rows.subrange(0, i + 1).last() == report_change_row(e.changes@[i as int]));
        }
        i = i + 1;
        assert(html@ =~= start + concat(rows.subrange(0, i as int)));
    }
    assert(rows.subrange(0, e.changes.len() as int) =~= rows);
}

/// The fixed head of the HTML report, up to its title and styles.
pub open spec fn report_head() -> Seq<char> {
    "<!DOCTYPE html>\n<html lang=\"en\">\n<head>\n<meta charset=\"UTF-8\">\n<meta http-equiv=\"Content-Security-Policy\" content=\"default-src 'none'; style-src 'unsafe-inline'\">\n<meta name=\"viewport\" content=\"width=device-width, initial-scale=1.0\">\n<title>What Changed? Report</title>\n<style>\n"@
        + report_styles()
}

/// The report's style sheet and the opening of its body.
pub open spec fn report_styles() -> Seq<char> {
    "  * { margin: 0; padding: 0; box-sizing: border-box; }\n  body { font-family: -apple-system, BlinkMacSystemFont, 'Segoe UI', Roboto, sans-serif; background: #f8fafc; color: #1e293b; padding: 2rem; }\n  .header { text-align: center; margin-bottom: 2rem; }\n  .header h1 { font-size: 2rem; color: #4f46e5; }\n  .header p { color: #64748b; margin-top: 0.5rem; }\n  .cards { display: grid; grid-template-columns: repeat(4, 1fr); gap: 1rem; margin-bottom: 2rem; }\n  .card { background: white; border-radius: 12px; padding: 1.5rem; box-shadow: 0 1px 3px rgba(0,0,0,0.1); }\n  .card .value { font-size: 2rem; font-weight: 700; }\n  .card .label { color: #64748b; font-size: 0.875rem; margin-top: 0.25rem; }\n  .card.new .value { color: #10b981; }\n  .card.mod .value { color: #3b82f6; }\n  .card.del .value { color: #ef4444; }\n  .card.mov .value { color: #f59e0b; }\n  table { width: 100%; border-collapse: collapse; background: white; border-radius: 12px; overflow: hidden; box-shadow: 0 1px 3px rgba(0,0,0,0.1); margin-bottom: 2rem; }\n  th, td { padding: 0.75rem 1rem; text-align: left; border-bottom: 1px solid #e2e8f0; }\n  th { background: #f1f5f9; font-weight: 600; color: #475569; font-size: 0.875rem; }\n  td { font-size: 0.875rem; }\n  .badge { display: inline-block; padding: 2px 8px; border-radius: 9999px; font-size: 0.75rem; font-weight: 600; }\n  .badge.new { background: #d1fae5; color: #065f46; }\n  .badge.mod { background: #dbeafe; color: #1e40af; }\n  .badge.del { background: #fee2e2; color: #991b1b; }\n  .badge.mov { background: #fef3c7; color: #92400e; }\n  .section { margin-bottom: 2rem; }\n  .section h2 { font-size: 1.25rem; margin-bottom: 1rem; color: #334155; }\n  .footer { text-align: center; color: #94a3b8; font-size: 0.75rem; margin-top: 2rem; }\n</style>\n</head>\n<body>\n<div class=\"header\">\n  <h1>What Changed? Report</h1>\n"@
}

/// One stats card of the report.
pub open spec fn report_card(class: Seq<char>, n: i64, label: Seq<char>) -> Seq<char> {
    "  <div class=\"card "@ + class + "\"><div class=\"value\">"@ + decimal_int(n as int)
        + "</div><div class=\"label\">"@ + label + "</div></div>\n"@
}

/// One row of the report's table of file types; its size text is given.
pub open spec fn report_ext_row(ext: Seq<char>, count: i64, size_text: Seq<char>) -> Seq<char> {
    "<tr><td><code>"@ + html_escaped(ext) + "</code></td><td>"@ + decimal_int(count as int)
        + "</td><td>"@ + size_text + "</td></tr>\n"@
}

/// The report's table of file types, when there are any.
pub open spec fn report_ext_section(d: ExportData, sizes: Seq<Seq<char>>) -> Seq<char> {
    if d.extension_stats@.len() == 0 {
        Seq::empty()
    } else {
        "<div class=\"section\">\n<h2>📁 Files by Type</h2>\n<table>\n<tr><th>Extension</th><th>Count</th><th>Total Size</th></tr>\n"@
            + concat(
            Seq::new(
                d.extension_stats@.len(),
                |k: int|
                    report_ext_row(
                        d.extension_stats@[k].extension@,
                        d.extension_stats@[k].count,
                        sizes[k],
                    ),
            ),
        ) + "</table>\n</div>\n\n"@
    }
}

/// The HTML report of an export, with the size text of each file type
/// given in `sizes`.
pub open spec fn html_report(d: ExportData, sizes: Seq<Seq<char>>) -> Seq<char> {
    report_head() + "  <p>Generated: "@ + d.generated_at@ + "</p>\n"@ + "</div>\n\n"@
        + "<div class=\"cards\">\n"@ + report_card("new"@, d.summary.new_count, "New Files"@)
        + report_card("mod"@, d.summary.modified_count, "Modified"@) + report_card(
        "del"@,
        d.summary.deleted_count,
        "Deleted"@,
    ) + report_card("mov"@, d.summary.moved_count, "Moved"@) + "</div>\n\n"@ + report_ext_section(
        d,
        sizes,
    )
        + "<div class=\"section\">\n<h2>📋 Recent Changes</h2>\n<table>\n<tr><th>Type</th><th>File</th><th>Path</th><th>When</th></tr>\n"@
        + concat(d.batches@.map_values(|e: ChangelogEntry| entry_rows(e)))
        + "</table>\n</div>\n\n"@
        + "<div class=\"footer\">Report generated by What Changed? — File System Monitor</div>\n</body>\n</html>"@
}

fn push_card(html: &mut String, class: &str, n: i64, label: &str)
    ensures
        final(html)@ == old(html)@ + report_card(class@, n, label@),
{
    push_str(html, "  <div class=\"card ");
    push_str(html, class);
    push_str(html, "\"><div class=\"value\">");
    let d = decimal_i64(n);
    push_str(html, d.as_str());
    push_str(html, "</div><div class=\"label\">");
    push_str(html, label);
    push_str(html, "</div></div>\n");
    assert(html@ =~= old(html)@ + report_card(class@, n, label@));
}

/// The HTML report; `sizes` holds the display text of each file type's
/// total size, in the order of `data.extension_stats`.
pub fn generate_html_report(data: &ExportData, sizes: &Vec<String>) -> (r: String)
    requires
        sizes@.len() == data.extension_stats@.len(),
    ensures
        r@ == html_report(*data, sizes@.map_values(|s: String| s@)),
{
    let ghost sv = sizes@.map_values(|s: String| s@);
    let mut html = owned(
        "<!DOCTYPE html>\n<html lang=\"en\">\n<head>\n<meta charset=\"UTF-8\">\n<meta http-equiv=\"Content-Security-Policy\" content=\"default-src 'none'; style-src 'unsafe-inline'\">\n<meta name=\"viewport\" content=\"width=device-width, initial-scale=1.0\">\n<title>What Changed? Report</title>\n<style>\n",
    );
    push_str(
        &mut html,
        "  * { margin: 0; padding: 0; box-sizing: border-box; }\n  body { font-family: -apple-system, BlinkMacSystemFont, 'Segoe UI', Roboto, sans-serif; background: #f8fafc; color: #1e293b; padding: 2rem; }\n  .header { text-align: center; margin-bottom: 2rem; }\n  .header h1 { font-size: 2rem; color: #4f46e5; }\n  .header p { color: #64748b; margin-top: 0.5rem; }\n  .cards { display: grid; grid-template-columns: repeat(4, 1fr); gap: 1rem; margin-bottom: 2rem; }\n  .card { background: white; border-radius: 12px; padding: 1.5rem; box-shadow: 0 1px 3px rgba(0,0,0,0.1); }\n  .card .value { font-size: 2rem; font-weight: 700; }\n  .card .label { color: #64748b; font-size: 0.875rem; margin-top: 0.25rem; }\n  .card.new .value { color: #10b981; }\n  .card.mod .value { color: #3b82f6; }\n  .card.del .value { color: #ef4444; }\n  .card.mov .value { color: #f59e0b; }\n  table { width: 100%; border-collapse: collapse; background: white; border-radius: 12px; overflow: hidden; box-shadow: 0 1px 3px rgba(0,0,0,0.1); margin-bottom: 2rem; }\n  th, td { padding: 0.75rem 1rem; text-align: left; border-bottom: 1px solid #e2e8f0; }\n  th { background: #f1f5f9; font-weight: 600; color: #475569; font-size: 0.875rem; }\n  td { font-size: 0.875rem; }\n  .badge { display: inline-block; padding: 2px 8px; border-radius: 9999px; font-size: 0.75rem; font-weight: 600; }\n  .badge.new { background: #d1fae5; color: #065f46; }\n  .badge.mod { background: #dbeafe; color: #1e40af; }\n  .badge.del { background: #fee2e2; color: #991b1b; }\n  .badge.mov { background: #fef3c7; color: #92400e; }\n  .section { margin-bottom: 2rem; }\n  .section h2 { font-size: 1.25rem; margin-bottom: 1rem; color: #334155; }\n  .footer { text-align: center; color: #94a3b8; font-size: 0.75rem; margin-top: 2rem; }\n</style>\n</head>\n<body>\n<div class=\"header\">\n  <h1>What Changed? Report</h1>\n",
    );
    push_str(&mut html, "  <p>Generated: ");
    push_str(&mut html, data.generated_at.as_str());
    push_str(&mut html, "</p>\n");
    push_str(&mut html, "</div>\n\n");
    push_str(&mut html, "<div class=\"cards\">\n");
    push_card(&mut html, "new", data.summary.new_count, "New Files");
    push_card(&mut html, "mod", data.summary.modified_count, "Modified");
    push_card(&mut html, "del", data.summary.deleted_count, "Deleted");
    push_card(&mut html, "mov", data.summary.moved_count, "Moved");
    push_str(&mut html, "</div>\n\n");
    let ghost before_ext = html@;
    if data.extension_stats.len() > 0 {
        push_str(
            &mut html,
            "<div class=\"section\">\n<h2>📁 Files by Type</h2>\n<table>\n<tr><th>Extension</th><th>Count</th><th>Total Size</th></tr>\n",
        );
        let ghost rows = Seq::new(
            data.extension_stats@.len(),
            |k: int|
                report_ext_row(
                    data.extension_stats@[k].extension@,
                    data.extension_stats@[k].count,
                    sv[k],
                ),
        );
        let ghost start = html@;
        let mut i: usize = 0;
        assert(rows.subrange(0, 0) =~= Seq::<Seq<char>>::empty());
        while i < data.extension_stats.len()
            invariant
                i <= data.extension_stats@.len() == sizes@.len(),
                sv == sizes@.map_values(|s: String| s@),
                rows == Seq::new(
                    data.extension_stats@.len(),
                    |k: int|
                        report_ext_row(
                            data.extension_stats@[k].extension@,
                            data.extension_stats@[k].count,
                            sv[k],
                        ),
                ),
                html@ == start + concat(rows.subrange(0, i as int)),
            decreases data.extension_stats.len() - i,
        {
            let ghost b = html@;
            let st = &data.extension_stats[i];
            push_str(&mut html, "<tr><td><code>");
            let x = html_escape(st.extension.as_str());
            push_str(&mut html, x.as_str());
            push_str(&mut html, "</code></td><td>");
            let cnt = decimal_i64(st.count);
            push_str(&mut html, cnt.as_str());
            push_str(&mut html, "</td><td>");
            push_str(&mut html, sizes[i].as_str());
            push_str(&mut html, "</td></tr>\n");
            proof {
                assert(html@ =~= b + rows[i as int]);
                assert(rows.subrange(0, i + 1).drop_last() =~= rows.subrange(0, i as int));
            }
            i = i + 1;
        }
        assert(rows.subrange(0, data.extension_stats.len() as int) =~= rows);
        push_str(&mut html, "</table>\n</div>\n\n");
    }
    assert(html@ =~= before_ext + report_ext_section(*data, sv));
    push_str(
        &mut html,
        "<div class=\"section\">\n<h2>📋 Recent Changes</h2>\n<table>\n<tr><th>Type</th><th>File</th><th>Path</th><th>When</th></tr>\n",
    );
    let ghost parts = data.batches@.map_values(|e: ChangelogEntry| entry_rows(e));
    let ghost start2 = html@;
    let mut j: usize = 0;
    assert(parts.subrange(0, 0) =~= Seq::<Seq<char>>::empty());
    while j < data.batches.len()
        invariant
            j <= data.batches@.len(),
            parts == data.batches@.map_values(|e: ChangelogEntry| entry_rows(e)),
            html@ == start2 + concat(parts.subrange(0, j as int)),
        decreases data.batches.len() - j,
    {
        push_entry_rows(&mut html, &data.batches[j]);
        proof {
            assert(parts.subrange(0, j + 1).drop_last() =~= parts.subrange(0, j as int));
            assert(parts.subrange(0, j + 1).last() == entry_rows(data.batches@[j as int]));
        }
        j = j + 1;
        assert(html@ =~= start2 + concat(parts.subrange(0, j as int)));
    }
    assert(parts.subrange(0, data.batches.len() as int) =~= parts);
    push_str(&mut html, "</table>\n</div>\n\n");
    push_str(
        &mut html,
        "<div class=\"footer\">Report generated by What Changed? — File System Monitor</div>\n</body>\n</html>",
    );
    assert(html@ =~= html_report(*data, sv));
    html
}

// ---------------------------------------------------------------------
// Markdown changelog
// ---------------------------------------------------------------------

/// Icon of a change type in the changelog.
pub open spec fn md_icon(ct: Seq<char>) -> Seq<char> {
    if ct == "NEW"@ {
        "🆕"@
    } else if ct == "MODIFIED"@ {
        "📝"@
    } else if ct == "DELETED"@ {
        "🗑️"@
    } else if ct == "MOVED"@ {
        "📦"@
    } else {
        "📄"@
    }
}

/// One change line of the changelog; a move names where it came from.
pub open spec fn md_change(c: ChangeRecord) -> Seq<char> {
    "- "@ + md_icon(c.change_type@) + " `"@ + c.filename@ + "`"@ + (if c.change_type@ == "MOVED"@
        && c.previous_path is Some {
        " ← `"@ + c.previous_path->Some_0@ + "`"@
    } else {
        ""@
    }) + "\n"@
}

/// The heading, folders and table of counts of one scan.
pub open spec fn md_entry_head(e: ChangelogEntry) -> Seq<char> {
    "## "@ + e.date@ + " (Scan #"@ + decimal_int(e.batch_id as int) + ")\n\n"@ + "Folders: `"@
        + e.folders_scanned@ + "`\n\n"@ + "| Metric | Count |\n|--------|-------|\n| Files Scanned | "@
        + decimal_int(e.total_files as int) + " |\n| New | "@ + decimal_int(e.new_files as int)
        + " |\n| Modified | "@ + decimal_int(e.modified_files as int) + " |\n| Deleted | "@
        + decimal_int(e.deleted_files as int) + " |\n| Moved | "@ + decimal_int(
        e.moved_files as int,
    ) + " |\n\n"@
}

/// The list of one scan's changes, when it has any.
pub open spec fn md_entry_changes(e: ChangelogEntry) -> Seq<char> {
    if e.changes@.len() == 0 {
        ""@
    } else {
        "### Changes\n\n"@ + concat(e.changes@.map_values(|c: ChangeRecord| md_change(c))) + "\n"@
    }
}

/// One scan of the changelog: heading, folders, a table of counts and the
/// list of its changes.
pub open spec fn md_entry(e: ChangelogEntry) -> Seq<char> {
    md_entry_head(e) + md_entry_changes(e)
}

/// The Markdown changelog of a list of scans.
pub open spec fn changelog_markdown(es: Seq<ChangelogEntry>) -> Seq<char> {
    "# Changelog\n\nGenerated by What Changed?\n\n"@ + concat(
        es.map_values(|e: ChangelogEntry| md_entry(e)),
    )
}

fn md_icon_exec(ct: &str) -> (r: &'static str)
    ensures
        r@ == md_icon(ct@),
{
    if str_eq(ct, "NEW") {
        "🆕"
    } else if str_eq(ct, "MODIFIED") {
        "📝"
    } else if str_eq(ct, "DELETED") {
        "🗑️"
    } else if str_eq(ct, "MOVED") {
        "📦"
    } else {
        "📄"
    }
}

fn push_md_change(md: &mut String, c: &ChangeRecord)
    ensures
        final(md)@ == old(md)@ + md_change(*c),
{
    push_str(md, "- ");
    push_str(md, md_icon_exec(c.change_type.as_str()));
    push_str(md, " `");
    push_str(md, c.filename.as_str());
    push_str(md, "`");
    let ghost mid = md@;
    if str_eq(c.change_type.as_str(), "MOVED") {
        match &c.previous_path {
            Some(prev) => {
                push_str(md, " ← `");
                push_str(md, prev.as_str());
                push_str(md, "`");
            },
            None => {
                assert(md@ =~= mid + ""@) by {
                    reveal_strlit("");
                }
            },
        }
    } else {
        assert(md@ =~= mid + ""@) by {
            reveal_strlit("");
        }
    }
    push_str(md, "\n");
    assert(md@ =~= old(md)@ + md_change(*c));
}

fn push_md_entry_head(md: &mut String, e: &ChangelogEntry)
    ensures
        final(md)@ == old(md)@ + md_entry_head(*e),
{
    push_str(md, "## ");
    push_str(md, e.date.as_str());
    push_str(md, " (Scan #");
    let b = decimal_i64(e.batch_id);
    push_str(md, b.as_str());
    push_str(md, ")\n\n");
    push_str(md, "Folders: `");
    push_str(md, e.folders_scanned.as_str());
    push_str(md, "`\n\n");
    push_str(md, "| Metric | Count |\n|--------|-------|\n| Files Scanned | ");
    let t = decimal_i64(e.total_files);
    push_str(md, t.as_str());
    push_str(md, " |\n| New | ");
    let n = decimal_i64(e.new_files);
    push_str(md, n.as_str());
    push_str(md, " |\n| Modified | ");
    let m = decimal_i64(e.modified_files);
    push_str(md, m.as_str());
    push_str(md, " |\n| Deleted | ");
    let d = decimal_i64(e.deleted_files);
    push_str(md, d.as_str());
    push_str(md, " |\n| Moved | ");
    let v = decimal_i64(e.moved_files);
    push_str(md, v.as_str());
    push_str(md, " |\n\n");
    assert(md@ =~= old(md)@ + md_entry_head(*e));
}

fn push_md_entry_changes(md: &mut String, e: &ChangelogEntry)
    ensures
        final(md)@ == old(md)@ + md_entry_changes(*e),
{
    let ghost mid = md@;
    if e.changes.len() > 0 {
        push_str(md, "### Changes\n\n");
        let ghost lines = e.changes@.map_values(|c: ChangeRecord| md_change(c));
        let ghost start = md@;
        let mut i: usize = 0;
        assert(lines.subrange(0, 0) =~= Seq::<Seq<char>>::empty());
        while i < e.changes.len()
            invariant
                i <= e.changes@.len(),
                lines == e.changes@.map_values(|c: ChangeRecord| md_change(c)),
                md@ == start + concat(lines.subrange(0, i as int)),
            decreases e.changes.len() - i,
        {
            push_md_change(md, &e.changes[i]);
            proof {
                assert(lines.subrange(0, i + 1).drop_last() =~= lines.subrange(0, i as int));
                assert(lines.subrange(0, i + 1).last() == md_change(e.changes@[i as int]));
            }
            i = i + 1;
            assert(md@ =~= start + concat(lines.subrange(0, i as int)));
        }
        assert(lines.subrange(0, e.changes.len() as int) =~= lines);
        push_str(md, "\n");
        assert(md@ =~= mid + md_entry_changes(*e));
    } else {
        assert(md@ =~= mid + ""@) by {
            reveal_strlit("");
        }
    }
}

fn push_md_entry(md: &mut String, e: &ChangelogEntry)
    ensures
        final(md)@ == old(md)@ + md_entry(*e),
{
    push_md_entry_head(md, e);
    push_md_entry_changes(md, e);
    assert(md@ =~= old(md)@ + md_entry(*e));
}

/// The Markdown changelog of the given scans.
pub fn generate_changelog_markdown(entries: &Vec<ChangelogEntry>) -> (r: String)
    ensures
        r@ == changelog_markdown(entries@),
{
    let mut md = owned("# Changelog\n\nGenerated by What Changed?\n\n");
    let ghost parts = entries@.map_values(|e: ChangelogEntry| md_entry(e));
    let mut i: usize = 0;
    assert(parts.subrange(0, 0) =~= Seq::<Seq<char>>::empty());
    while i < entries.len()
        invariant
            i <= entries@.len(),
            parts == entries@.map_values(|e: ChangelogEntry| md_entry(e)),
            md@ == "# Changelog\n\nGenerated by What Changed?\n\n"@ + concat(parts.subrange(0, i as int)),
        decreases entries.len() - i,
    {
        push_md_entry(&mut md, &entries[i]);
        proof {
            assert(parts.subrange(0, i + 1).drop_last() =~= parts.subrange(0, i as int));
            assert(parts.subrange(0, i + 1).last() == md_entry(entries@[i as int]));
        }
        i = i + 1;
    }
    assert(parts.subrange(0, entries.len() as int) =~= parts);
    md
}

// ---------------------------------------------------------------------
// The day's one-line summary
// ---------------------------------------------------------------------

/// One piece of the day's summary, present when its count is positive.
pub open spec fn plain_piece(n: i64, word: Seq<char>) -> Seq<Seq<char>> {
    if n > 0 {
        seq![decimal_int(n as int) + " "@ + word]
    } else {
        Seq::empty()
    }
}

/// The day's summary line.
pub open spec fn daily_summary(s: ChangeStats) -> Seq<char> {
    if s.new_count + s.modified_count + s.deleted_count + s.moved_count == 0 {
        "No changes detected today."@
    } else {
        "Today: "@ + join(
            plain_piece(s.new_count, "new"@) + plain_piece(s.modified_count, "modified"@)
                + plain_piece(s.deleted_count, "deleted"@) + plain_piece(s.moved_count, "moved"@),
            ", "@,
        )
    }
}

fn push_plain_piece(parts: &mut Vec<String>, n: i64, word: &str)
    ensures
        final(parts)@.map_values(|x: String| x@) == old(parts)@.map_values(|x: String| x@)
            + plain_piece(n, word@),
{
    if n > 0 {
        let mut p = decimal_i64(n);
        push_str(&mut p, " ");
        push_str(&mut p, word);
        let ghost before = parts@.map_values(|x: String| x@);
        parts.push(p);
        assert(parts@.map_values(|x: String| x@) =~= before + plain_piece(n, word@));
    } else {
        assert(parts@.map_values(|x: String| x@) =~= parts@.map_values(|x: String| x@)
            + plain_piece(n, word@));
    }
}

/// The day's summary line from today's counts.
pub fn build_daily_summary(stats: &ChangeStats) -> (r: String)
    requires
        i64::MIN <= stats.new_count + stats.modified_count <= i64::MAX,
        i64::MIN <= stats.new_count + stats.modified_count + stats.deleted_count <= i64::MAX,
        i64::MIN <= stats.new_count + stats.modified_count + stats.deleted_count
            + stats.moved_count <= i64::MAX,
    ensures
        r@ == daily_summary(*stats),
{
    let total = stats.new_count + stats.modified_count + stats.deleted_count + stats.moved_count;
    if total == 0 {
        return owned("No changes detected today.");
    }
    let mut parts: Vec<String> = Vec::new();
    push_plain_piece(&mut parts, stats.new_count, "new");
    push_plain_piece(&mut parts, stats.modified_count, "modified");
    push_plain_piece(&mut parts, stats.deleted_count, "deleted");
    push_plain_piece(&mut parts, stats.moved_count, "moved");
    let mut r = owned("Today: ");
    let j = join_exec(parts.as_slice(), ", ");
    push_str(&mut r, j.as_str());
    r
}

} // verus!
