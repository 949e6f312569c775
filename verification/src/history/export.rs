//! Derived export formats for history sessions (CSV, M3U8, plain text).

use vstd::prelude::*;

use crate::error::LibraryError;
use crate::history::xspf::{HistoryDocument, HistoryEntry, opt_text};
use crate::text::{chars_of, dec, dec_int, owned, push_char, push_chars, push_dec, push_dec_i64, push_str};

verus! {

/// Export file formats.
#[derive(Clone, Copy, Debug, PartialEq, Eq, Structural)]
pub enum HistoryExportFormat {
    Csv,
    M3u8,
    Txt,
}

/// Characters that make a spreadsheet treat a cell as a formula.
pub open spec fn is_formula_start(c: char) -> bool {
    c == '=' || c == '+' || c == '-' || c == '@'
}

/// `raw`, prefixed with `'` when it would start a formula.
pub open spec fn formula_guarded(raw: Seq<char>) -> Seq<char> {
    if raw.len() > 0 && is_formula_start(raw[0]) {
        seq!['\''] + raw
    } else {
        raw
    }
}

/// `s` contains a comma, a double quote or a newline.
pub open spec fn needs_quotes(s: Seq<char>) -> bool {
    s.contains(',') || s.contains('"') || s.contains('\n')
}

/// `s` with every `"` doubled.
pub open spec fn double_quotes(s: Seq<char>) -> Seq<char>
    decreases s.len(),
{
    if s.len() == 0 {
        seq![]
    } else {
        double_quotes(s.drop_last()) + (if s.last() == '"' {
            seq!['"', '"']
        } else {
            seq![s.last()]
        })
    }
}

/// One CSV cell: formula-guarded, then quoted (with doubled quotes) when it
/// holds a comma, a quote or a newline.
pub open spec fn csv_field_of(raw: Seq<char>) -> Seq<char> {
    let g = formula_guarded(raw);
    if needs_quotes(g) {
        seq!['"'] + double_quotes(g) + seq!['"']
    } else {
        g
    }
}

fn seq_has(cs: &[char], c: char) -> (b: bool)
    ensures
        b == cs@.contains(c),
{
    let mut i: usize = 0;
    while i < cs.len()
        invariant
            i <= cs.len(),
            forall|j: int| 0 <= j < i ==> cs@[j] != c,
        decreases cs.len() - i,
    {
        if cs[i] == c {
            return true;
        }
        i = i + 1;
    }
    false
}

/// Appends the CSV cell for `raw` to `out`.
pub fn push_csv_field(out: &mut String, raw: &str)
    ensures
        final(out)@ == old(out)@ + csv_field_of(raw@),
{
    let cs = chars_of(raw);
    let mut g: Vec<char> = Vec::new();
    if cs.len() > 0 && (cs[0] == '=' || cs[0] == '+' || cs[0] == '-' || cs[0] == '@') {
        g.push('\'');
    }
    let ghost pre = g@;
    let mut i: usize = 0;
    while i < cs.len()
        invariant
            i <= cs.len(),
            g@ == pre + cs@.take(i as int),
        decreases cs.len() - i,
    {
        g.push(cs[i]);
        assert(pre + cs@.take(i + 1) =~= g@);
        i = i + 1;
    }
    assert(cs@.take(cs.len() as int) =~= cs@);
    assert(g@ =~= formula_guarded(raw@));
    if seq_has(g.as_slice(), ',') || seq_has(g.as_slice(), '"') || seq_has(g.as_slice(), '\n') {
        let ghost before = out@;
        push_char(out, '"');
        let mut k: usize = 0;
        while k < g.len()
            invariant
                k <= g.len(),
                out@ == before.push('"') + double_quotes(g@.take(k as int)),
            decreases g.len() - k,
        {
            assert(g@.take(k + 1).drop_last() =~= g@.take(k as int));
            let ghost mid = out@;
            if g[k] == '"' {
                push_char(out, '"');
                push_char(out, '"');
                assert(out@ =~= mid + seq!['"', '"']);
            } else {
                push_char(out, g[k]);
                assert(out@ =~= mid + seq![g@[k as int]]);
            }
            assert(out@ =~= before.push('"') + double_quotes(g@.take(k + 1)));
            k = k + 1;
        }
        assert(g@.take(g.len() as int) =~= g@);
        push_char(out, '"');
        assert(out@ =~= before + csv_field_of(raw@));
    } else {
        push_chars(out, g.as_slice());
    }
}

/// A CSV cell for `raw`.
pub fn csv_field(raw: &str) -> (cell: String)
    ensures
        cell@ == csv_field_of(raw@),
{
    let mut out = String::new();
    push_csv_field(&mut out, raw);
    out
}

/// The text of an optional string, empty when absent.
pub open spec fn or_empty(o: Option<String>) -> Seq<char> {
    match o {
        Some(s) => s@,
        None => seq![],
    }
}

/// Decimal text of an optional number, empty when absent.
pub open spec fn opt_i64_text(o: Option<i64>) -> Seq<char> {
    match o {
        Some(v) => dec_int(v as int),
        None => seq![],
    }
}

/// The CSV header line.
pub open spec fn csv_header() -> Seq<char> {
    "position,started_at,ended_at,played_duration_ms,deck,title,artist,album,bpm,key,isrc,file_path,track_id\n"@
}

/// First half of a CSV row (position through deck).
pub open spec fn csv_row_head_of(position: nat, e: HistoryEntry) -> Seq<char> {
    dec(position) + ","@ + csv_field_of(e.started_at@) + ","@ + csv_field_of(or_empty(e.ended_at))
        + ","@ + opt_i64_text(e.played_duration_ms) + ","@ + dec(e.deck as nat)
}

/// Title through BPM cells of a CSV row.
pub open spec fn csv_row_tail1_of(e: HistoryEntry) -> Seq<char> {
    ","@ + csv_field_of(or_empty(e.title)) + ","@ + csv_field_of(or_empty(e.artist)) + ","@
        + csv_field_of(or_empty(e.album)) + ","@ + opt_text(e.bpm)
}

/// Key through track id cells of a CSV row.
pub open spec fn csv_row_tail2_of(e: HistoryEntry) -> Seq<char> {
    ","@ + csv_field_of(or_empty(e.key)) + ","@ + csv_field_of(or_empty(e.isrc)) + ","@
        + csv_field_of(e.location@) + ","@ + csv_field_of(or_empty(e.track_id))
}

/// Second half of a CSV row (title through track id).
pub open spec fn csv_row_tail_of(e: HistoryEntry) -> Seq<char> {
    csv_row_tail1_of(e) + csv_row_tail2_of(e)
}

/// One CSV row (without the line break).
pub open spec fn csv_row_of(position: nat, e: HistoryEntry) -> Seq<char> {
    csv_row_head_of(position, e) + csv_row_tail_of(e)
}

fn push_opt_field(out: &mut String, o: &Option<String>)
    ensures
        final(out)@ == old(out)@ + csv_field_of(or_empty(*o)),
{
    match o {
        Some(s) => {
            push_csv_field(out, s.as_str());
        },
        None => {
            proof {
                reveal_strlit("");
            }
            push_csv_field(out, "");
            assert(""@ =~= or_empty(*o));
        },
    }
}

fn push_row_head(out: &mut String, position: u64, e: &HistoryEntry)
    ensures
        final(out)@ == old(out)@ + csv_row_head_of(position as nat, *e),
{
    push_dec(out, position);
    push_str(out, ",");
    push_csv_field(out, e.started_at.as_str());
    push_str(out, ",");
    push_opt_field(out, &e.ended_at);
    push_str(out, ",");
    let ghost mid = out@;
    match e.played_duration_ms {
        Some(v) => push_dec_i64(out, v),
        None => {},
    }
    assert(out@ =~= mid + opt_i64_text(e.played_duration_ms));
    push_str(out, ",");
    push_dec(out, e.deck as u64);
    assert(out@ =~= old(out)@ + csv_row_head_of(position as nat, *e));
}

fn push_row_tail1(out: &mut String, e: &HistoryEntry)
    ensures
        final(out)@ == old(out)@ + csv_row_tail1_of(*e),
{
    push_str(out, ",");
    push_opt_field(out, &e.title);
    push_str(out, ",");
    push_opt_field(out, &e.artist);
    push_str(out, ",");
    push_opt_field(out, &e.album);
    push_str(out, ",");
    let ghost mid = out@;
    match &e.bpm {
        Some(b) => push_str(out, b.as_str()),
        None => {},
    }
    assert(out@ =~= mid + opt_text(e.bpm));
    assert(out@ =~= old(out)@ + csv_row_tail1_of(*e));
}

fn push_row_tail2(out: &mut String, e: &HistoryEntry)
    ensures
        final(out)@ == old(out)@ + csv_row_tail2_of(*e),
{
    push_str(out, ",");
    push_opt_field(out, &e.key);
    push_str(out, ",");
    push_opt_field(out, &e.isrc);
    push_str(out, ",");
    push_csv_field(out, e.location.as_str());
    push_str(out, ",");
    push_opt_field(out, &e.track_id);
    assert(out@ =~= old(out)@ + csv_row_tail2_of(*e));
}

fn push_row_tail(out: &mut String, e: &HistoryEntry)
    ensures
        final(out)@ == old(out)@ + csv_row_tail_of(*e),
{
    push_row_tail1(out, e);
    push_row_tail2(out, e);
    assert(out@ =~= old(out)@ + csv_row_tail_of(*e));
}

/// One CSV row for the entry at 1-based `position`.
pub fn csv_row(position: u64, e: &HistoryEntry) -> (row: String)
    ensures
        row@ == csv_row_of(position as nat, *e),
{
    let mut out = String::new();
    push_row_head(&mut out, position, e);
    push_row_tail(&mut out, e);
    out
}

/// CSV rows (each followed by a line break) for a run of entries numbered from 1.
pub open spec fn csv_rows_of(es: Seq<HistoryEntry>) -> Seq<char>
    decreases es.len(),
{
    if es.len() == 0 {
        seq![]
    } else {
        csv_rows_of(es.drop_last()) + csv_row_of(es.len(), es.last()) + "\n"@
    }
}

/// The CSV export of a document: header, then one row per entry.
pub open spec fn render_csv_of(doc: HistoryDocument) -> Seq<char> {
    csv_header() + csv_rows_of(doc.entries@)
}

/// CSV export.
pub fn render_csv(doc: &HistoryDocument) -> (body: String)
    requires
        doc.entries@.len() < u64::MAX,
    ensures
        body@ == render_csv_of(*doc),
{
    let mut out = owned("position,started_at,ended_at,played_duration_ms,deck,title,artist,album,bpm,key,isrc,file_path,track_id\n");
    let mut i: usize = 0;
    while i < doc.entries.len()
        invariant
            i <= doc.entries@.len() < u64::MAX,
            out@ == csv_header() + csv_rows_of(doc.entries@.take(i as int)),
        decreases doc.entries.len() - i,
    {
        assert(doc.entries@.take(i + 1).drop_last() =~= doc.entries@.take(i as int));
        let row = csv_row((i + 1) as u64, &doc.entries[i]);
        push_str(&mut out, row.as_str());
        push_str(&mut out, "\n");
        assert(out@ =~= csv_header() + csv_rows_of(doc.entries@.take(i + 1)));
        i = i + 1;
    }
    assert(doc.entries@.take(doc.entries.len() as int) =~= doc.entries@);
    out
}

/// The title shown for an entry: "title - artist", either one alone, or its location.
pub open spec fn display_title_of(e: HistoryEntry) -> Seq<char> {
    match (e.title, e.artist) {
        (Some(t), Some(a)) => t@ + " - "@ + a@,
        (Some(t), None) => t@,
        (None, Some(a)) => a@,
        (None, None) => e.location@,
    }
}

/// Title shown for an entry in playlist and text exports.
pub fn display_title(e: &HistoryEntry) -> (t: String)
    ensures
        t@ == display_title_of(*e),
{
    match (&e.title, &e.artist) {
        (Some(t), Some(a)) => {
            let mut out = t.clone();
            push_str(&mut out, " - ");
            push_str(&mut out, a.as_str());
            out
        },
        (Some(t), None) => t.clone(),
        (None, Some(a)) => a.clone(),
        (None, None) => e.location.clone(),
    }
}

/// The M3U8 lines of one entry: `#EXTINF:<seconds or -1>,<title>` and its location.
pub open spec fn m3u8_entry_of(e: HistoryEntry) -> Seq<char> {
    "#EXTINF:"@ + dec_int(
        match e.duration_sec {
            Some(d) => d as int,
            None => -1,
        },
    ) + ","@ + display_title_of(e) + "\n"@ + e.location@ + "\n"@
}

/// M3U8 lines of a run of entries.
pub open spec fn m3u8_entries_of(es: Seq<HistoryEntry>) -> Seq<char>
    decreases es.len(),
{
    if es.len() == 0 {
        seq![]
    } else {
        m3u8_entries_of(es.drop_last()) + m3u8_entry_of(es.last())
    }
}

/// The M3U8 export of a document.
pub open spec fn render_m3u8_of(doc: HistoryDocument) -> Seq<char> {
    "#EXTM3U\n"@ + m3u8_entries_of(doc.entries@)
}

/// M3U8 playlist export.
pub fn render_m3u8(doc: &HistoryDocument) -> (body: String)
    ensures
        body@ == render_m3u8_of(*doc),
{
    let mut out = owned("#EXTM3U\n");
    let mut i: usize = 0;
    while i < doc.entries.len()
        invariant
            i <= doc.entries@.len(),
            out@ == "#EXTM3U\n"@ + m3u8_entries_of(doc.entries@.take(i as int)),
        decreases doc.entries.len() - i,
    {
        assert(doc.entries@.take(i + 1).drop_last() =~= doc.entries@.take(i as int));
        let e = &doc.entries[i];
        let duration: i64 = match e.duration_sec {
            Some(d) => d as i64,
            None => -1,
        };
        let title = display_title(e);
        push_str(&mut out, "#EXTINF:");
        push_dec_i64(&mut out, duration);
        push_str(&mut out, ",");
        push_str(&mut out, title.as_str());
        push_str(&mut out, "\n");
        push_str(&mut out, e.location.as_str());
        push_str(&mut out, "\n");
        assert(out@ =~= "#EXTM3U\n"@ + m3u8_entries_of(doc.entries@.take(i + 1)));
        i = i + 1;
    }
    assert(doc.entries@.take(doc.entries.len() as int) =~= doc.entries@);
    out
}

/// Numbered title lines (`n. title`, each ending in a line break) of a run of entries.
pub open spec fn txt_lines_of(es: Seq<HistoryEntry>) -> Seq<char>
    decreases es.len(),
{
    if es.len() == 0 {
        seq![]
    } else {
        txt_lines_of(es.drop_last()) + dec(es.len()) + ". "@ + display_title_of(es.last()) + "\n"@
    }
}

/// The plain-text export: one numbered title per line; empty for no entries.
pub open spec fn render_txt_of(doc: HistoryDocument) -> Seq<char> {
    txt_lines_of(doc.entries@)
}

/// Plain-text export.
pub fn render_txt(doc: &HistoryDocument) -> (body: String)
    requires
        doc.entries@.len() < u64::MAX,
    ensures
        body@ == render_txt_of(*doc),
{
    let mut out = String::new();
    let mut i: usize = 0;
    while i < doc.entries.len()
        invariant
            i <= doc.entries@.len() < u64::MAX,
            out@ == txt_lines_of(doc.entries@.take(i as int)),
        decreases doc.entries.len() - i,
    {
        assert(doc.entries@.take(i + 1).drop_last() =~= doc.entries@.take(i as int));
        let title = display_title(&doc.entries[i]);
        push_dec(&mut out, (i + 1) as u64);
        push_str(&mut out, ". ");
        push_str(&mut out, title.as_str());
        push_str(&mut out, "\n");
        assert(out@ =~= txt_lines_of(doc.entries@.take(i + 1)));
        i = i + 1;
    }
    assert(doc.entries@.take(doc.entries.len() as int) =~= doc.entries@);
    out
}

/// The body written for an export in `format`.
pub open spec fn export_body_of(doc: HistoryDocument, format: HistoryExportFormat) -> Seq<char> {
    match format {
        HistoryExportFormat::Csv => render_csv_of(doc),
        HistoryExportFormat::M3u8 => render_m3u8_of(doc),
        HistoryExportFormat::Txt => render_txt_of(doc),
    }
}

/// The file body of a document exported in `format`.
pub fn export_body(doc: &HistoryDocument, format: HistoryExportFormat) -> (body: String)
    requires
        doc.entries@.len() < u64::MAX,
    ensures
        body@ == export_body_of(*doc, format),
{
    match format {
        HistoryExportFormat::Csv => render_csv(doc),
        HistoryExportFormat::M3u8 => render_m3u8(doc),
        HistoryExportFormat::Txt => render_txt(doc),
    }
}

/// A `history` backend error carrying `message`.
pub fn history_error(message: String) -> (e: LibraryError)
    ensures
        e matches LibraryError::Backend { backend, message: m } && backend@ == "history"@ && m
            == message,
{
    LibraryError::Backend { backend: "history", message }
}

/// A CSV cell never starts with a character that makes a spreadsheet evaluate
/// it as a formula.
pub proof fn law_csv_field_no_formula(raw: Seq<char>)
    ensures
        csv_field_of(raw).len() == 0 || !is_formula_start(csv_field_of(raw)[0]),
{
    let g = formula_guarded(raw);
    if !needs_quotes(g) && raw.len() > 0 && is_formula_start(raw[0]) {
        assert(g[0] == '\'');
    }
}

/// Plain text (no comma, quote, newline, no formula start) is written unchanged.
pub proof fn law_csv_field_plain(raw: Seq<char>)
    requires
        !needs_quotes(raw),
        raw.len() == 0 || !is_formula_start(raw[0]),
    ensures
        csv_field_of(raw) == raw,
{
}

} // verus!
