//! XSPF documents for performance history sessions.

use vstd::prelude::*;

use crate::key_format::is_digit;

use crate::text::{
    contains_seq, occurs_at, chars_of, dec, dec_int, owned, push_chars, push_char, push_dec, push_dec_i64, push_str,
};

verus! {

/// XML namespace of the Mixar history extension elements.
pub open spec fn mixar_ns() -> Seq<char> {
    "https://mixar.app/ns/history/1"@
}

/// Session-level metadata of a history document.
#[derive(Clone, Debug, PartialEq)]
pub struct SessionMeta {
    pub id: String,
    pub title: String,
    pub started_at: String,
    pub last_activity_at: String,
    pub closed: bool,
}

impl Default for SessionMeta {
    fn default() -> (m: Self)
        ensures
            m.id@.len() == 0 && m.title@.len() == 0 && m.started_at@.len() == 0
                && m.last_activity_at@.len() == 0 && !m.closed,
    {
        SessionMeta {
            id: String::new(),
            title: String::new(),
            started_at: String::new(),
            last_activity_at: String::new(),
            closed: false,
        }
    }
}

/// One logged play. `bpm` holds the BPM as its decimal text (the number
/// itself is a float, rendered and parsed at the application's edge).
#[derive(Clone, Debug, PartialEq)]
pub struct HistoryEntry {
    pub id: String,
    pub deck: u16,
    pub track_id: Option<String>,
    pub location: String,
    pub title: Option<String>,
    pub artist: Option<String>,
    pub album: Option<String>,
    pub duration_sec: Option<i32>,
    pub bpm: Option<String>,
    pub key: Option<String>,
    pub isrc: Option<String>,
    pub started_at: String,
    pub ended_at: Option<String>,
    pub played_duration_ms: Option<i64>,
}

/// A history session: its metadata and the plays in order.
#[derive(Clone, Debug, PartialEq)]
pub struct HistoryDocument {
    pub session: SessionMeta,
    pub entries: Vec<HistoryEntry>,
}

/// A lower-case hexadecimal digit.
pub open spec fn is_lower_hex(c: char) -> bool {
    ('0' <= c <= '9') || ('a' <= c <= 'f')
}

/// The text of a version-4 UUID: 36 characters, lower-case hexadecimal digits
/// in groups of 8, 4, 4, 4 and 12 joined by `-`, the version digit `4` and a
/// variant digit of `8`, `9`, `a` or `b`.
pub open spec fn is_uuid_v4_text(s: Seq<char>) -> bool {
    &&& s.len() == 36
    &&& forall|i: int|
        0 <= i < 36 ==> (if i == 8 || i == 13 || i == 18 || i == 23 {
            s[i] == '-'
        } else {
            is_lower_hex(#[trigger] s[i])
        })
    &&& s[14] == '4'
    &&& (s[19] == '8' || s[19] == '9' || s[19] == 'a' || s[19] == 'b')
}

/// `-MM-DDTHH:MM:SSZ`: the part of a time stamp after the year.
pub open spec fn is_stamp_tail(t: Seq<char>) -> bool {
    &&& t.len() == 16
    &&& forall|i: int|
        0 <= i < 16 ==> (if i == 0 || i == 3 {
            t[i] == '-'
        } else if i == 6 {
            t[i] == 'T'
        } else if i == 9 || i == 12 {
            t[i] == ':'
        } else if i == 15 {
            t[i] == 'Z'
        } else {
            is_digit(#[trigger] t[i])
        })
}

/// The text of a UTC time as `YYYY-MM-DDTHH:MM:SSZ`: the year has four digits,
/// or a sign and at least four digits outside 0 to 9999.
pub open spec fn is_utc_stamp_text(s: Seq<char>) -> bool {
    let k = s.len() - 16;
    let signed = s.len() > 0 && (s[0] == '+' || s[0] == '-');
    &&& s.len() >= 20
    &&& k >= (if signed { 5int } else { 4int })
    &&& forall|i: int| (if signed { 1int } else { 0int }) <= i < k ==> is_digit(#[trigger] s[i])
    &&& is_stamp_tail(s.skip(k))
}

/// A fresh random id: `Uuid::new_v4` as text (`Display`, hyphenated lower
/// case), which has the form of [`is_uuid_v4_text`]; its digits are random.
#[verifier::external_body]
pub fn new_uuid() -> (id: String)
    ensures
        is_uuid_v4_text(id@),
{
    uuid::Uuid::new_v4().to_string()
}

/// The current UTC time (`Utc::now`) formatted as `%Y-%m-%dT%H:%M:%SZ`, which
/// has the form of [`is_utc_stamp_text`]; which time it is depends on the
/// clock.
#[verifier::external_body]
pub fn utc_now_rfc3339() -> (now: String)
    ensures
        is_utc_stamp_text(now@),
{
    chrono::Utc::now().format("%Y-%m-%dT%H:%M:%SZ").to_string()
}

impl HistoryDocument {
    /// A new open session titled `title`, started now, with no entries.
    pub fn new_session(title: &str) -> (doc: Self)
        ensures
            is_uuid_v4_text(doc.session.id@),
            is_utc_stamp_text(doc.session.started_at@),
            doc.session.title@ == title@,
            doc.session.started_at@ == doc.session.last_activity_at@,
            !doc.session.closed,
            doc.entries@.len() == 0,
    {
        let now = utc_now_rfc3339();
        HistoryDocument {
            session: SessionMeta {
                id: new_uuid(),
                title: owned(title),
                started_at: now.clone(),
                last_activity_at: now,
                closed: false,
            },
            entries: Vec::new(),
        }
    }
}

/// `c` is an ASCII letter or digit.
pub open spec fn is_ascii_alnum(c: char) -> bool {
    ('0' <= c <= '9') || ('a' <= c <= 'z') || ('A' <= c <= 'Z')
}

/// The ASCII letters and digits of `s`, in order.
pub open spec fn alnum_only(s: Seq<char>) -> Seq<char>
    decreases s.len(),
{
    if s.len() == 0 {
        seq![]
    } else if is_ascii_alnum(s.last()) {
        alnum_only(s.drop_last()).push(s.last())
    } else {
        alnum_only(s.drop_last())
    }
}

/// File name of a session's XSPF file: the start timestamp's letters and digits, then `.xspf`.
pub open spec fn session_filename_of(started_at: Seq<char>) -> Seq<char> {
    alnum_only(started_at) + ".xspf"@
}

/// XSPF file name for a session started at `started_at`.
pub fn session_filename_from_started_at(started_at: &str) -> (name: String)
    ensures
        name@ == session_filename_of(started_at@),
{
    let cs = chars_of(started_at);
    let mut out = String::new();
    let mut i: usize = 0;
    while i < cs.len()
        invariant
            i <= cs.len(),
            out@ == alnum_only(cs@.take(i as int)),
        decreases cs.len() - i,
    {
        let c = cs[i];
        assert(cs@.take(i + 1).drop_last() =~= cs@.take(i as int));
        if ('0' <= c && c <= '9') || ('a' <= c && c <= 'z') || ('A' <= c && c <= 'Z') {
            push_char(&mut out, c);
        }
        i = i + 1;
    }
    assert(cs@.take(cs.len() as int) =~= cs@);
    push_str(&mut out, ".xspf");
    out
}

/// The escaped form of one character in XML text and attribute values.
pub open spec fn escape_char(c: char) -> Seq<char> {
    if c == '&' {
        "&amp;"@
    } else if c == '<' {
        "&lt;"@
    } else if c == '>' {
        "&gt;"@
    } else if c == '"' {
        "&quot;"@
    } else {
        seq![c]
    }
}

/// `s` with `&`, `<`, `>` and `"` replaced by their XML entities.
pub open spec fn xml_escape_of(s: Seq<char>) -> Seq<char>
    decreases s.len(),
{
    if s.len() == 0 {
        seq![]
    } else {
        xml_escape_of(s.drop_last()) + escape_char(s.last())
    }
}

/// Appends the XML-escaped form of `cs` to `out`.
pub fn push_escaped(out: &mut String, cs: &[char])
    ensures
        final(out)@ == old(out)@ + xml_escape_of(cs@),
{
    let mut i: usize = 0;
    while i < cs.len()
        invariant
            i <= cs.len(),
            out@ == old(out)@ + xml_escape_of(cs@.take(i as int)),
        decreases cs.len() - i,
    {
        let c = cs[i];
        assert(cs@.take(i + 1).drop_last() =~= cs@.take(i as int));
        let ghost before = out@;
        if c == '&' {
            push_str(out, "&amp;");
        } else if c == '<' {
            push_str(out, "&lt;");
        } else if c == '>' {
            push_str(out, "&gt;");
        } else if c == '"' {
            push_str(out, "&quot;");
        } else {
            push_char(out, c);
            assert(before.push(c) =~= before + seq![c]);
        }
        assert(out@ =~= old(out)@ + xml_escape_of(cs@.take(i + 1)));
        i = i + 1;
    }
    assert(cs@.take(cs.len() as int) =~= cs@);
}

/// Escape text for XML.
pub fn xml_escape(raw: &str) -> (out: String)
    ensures
        out@ == xml_escape_of(raw@),
{
    let cs = chars_of(raw);
    let mut out = String::new();
    push_escaped(&mut out, cs.as_slice());
    out
}

/// Appends the XML-escaped form of `s` to `out`.
pub fn push_escaped_str(out: &mut String, s: &str)
    ensures
        final(out)@ == old(out)@ + xml_escape_of(s@),
{
    let cs = chars_of(s);
    push_escaped(out, cs.as_slice());
}

/// UTF-8 width of a character.
pub open spec fn utf8_width(c: char) -> nat {
    let u = c as u32;
    if u < 0x80 {
        1
    } else if u < 0x800 {
        2
    } else if u < 0x10000 {
        3
    } else {
        4
    }
}

/// The leading characters of `s` that take exactly `n` bytes, if such a prefix exists
/// (`str::get(..n)`).
pub open spec fn byte_prefix(s: Seq<char>, n: nat) -> Option<Seq<char>>
    decreases s.len(),
{
    if n == 0 {
        Some(seq![])
    } else if s.len() == 0 || utf8_width(s[0]) > n {
        None
    } else {
        match byte_prefix(s.drop_first(), (n - utf8_width(s[0])) as nat) {
            Some(p) => Some(seq![s[0]] + p),
            None => None,
        }
    }
}

/// The date shown for a session: the first ten bytes of its start timestamp,
/// or the whole timestamp when it has no such prefix.
pub open spec fn session_date_of(started_at: Seq<char>) -> Seq<char> {
    match byte_prefix(started_at, 10) {
        Some(p) => p,
        None => started_at,
    }
}

fn utf8_width_of(c: char) -> (w: usize)
    ensures
        w == utf8_width(c),
{
    let u = c as u32;
    if u < 0x80 {
        1
    } else if u < 0x800 {
        2
    } else if u < 0x10000 {
        3
    } else {
        4
    }
}

proof fn lemma_byte_prefix_step(s: Seq<char>, i: int, used: nat)
    requires
        0 <= i < s.len(),
        used + utf8_width(s[i]) <= 10,
        byte_prefix(s, 10) == (match byte_prefix(s.skip(i), (10 - used) as nat) {
            Some(p) => Some(s.take(i) + p),
            None => None::<Seq<char>>,
        }),
        used < 10,
    ensures
        byte_prefix(s, 10) == (match byte_prefix(s.skip(i + 1), (10 - used - utf8_width(s[i])) as nat) {
            Some(p) => Some(s.take(i + 1) + p),
            None => None::<Seq<char>>,
        }),
{
    let t = s.skip(i);
    assert(t[0] == s[i]);
    assert(t.drop_first() =~= s.skip(i + 1));
    match byte_prefix(s.skip(i + 1), (10 - used - utf8_width(s[i])) as nat) {
        Some(p) => {
            assert(s.take(i) + (seq![s[i]] + p) =~= s.take(i + 1) + p);
        },
        None => {},
    }
}

/// The session date for a start timestamp.
pub fn session_date(started_at: &str) -> (d: Vec<char>)
    ensures
        d@ == session_date_of(started_at@),
{
    let cs = chars_of(started_at);
    let mut used: usize = 0;
    let mut i: usize = 0;
    assert(cs@.skip(0) =~= cs@);
    assert(cs@.take(0) + cs@ =~= cs@);
    assert(byte_prefix(cs@, 10) == (match byte_prefix(cs@.skip(0), 10) {
        Some(p) => Some(cs@.take(0) + p),
        None => None::<Seq<char>>,
    })) by {
        match byte_prefix(cs@, 10) {
            Some(p) => {
                assert(cs@.take(0) + p =~= p);
            },
            None => {},
        }
    }
    while used < 10 && i < cs.len() && used + utf8_width_of(cs[i]) <= 10
        invariant
            i <= cs.len(),
            used <= 10,
            cs@ == started_at@,
            byte_prefix(cs@, 10) == (match byte_prefix(cs@.skip(i as int), (10 - used) as nat) {
                Some(p) => Some(cs@.take(i as int) + p),
                None => None::<Seq<char>>,
            }),
        decreases cs.len() - i,
    {
        proof {
            lemma_byte_prefix_step(cs@, i as int, used as nat);
        }
        used = used + utf8_width_of(cs[i]);
        i = i + 1;
    }
    let mut out: Vec<char> = Vec::new();
    let mut k: usize = 0;
    let n = if used == 10 {
        i
    } else {
        cs.len()
    };
    proof {
        if used == 10 {
            assert(cs@.take(i as int) + seq![] =~= cs@.take(i as int));
        } else {
            let t = cs@.skip(i as int);
            if i < cs.len() {
                assert(t[0] == cs@[i as int]);
            }
        }
    }
    while k < n
        invariant
            k <= n <= cs.len(),
            out@ == cs@.take(k as int),
        decreases n - k,
    {
        out.push(cs[k]);
        assert(cs@.take(k as int).push(cs@[k as int]) =~= cs@.take(k + 1));
        k = k + 1;
    }
    assert(cs@.take(cs.len() as int) =~= cs@);
    out
}

/// `Some(x)`'s text, or nothing.
pub open spec fn opt_text(o: Option<String>) -> Seq<char> {
    match o {
        Some(s) => s@,
        None => seq![],
    }
}

/// XML-escaped optional text, or nothing.
pub open spec fn opt_escaped(o: Option<String>) -> Seq<char> {
    match o {
        Some(s) => xml_escape_of(s@),
        None => seq![],
    }
}

/// Decimal text of an optional signed number, or nothing.
pub open spec fn opt_num(o: Option<i64>) -> Seq<char> {
    match o {
        Some(v) => dec_int(v as int),
        None => seq![],
    }
}

/// `<tag>escaped text</tag>` on its own indented line, when the value is present.
pub open spec fn opt_element(indent_open: Seq<char>, close: Seq<char>, o: Option<String>) -> Seq<char> {
    match o {
        Some(s) => indent_open + xml_escape_of(s@) + close,
        None => seq![],
    }
}

/// The duration element of an entry, when it has a duration.
pub open spec fn duration_element(d: Option<i32>) -> Seq<char> {
    match d {
        Some(v) => "      <duration>"@ + dec_int(v as int) + "</duration>\n"@,
        None => seq![],
    }
}

/// The XSPF elements of one entry before its extension block.
pub open spec fn render_entry_head_of(e: HistoryEntry) -> Seq<char> {
    "    <track>\n"@ + "      <location>"@ + xml_escape_of(e.location@) + "</location>\n"@
        + opt_element("      <title>"@, "</title>\n"@, e.title) + opt_element(
        "      <creator>"@,
        "</creator>\n"@,
        e.artist,
    ) + opt_element("      <album>"@, "</album>\n"@, e.album) + duration_element(e.duration_sec)
}

/// The attributes of an entry's `<entry>` element, up to the track id.
pub open spec fn render_entry_attrs1_of(e: HistoryEntry) -> Seq<char> {
    "      <extension application=\""@ + mixar_ns() + "\">\n"@ + "        <entry id=\""@
        + xml_escape_of(e.id@) + "\" deck=\""@ + dec(e.deck as nat) + "\" track_id=\""@
        + opt_escaped(e.track_id) + "\" started_at=\""@ + xml_escape_of(e.started_at@)
}

/// The remaining attributes of an entry's `<entry>` element and the closing tags.
pub open spec fn render_entry_attrs2_of(e: HistoryEntry) -> Seq<char> {
    "\" ended_at=\""@ + opt_escaped(e.ended_at) + "\" played_duration_ms=\""@ + opt_num(
        e.played_duration_ms,
    ) + "\" bpm=\""@ + opt_text(e.bpm) + "\" key=\""@ + opt_escaped(e.key) + "\" isrc=\""@
        + opt_escaped(e.isrc) + "\"/>\n"@ + "      </extension>\n"@ + "    </track>\n"@
}

/// The XSPF text of one entry.
pub open spec fn render_entry_of(e: HistoryEntry) -> Seq<char> {
    render_entry_head_of(e) + render_entry_attrs1_of(e) + render_entry_attrs2_of(e)
}

/// The XSPF text of a run of entries, in order.
pub open spec fn render_entries_of(es: Seq<HistoryEntry>) -> Seq<char>
    decreases es.len(),
{
    if es.len() == 0 {
        seq![]
    } else {
        render_entries_of(es.drop_last()) + render_entry_of(es.last())
    }
}

/// The XSPF text of a whole document.
pub open spec fn render_document_of(doc: HistoryDocument) -> Seq<char> {
    "<?xml version=\"1.0\" encoding=\"UTF-8\"?>\n"@
        + "<playlist version=\"1\" xmlns=\"http://xspf.org/ns/0/\">\n"@ + "  <title>"@
        + xml_escape_of(doc.session.title@) + "</title>\n"@ + "  <creator>Mixar</creator>\n"@
        + "  <date>"@ + session_date_of(doc.session.started_at@) + "</date>\n"@
        + "  <info>Mixar performance session</info>\n"@ + "  <extension application=\""@
        + mixar_ns() + "\">\n    <session id=\""@ + xml_escape_of(doc.session.id@)
        + "\" started_at=\""@ + xml_escape_of(doc.session.started_at@) + "\" last_activity_at=\""@
        + xml_escape_of(doc.session.last_activity_at@) + "\" closed=\""@ + (if doc.session.closed {
        "true"@
    } else {
        "false"@
    }) + "\"/>\n  </extension>\n"@ + "  <trackList>\n"@ + render_entries_of(doc.entries@)
        + "  </trackList>\n"@ + "</playlist>\n"@
}

/// A piece that occurs in the middle part also occurs in the whole.
proof fn lemma_occurs_in_middle(a: Seq<char>, b: Seq<char>, c: Seq<char>, t: Seq<char>, k: int)
    requires
        occurs_at(b, t, k),
    ensures
        occurs_at(a + b + c, t, a.len() + k),
{
    assert((a + b + c).subrange(a.len() + k, a.len() + k + t.len()) =~= b.subrange(k, k + t.len()));
}

/// A piece of one entry's text occurs in the text of every run of entries
/// holding that entry.
proof fn lemma_entry_in_entries(es: Seq<HistoryEntry>, i: int, t: Seq<char>, k: int) -> (at: int)
    requires
        0 <= i < es.len(),
        occurs_at(render_entry_of(es[i]), t, k),
    ensures
        occurs_at(render_entries_of(es), t, at),
    decreases es.len(),
{
    let head = render_entries_of(es.drop_last());
    if i == es.len() - 1 {
        lemma_occurs_in_middle(head, render_entry_of(es.last()), seq![], t, k);
        assert(head + render_entry_of(es.last()) + seq![] =~= render_entries_of(es));
        head.len() + k
    } else {
        assert(es.drop_last()[i] == es[i]);
        let k2 = lemma_entry_in_entries(es.drop_last(), i, t, k);
        lemma_occurs_in_middle(seq![], head, render_entry_of(es.last()), t, k2);
        assert(seq![] + head + render_entry_of(es.last()) =~= render_entries_of(es));
        k2
    }
}

/// A piece of one entry's text occurs in the whole document's text.
proof fn lemma_entry_in_document(doc: HistoryDocument, i: int, t: Seq<char>, k: int)
    requires
        0 <= i < doc.entries@.len(),
        occurs_at(render_entry_of(doc.entries@[i]), t, k),
    ensures
        contains_seq(render_document_of(doc), t),
{
    let r = render_entries_of(doc.entries@);
    let at = lemma_entry_in_entries(doc.entries@, i, t, k);
    let pre = "<?xml version=\"1.0\" encoding=\"UTF-8\"?>\n"@
        + "<playlist version=\"1\" xmlns=\"http://xspf.org/ns/0/\">\n"@ + "  <title>"@
        + xml_escape_of(doc.session.title@) + "</title>\n"@ + "  <creator>Mixar</creator>\n"@
        + "  <date>"@ + session_date_of(doc.session.started_at@) + "</date>\n"@
        + "  <info>Mixar performance session</info>\n"@ + "  <extension application=\""@
        + mixar_ns() + "\">\n    <session id=\""@ + xml_escape_of(doc.session.id@)
        + "\" started_at=\""@ + xml_escape_of(doc.session.started_at@) + "\" last_activity_at=\""@
        + xml_escape_of(doc.session.last_activity_at@) + "\" closed=\""@ + (if doc.session.closed {
        "true"@
    } else {
        "false"@
    }) + "\"/>\n  </extension>\n"@ + "  <trackList>\n"@;
    let post = "  </trackList>\n"@ + "</playlist>\n"@;
    lemma_occurs_in_middle(pre, r, post, t, at);
    assert(pre + r + post =~= render_document_of(doc));
}

/// Every entry's location, and each of its optional fields that is present,
/// is written into the document as its own element line, with its text
/// escaped: `<location>`, `<title>`, `<creator>` (the artist), `<album>` and
/// `<duration>` (whole seconds).
pub proof fn law_render_writes_entry_fields(doc: HistoryDocument, i: int)
    requires
        0 <= i < doc.entries@.len(),
    ensures
        ({
            let e = doc.entries@[i];
            &&& e.title matches Some(x) ==> contains_seq(
                render_document_of(doc),
                "      <title>"@ + xml_escape_of(x@) + "</title>\n"@,
            )
            &&& e.artist matches Some(x) ==> contains_seq(
                render_document_of(doc),
                "      <creator>"@ + xml_escape_of(x@) + "</creator>\n"@,
            )
            &&& e.album matches Some(x) ==> contains_seq(
                render_document_of(doc),
                "      <album>"@ + xml_escape_of(x@) + "</album>\n"@,
            )
        }),
        contains_seq(
            render_document_of(doc),
            "      <location>"@ + xml_escape_of(doc.entries@[i].location@) + "</location>\n"@,
        ),
        doc.entries@[i].duration_sec matches Some(d) ==> contains_seq(
            render_document_of(doc),
            "      <duration>"@ + dec_int(d as int) + "</duration>\n"@,
        ),
{
    let e = doc.entries@[i];
    let a0 = "    <track>\n"@ + "      <location>"@ + xml_escape_of(e.location@) + "</location>\n"@;
    let ti = opt_element("      <title>"@, "</title>\n"@, e.title);
    let cr = opt_element("      <creator>"@, "</creator>\n"@, e.artist);
    let al = opt_element("      <album>"@, "</album>\n"@, e.album);
    let rest = duration_element(e.duration_sec) + render_entry_attrs1_of(e) + render_entry_attrs2_of(e);
    assert(render_entry_of(e) =~= a0 + ti + cr + al + rest);
    assert(render_entry_of(e) == a0 + ti + (cr + al + rest)) by {
        assert(a0 + ti + cr + al + rest =~= a0 + ti + (cr + al + rest));
    }
    lemma_piece_in_document(doc, i, a0, ti, cr + al + rest);
    assert(render_entry_of(e) == (a0 + ti) + cr + (al + rest)) by {
        assert(a0 + ti + cr + al + rest =~= (a0 + ti) + cr + (al + rest));
    }
    lemma_piece_in_document(doc, i, a0 + ti, cr, al + rest);
    lemma_piece_in_document(doc, i, a0 + ti + cr, al, rest);
    lemma_location_and_duration(doc, i);
}

/// The location and duration lines of an entry occur in the document.
proof fn lemma_location_and_duration(doc: HistoryDocument, i: int)
    requires
        0 <= i < doc.entries@.len(),
    ensures
        contains_seq(
            render_document_of(doc),
            "      <location>"@ + xml_escape_of(doc.entries@[i].location@) + "</location>\n"@,
        ),
        doc.entries@[i].duration_sec matches Some(d) ==> contains_seq(
            render_document_of(doc),
            "      <duration>"@ + dec_int(d as int) + "</duration>\n"@,
        ),
{
    let e = doc.entries@[i];
    let a0 = "    <track>\n"@ + "      <location>"@ + xml_escape_of(e.location@) + "</location>\n"@;
    let ti = opt_element("      <title>"@, "</title>\n"@, e.title);
    let cr = opt_element("      <creator>"@, "</creator>\n"@, e.artist);
    let al = opt_element("      <album>"@, "</album>\n"@, e.album);
    let rest = duration_element(e.duration_sec) + render_entry_attrs1_of(e) + render_entry_attrs2_of(e);
    assert(render_entry_of(e) =~= a0 + ti + cr + al + rest);
    let lo = "      <location>"@ + xml_escape_of(e.location@) + "</location>\n"@;
    let du = duration_element(e.duration_sec);
    assert(render_entry_of(e) == "    <track>\n"@ + lo + (ti + cr + al + rest)) by {
        assert(a0 + ti + cr + al + rest =~= "    <track>\n"@ + lo + (ti + cr + al + rest));
    }
    lemma_piece_in_document(doc, i, "    <track>\n"@, lo, ti + cr + al + rest);
    assert(render_entry_of(e) == (a0 + ti + cr + al) + du + (render_entry_attrs1_of(e)
        + render_entry_attrs2_of(e))) by {
        assert(a0 + ti + cr + al + rest =~= (a0 + ti + cr + al) + du + (render_entry_attrs1_of(e)
            + render_entry_attrs2_of(e)));
    }
    lemma_piece_in_document(
        doc,
        i,
        a0 + ti + cr + al,
        du,
        render_entry_attrs1_of(e) + render_entry_attrs2_of(e),
    );
}

/// A piece of one entry's text, between `a` and `b`, occurs in the document's text.
proof fn lemma_piece_in_document(doc: HistoryDocument, i: int, a: Seq<char>, piece: Seq<char>, b: Seq<char>)
    requires
        0 <= i < doc.entries@.len(),
        render_entry_of(doc.entries@[i]) == a + piece + b,
    ensures
        contains_seq(render_document_of(doc), piece),
{
    assert(piece.subrange(0, piece.len() as int) =~= piece);
    lemma_occurs_in_middle(a, piece, b, piece, 0);
    lemma_entry_in_document(doc, i, piece, a.len() as int);
}

fn push_opt_element(out: &mut String, open: &str, close: &str, o: &Option<String>)
    ensures
        final(out)@ == old(out)@ + opt_element(open@, close@, *o),
{
    match o {
        Some(s) => {
            push_str(out, open);
            push_escaped_str(out, s.as_str());
            push_str(out, close);
            assert(out@ =~= old(out)@ + opt_element(open@, close@, *o));
        },
        None => {
            assert(old(out)@ + opt_element(open@, close@, *o) =~= old(out)@);
        },
    }
}

fn push_opt_escaped(out: &mut String, o: &Option<String>)
    ensures
        final(out)@ == old(out)@ + opt_escaped(*o),
{
    match o {
        Some(s) => push_escaped_str(out, s.as_str()),
        None => {
            assert(old(out)@ + opt_escaped(*o) =~= old(out)@);
        },
    }
}

fn push_opt_text(out: &mut String, o: &Option<String>)
    ensures
        final(out)@ == old(out)@ + opt_text(*o),
{
    match o {
        Some(s) => push_str(out, s.as_str()),
        None => {
            assert(old(out)@ + opt_text(*o) =~= old(out)@);
        },
    }
}

fn push_entry_head(out: &mut String, e: &HistoryEntry)
    ensures
        final(out)@ == old(out)@ + render_entry_head_of(*e),
{
    push_str(out, "    <track>\n");
    push_str(out, "      <location>");
    push_escaped_str(out, e.location.as_str());
    push_str(out, "</location>\n");
    push_opt_element(out, "      <title>", "</title>\n", &e.title);
    push_opt_element(out, "      <creator>", "</creator>\n", &e.artist);
    push_opt_element(out, "      <album>", "</album>\n", &e.album);
    let ghost mid = out@;
    match e.duration_sec {
        Some(d) => {
            push_str(out, "      <duration>");
            push_dec_i64(out, d as i64);
            push_str(out, "</duration>\n");
            assert(out@ =~= mid + duration_element(e.duration_sec));
        },
        None => {
            assert(out@ =~= mid + duration_element(e.duration_sec));
        },
    }
    assert(out@ =~= old(out)@ + render_entry_head_of(*e));
}

fn push_entry_attrs1(out: &mut String, e: &HistoryEntry)
    ensures
        final(out)@ == old(out)@ + render_entry_attrs1_of(*e),
{
    push_str(out, "      <extension application=\"");
    push_str(out, "https://mixar.app/ns/history/1");
    push_str(out, "\">\n");
    push_str(out, "        <entry id=\"");
    push_escaped_str(out, e.id.as_str());
    push_str(out, "\" deck=\"");
    push_dec(out, e.deck as u64);
    push_str(out, "\" track_id=\"");
    push_opt_escaped(out, &e.track_id);
    push_str(out, "\" started_at=\"");
    push_escaped_str(out, e.started_at.as_str());
    assert(out@ =~= old(out)@ + render_entry_attrs1_of(*e));
}

fn push_entry_attrs2(out: &mut String, e: &HistoryEntry)
    ensures
        final(out)@ == old(out)@ + render_entry_attrs2_of(*e),
{
    push_str(out, "\" ended_at=\"");
    push_opt_escaped(out, &e.ended_at);
    push_str(out, "\" played_duration_ms=\"");
    let ghost mid = out@;
    match e.played_duration_ms {
        Some(v) => push_dec_i64(out, v),
        None => {},
    }
    assert(out@ =~= mid + opt_num(e.played_duration_ms));
    push_str(out, "\" bpm=\"");
    push_opt_text(out, &e.bpm);
    push_str(out, "\" key=\"");
    push_opt_escaped(out, &e.key);
    push_str(out, "\" isrc=\"");
    push_opt_escaped(out, &e.isrc);
    push_str(out, "\"/>\n");
    push_str(out, "      </extension>\n");
    push_str(out, "    </track>\n");
    assert(out@ =~= old(out)@ + render_entry_attrs2_of(*e));
}

fn push_entry(out: &mut String, e: &HistoryEntry)
    ensures
        final(out)@ == old(out)@ + render_entry_of(*e),
{
    push_entry_head(out, e);
    push_entry_attrs1(out, e);
    push_entry_attrs2(out, e);
    assert(out@ =~= old(out)@ + render_entry_of(*e));
}

/// The XSPF text of a history document.
pub fn render_document(doc: &HistoryDocument) -> (out: String)
    ensures
        out@ == render_document_of(*doc),
{
    let mut out = String::new();
    push_str(&mut out, "<?xml version=\"1.0\" encoding=\"UTF-8\"?>\n");
    push_str(&mut out, "<playlist version=\"1\" xmlns=\"http://xspf.org/ns/0/\">\n");
    push_str(&mut out, "  <title>");
    push_escaped_str(&mut out, doc.session.title.as_str());
    push_str(&mut out, "</title>\n");
    push_str(&mut out, "  <creator>Mixar</creator>\n");
    push_str(&mut out, "  <date>");
    let date = session_date(doc.session.started_at.as_str());
    push_chars(&mut out, date.as_slice());
    push_str(&mut out, "</date>\n");
    push_str(&mut out, "  <info>Mixar performance session</info>\n");
    push_str(&mut out, "  <extension application=\"");
    push_str(&mut out, "https://mixar.app/ns/history/1");
    push_str(&mut out, "\">\n    <session id=\"");
    push_escaped_str(&mut out, doc.session.id.as_str());
    push_str(&mut out, "\" started_at=\"");
    push_escaped_str(&mut out, doc.session.started_at.as_str());
    push_str(&mut out, "\" last_activity_at=\"");
    push_escaped_str(&mut out, doc.session.last_activity_at.as_str());
    push_str(&mut out, "\" closed=\"");
    if doc.session.closed {
        push_str(&mut out, "true");
    } else {
        push_str(&mut out, "false");
    }
    push_str(&mut out, "\"/>\n  </extension>\n");
    push_str(&mut out, "  <trackList>\n");
    let ghost head = out@;
    let mut i: usize = 0;
    while i < doc.entries.len()
        invariant
            i <= doc.entries@.len(),
            out@ == head + render_entries_of(doc.entries@.take(i as int)),
        decreases doc.entries.len() - i,
    {
        assert(doc.entries@.take(i + 1).drop_last() =~= doc.entries@.take(i as int));
        push_entry(&mut out, &doc.entries[i]);
        assert(out@ =~= head + render_entries_of(doc.entries@.take(i + 1)));
        i = i + 1;
    }
    assert(doc.entries@.take(doc.entries.len() as int) =~= doc.entries@);
    push_str(&mut out, "  </trackList>\n");
    push_str(&mut out, "</playlist>\n");
    assert(out@ =~= render_document_of(*doc));
    out
}

} // verus!
