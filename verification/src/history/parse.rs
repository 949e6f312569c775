//! Reading XSPF history documents back: XML tokens come from `quick_xml`, the
//! document is assembled from them here.

use vstd::prelude::*;

use crate::history::xspf::{HistoryDocument, HistoryEntry, SessionMeta, new_uuid, utc_now_rfc3339};
use crate::key_format::{all_digits, digits_value, is_digit};
use crate::text::{chars_eq, chars_of, lower_chars, lower_seq, owned, push_str};

verus! {

/// A start or empty-element tag: its name and its whole content (name and
/// attributes, as between `<` and `>`), with the name's length in bytes.
#[derive(Clone, Debug)]
pub struct XmlTag {
    pub name: String,
    pub content: String,
    pub name_len: usize,
}

/// One XML token, as far as history documents care.
#[derive(Clone, Debug)]
pub enum XmlEvent {
    Start(XmlTag),
    Empty(XmlTag),
    Text(String),
    End(String),
    Eof,
    Error(String),
    Other,
}

/// `quick_xml::Reader`, carried opaquely.
#[verifier::external_type_specification]
#[verifier::external_body]
#[verifier::reject_recursive_types(R)]
pub struct ExXmlReader<R>(quick_xml::Reader<R>);

/// `quick_xml::events::BytesStart`, carried opaquely.
#[verifier::external_type_specification]
#[verifier::external_body]
pub struct ExBytesStart<'a>(quick_xml::events::BytesStart<'a>);

/// A `quick_xml` reader over `bytes` that trims whitespace around text.
#[verifier::external_body]
fn xml_reader(bytes: &[u8]) -> (r: quick_xml::Reader<&[u8]>) {
    let mut reader = quick_xml::Reader::from_reader(bytes);
    reader.config_mut().trim_text(true);
    reader
}

/// The tag of a start or empty-element event: its name and whole content as
/// text (invalid UTF-8 replaced), and the name's length in bytes of that text.
/// The name's bytes are those of the content up to its first whitespace, so
/// the content's text begins with the name's text.
#[verifier::external_body]
fn xml_tag(e: &quick_xml::events::BytesStart) -> (t: XmlTag) {
    let name = String::from_utf8_lossy(e.name().as_ref()).into_owned();
    let content = String::from_utf8_lossy(&e[..]).into_owned();
    let name_len = name.len();
    XmlTag { name, content, name_len }
}

/// The `k`-th token (counting from 0) that a `quick_xml` reader over `bytes`,
/// trimming whitespace around text, hands out through [`XmlStream::next`].
pub uninterp spec fn xml_event(bytes: Seq<u8>, k: nat) -> XmlEvent;

/// Number of UTF-8 bytes of a character.
pub open spec fn utf8_width(c: char) -> nat {
    if (c as u32) < 0x80 {
        1
    } else if (c as u32) < 0x800 {
        2
    } else if (c as u32) < 0x10000 {
        3
    } else {
        4
    }
}

/// Number of UTF-8 bytes of a text.
pub open spec fn utf8_len(s: Seq<char>) -> nat
    decreases s.len(),
{
    if s.len() == 0 {
        0
    } else {
        utf8_len(s.drop_last()) + utf8_width(s.last())
    }
}

/// The tag's name length is at most its content's length in bytes.
pub open spec fn tag_ok(tag: XmlTag) -> bool {
    tag.name_len <= utf8_len(tag.content@)
}

/// Every tag a token carries is well formed.
pub open spec fn event_ok(ev: XmlEvent) -> bool {
    match ev {
        XmlEvent::Start(tag) => tag_ok(tag),
        XmlEvent::Empty(tag) => tag_ok(tag),
        _ => true,
    }
}

/// The tokens of XML text, read one at a time. `source` and `read` are
/// records kept for proofs only: the bytes being read and how many tokens
/// were handed out. They are private, set by [`XmlStream::new`] and advanced
/// by [`XmlStream::next`] alone.
pub struct XmlStream<'a> {
    reader: quick_xml::Reader<&'a [u8]>,
    source: Ghost<Seq<u8>>,
    read: Ghost<nat>,
}

impl<'a> XmlStream<'a> {
    /// The bytes being read.
    pub closed spec fn source(&self) -> Seq<u8> {
        self.source@
    }

    /// How many tokens were handed out.
    pub closed spec fn read(&self) -> nat {
        self.read@
    }

    /// A stream over `bytes`, at its first token.
    pub fn new(bytes: &'a [u8]) -> (s: Self)
        ensures
            s.source() == bytes@,
            s.read() == 0,
    {
        XmlStream { reader: xml_reader(bytes), source: Ghost(bytes@), read: Ghost(0) }
    }

    /// The next token (`Reader::read_event_into`), converted to an
    /// [`XmlEvent`]: tags with their name and content, text decoded as written
    /// (`BytesText::decode`; an undecodable text is empty), end tags by name,
    /// the end of input, a reader error with its message; entity and
    /// character references (`&...;`, their own token), comments, CDATA,
    /// declarations, processing instructions and doctypes come out as
    /// `Other`. The token is the one named by [`xml_event`] for the stream's
    /// bytes and position, and a tag's name length is at most its content's
    /// length in bytes.
    #[verifier::external_body]
    pub fn next(&mut self) -> (ev: XmlEvent)
        ensures
            final(self).source() == old(self).source(),
            final(self).read() == old(self).read() + 1,
            ev == xml_event(old(self).source(), old(self).read()),
            event_ok(ev),
    {
        let mut buf = Vec::new();
        match self.reader.read_event_into(&mut buf) {
            Ok(quick_xml::events::Event::Start(e)) => XmlEvent::Start(xml_tag(&e)),
            Ok(quick_xml::events::Event::Empty(e)) => XmlEvent::Empty(xml_tag(&e)),
            Ok(quick_xml::events::Event::Text(e)) => XmlEvent::Text(e.decode().unwrap_or_default().into_owned()),
            Ok(quick_xml::events::Event::End(e)) => XmlEvent::End(String::from_utf8_lossy(e.name().as_ref()).into_owned()),
            Ok(quick_xml::events::Event::Eof) => XmlEvent::Eof,
            Err(e) => XmlEvent::Error(e.to_string()),
            Ok(_) => XmlEvent::Other,
        }
    }
}

/// The value of attribute `key` in a tag with this content (invalid UTF-8
/// replaced), as `BytesStart::try_get_attribute` finds it; a malformed
/// attribute list gives `None`.
pub uninterp spec fn xml_attr_value(content: Seq<char>, name_len: usize, key: Seq<char>) -> Option<
    Seq<char>,
>;

/// Look up an attribute of a tag (whose name length must lie within its
/// content: the attribute scan starts there). The result is named by
/// [`xml_attr_value`].
#[verifier::external_body]
pub fn xml_attribute(tag: &XmlTag, key: &str) -> (v: Option<String>)
    requires
        tag_ok(*tag),
    ensures
        match v {
            Some(s) => xml_attr_value(tag.content@, tag.name_len, key@) == Some(s@),
            None => xml_attr_value(tag.content@, tag.name_len, key@) is None,
        },
{
    let start = quick_xml::events::BytesStart::from_content(tag.content.as_str(), tag.name_len);
    start.try_get_attribute(key).ok().flatten().map(|a| String::from_utf8_lossy(&a.value).into_owned())
}

/// Which text element is being read.
#[derive(Clone, Copy, Debug, PartialEq, Eq, Structural)]
pub enum TextTarget {
    SessionTitle,
    TrackTitle,
    TrackArtist,
    TrackAlbum,
    TrackLocation,
    TrackDuration,
}

/// Session metadata as plain text.
#[verifier::ext_equal]
pub struct SessionView {
    pub id: Seq<char>,
    pub title: Seq<char>,
    pub started_at: Seq<char>,
    pub last_activity_at: Seq<char>,
    pub closed: bool,
}

/// A history entry as plain text.
#[verifier::ext_equal]
pub struct EntryView {
    pub id: Seq<char>,
    pub deck: u16,
    pub track_id: Option<Seq<char>>,
    pub location: Seq<char>,
    pub title: Option<Seq<char>>,
    pub artist: Option<Seq<char>>,
    pub album: Option<Seq<char>>,
    pub duration_sec: Option<i32>,
    pub bpm: Option<Seq<char>>,
    pub key: Option<Seq<char>>,
    pub isrc: Option<Seq<char>>,
    pub started_at: Seq<char>,
    pub ended_at: Option<Seq<char>>,
    pub played_duration_ms: Option<i64>,
}

/// The text of an optional string.
pub open spec fn opt_view(o: Option<String>) -> Option<Seq<char>> {
    match o {
        Some(s) => Some(s@),
        None => None,
    }
}

impl View for SessionMeta {
    type V = SessionView;

    open spec fn view(&self) -> SessionView {
        SessionView {
            id: self.id@,
            title: self.title@,
            started_at: self.started_at@,
            last_activity_at: self.last_activity_at@,
            closed: self.closed,
        }
    }
}

impl View for HistoryEntry {
    type V = EntryView;

    open spec fn view(&self) -> EntryView {
        EntryView {
            id: self.id@,
            deck: self.deck,
            track_id: opt_view(self.track_id),
            location: self.location@,
            title: opt_view(self.title),
            artist: opt_view(self.artist),
            album: opt_view(self.album),
            duration_sec: self.duration_sec,
            bpm: opt_view(self.bpm),
            key: opt_view(self.key),
            isrc: opt_view(self.isrc),
            started_at: self.started_at@,
            ended_at: opt_view(self.ended_at),
            played_duration_ms: self.played_duration_ms,
        }
    }
}

/// Parsing progress over the token stream.
#[verifier::ext_equal]
pub struct ParseView {
    pub session: SessionView,
    pub entries: Seq<EntryView>,
    pub in_track: bool,
    pub current: Option<EntryView>,
    pub target: Option<TextTarget>,
    pub text: Seq<char>,
}

/// Parsing progress (exec).
pub struct ParseState {
    pub session: SessionMeta,
    pub entries: Vec<HistoryEntry>,
    pub in_track: bool,
    pub current: Option<HistoryEntry>,
    pub target: Option<TextTarget>,
    pub text: String,
}

/// The plain-text form of an optional entry.
pub open spec fn opt_entry_view(o: Option<HistoryEntry>) -> Option<EntryView> {
    match o {
        Some(e) => Some(e@),
        None => None,
    }
}

impl View for ParseState {
    type V = ParseView;

    open spec fn view(&self) -> ParseView {
        ParseView {
            session: self.session@,
            entries: self.entries@.map_values(|e: HistoryEntry| e@),
            in_track: self.in_track,
            current: opt_entry_view(self.current),
            target: self.target,
            text: self.text@,
        }
    }
}

/// Integer text: an optional sign (`-` only when `signed`), then one or more digits.
pub open spec fn int_text_value(s: Seq<char>, signed: bool) -> Option<int> {
    if s.len() == 0 {
        None
    } else {
        let neg = signed && s[0] == '-';
        let d = if neg || s[0] == '+' {
            s.drop_first()
        } else {
            s
        };
        if d.len() > 0 && all_digits(d) {
            Some(if neg {
                -(digits_value(d) as int)
            } else {
                digits_value(d) as int
            })
        } else {
            None
        }
    }
}

/// `str::parse` for an integer type with range `lo..=hi`.
pub open spec fn parse_int_of(s: Seq<char>, signed: bool, lo: int, hi: int) -> Option<int> {
    match int_text_value(s, signed) {
        Some(v) => if lo <= v <= hi {
            Some(v)
        } else {
            None
        },
        None => None,
    }
}

/// Parses integer text into a value in `lo..=hi` (`str::parse` for that type).
pub fn parse_int_in(s: &str, signed: bool, lo: i64, hi: i64) -> (r: Option<i64>)
    requires
        lo <= 0 <= hi,
    ensures
        match r {
            Some(v) => parse_int_of(s@, signed, lo as int, hi as int) == Some(v as int),
            None => parse_int_of(s@, signed, lo as int, hi as int) is None,
        },
{
    let cs = chars_of(s);
    if cs.len() == 0 {
        return None;
    }
    let neg = signed && cs[0] == '-';
    let start: usize = if neg || cs[0] == '+' {
        1
    } else {
        0
    };
    let ghost d = if neg || s@[0] == '+' {
        s@.drop_first()
    } else {
        s@
    };
    assert(d =~= cs@.skip(start as int));
    if start >= cs.len() {
        return None;
    }
    let limit: i128 = if neg {
        -(lo as i128)
    } else {
        hi as i128
    };
    let mut i: usize = start;
    let mut val: i128 = 0;
    let mut big = false;
    while i < cs.len()
        invariant
            start <= i <= cs.len(),
            cs@ == s@,
            s@.len() > 0,
            neg == (signed && s@[0] == '-'),
            d == (if neg || s@[0] == '+' {
                s@.drop_first()
            } else {
                s@
            }),
            d == cs@.skip(start as int),
            0 <= limit <= 0x8000_0000_0000_0000i128,
            forall|j: int| 0 <= j < i - start ==> is_digit(#[trigger] d[j]),
            big ==> digits_value(d.take(i - start)) > limit,
            !big ==> val == digits_value(d.take(i - start)) && val <= limit,
        decreases cs.len() - i,
    {
        let c = cs[i];
        assert(d[i - start] == c);
        if !('0' <= c && c <= '9') {
            assert(!all_digits(d));
            return None;
        }
        let dv = (c as u32 - 48) as i128;
        assert(d.take(i - start + 1).drop_last() =~= d.take(i - start));
        assert(d.take(i - start + 1).last() == c);
        if !big {
            let nv = val * 10 + dv;
            if nv > limit {
                big = true;
            } else {
                val = nv;
            }
        }
        i = i + 1;
    }
    assert(d.take(d.len() as int) =~= d);
    assert(all_digits(d));
    if big {
        None
    } else if neg {
        Some((-val) as i64)
    } else {
        Some(val as i64)
    }
}

/// A sign character.
pub open spec fn is_sign(c: char) -> bool {
    c == '+' || c == '-'
}

/// Position of the first `c` in `s` at or after `i`, or -1.
pub open spec fn first_index(s: Seq<char>, c: char, i: int) -> int
    decreases s.len() - i,
{
    if i < 0 || i >= s.len() {
        -1
    } else if s[i] == c {
        i
    } else {
        first_index(s, c, i + 1)
    }
}

/// Digits with at most one point among them, and at least one digit.
pub open spec fn is_mantissa_text(m: Seq<char>) -> bool {
    &&& m.len() > 0
    &&& m != seq!['.']
    &&& forall|k: int| 0 <= k < m.len() ==> is_digit(#[trigger] m[k]) || m[k] == '.'
    &&& forall|a: int, b: int| 0 <= a < b < m.len() && #[trigger] m[a] == '.' ==> #[trigger] m[b] != '.'
}

/// An exponent after its `e`: an optional sign, then one or more digits.
pub open spec fn is_exp_text(t: Seq<char>) -> bool {
    let u = if t.len() > 0 && is_sign(t[0]) {
        t.drop_first()
    } else {
        t
    };
    u.len() > 0 && all_digits(u)
}

/// A decimal number (lower-case): a mantissa, then optionally `e` and an exponent.
pub open spec fn is_number_text(n: Seq<char>) -> bool {
    let q = first_index(n, 'e', 0);
    if q < 0 {
        is_mantissa_text(n)
    } else {
        is_mantissa_text(n.take(q)) && is_exp_text(n.skip(q + 1))
    }
}

/// Text that `str::parse::<f64>` accepts: an optional sign, then `inf`,
/// `infinity`, `nan` or a decimal number, ASCII case ignored.
pub open spec fn is_float_text(s: Seq<char>) -> bool {
    let l = lower_seq(s);
    let b = if l.len() > 0 && is_sign(l[0]) {
        l.drop_first()
    } else {
        l
    };
    ||| b == seq!['i', 'n', 'f']
    ||| b == seq!['i', 'n', 'f', 'i', 'n', 'i', 't', 'y']
    ||| b == seq!['n', 'a', 'n']
    ||| is_number_text(b)
}

/// The characters of `cs` from `lo` up to `hi`.
fn sub_chars(cs: &[char], lo: usize, hi: usize) -> (out: Vec<char>)
    requires
        lo <= hi <= cs@.len(),
    ensures
        out@ == cs@.subrange(lo as int, hi as int),
{
    let mut out: Vec<char> = Vec::new();
    let mut i: usize = lo;
    while i < hi
        invariant
            lo <= i <= hi <= cs@.len(),
            out@ == cs@.subrange(lo as int, i as int),
        decreases hi - i,
    {
        out.push(cs[i]);
        assert(out@ =~= cs@.subrange(lo as int, i + 1));
        i = i + 1;
    }
    out
}

/// Exec form of [`is_mantissa_text`].
fn mantissa_ok(m: &[char]) -> (b: bool)
    ensures
        b == is_mantissa_text(m@),
{
    if m.len() == 0 {
        return false;
    }
    if m.len() == 1 && m[0] == '.' {
        assert(m@ =~= seq!['.']);
        return false;
    }
    assert(m@ != seq!['.']) by {
        if m@.len() == 1 {
            assert(m@[0] != seq!['.'][0]);
        }
    }
    let mut seen = false;
    let ghost mut dpos: int = -1;
    let mut i: usize = 0;
    while i < m.len()
        invariant
            i <= m@.len(),
            m@.len() > 0,
            m@ != seq!['.'],
            forall|k: int| 0 <= k < i ==> is_digit(#[trigger] m@[k]) || m@[k] == '.',
            forall|a: int, b: int| 0 <= a < b < i && #[trigger] m@[a] == '.' ==> #[trigger] m@[b] != '.',
            seen ==> 0 <= dpos < i && m@[dpos] == '.',
            !seen ==> forall|k: int| 0 <= k < i ==> #[trigger] m@[k] != '.',
        decreases m.len() - i,
    {
        let c = m[i];
        if c == '.' {
            if seen {
                assert(m@[dpos] == '.' && m@[i as int] == '.');
                return false;
            }
            seen = true;
            proof {
                dpos = i as int;
            }
        } else if !('0' <= c && c <= '9') {
            assert(!(is_digit(m@[i as int]) || m@[i as int] == '.'));
            return false;
        }
        i = i + 1;
    }
    true
}

/// Exec form of [`is_exp_text`].
fn exp_ok(t: &[char]) -> (b: bool)
    ensures
        b == is_exp_text(t@),
{
    if t.len() == 0 {
        return false;
    }
    let start: usize = if t[0] == '+' || t[0] == '-' {
        1
    } else {
        0
    };
    let ghost u = if is_sign(t@[0]) {
        t@.drop_first()
    } else {
        t@
    };
    assert(u =~= t@.skip(start as int));
    if start >= t.len() {
        return false;
    }
    let mut i: usize = start;
    while i < t.len()
        invariant
            start <= i <= t@.len(),
            u == t@.skip(start as int),
            u.len() > 0,
            t@.len() > 0,
            u == (if is_sign(t@[0]) {
                t@.drop_first()
            } else {
                t@
            }),
            forall|k: int| 0 <= k < i - start ==> is_digit(#[trigger] u[k]),
        decreases t.len() - i,
    {
        let c = t[i];
        assert(u[i - start] == c);
        if !('0' <= c && c <= '9') {
            assert(!is_digit(u[i - start]));
            return false;
        }
        i = i + 1;
    }
    true
}

/// Exec form of [`is_number_text`].
fn number_ok(n: &[char]) -> (b: bool)
    ensures
        b == is_number_text(n@),
{
    let mut q: usize = 0;
    while q < n.len() && n[q] != 'e'
        invariant
            q <= n@.len(),
            first_index(n@, 'e', 0) == first_index(n@, 'e', q as int),
        decreases n.len() - q,
    {
        q = q + 1;
    }
    if q >= n.len() {
        mantissa_ok(n)
    } else {
        let m = sub_chars(n, 0, q);
        let t = sub_chars(n, q + 1, n.len());
        assert(m@ =~= n@.take(q as int));
        assert(t@ =~= n@.skip(q + 1));
        mantissa_ok(m.as_slice()) && exp_ok(t.as_slice())
    }
}

/// Whether `s` is text that `str::parse::<f64>` accepts (see [`is_float_text`]).
pub fn float_text_ok(s: &str) -> (b: bool)
    ensures
        b == is_float_text(s@),
{
    let cs = chars_of(s);
    let l = lower_chars(cs.as_slice());
    let ghost ls = lower_seq(s@);
    let b = if l.len() > 0 && (l[0] == '+' || l[0] == '-') {
        sub_chars(l.as_slice(), 1, l.len())
    } else {
        sub_chars(l.as_slice(), 0, l.len())
    };
    assert(b@ == (if ls.len() > 0 && is_sign(ls[0]) {
        ls.drop_first()
    } else {
        ls
    }));
    let inf = vec!['i', 'n', 'f'];
    let infinity = vec!['i', 'n', 'f', 'i', 'n', 'i', 't', 'y'];
    let nan = vec!['n', 'a', 'n'];
    chars_eq(b.as_slice(), inf.as_slice()) || chars_eq(b.as_slice(), infinity.as_slice())
        || chars_eq(b.as_slice(), nan.as_slice()) || number_ok(b.as_slice())
}

/// The fresh entry started by a `<track>` tag.
pub open spec fn empty_entry_view(id: Seq<char>, now: Seq<char>) -> EntryView {
    EntryView {
        id,
        deck: 0,
        track_id: None,
        location: seq![],
        title: None,
        artist: None,
        album: None,
        duration_sec: None,
        bpm: None,
        key: None,
        isrc: None,
        started_at: now,
        ended_at: None,
        played_duration_ms: None,
    }
}

/// An attribute value of a tag.
pub open spec fn attr_of(tag: XmlTag, key: Seq<char>) -> Option<Seq<char>> {
    xml_attr_value(tag.content@, tag.name_len, key)
}

/// An attribute value of a tag, when present and not empty.
pub open spec fn non_empty_attr_of(tag: XmlTag, key: Seq<char>) -> Option<Seq<char>> {
    match attr_of(tag, key) {
        Some(v) => if v.len() > 0 {
            Some(v)
        } else {
            None
        },
        None => None,
    }
}

/// `o`'s value, or `d`.
pub open spec fn or_else<T>(o: Option<T>, d: T) -> T {
    match o {
        Some(v) => v,
        None => d,
    }
}

/// A `<session>` tag's attributes applied to session metadata.
pub open spec fn session_attrs_of(tag: XmlTag, s: SessionView) -> SessionView {
    SessionView {
        id: or_else(attr_of(tag, "id"@), s.id),
        title: s.title,
        started_at: or_else(attr_of(tag, "started_at"@), s.started_at),
        last_activity_at: or_else(attr_of(tag, "last_activity_at"@), s.last_activity_at),
        closed: attr_of(tag, "closed"@) == Some("true"@),
    }
}

/// An `<entry>` tag's attributes applied to the entry being read.
pub open spec fn entry_attrs_of(tag: XmlTag, e: EntryView) -> EntryView {
    EntryView {
        id: or_else(attr_of(tag, "id"@), e.id),
        deck: match attr_of(tag, "deck"@) {
            Some(v) => match parse_int_of(v, false, 0, 65535) {
                Some(n) => n as u16,
                None => e.deck,
            },
            None => e.deck,
        },
        track_id: non_empty_attr_of(tag, "track_id"@),
        location: e.location,
        title: e.title,
        artist: e.artist,
        album: e.album,
        duration_sec: e.duration_sec,
        bpm: match attr_of(tag, "bpm"@) {
            Some(v) => if is_float_text(v) {
                Some(v)
            } else {
                None
            },
            None => None,
        },
        key: non_empty_attr_of(tag, "key"@),
        isrc: non_empty_attr_of(tag, "isrc"@),
        started_at: or_else(attr_of(tag, "started_at"@), e.started_at),
        ended_at: non_empty_attr_of(tag, "ended_at"@),
        played_duration_ms: match attr_of(tag, "played_duration_ms"@) {
            Some(v) => match parse_int_of(v, true, i64::MIN as int, i64::MAX as int) {
                Some(n) => Some(n as i64),
                None => None,
            },
            None => None,
        },
    }
}

/// The state after an opening or empty tag's attributes were applied to the
/// session (for `<session>`) or to the current entry (for `<entry>` inside a track).
pub open spec fn apply_attrs_of(st: ParseView, tag: XmlTag) -> ParseView {
    if tag.name@ == "session"@ {
        ParseView { session: session_attrs_of(tag, st.session), ..st }
    } else if tag.name@ == "entry"@ && st.in_track {
        ParseView {
            current: match st.current {
                Some(e) => Some(entry_attrs_of(tag, e)),
                None => None,
            },
            ..st
        }
    } else {
        st
    }
}

/// The text element an opening tag starts reading, if any.
pub open spec fn start_target_of(name: Seq<char>, in_track: bool) -> Option<TextTarget> {
    if name == "title"@ && !in_track {
        Some(TextTarget::SessionTitle)
    } else if name == "title"@ && in_track {
        Some(TextTarget::TrackTitle)
    } else if name == "creator"@ && in_track {
        Some(TextTarget::TrackArtist)
    } else if name == "album"@ && in_track {
        Some(TextTarget::TrackAlbum)
    } else if name == "location"@ && in_track {
        Some(TextTarget::TrackLocation)
    } else if name == "duration"@ && in_track {
        Some(TextTarget::TrackDuration)
    } else {
        None
    }
}

/// The state after an opening tag.
pub open spec fn start_of(st: ParseView, tag: XmlTag, id: Seq<char>, now: Seq<char>) -> ParseView {
    if tag.name@ == "session"@ || (tag.name@ == "entry"@ && st.in_track) {
        apply_attrs_of(st, tag)
    } else if tag.name@ == "track"@ {
        ParseView { in_track: true, current: Some(empty_entry_view(id, now)), ..st }
    } else {
        match start_target_of(tag.name@, st.in_track) {
            Some(t) => ParseView { target: Some(t), ..st },
            None => st,
        }
    }
}

/// The element name that ends reading into `t`.
pub open spec fn target_element(t: TextTarget) -> Seq<char> {
    match t {
        TextTarget::SessionTitle => "title"@,
        TextTarget::TrackTitle => "title"@,
        TextTarget::TrackArtist => "creator"@,
        TextTarget::TrackAlbum => "album"@,
        TextTarget::TrackLocation => "location"@,
        TextTarget::TrackDuration => "duration"@,
    }
}

/// The text read for `t` stored where it belongs.
pub open spec fn store_text_of(st: ParseView, t: TextTarget) -> ParseView {
    let text = st.text;
    let cleared = ParseView { target: None, text: seq![], ..st };
    match t {
        TextTarget::SessionTitle => ParseView {
            session: SessionView { title: text, ..st.session },
            ..cleared
        },
        _ => ParseView {
            current: match st.current {
                Some(e) => Some(
                    match t {
                        TextTarget::TrackTitle => EntryView { title: Some(text), ..e },
                        TextTarget::TrackArtist => EntryView { artist: Some(text), ..e },
                        TextTarget::TrackAlbum => EntryView { album: Some(text), ..e },
                        TextTarget::TrackLocation => EntryView { location: text, ..e },
                        _ => EntryView {
                            duration_sec: match parse_int_of(
                                text,
                                true,
                                i32::MIN as int,
                                i32::MAX as int,
                            ) {
                                Some(n) => Some(n as i32),
                                None => None,
                            },
                            ..e
                        },
                    },
                ),
                None => None,
            },
            ..cleared
        },
    }
}

/// The state after a closing tag.
pub open spec fn end_of(st: ParseView, name: Seq<char>) -> ParseView {
    match st.target {
        Some(t) if name == target_element(t) => store_text_of(st, t),
        _ => if name == "track"@ {
            ParseView {
                entries: match st.current {
                    Some(e) => st.entries.push(e),
                    None => st.entries,
                },
                current: None,
                in_track: false,
                ..st
            }
        } else {
            st
        },
    }
}

/// The state after one token (`Eof` and errors are handled by the caller).
pub open spec fn step_of(st: ParseView, ev: XmlEvent, id: Seq<char>, now: Seq<char>) -> ParseView {
    match ev {
        XmlEvent::Start(tag) => start_of(st, tag, id, now),
        XmlEvent::Empty(tag) => if tag.name@ == "session"@ || (tag.name@ == "entry"@
            && st.in_track) {
            apply_attrs_of(st, tag)
        } else {
            st
        },
        XmlEvent::Text(t) => if st.target is Some {
            ParseView { text: st.text + t@, ..st }
        } else {
            st
        },
        XmlEvent::End(name) => end_of(st, name@),
        _ => st,
    }
}

/// The state after the tokens `evs`, each `Start` using the matching fresh id.
pub open spec fn run_of(st: ParseView, evs: Seq<XmlEvent>, ids: Seq<String>, now: Seq<char>) -> ParseView
    decreases evs.len(),
{
    if evs.len() == 0 {
        st
    } else {
        step_of(
            run_of(st, evs.drop_last(), ids, now),
            evs.last(),
            ids[evs.len() - 1]@,
            now,
        )
    }
}

/// Index of the first `Eof` or error token, or the number of tokens.
pub open spec fn stop_index(evs: Seq<XmlEvent>) -> nat
    decreases evs.len(),
{
    if evs.len() == 0 {
        0
    } else if evs[0] is Eof || evs[0] is Error {
        0
    } else {
        1 + stop_index(evs.drop_first())
    }
}

/// The initial parse state: empty session, no entries.
pub open spec fn initial_view() -> ParseView {
    ParseView {
        session: SessionView {
            id: seq![],
            title: seq![],
            started_at: seq![],
            last_activity_at: seq![],
            closed: false,
        },
        entries: seq![],
        in_track: false,
        current: None,
        target: None,
        text: seq![],
    }
}

/// The document read from tokens: the session and the entries completed before
/// the first `Eof`; a missing session id is replaced by `fallback_id` and a
/// missing title by `Session`. `Err` with the reader's message when an error
/// token comes before `Eof`.
pub open spec fn document_of(evs: Seq<XmlEvent>, ids: Seq<String>, now: Seq<char>, fallback_id: Seq<char>) -> Result<(SessionView, Seq<EntryView>), Seq<char>> {
    let k = stop_index(evs) as int;
    if k < evs.len() && evs[k] is Error {
        Err(evs[k]->Error_0@)
    } else {
        let st = run_of(initial_view(), evs.take(k), ids, now);
        let s = st.session;
        Ok(
            (
                SessionView {
                    id: if s.id.len() == 0 {
                        fallback_id
                    } else {
                        s.id
                    },
                    title: if s.title.len() == 0 {
                        "Session"@
                    } else {
                        s.title
                    },
                    ..s
                },
                st.entries,
            ),
        )
    }
}

/// The fresh entry for a `<track>` tag.
fn empty_entry(id: &str, now: &str) -> (e: HistoryEntry)
    ensures
        e@ == empty_entry_view(id@, now@),
{
    let e = HistoryEntry {
        id: owned(id),
        deck: 0,
        track_id: None,
        location: String::new(),
        title: None,
        artist: None,
        album: None,
        duration_sec: None,
        bpm: None,
        key: None,
        isrc: None,
        started_at: owned(now),
        ended_at: None,
        played_duration_ms: None,
    };
    assert(e@ =~= empty_entry_view(id@, now@));
    e
}

fn non_empty_attr(tag: &XmlTag, key: &str) -> (v: Option<String>)
    requires
        tag_ok(*tag),
    ensures
        opt_view(v) == non_empty_attr_of(*tag, key@),
{
    match xml_attribute(tag, key) {
        Some(v) => if v.as_str().is_empty() {
            None
        } else {
            Some(v)
        },
        None => None,
    }
}

fn name_is(name: &String, lit: &str) -> (b: bool)
    ensures
        b == (name@ == lit@),
{
    let a = chars_of(name.as_str());
    let b = chars_of(lit);
    chars_eq(a.as_slice(), b.as_slice())
}

fn apply_session_attrs(tag: &XmlTag, s: &mut SessionMeta)
    requires
        tag_ok(*tag),
    ensures
        final(s)@ == session_attrs_of(*tag, old(s)@),
{
    if let Some(v) = xml_attribute(tag, "id") {
        s.id = v;
    }
    if let Some(v) = xml_attribute(tag, "started_at") {
        s.started_at = v;
    }
    if let Some(v) = xml_attribute(tag, "last_activity_at") {
        s.last_activity_at = v;
    }
    s.closed = match xml_attribute(tag, "closed") {
        Some(v) => name_is(&v, "true"),
        None => false,
    };
    assert(s@ =~= session_attrs_of(*tag, old(s)@));
}

fn apply_entry_attrs(tag: &XmlTag, e: &mut HistoryEntry)
    requires
        tag_ok(*tag),
    ensures
        final(e)@ == entry_attrs_of(*tag, old(e)@),
{
    if let Some(v) = xml_attribute(tag, "id") {
        e.id = v;
    }
    if let Some(v) = xml_attribute(tag, "deck") {
        if let Some(n) = parse_int_in(v.as_str(), false, 0, 65535) {
            e.deck = n as u16;
        }
    }
    e.track_id = non_empty_attr(tag, "track_id");
    if let Some(v) = xml_attribute(tag, "started_at") {
        e.started_at = v;
    }
    e.ended_at = non_empty_attr(tag, "ended_at");
    e.played_duration_ms = match xml_attribute(tag, "played_duration_ms") {
        Some(v) => parse_int_in(v.as_str(), true, i64::MIN, i64::MAX),
        None => None,
    };
    e.bpm = match xml_attribute(tag, "bpm") {
        Some(v) => if float_text_ok(v.as_str()) {
            Some(v)
        } else {
            None
        },
        None => None,
    };
    e.key = non_empty_attr(tag, "key");
    e.isrc = non_empty_attr(tag, "isrc");
    assert(e@ =~= entry_attrs_of(*tag, old(e)@));
}

fn apply_attrs(st: &mut ParseState, tag: &XmlTag)
    requires
        tag_ok(*tag),
    ensures
        final(st)@ == apply_attrs_of(old(st)@, *tag),
{
    if name_is(&tag.name, "session") {
        apply_session_attrs(tag, &mut st.session);
        assert(st@ =~= apply_attrs_of(old(st)@, *tag));
    } else if name_is(&tag.name, "entry") && st.in_track {
        match &mut st.current {
            Some(e) => {
                apply_entry_attrs(tag, e);
            },
            None => {},
        }
        assert(st.entries@.map_values(|e: HistoryEntry| e@) =~= old(st).entries@.map_values(
            |e: HistoryEntry| e@,
        ));
        assert(st@ =~= apply_attrs_of(old(st)@, *tag));
    }
}

fn start_target(name: &String, in_track: bool) -> (t: Option<TextTarget>)
    ensures
        t == start_target_of(name@, in_track),
{
    if name_is(name, "title") && !in_track {
        Some(TextTarget::SessionTitle)
    } else if name_is(name, "title") && in_track {
        Some(TextTarget::TrackTitle)
    } else if name_is(name, "creator") && in_track {
        Some(TextTarget::TrackArtist)
    } else if name_is(name, "album") && in_track {
        Some(TextTarget::TrackAlbum)
    } else if name_is(name, "location") && in_track {
        Some(TextTarget::TrackLocation)
    } else if name_is(name, "duration") && in_track {
        Some(TextTarget::TrackDuration)
    } else {
        None
    }
}

fn target_name(t: TextTarget) -> (s: &'static str)
    ensures
        s@ == target_element(t),
{
    match t {
        TextTarget::SessionTitle => "title",
        TextTarget::TrackTitle => "title",
        TextTarget::TrackArtist => "creator",
        TextTarget::TrackAlbum => "album",
        TextTarget::TrackLocation => "location",
        TextTarget::TrackDuration => "duration",
    }
}

fn store_text(st: &mut ParseState, t: TextTarget)
    ensures
        final(st)@ == store_text_of(old(st)@, t),
{
    let text = st.text.clone();
    match t {
        TextTarget::SessionTitle => {
            st.session.title = text;
        },
        _ => {
            match &mut st.current {
                Some(e) => {
                    match t {
                        TextTarget::TrackTitle => {
                            e.title = Some(text);
                        },
                        TextTarget::TrackArtist => {
                            e.artist = Some(text);
                        },
                        TextTarget::TrackAlbum => {
                            e.album = Some(text);
                        },
                        TextTarget::TrackLocation => {
                            e.location = text;
                        },
                        _ => {
                            e.duration_sec = match parse_int_in(
                                text.as_str(),
                                true,
                                i32::MIN as i64,
                                i32::MAX as i64,
                            ) {
                                Some(n) => Some(n as i32),
                                None => None,
                            };
                        },
                    }
                },
                None => {},
            }
        },
    }
    st.target = None;
    st.text = String::new();
    assert(st.entries@.map_values(|e: HistoryEntry| e@) =~= old(st).entries@.map_values(
        |e: HistoryEntry| e@,
    ));
    assert(st@ =~= store_text_of(old(st)@, t));
}

fn end_tag(st: &mut ParseState, name: &String)
    ensures
        final(st)@ == end_of(old(st)@, name@),
{
    if let Some(t) = st.target {
        if name_is(name, target_name(t)) {
            store_text(st, t);
            return;
        }
    }
    if name_is(name, "track") {
        let cur = st.current.take();
        let ghost before = st.entries@;
        match cur {
            Some(e) => {
                st.entries.push(e);
            },
            None => {},
        }
        st.in_track = false;
        assert(st.entries@.map_values(|e: HistoryEntry| e@) =~= (match old(st)@.current {
            Some(e) => old(st)@.entries.push(e),
            None => old(st)@.entries,
        }));
        assert(st@ =~= end_of(old(st)@, name@));
    }
}

/// Applies one token to the parse state.
pub fn step(st: &mut ParseState, ev: &XmlEvent, id: &str, now: &str)
    requires
        event_ok(*ev),
    ensures
        final(st)@ == step_of(old(st)@, *ev, id@, now@),
{
    match ev {
        XmlEvent::Start(tag) => {
            if name_is(&tag.name, "session") || (name_is(&tag.name, "entry") && st.in_track) {
                apply_attrs(st, tag);
            } else if name_is(&tag.name, "track") {
                st.in_track = true;
                st.current = Some(empty_entry(id, now));
                assert(st.entries@.map_values(|e: HistoryEntry| e@) =~= old(st).entries@.map_values(
                    |e: HistoryEntry| e@,
                ));
                assert(st@ =~= step_of(old(st)@, *ev, id@, now@));
            } else {
                match start_target(&tag.name, st.in_track) {
                    Some(t) => {
                        st.target = Some(t);
                        assert(st.entries@.map_values(|e: HistoryEntry| e@)
                            =~= old(st).entries@.map_values(|e: HistoryEntry| e@));
                        assert(st@ =~= step_of(old(st)@, *ev, id@, now@));
                    },
                    None => {},
                }
            }
        },
        XmlEvent::Empty(tag) => {
            if name_is(&tag.name, "session") || (name_is(&tag.name, "entry") && st.in_track) {
                apply_attrs(st, tag);
            }
        },
        XmlEvent::Text(t) => {
            if st.target.is_some() {
                push_str(&mut st.text, t.as_str());
                assert(st.entries@.map_values(|e: HistoryEntry| e@) =~= old(st).entries@.map_values(
                    |e: HistoryEntry| e@,
                ));
                assert(st@ =~= step_of(old(st)@, *ev, id@, now@));
            }
        },
        XmlEvent::End(name) => {
            end_tag(st, name);
        },
        _ => {},
    }
}

/// The plain-text form of a run of entries.
pub open spec fn entries_view(es: Seq<HistoryEntry>) -> Seq<EntryView> {
    es.map_values(|e: HistoryEntry| e@)
}

fn is_stop(ev: &XmlEvent) -> (b: bool)
    ensures
        b == (*ev is Eof || *ev is Error),
{
    match ev {
        XmlEvent::Eof => true,
        XmlEvent::Error(_) => true,
        _ => false,
    }
}

/// Assembles a history document from XML tokens. Each token `i` uses `ids[i]`
/// when it opens a track; `now` stamps entries' default start; a document with
/// no session id gets `fallback_id`.
pub fn parse_events(events: &[XmlEvent], ids: &[String], now: &str, fallback_id: &str) -> (r:
    core::result::Result<HistoryDocument, String>)
    requires
        ids@.len() >= events@.len(),
        forall|i: int| 0 <= i < events@.len() ==> event_ok(#[trigger] events@[i]),
    ensures
        match r {
            Ok(doc) => document_of(events@, ids@, now@, fallback_id@) == Ok::<
                (SessionView, Seq<EntryView>),
                Seq<char>,
            >((doc.session@, entries_view(doc.entries@))),
            Err(m) => document_of(events@, ids@, now@, fallback_id@) == Err::<
                (SessionView, Seq<EntryView>),
                Seq<char>,
            >(m@),
        },
{
    let mut st = ParseState {
        session: SessionMeta {
            id: String::new(),
            title: String::new(),
            started_at: String::new(),
            last_activity_at: String::new(),
            closed: false,
        },
        entries: Vec::new(),
        in_track: false,
        current: None,
        target: None,
        text: String::new(),
    };
    assert(st@ =~= initial_view());
    let mut k: usize = 0;
    while k < events.len() && !is_stop(&events[k])
        invariant
            k <= events@.len(),
            forall|j: int| 0 <= j < k ==> !(events@[j] is Eof) && !(events@[j] is Error),
        decreases events.len() - k,
    {
        k = k + 1;
    }
    proof {
        lemma_stop_index(events@, k as int);
    }
    if k < events.len() {
        if let XmlEvent::Error(m) = &events[k] {
            return Err(m.clone());
        }
    }
    let mut i: usize = 0;
    while i < k
        invariant
            i <= k <= events@.len() <= ids@.len(),
            st@ == run_of(initial_view(), events@.take(i as int), ids@, now@),
            forall|j: int| 0 <= j < events@.len() ==> event_ok(#[trigger] events@[j]),
        decreases k - i,
    {
        assert(events@.take(i + 1).drop_last() =~= events@.take(i as int));
        step(&mut st, &events[i], ids[i].as_str(), now);
        i = i + 1;
    }
    if st.session.id.as_str().is_empty() {
        st.session.id = owned(fallback_id);
    }
    if st.session.title.as_str().is_empty() {
        st.session.title = owned("Session");
    }
    let doc = HistoryDocument { session: st.session, entries: st.entries };
    proof {
        assert(doc.session@ =~= (document_of(events@, ids@, now@, fallback_id@)->Ok_0).0);
    }
    Ok(doc)
}

/// When no token before `i` is `Eof` or an error, `stop_index` is at least `i`,
/// and it is exactly `i` when token `i` is one (or `i` is the end).
proof fn lemma_stop_index(evs: Seq<XmlEvent>, i: int)
    requires
        0 <= i <= evs.len(),
        forall|j: int| 0 <= j < i ==> !(evs[j] is Eof) && !(evs[j] is Error),
    ensures
        stop_index(evs) >= i,
        (i == evs.len() || evs[i] is Eof || evs[i] is Error) ==> stop_index(evs) == i,
    decreases i,
{
    if i > 0 {
        let d = evs.drop_first();
        assert(!(evs[0] is Eof) && !(evs[0] is Error));
        assert forall|j: int| 0 <= j < i - 1 implies !(d[j] is Eof) && !(d[j] is Error) by {
            assert(d[j] == evs[j + 1]);
        }
        if i < evs.len() {
            assert(d[i - 1] == evs[i]);
        }
        lemma_stop_index(d, i - 1);
    }
}

/// The tokens that a reader over `bytes` hands out first: one more than there
/// are bytes.
pub open spec fn xml_tokens(bytes: Seq<u8>) -> Seq<XmlEvent> {
    Seq::new(bytes.len() + 1, |k: int| xml_event(bytes, k as nat))
}

/// Reads a history document from its XSPF bytes: the tokens of
/// [`xml_tokens`] up to the first end of input or reader error are assembled
/// as [`document_of`] says, each track with a fresh id and the current time as
/// its default start, and a document without a session id gets a fresh one. A
/// reader error gives its message; when none of those tokens ends the input,
/// the error is `malformed XML: no end of input`.
pub fn parse_document(bytes: &[u8]) -> (r: core::result::Result<HistoryDocument, String>)
    ensures
        ({
            let toks = xml_tokens(bytes@);
            let k = stop_index(toks) as int;
            &&& k == toks.len() ==> (r matches Err(m) && m@ == "malformed XML: no end of input"@)
            &&& k < toks.len() ==> (r is Err <==> toks[k] is Error)
            &&& k < toks.len() ==> match r {
                Ok(doc) => exists|ids: Seq<String>, now: Seq<char>, fb: Seq<char>|
                    #![trigger document_of(toks, ids, now, fb)]
                    document_of(toks, ids, now, fb) == Ok::<(SessionView, Seq<EntryView>), Seq<char>>(
                        (doc.session@, entries_view(doc.entries@)),
                    ),
                Err(m) => (toks[k] matches XmlEvent::Error(e) && m@ == e@),
            }
        }),
{
    let ghost toks = xml_tokens(bytes@);
    let mut stream = XmlStream::new(bytes);
    let mut events: Vec<XmlEvent> = Vec::new();
    let mut ids: Vec<String> = Vec::new();
    loop
        invariant_except_break
            stream.source() == bytes@,
            stream.read() == events@.len(),
            events@.len() <= bytes@.len(),
            forall|i: int| 0 <= i < events@.len() ==> !(#[trigger] events@[i] is Eof) && !(events@[i] is Error),
        invariant
            toks == xml_tokens(bytes@),
            ids@.len() == events@.len(),
            forall|i: int| 0 <= i < events@.len() ==> #[trigger] events@[i] == toks[i] && event_ok(events@[i]),
        ensures
            1 <= events@.len() <= toks.len(),
            events@.last() is Eof || events@.last() is Error,
            forall|i: int| 0 <= i < events@.len() - 1 ==> !(#[trigger] events@[i] is Eof) && !(events@[i] is Error),
        decreases bytes@.len() - events@.len(),
    {
        let ev = stream.next();
        let done = is_stop(&ev);
        events.push(ev);
        ids.push(new_uuid());
        if done {
            break;
        }
        if events.len() > bytes.len() {
            proof {
                assert(events@ =~= toks);
                lemma_stop_index(toks, toks.len() as int);
            }
            return Err(owned("malformed XML: no end of input"));
        }
    }
    let ghost n = events@.len() as int;
    proof {
        assert forall|j: int| 0 <= j < n - 1 implies !(toks[j] is Eof) && !(toks[j] is Error) by {
            assert(events@[j] == toks[j]);
        }
        assert(events@[n - 1] == toks[n - 1]);
        lemma_stop_index(toks, n - 1);
        lemma_stop_index(events@, n - 1);
        assert(events@.take(n - 1) =~= toks.take(n - 1));
    }
    let now = utc_now_rfc3339();
    let fallback = new_uuid();
    let r = parse_events(events.as_slice(), ids.as_slice(), now.as_str(), fallback.as_str());
    proof {
        assert(document_of(events@, ids@, now@, fallback@) == document_of(toks, ids@, now@, fallback@));
    }
    r
}

} // verus!
