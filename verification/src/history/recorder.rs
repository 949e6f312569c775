//! The rules of the performance-history recorder: what a deck snapshot keeps,
//! when a play starts, commits and ends, what a logged entry holds, and how a
//! session is closed. The recorder's clock, its output-level gate and its
//! files are handled by the application around these rules.

use vstd::prelude::*;

use crate::error::{LibraryError, is_backend_error};
use crate::history::xspf::{HistoryDocument, HistoryEntry};
use crate::manager::{LibraryManager, TrackRow};
use crate::records::copy_opt_string;
use crate::text::{chars_eq, chars_of, owned, push_chars, push_str, starts_with};
use crate::types::TrackId;

verus! {

/// A restore offer made at start-up for a session that was left open.
#[derive(Clone, Debug, PartialEq)]
pub struct HistoryRestorePrompt {
    pub session_id: String,
    pub title: String,
    pub last_activity_at: String,
}

/// What the recorder knows of a deck: whether it plays and what is loaded.
/// `bpm` holds the tempo as its decimal text. The deck's output level is
/// judged by the caller (see [`is_qualifying`]).
#[derive(Debug, PartialEq)]
pub struct DeckPlaySnapshot {
    pub playing: bool,
    pub track_id: Option<String>,
    pub track_path: Option<String>,
    pub title: Option<String>,
    pub artist: Option<String>,
    pub album: Option<String>,
    pub bpm: Option<String>,
    pub key: Option<String>,
    pub isrc: Option<String>,
    pub duration_ms: Option<i32>,
}

impl Clone for DeckPlaySnapshot {
    fn clone(&self) -> (r: Self)
        ensures
            r == *self,
    {
        DeckPlaySnapshot {
            playing: self.playing,
            track_id: copy_opt_string(&self.track_id),
            track_path: copy_opt_string(&self.track_path),
            title: copy_opt_string(&self.title),
            artist: copy_opt_string(&self.artist),
            album: copy_opt_string(&self.album),
            bpm: copy_opt_string(&self.bpm),
            key: copy_opt_string(&self.key),
            isrc: copy_opt_string(&self.isrc),
            duration_ms: self.duration_ms,
        }
    }
}

/// `a` if present, else `b`.
pub open spec fn or_else<T>(a: Option<T>, b: Option<T>) -> Option<T> {
    match a {
        Some(x) => Some(x),
        None => b,
    }
}

fn or_else_string(a: Option<String>, b: &Option<String>) -> (r: Option<String>)
    ensures
        r == or_else(a, *b),
{
    match a {
        Some(x) => Some(x),
        None => copy_opt_string(b),
    }
}

/// The deck state after an update: transport from the update, and each track
/// detail from the update where it has one, else the one known before.
pub fn merge_deck_play_snapshot(prev: &DeckPlaySnapshot, next: DeckPlaySnapshot) -> (m: DeckPlaySnapshot)
    ensures
        m.playing == next.playing,
        m.track_id == or_else(next.track_id, prev.track_id),
        m.track_path == or_else(next.track_path, prev.track_path),
        m.title == or_else(next.title, prev.title),
        m.artist == or_else(next.artist, prev.artist),
        m.album == or_else(next.album, prev.album),
        m.bpm == or_else(next.bpm, prev.bpm),
        m.key == or_else(next.key, prev.key),
        m.isrc == or_else(next.isrc, prev.isrc),
        m.duration_ms == or_else(next.duration_ms, prev.duration_ms),
{
    DeckPlaySnapshot {
        playing: next.playing,
        track_id: or_else_string(next.track_id, &prev.track_id),
        track_path: or_else_string(next.track_path, &prev.track_path),
        title: or_else_string(next.title, &prev.title),
        artist: or_else_string(next.artist, &prev.artist),
        album: or_else_string(next.album, &prev.album),
        bpm: or_else_string(next.bpm, &prev.bpm),
        key: or_else_string(next.key, &prev.key),
        isrc: or_else_string(next.isrc, &prev.isrc),
        duration_ms: match next.duration_ms {
            Some(d) => Some(d),
            None => prev.duration_ms,
        },
    }
}

/// A deck counts as playing for the history: it plays, has a track loaded, and
/// its effective output reaches the threshold (`audible`, judged by the caller).
pub open spec fn qualifies(snap: DeckPlaySnapshot, audible: bool) -> bool {
    snap.playing && (snap.track_id is Some || snap.track_path is Some) && audible
}

/// Exec form of [`qualifies`].
pub fn is_qualifying(snap: &DeckPlaySnapshot, audible: bool) -> (b: bool)
    ensures
        b == qualifies(*snap, audible),
{
    snap.playing && (snap.track_id.is_some() || snap.track_path.is_some()) && audible
}

/// What a deck's pending play needs after its state changed.
#[derive(Debug, Clone, Copy, PartialEq, Eq, Structural)]
pub enum DeckSync {
    /// Nothing to do.
    Keep,
    /// A qualifying deck without a pending play starts one.
    Start,
    /// A deck that stopped qualifying finishes its pending play.
    Finish,
}

/// The pending-play step for one deck (nothing happens while history is off).
pub fn deck_sync(enabled: bool, qualifying: bool, has_pending: bool) -> (s: DeckSync)
    ensures
        s == (if !enabled {
            DeckSync::Keep
        } else if qualifying && !has_pending {
            DeckSync::Start
        } else if !qualifying && has_pending {
            DeckSync::Finish
        } else {
            DeckSync::Keep
        }),
{
    if !enabled {
        DeckSync::Keep
    } else if qualifying && !has_pending {
        DeckSync::Start
    } else if !qualifying && has_pending {
        DeckSync::Finish
    } else {
        DeckSync::Keep
    }
}

/// A pending play is committed to the session once it has lasted the minimum
/// play time while its deck still qualifies (and only once).
pub fn should_commit(committed: bool, elapsed_ms: u64, min_play_seconds: u32, qualifying: bool) -> (b: bool)
    ensures
        b == (!committed && elapsed_ms >= min_play_seconds * 1000 && qualifying),
{
    let min_ms: u64 = (min_play_seconds as u64) * 1000;
    !committed && elapsed_ms >= min_ms && qualifying
}

/// The location of a track path: `file://` in front unless it is there already.
pub open spec fn file_uri_of(path: Option<Seq<char>>) -> Seq<char> {
    match path {
        Some(p) => if starts_with(p, "file://"@) {
            p
        } else {
            "file://"@ + p
        },
        None => seq![],
    }
}

/// The `file://` location of a track path (empty when there is none).
pub fn file_uri(path: Option<&str>) -> (u: String)
    ensures
        u@ == file_uri_of(
            match path {
                Some(p) => Some(p@),
                None => None,
            },
        ),
{
    match path {
        Some(p) => {
            let cs = chars_of(p);
            let prefix = chars_of("file://");
            if crate::text::chars_start_with(cs.as_slice(), prefix.as_slice()) {
                owned(p)
            } else {
                let mut u = owned("file://");
                push_str(&mut u, p);
                u
            }
        },
        None => String::new(),
    }
}

/// `s` with each `T` turned into a space.
pub open spec fn t_to_space(s: Seq<char>) -> Seq<char> {
    s.map_values(|c: char| if c == 'T' { ' ' } else { c })
}

/// `s` without its trailing `Z` characters.
pub open spec fn strip_trailing_z(s: Seq<char>) -> Seq<char>
    decreases s.len(),
{
    if s.len() > 0 && s.last() == 'Z' {
        strip_trailing_z(s.drop_last())
    } else {
        s
    }
}

/// Title of a session started at `started_at`: the stamp with `T` as a space
/// and no trailing `Z`.
pub fn local_session_title(started_at: &str) -> (t: String)
    ensures
        t@ == strip_trailing_z(t_to_space(started_at@)),
{
    let cs = chars_of(started_at);
    let mut out: Vec<char> = Vec::new();
    let mut i: usize = 0;
    while i < cs.len()
        invariant
            i <= cs.len(),
            out@ == t_to_space(cs@.take(i as int)),
        decreases cs.len() - i,
    {
        let c = if cs[i] == 'T' {
            ' '
        } else {
            cs[i]
        };
        out.push(c);
        assert(t_to_space(cs@.take(i + 1)) =~= t_to_space(cs@.take(i as int)).push(c));
        i = i + 1;
    }
    assert(cs@.take(cs.len() as int) =~= cs@);
    let mut n = out.len();
    assert(out@.take(n as int) =~= out@);
    while n > 0 && out[n - 1] == 'Z'
        invariant
            n <= out@.len(),
            strip_trailing_z(out@.take(n as int)) == strip_trailing_z(out@),
        decreases n,
    {
        assert(out@.take(n as int).drop_last() =~= out@.take(n - 1));
        n = n - 1;
    }
    assert(strip_trailing_z(out@.take(n as int)) == out@.take(n as int));
    let mut s = String::new();
    push_chars(&mut s, &out.as_slice()[0..n]);
    s
}

/// The instant an RFC 3339 time stamp denotes, in milliseconds since the Unix
/// epoch (none when the text is not such a stamp), as chrono reads it.
pub uninterp spec fn rfc3339_millis(s: Seq<char>) -> Option<i64>;

/// `chrono::DateTime::parse_from_rfc3339`, then `timestamp_millis`. The result
/// is what chrono computes for this text, named by [`rfc3339_millis`].
#[verifier::external_body]
fn parse_rfc3339(iso: &str) -> (r: Option<i64>)
    ensures
        r == rfc3339_millis(iso@),
{
    chrono::DateTime::parse_from_rfc3339(iso).ok().map(|dt| dt.timestamp_millis())
}

/// Milliseconds of a time stamp, 0 when it does not parse.
pub open spec fn millis_or_zero(s: Seq<char>) -> i64 {
    match rfc3339_millis(s) {
        Some(m) => m,
        None => 0,
    }
}

/// Milliseconds since the epoch of an RFC 3339 stamp (0 when it does not parse).
pub fn parse_rfc3339_ms(iso: &str) -> (ms: i64)
    ensures
        ms == millis_or_zero(iso@),
{
    match parse_rfc3339(iso) {
        Some(m) => m,
        None => 0,
    }
}

/// `a - b`, held to the range of `i64`.
pub open spec fn sat_sub(a: i64, b: i64) -> i64 {
    if a - b > i64::MAX {
        i64::MAX
    } else if a - b < i64::MIN {
        i64::MIN
    } else {
        (a - b) as i64
    }
}

/// Exec form of [`sat_sub`].
pub fn saturating_sub_i64(a: i64, b: i64) -> (d: i64)
    ensures
        d == sat_sub(a, b),
{
    let wide: i128 = (a as i128) - (b as i128);
    if wide > (i64::MAX as i128) {
        i64::MAX
    } else if wide < (i64::MIN as i128) {
        i64::MIN
    } else {
        wide as i64
    }
}

/// Milliseconds played between two stamps.
pub open spec fn played_ms(ended: Seq<char>, started: Seq<char>) -> i64 {
    sat_sub(millis_or_zero(ended), millis_or_zero(started))
}

/// `entry` with its end time and played duration replaced.
pub open spec fn with_end(e: HistoryEntry, ended_at: Option<String>, played: Option<i64>) -> HistoryEntry {
    HistoryEntry {
        id: e.id,
        deck: e.deck,
        track_id: e.track_id,
        location: e.location,
        title: e.title,
        artist: e.artist,
        album: e.album,
        duration_sec: e.duration_sec,
        bpm: e.bpm,
        key: e.key,
        isrc: e.isrc,
        started_at: e.started_at,
        ended_at,
        played_duration_ms: played,
    }
}

/// `after` is `before` ended at `now` when it was still open, else `before`.
pub open spec fn ended_at_close(before: HistoryEntry, after: HistoryEntry, now: Seq<char>) -> bool {
    if before.ended_at is None {
        &&& after.ended_at matches Some(t) && t@ == now
        &&& after == with_end(before, after.ended_at, Some(played_ms(now, before.started_at@)))
    } else {
        after == before
    }
}

/// Close a session document at `now`: every entry still open ends now, with
/// the time played since it started; the session is marked closed and its
/// last activity is `now`.
pub fn close_document(doc: &mut HistoryDocument, now: &str)
    ensures
        entries_closed(old(doc).entries@, final(doc).entries@, now@),
        forall|i: int| 0 <= i < final(doc).entries@.len() ==> (#[trigger] final(doc).entries@[i]).ended_at is Some,
        final(doc).session.closed,
        final(doc).session.last_activity_at@ == now@,
        final(doc).session.id == old(doc).session.id,
        final(doc).session.title == old(doc).session.title,
        final(doc).session.started_at == old(doc).session.started_at,
{
    let now_ms = parse_rfc3339_ms(now);
    let mut i: usize = 0;
    while i < doc.entries.len()
        invariant
            i <= doc.entries@.len(),
            now_ms == millis_or_zero(now@),
            doc.entries@.len() == old(doc).entries@.len(),
            doc.session == old(doc).session,
            forall|j: int| 0 <= j < i ==> ended_at_close(#[trigger] old(doc).entries@[j], doc.entries@[j], now@),
            forall|j: int| i <= j < doc.entries@.len() ==> doc.entries@[j] == old(doc).entries@[j],
        decreases doc.entries.len() - i,
    {
        if doc.entries[i].ended_at.is_none() {
            let mut e = doc.entries.remove(i);
            let started_ms = parse_rfc3339_ms(e.started_at.as_str());
            e.ended_at = Some(owned(now));
            e.played_duration_ms = Some(saturating_sub_i64(now_ms, started_ms));
            doc.entries.insert(i, e);
        }
        i = i + 1;
    }
    doc.session.closed = true;
    doc.session.last_activity_at = owned(now);
    assert forall|i: int| 0 <= i < doc.entries@.len() implies (#[trigger] doc.entries@[i]).ended_at is Some by {
        assert(ended_at_close(old(doc).entries@[i], doc.entries@[i], now@));
    }
}

/// `new` is `old` after the play `id` ended at `ended_at` after `played`
/// milliseconds: the first entry with that id takes the end (a negative count
/// read as 0), the others are unchanged.
pub open spec fn entries_finished(
    old: Seq<HistoryEntry>,
    new: Seq<HistoryEntry>,
    id: Seq<char>,
    ended_at: Seq<char>,
    played: i64,
) -> bool {
    &&& new.len() == old.len()
    &&& forall|j: int|
        0 <= j < old.len() ==> {
            let e = #[trigger] old[j];
            let is_first = e.id@ == id && forall|q: int| 0 <= q < j ==> old[q].id@ != id;
            if is_first {
                &&& new[j].ended_at matches Some(t) && t@ == ended_at
                &&& new[j] == with_end(
                    e,
                    new[j].ended_at,
                    Some(if played > 0 {
                        played
                    } else {
                        0
                    }),
                )
            } else {
                new[j] == e
            }
        }
}

/// `new` is `old` with every open play ended at `now`.
pub open spec fn entries_closed(old: Seq<HistoryEntry>, new: Seq<HistoryEntry>, now: Seq<char>) -> bool {
    &&& new.len() == old.len()
    &&& forall|i: int| 0 <= i < old.len() ==> ended_at_close(#[trigger] old[i], new[i], now)
}

/// End the logged play `entry_id` of an open session at `ended_at`, after
/// `played` milliseconds (a negative count is taken as 0), and record `now` as
/// the session's last activity. The first entry with that id is the one
/// ended; when none has it only the activity time changes.
pub fn finish_entry(doc: &mut HistoryDocument, entry_id: &str, ended_at: &str, played: i64, now: &str)
    ensures
        final(doc).entries@.len() == old(doc).entries@.len(),
        final(doc).session.last_activity_at@ == now@,
        final(doc).session.id == old(doc).session.id,
        final(doc).session.title == old(doc).session.title,
        final(doc).session.started_at == old(doc).session.started_at,
        final(doc).session.closed == old(doc).session.closed,
        entries_finished(old(doc).entries@, final(doc).entries@, entry_id@, ended_at@, played),
{
    let ids = chars_of(entry_id);
    let mut i: usize = 0;
    while i < doc.entries.len()
        invariant
            i <= doc.entries@.len(),
            ids@ == entry_id@,
            doc.entries@ == old(doc).entries@,
            doc.session == old(doc).session,
            forall|q: int| 0 <= q < i ==> (#[trigger] old(doc).entries@[q]).id@ != entry_id@,
        decreases doc.entries.len() - i,
    {
        let c = chars_of(doc.entries[i].id.as_str());
        if chars_eq(c.as_slice(), ids.as_slice()) {
            let mut e = doc.entries.remove(i);
            e.ended_at = Some(owned(ended_at));
            e.played_duration_ms = Some(
                if played > 0 {
                    played
                } else {
                    0
                },
            );
            doc.entries.insert(i, e);
            doc.session.last_activity_at = owned(now);
            return ;
        }
        i = i + 1;
    }
    doc.session.last_activity_at = owned(now);
}

/// Log a committed play: `entry` is appended and `now` becomes the session's
/// last activity.
pub fn append_entry(doc: &mut HistoryDocument, entry: HistoryEntry, now: &str)
    ensures
        final(doc).entries@ == old(doc).entries@.push(entry),
        final(doc).session.last_activity_at@ == now@,
        final(doc).session.id == old(doc).session.id,
        final(doc).session.title == old(doc).session.title,
        final(doc).session.started_at == old(doc).session.started_at,
        final(doc).session.closed == old(doc).session.closed,
{
    doc.entries.push(entry);
    doc.session.last_activity_at = owned(now);
}

/// Whole seconds of a duration in milliseconds, rounded toward zero.
pub open spec fn whole_seconds(ms: i32) -> i32 {
    if ms >= 0 {
        (ms / 1000) as i32
    } else {
        (-((-(ms as int)) / 1000)) as i32
    }
}

/// `e` is the entry logged for a committed play on deck `deck`, started at
/// `started_at`, from what the deck had loaded (`snap`), not yet ended.
pub open spec fn entry_built(e: HistoryEntry, entry_id: String, deck: u16, started_at: String, snap: DeckPlaySnapshot) -> bool {
    &&& e.id == entry_id
    &&& e.deck == deck
    &&& e.started_at == started_at
    &&& e.track_id == snap.track_id
    &&& e.location@ == file_uri_of(opt_view(snap.track_path))
    &&& e.title == snap.title
    &&& e.artist == snap.artist
    &&& e.album == snap.album
    &&& e.duration_sec == (match snap.duration_ms {
        Some(ms) => Some(whole_seconds(ms)),
        None => None,
    })
    &&& e.bpm == snap.bpm
    &&& e.key == snap.key
    &&& e.isrc == snap.isrc
    &&& e.ended_at is None
    &&& e.played_duration_ms is None
}

/// A play in progress on a deck: when it started, the deck, what the deck
/// had loaded, the id its log entry gets, and whether it was logged yet.
#[derive(Debug)]
pub struct PendingPlay {
    pub started_at: String,
    pub deck: u16,
    pub snapshot: DeckPlaySnapshot,
    pub entry_id: String,
    pub committed: bool,
}

/// `e` is the entry pending play `play` is logged with: built from its
/// snapshot after the library filled in what the snapshot lacks.
pub open spec fn play_entry(lib: &LibraryManager, play: PendingPlay, e: HistoryEntry) -> bool {
    exists|snap: DeckPlaySnapshot|
        #![trigger snapshot_enriched(lib, play.snapshot, snap)]
        snapshot_enriched(lib, play.snapshot, snap) && entry_built(
            e,
            play.entry_id,
            play.deck,
            play.started_at,
            snap,
        )
}

/// A play that starts on deck `deck` at `stamp` with what the deck has
/// loaded; its log entry gets a fresh id.
pub fn start_play(deck: u16, snapshot: DeckPlaySnapshot, stamp: &str) -> (p: PendingPlay)
    ensures
        p.started_at@ == stamp@,
        p.deck == deck,
        p.snapshot == snapshot,
        !p.committed,
{
    PendingPlay { started_at: owned(stamp), deck, snapshot, entry_id: crate::history::xspf::new_uuid(), committed: false }
}

/// The entry logged for a committed play on deck `deck`, started at
/// `started_at`, from what the deck had loaded.
pub fn build_entry(entry_id: String, deck: u16, started_at: String, snap: &DeckPlaySnapshot) -> (e: HistoryEntry)
    ensures
        entry_built(e, entry_id, deck, started_at, *snap),
{
    let location = match &snap.track_path {
        Some(p) => file_uri(Some(p.as_str())),
        None => file_uri(None),
    };
    let duration_sec = match snap.duration_ms {
        Some(ms) => {
            let wide: i64 = ms as i64;
            let secs: i64 = if wide >= 0 {
                wide / 1000
            } else {
                -((-wide) / 1000)
            };
            Some(secs as i32)
        },
        None => None,
    };
    HistoryEntry {
        id: entry_id,
        deck,
        track_id: copy_opt_string(&snap.track_id),
        location,
        title: copy_opt_string(&snap.title),
        artist: copy_opt_string(&snap.artist),
        album: copy_opt_string(&snap.album),
        duration_sec,
        bpm: copy_opt_string(&snap.bpm),
        key: copy_opt_string(&snap.key),
        isrc: copy_opt_string(&snap.isrc),
        started_at,
        ended_at: None,
        played_duration_ms: None,
    }
}

/// The characters of an optional string.
pub open spec fn opt_view(o: Option<String>) -> Option<Seq<char>> {
    match o {
        Some(s) => Some(s@),
        None => None,
    }
}

/// An absent or empty text.
pub open spec fn is_blank(o: Option<String>) -> bool {
    match o {
        Some(s) => s@.len() == 0,
        None => true,
    }
}

/// A library value, unless it is empty.
pub open spec fn non_empty(o: Option<String>) -> Option<String> {
    match o {
        Some(s) => if s@.len() > 0 {
            Some(s)
        } else {
            None
        },
        None => None,
    }
}

/// A detail kept when present and not empty, else taken from the library.
pub open spec fn filled(cur: Option<String>, lib: Option<String>) -> Option<String> {
    if is_blank(cur) {
        non_empty(lib)
    } else {
        cur
    }
}

fn fill(cur: Option<String>, lib: &Option<String>) -> (r: Option<String>)
    ensures
        r == filled(cur, *lib),
{
    let blank = match &cur {
        Some(s) => s.as_str().is_empty(),
        None => true,
    };
    if blank {
        match lib {
            Some(s) => if !s.as_str().is_empty() {
                Some(s.clone())
            } else {
                None
            },
            None => None,
        }
    } else {
        cur
    }
}

/// The library row of the track a snapshot or entry names, when it names one
/// (an empty id names none).
pub open spec fn named_row(lib: &LibraryManager, track_id: Option<String>) -> Option<TrackRow> {
    match track_id {
        Some(t) => if t@.len() > 0 {
            lib.track_of(t@)
        } else {
            None
        },
        None => None,
    }
}

fn lookup_named(lib: &LibraryManager, track_id: &Option<String>) -> (r: Option<TrackRow>)
    ensures
        r == named_row(lib, *track_id),
{
    match track_id {
        Some(t) => {
            if t.as_str().is_empty() {
                return None;
            }
            let id = TrackId::new(t.as_str());
            match lib.get_track_row(&id) {
                Ok(o) => o,
                Err(_) => None,
            }
        },
        None => None,
    }
}

/// `after` is the deck snapshot `before` with its missing details filled
/// from the library row of its track.
pub open spec fn snapshot_enriched(lib: &LibraryManager, before: DeckPlaySnapshot, after: DeckPlaySnapshot) -> bool {
    match named_row(lib, before.track_id) {
        Some(row) => {
            &&& after.playing == before.playing
            &&& after.track_id == before.track_id
            &&& after.track_path == (if is_blank(before.track_path) {
                Some(row.source_ref)
            } else {
                before.track_path
            })
            &&& after.title == filled(before.title, row.metadata.title)
            &&& after.artist == filled(before.artist, row.metadata.artist)
            &&& after.album == filled(before.album, row.metadata.album)
            &&& after.key == filled(before.key, row.metadata.key)
            &&& after.isrc == filled(before.isrc, row.metadata.isrc)
            &&& after.bpm == before.bpm
            &&& after.duration_ms == or_else(before.duration_ms, row.metadata.duration_ms)
        },
        None => after == before,
    }
}

/// Fill the details a deck snapshot lacks from the library row of its track:
/// the path, title, artist, album, key, ISRC (each only when absent or empty,
/// and only with a non-empty library value) and the duration (when absent).
pub fn enrich_snapshot_from_library(lib: &LibraryManager, snap: &mut DeckPlaySnapshot)
    ensures
        snapshot_enriched(lib, *old(snap), *final(snap)),
{
    let row = match lookup_named(lib, &snap.track_id) {
        Some(r) => r,
        None => {
            return ;
        },
    };
    let blank_path = match &snap.track_path {
        Some(p) => p.as_str().is_empty(),
        None => true,
    };
    if blank_path {
        snap.track_path = Some(row.source_ref);
    }
    let title = snap.title.take();
    snap.title = fill(title, &row.metadata.title);
    let artist = snap.artist.take();
    snap.artist = fill(artist, &row.metadata.artist);
    let album = snap.album.take();
    snap.album = fill(album, &row.metadata.album);
    let key = snap.key.take();
    snap.key = fill(key, &row.metadata.key);
    let isrc = snap.isrc.take();
    snap.isrc = fill(isrc, &row.metadata.isrc);
    if snap.duration_ms.is_none() {
        snap.duration_ms = row.metadata.duration_ms;
    }
}

/// `after` is the logged play `before` with its missing details filled from
/// the library row of its track.
pub open spec fn enriched(lib: &LibraryManager, before: HistoryEntry, after: HistoryEntry) -> bool {
    match named_row(lib, before.track_id) {
        Some(row) => {
            &&& after.location@ == (if before.location@.len() == 0 {
                file_uri_of(Some(row.source_ref@))
            } else {
                before.location@
            })
            &&& after.title == filled(before.title, row.metadata.title)
            &&& after.artist == filled(before.artist, row.metadata.artist)
            &&& after.album == filled(before.album, row.metadata.album)
            &&& after.key == filled(before.key, row.metadata.key)
            &&& after.isrc == filled(before.isrc, row.metadata.isrc)
            &&& after.id == before.id
            &&& after.deck == before.deck
            &&& after.track_id == before.track_id
            &&& after.duration_sec == before.duration_sec
            &&& after.bpm == before.bpm
            &&& after.started_at == before.started_at
            &&& after.ended_at == before.ended_at
            &&& after.played_duration_ms == before.played_duration_ms
        },
        None => after == before,
    }
}

/// Fill the details a logged entry lacks from the library row of its track:
/// the location (from the track's source, when empty) and the title, artist,
/// album, key and ISRC (each only when absent or empty, and only with a
/// non-empty library value).
pub fn enrich_history_entry(lib: &LibraryManager, entry: &mut HistoryEntry)
    ensures
        enriched(lib, *old(entry), *final(entry)),
{
    let row = match lookup_named(lib, &entry.track_id) {
        Some(r) => r,
        None => {
            return ;
        },
    };
    if entry.location.as_str().is_empty() {
        entry.location = file_uri(Some(row.source_ref.as_str()));
    }
    let title = entry.title.take();
    entry.title = fill(title, &row.metadata.title);
    let artist = entry.artist.take();
    entry.artist = fill(artist, &row.metadata.artist);
    let album = entry.album.take();
    entry.album = fill(album, &row.metadata.album);
    let key = entry.key.take();
    entry.key = fill(key, &row.metadata.key);
    let isrc = entry.isrc.take();
    entry.isrc = fill(isrc, &row.metadata.isrc);
}

/// The error the recorder answers a refused request with.
pub fn history_err(msg: &str) -> (e: LibraryError)
    ensures
        e matches LibraryError::Backend { backend, message } && backend@ == "history"@ && message@
            == msg@,
{
    LibraryError::Backend { backend: "history", message: owned(msg) }
}

/// Whether a manual new session may start: there must be an open session, and
/// it must have logged a play.
pub fn check_new_session(active: Option<&HistoryDocument>) -> (r: Result<(), LibraryError>)
    ensures
        active is None ==> is_backend_error(r, "history"@, "no active session"@),
        active matches Some(d) && d.entries@.len() == 0 ==> is_backend_error(
            r,
            "history"@,
            "session has no entries"@,
        ),
        active matches Some(d) && d.entries@.len() > 0 ==> r is Ok,
{
    match active {
        None => Err(history_err("no active session")),
        Some(d) => if d.entries.len() == 0 {
            Err(history_err("session has no entries"))
        } else {
            Ok(())
        },
    }
}

/// The session to resume: refused while an open or new session exists, and
/// when no session is closed; otherwise the first closed one listed.
pub fn resume_target(
    has_document: bool,
    has_path: bool,
    sessions: &Vec<crate::history::store::HistorySessionRow>,
) -> (r: Result<usize, LibraryError>)
    ensures
        has_document || has_path ==> is_backend_error(r, "history"@, "successor session already exists"@),
        !has_document && !has_path && (forall|i: int| 0 <= i < sessions@.len() ==> !(#[trigger] sessions@[i]).closed)
            ==> is_backend_error(r, "history"@, "no closed session to resume"@),
        r matches Ok(k) ==> !has_document && !has_path && k < sessions@.len() && sessions@[k as int].closed
            && forall|i: int| 0 <= i < k ==> !(#[trigger] sessions@[i]).closed,
        !has_document && !has_path && (exists|i: int| 0 <= i < sessions@.len() && (#[trigger] sessions@[i]).closed)
            ==> r is Ok,
{
    if has_document || has_path {
        return Err(history_err("successor session already exists"));
    }
    let mut i: usize = 0;
    while i < sessions.len()
        invariant
            i <= sessions@.len(),
            !has_document && !has_path,
            forall|q: int| 0 <= q < i ==> !(#[trigger] sessions@[q]).closed,
        decreases sessions.len() - i,
    {
        if sessions[i].closed {
            return Ok(i);
        }
        i = i + 1;
    }
    Err(history_err("no closed session to resume"))
}

/// A session idles out once `idle_minutes` whole minutes have passed since its
/// last activity (time before the stamp counts as none).
pub open spec fn idle_expired(now_ms: i64, last_activity: Seq<char>, idle_minutes: u32) -> bool {
    let elapsed = now_ms - millis_or_zero(last_activity);
    (if elapsed > 0 {
        elapsed
    } else {
        0
    }) >= idle_minutes * 60000
}

/// Exec form of [`idle_expired`].
pub fn is_idle_expired(now_ms: i64, last_activity: &str, idle_minutes: u32) -> (b: bool)
    ensures
        b == idle_expired(now_ms, last_activity@, idle_minutes),
{
    let last = parse_rfc3339_ms(last_activity);
    let elapsed: i128 = (now_ms as i128) - (last as i128);
    let clamped: i128 = if elapsed > 0 {
        elapsed
    } else {
        0
    };
    clamped >= (idle_minutes as i128) * 60000
}

} // verus!
