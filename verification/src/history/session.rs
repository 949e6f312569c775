//! The life of history sessions: the open session document, its file and
//! index row, and the requests that open, close, restore, resume, rename and
//! delete sessions. Files are kept here as the documents they hold; the
//! application writes them to disk and reads them back.

use vstd::prelude::*;

use crate::error::{LibraryError, is_backend_error};
use crate::history::recorder::{
    HistoryRestorePrompt, check_new_session, close_document, ended_at_close, history_err,
    idle_expired, is_idle_expired, local_session_title, resume_target, strip_trailing_z, t_to_space,
    append_entry, finish_entry, with_end, entries_closed, entries_finished,
};
use crate::history::store::{HistorySessionModel, HistorySessionRow, SessionIndex, listed_rows, row_of};
use crate::history::recorder::{
    PendingPlay, build_entry, enrich_history_entry, enrich_snapshot_from_library, enriched, millis_or_zero,
    parse_rfc3339_ms, play_entry, sat_sub, saturating_sub_i64,
};
use crate::manager::LibraryManager;
use crate::history::xspf::{HistoryDocument, HistoryEntry, SessionMeta, new_uuid, session_filename_from_started_at, session_filename_of};
use crate::manager::{find_id, lemma_find_id, lemma_find_id_push, lemma_find_id_remove};
use crate::paths::{path_join, std_path_join};
use crate::records::copy_opt_string;
use crate::text::{chars_eq, chars_of, owned};

verus! {

/// The time of a request: its RFC 3339 stamp and the same instant in
/// milliseconds since the Unix epoch.
#[derive(Debug)]
pub struct Clock {
    pub stamp: String,
    pub now_ms: i64,
}

/// A copy of a logged play.
pub fn copy_entry(e: &HistoryEntry) -> (r: HistoryEntry)
    ensures
        r == *e,
{
    HistoryEntry {
        id: e.id.clone(),
        deck: e.deck,
        track_id: copy_opt_string(&e.track_id),
        location: e.location.clone(),
        title: copy_opt_string(&e.title),
        artist: copy_opt_string(&e.artist),
        album: copy_opt_string(&e.album),
        duration_sec: e.duration_sec,
        bpm: copy_opt_string(&e.bpm),
        key: copy_opt_string(&e.key),
        isrc: copy_opt_string(&e.isrc),
        started_at: e.started_at.clone(),
        ended_at: copy_opt_string(&e.ended_at),
        played_duration_ms: e.played_duration_ms,
    }
}

/// What a session document holds: its metadata and its plays.
pub open spec fn doc_view(d: HistoryDocument) -> (SessionMeta, Seq<HistoryEntry>) {
    (d.session, d.entries@)
}

/// A copy of a session document.
pub fn copy_document(d: &HistoryDocument) -> (r: HistoryDocument)
    ensures
        doc_view(r) == doc_view(*d),
{
    let mut entries: Vec<HistoryEntry> = Vec::new();
    let mut i: usize = 0;
    while i < d.entries.len()
        invariant
            i <= d.entries@.len(),
            entries@ == d.entries@.take(i as int),
        decreases d.entries.len() - i,
    {
        entries.push(copy_entry(&d.entries[i]));
        assert(d.entries@.take(i + 1) =~= d.entries@.take(i as int).push(d.entries@[i as int]));
        i = i + 1;
    }
    assert(d.entries@.take(d.entries@.len() as int) =~= d.entries@);
    HistoryDocument {
        session: SessionMeta {
            id: d.session.id.clone(),
            title: d.session.title.clone(),
            started_at: d.session.started_at.clone(),
            last_activity_at: d.session.last_activity_at.clone(),
            closed: d.session.closed,
        },
        entries,
    }
}

/// A session file: where it is and the document it holds.
#[derive(Debug)]
pub struct StoredDocument {
    pub path: String,
    pub doc: HistoryDocument,
}

/// Paths of the stored files.
pub open spec fn file_paths(fs: Seq<StoredDocument>) -> Seq<Seq<char>> {
    fs.map_values(|f: StoredDocument| f.path@)
}

/// The document stored at `path`, if any.
pub open spec fn file_at(fs: Seq<StoredDocument>, path: Seq<char>) -> Option<(SessionMeta, Seq<HistoryEntry>)> {
    let k = find_id(file_paths(fs), path, 0);
    if k >= 0 {
        Some(doc_view(fs[k].doc))
    } else {
        None
    }
}

/// `new` holds `doc` at `path` and every other file as `old` does.
pub open spec fn saved(
    old: Seq<StoredDocument>,
    new: Seq<StoredDocument>,
    path: Seq<char>,
    doc: (SessionMeta, Seq<HistoryEntry>),
) -> bool {
    &&& file_at(new, path) == Some(doc)
    &&& forall|p: Seq<char>| #![auto] p != path ==> file_at(new, p) == file_at(old, p)
}

fn file_position(fs: &Vec<StoredDocument>, path: &str) -> (k: Option<usize>)
    ensures
        match k {
            Some(i) => i < fs@.len() && find_id(file_paths(fs@), path@, 0) == i,
            None => find_id(file_paths(fs@), path@, 0) == -1,
        },
{
    let ps = chars_of(path);
    let mut i: usize = 0;
    while i < fs.len()
        invariant
            i <= fs@.len(),
            ps@ == path@,
            find_id(file_paths(fs@), path@, 0) == find_id(file_paths(fs@), path@, i as int),
        decreases fs.len() - i,
    {
        let c = chars_of(fs[i].path.as_str());
        if chars_eq(c.as_slice(), ps.as_slice()) {
            return Some(i);
        }
        i = i + 1;
    }
    None
}

/// Write `doc` to the file at `path` (replacing what it held).
pub fn save_document(fs: &mut Vec<StoredDocument>, path: &str, doc: HistoryDocument)
    ensures
        saved(old(fs)@, final(fs)@, path@, doc_view(doc)),
{
    let ghost old_paths = file_paths(fs@);
    match file_position(fs, path) {
        Some(k) => {
            let mut f = fs.remove(k);
            f.doc = doc;
            fs.insert(k, f);
            proof {
                lemma_find_id(old_paths, path@, 0);
                assert(file_paths(fs@) =~= old_paths);
                assert forall|p: Seq<char>| #![auto] p != path@ implies file_at(fs@, p) == file_at(old(fs)@, p) by {
                    lemma_find_id(old_paths, p, 0);
                }
            }
        },
        None => {
            fs.push(StoredDocument { path: owned(path), doc });
            proof {
                assert(file_paths(fs@) =~= old_paths.push(path@));
                lemma_find_id_push(old_paths, path@, path@);
                assert forall|p: Seq<char>| #![auto] p != path@ implies file_at(fs@, p) == file_at(old(fs)@, p) by {
                    lemma_find_id_push(old_paths, path@, p);
                    lemma_find_id(old_paths, p, 0);
                }
            }
        },
    }
}

/// Read the document in the file at `path`; a missing file is refused.
pub fn load_document(fs: &Vec<StoredDocument>, path: &str) -> (r: Result<HistoryDocument, LibraryError>)
    ensures
        match file_at(fs@, path@) {
            Some(d) => r matches Ok(doc) && doc_view(doc) == d,
            None => is_backend_error(r, "history"@, "session file not found: "@ + path@),
        },
{
    match file_position(fs, path) {
        Some(k) => Ok(copy_document(&fs[k].doc)),
        None => {
            let mut m = owned("session file not found: ");
            crate::text::push_str(&mut m, path);
            Err(LibraryError::Backend { backend: "history", message: m })
        },
    }
}

/// Remove the file at `path` (nothing happens when there is none).
pub fn remove_document(fs: &mut Vec<StoredDocument>, path: &str)
    ensures
        file_at(final(fs)@, path@) is None,
        forall|p: Seq<char>| #![auto] p != path@ ==> file_at(final(fs)@, p) == file_at(old(fs)@, p),
{
    let ps = chars_of(path);
    let mut kept: Vec<StoredDocument> = Vec::new();
    let n = fs.len();
    let mut i: usize = 0;
    while i < n
        invariant
            i <= n,
            n == old(fs)@.len(),
            fs@.len() == n - i,
            fs@ == old(fs)@.skip(i as int),
            ps@ == path@,
            kept@ == old(fs)@.take(i as int).filter(not_at(path@)),
        decreases n - i,
    {
        let f = fs.remove(0);
        proof {
            reveal(Seq::filter);
            assert(old(fs)@.take(i + 1).drop_last() =~= old(fs)@.take(i as int));
            assert(old(fs)@[i as int] == f);
            assert(fs@ =~= old(fs)@.skip(i + 1));
        }
        let c = chars_of(f.path.as_str());
        if !chars_eq(c.as_slice(), ps.as_slice()) {
            kept.push(f);
        }
        i = i + 1;
    }
    assert(old(fs)@.take(i as int) =~= old(fs)@);
    *fs = kept;
    proof {
        lemma_filter_paths(old(fs)@, path@);
    }
}

/// What is saved at a path is what a later load of that path reads back;
/// the documents at other paths stay as they were.
pub proof fn law_load_after_save(
    old: Seq<StoredDocument>,
    new: Seq<StoredDocument>,
    path: Seq<char>,
    doc: (SessionMeta, Seq<HistoryEntry>),
    other: Seq<char>,
)
    requires
        saved(old, new, path, doc),
    ensures
        file_at(new, path) == Some(doc),
        other != path ==> file_at(new, other) == file_at(old, other),
{
}

/// Files not at `path`.
pub open spec fn not_at(path: Seq<char>) -> spec_fn(StoredDocument) -> bool {
    |f: StoredDocument| f.path@ != path
}

/// Dropping the files at one path leaves no file there and every other
/// path's file as it was.
pub proof fn lemma_filter_paths(fs: Seq<StoredDocument>, path: Seq<char>)
    ensures
        file_at(fs.filter(not_at(path)), path) is None,
        forall|p: Seq<char>| #![auto] p != path ==> file_at(fs.filter(not_at(path)), p) == file_at(fs, p),
    decreases fs.len(),
{
    reveal(Seq::filter);
    let pred = not_at(path);
    let ff = fs.filter(pred);
    if fs.len() == 0 {
        lemma_find_id(file_paths(ff), path, 0);
        assert forall|p: Seq<char>| #![auto] p != path implies file_at(ff, p) == file_at(fs, p) by {
            lemma_find_id(file_paths(ff), p, 0);
            lemma_find_id(file_paths(fs), p, 0);
        }
    } else {
        let init = fs.drop_last();
        let last = fs.last();
        lemma_filter_paths(init, path);
        let fi = init.filter(pred);
        assert(file_paths(fs) =~= file_paths(init).push(last.path@));
        if pred(last) {
            assert(ff == fi.push(last));
            assert(file_paths(ff) =~= file_paths(fi).push(last.path@));
        } else {
            assert(ff == fi);
        }
        assert forall|p: Seq<char>| #![auto] file_at(ff, p) == (if p == path { None } else { file_at(fs, p) }) by {
            assert(file_at(fi, path) is None);
            assert(p != path ==> file_at(fi, p) == file_at(init, p));
            lemma_find_id(file_paths(init), p, 0);
            lemma_find_id(file_paths(fs), p, 0);
            lemma_find_id(file_paths(fi), p, 0);
            lemma_find_id(file_paths(ff), p, 0);
            lemma_find_id_push(file_paths(init), last.path@, p);
            let ki = find_id(file_paths(init), p, 0);
            if ki >= 0 {
                assert(fs[ki] == init[ki]);
            }
            if pred(last) {
                lemma_find_id_push(file_paths(fi), last.path@, p);
                let kf = find_id(file_paths(fi), p, 0);
                if kf >= 0 {
                    assert(ff[kf] == fi[kf]);
                }
                assert(ff[fi.len() as int] == last);
            }
            assert(fs[init.len() as int] == last);
        }
    }
}

/// The index after recording session `s` (with `count` plays) at `path`: a
/// listed session keeps its path and start time and takes the new title,
/// activity, closed flag and count; a new one is listed as given.
pub open spec fn index_recorded(
    old: SessionIndex,
    new: SessionIndex,
    s: SessionMeta,
    count: int,
    path: Seq<char>,
) -> bool {
    &&& new.wf()
    &&& new.model_of(s.id@) matches Some(n) && {
        &&& n.id@ == s.id@
        &&& n.title == s.title
        &&& n.last_activity_at == s.last_activity_at
        &&& n.closed == (if s.closed {
            1i32
        } else {
            0i32
        })
        &&& n.entry_count == count as i32
        &&& match old.model_of(s.id@) {
            Some(o) => n.xspf_path == o.xspf_path && n.started_at == o.started_at,
            None => n.xspf_path@ == path && n.started_at == s.started_at,
        }
    }
    &&& forall|t: Seq<char>| #![auto] t != s.id@ ==> new.model_of(t) == old.model_of(t)
}

/// The open session, its file, and the session index and files.
#[derive(Debug)]
pub struct HistorySession {
    /// Directory the session files go to.
    pub history_dir: String,
    /// The open session, if any.
    pub document: Option<HistoryDocument>,
    /// File of the open session.
    pub xspf_path: Option<String>,
    /// A session was closed by request and no play has opened the next one.
    pub manual_close_pending: bool,
    /// Offer to restore a session left open, made at start-up.
    pub restore_prompt: Option<HistoryRestorePrompt>,
    /// The offer was declined.
    pub restore_declined: bool,
    /// Sessions changed since this was last taken.
    pub session_updated: bool,
    /// One row per session.
    pub index: SessionIndex,
    /// The session files.
    pub files: Vec<StoredDocument>,
}

/// An open session's document as it stands.
pub open spec fn open_view(o: Option<HistoryDocument>) -> Option<(SessionMeta, Seq<HistoryEntry>)> {
    match o {
        Some(d) => Some(doc_view(d)),
        None => None,
    }
}

/// Metadata of a session that opens at `stamp`.
pub open spec fn opened_at(m: SessionMeta, stamp: Seq<char>) -> bool {
    &&& m.title@ == strip_trailing_z(t_to_space(stamp))
    &&& m.started_at@ == stamp
    &&& m.last_activity_at@ == stamp
    &&& !m.closed
}

impl HistorySession {
    /// An open session goes with its file; the index is consistent.
    pub open spec fn wf(&self) -> bool {
        &&& self.index.wf()
        &&& (self.document is Some <==> self.xspf_path is Some)
    }

    /// The plays of the open session, none when there is no open session.
    pub open spec fn open_entries(&self) -> Seq<HistoryEntry> {
        match self.document {
            Some(d) => d.entries@,
            None => seq![],
        }
    }

    /// `self` recorded its open document: the file holds it and the index
    /// lists it.
    pub open spec fn recorded_from(&self, old: &Self) -> bool {
        match (self.document, self.xspf_path) {
            (Some(d), Some(p)) => {
                &&& saved(old.files@, self.files@, p@, doc_view(d))
                &&& index_recorded(old.index, self.index, d.session, d.entries@.len() as int, p@)
                &&& self.session_updated
            },
            _ => false,
        }
    }

    /// A history with the given index and files and no open session.
    pub fn new(history_dir: String, index: SessionIndex, files: Vec<StoredDocument>) -> (h: Self)
        requires
            index.wf(),
        ensures
            h.wf(),
            h.history_dir == history_dir,
            h.document is None,
            h.xspf_path is None,
            !h.manual_close_pending,
            h.restore_prompt is None,
            !h.restore_declined,
            !h.session_updated,
            h.index == index,
            h.files@ == files@,
    {
        HistorySession {
            history_dir,
            document: None,
            xspf_path: None,
            manual_close_pending: false,
            restore_prompt: None,
            restore_declined: false,
            session_updated: false,
            index,
            files,
        }
    }

    /// Whether sessions changed since the last call; the flag is cleared.
    pub fn take_session_updated(&mut self) -> (b: bool)
        ensures
            b == old(self).session_updated,
            !final(self).session_updated,
            final(self).document == old(self).document,
            final(self).xspf_path == old(self).xspf_path,
            final(self).index == old(self).index,
            final(self).files@ == old(self).files@,
            final(self).restore_prompt == old(self).restore_prompt,
            final(self).restore_declined == old(self).restore_declined,
            final(self).manual_close_pending == old(self).manual_close_pending,
            final(self).history_dir == old(self).history_dir,
    {
        let b = self.session_updated;
        self.session_updated = false;
        b
    }

    /// Set the flag again (after a failed notification).
    pub fn mark_session_updated(&mut self)
        ensures
            final(self).session_updated,
            final(self).document == old(self).document,
            final(self).xspf_path == old(self).xspf_path,
            final(self).index == old(self).index,
            final(self).files@ == old(self).files@,
            final(self).restore_prompt == old(self).restore_prompt,
            final(self).restore_declined == old(self).restore_declined,
            final(self).manual_close_pending == old(self).manual_close_pending,
            final(self).history_dir == old(self).history_dir,
    {
        self.session_updated = true;
    }

    /// Id of the open session, if any.
    pub fn active_session_id(&self) -> (id: Option<&str>)
        ensures
            match self.document {
                Some(d) => id matches Some(s) && s@ == d.session.id@,
                None => id is None,
            },
    {
        match &self.document {
            Some(d) => Some(d.session.id.as_str()),
            None => None,
        }
    }

    /// Open a session at `clock` when none is open (a fresh id, titled and
    /// started at the clock's stamp, its file named by that stamp).
    fn ensure_active_session(&mut self, clock: &Clock)
        requires
            old(self).wf(),
        ensures
            final(self).wf(),
            final(self).document is Some,
            old(self).document is Some ==> final(self).document == old(self).document && final(self).xspf_path
                == old(self).xspf_path && final(self).manual_close_pending == old(self).manual_close_pending,
            old(self).document is None ==> {
                &&& opened_at(final(self).document->0.session, clock.stamp@)
                &&& final(self).document->0.entries@.len() == 0
                &&& final(self).xspf_path matches Some(p) && p@ == std_path_join(
                    old(self).history_dir@,
                    session_filename_of(clock.stamp@),
                )
                &&& !final(self).manual_close_pending
            },
            final(self).index == old(self).index,
            final(self).files@ == old(self).files@,
            final(self).restore_prompt == old(self).restore_prompt,
            final(self).restore_declined == old(self).restore_declined,
            final(self).session_updated == old(self).session_updated,
            final(self).history_dir == old(self).history_dir,
    {
        if self.document.is_some() {
            return ;
        }
        self.manual_close_pending = false;
        let doc = HistoryDocument {
            session: SessionMeta {
                id: new_uuid(),
                title: local_session_title(clock.stamp.as_str()),
                started_at: clock.stamp.clone(),
                last_activity_at: clock.stamp.clone(),
                closed: false,
            },
            entries: Vec::new(),
        };
        let name = session_filename_from_started_at(clock.stamp.as_str());
        let path = path_join(self.history_dir.as_str(), name.as_str());
        self.document = Some(doc);
        self.xspf_path = Some(path);
    }

    /// Write the open session to its file and the index.
    fn persist(&mut self)
        requires
            old(self).wf(),
            old(self).document is Some,
        ensures
            final(self).wf(),
            final(self).recorded_from(&*old(self)),
            final(self).document == old(self).document,
            final(self).xspf_path == old(self).xspf_path,
            final(self).restore_prompt == old(self).restore_prompt,
            final(self).restore_declined == old(self).restore_declined,
            final(self).manual_close_pending == old(self).manual_close_pending,
            final(self).history_dir == old(self).history_dir,
    {
        let snapshot = match &self.document {
            Some(d) => copy_document(d),
            None => {
                return ;
            },
        };
        match &self.xspf_path {
            Some(p) => {
                save_document(&mut self.files, p.as_str(), snapshot);
                match &self.document {
                    Some(d) => {
                        self.index.upsert_session_index(d, p.as_str());
                    },
                    None => {},
                }
            },
            None => {},
        }
        self.session_updated = true;
    }

    /// The open session after a change at `clock`: the one that was open
    /// keeps its identity, title, start and closed flag; when none was open,
    /// one was opened at `clock` (its file named after `clock` in the history
    /// directory). Its last activity is `clock`, it is recorded, and the
    /// restore offer, the history directory and (for a session already open)
    /// the pending manual close stay as they were.
    pub open spec fn touched_at(&self, old: &Self, clock: Clock) -> bool {
        &&& self.document matches Some(d) && {
            &&& d.session.last_activity_at@ == clock.stamp@
            &&& match old.document {
                Some(o) => d.session.id == o.session.id && d.session.title == o.session.title
                    && d.session.started_at == o.session.started_at && d.session.closed == o.session.closed,
                None => d.session.title@ == strip_trailing_z(t_to_space(clock.stamp@)) && d.session.started_at@
                    == clock.stamp@ && !d.session.closed,
            }
        }
        &&& self.recorded_from(old)
        &&& old.document is Some ==> self.xspf_path == old.xspf_path
        &&& old.document is None ==> (self.xspf_path matches Some(p) && p@ == std_path_join(
            old.history_dir@,
            session_filename_of(clock.stamp@),
        ))
        &&& self.restore_prompt == old.restore_prompt
        &&& self.restore_declined == old.restore_declined
        &&& old.document is Some ==> self.manual_close_pending == old.manual_close_pending
        &&& old.document is None ==> !self.manual_close_pending
        &&& self.history_dir == old.history_dir
    }

    /// What logging `entry` at `clock` does: the open session (opened when
    /// none was) gets `entry` after its plays.
    pub open spec fn logged(&self, old: &Self, entry: HistoryEntry, clock: Clock) -> bool {
        &&& self.touched_at(old, clock)
        &&& self.document matches Some(d) && d.entries@ == old.open_entries().push(entry)
    }

    /// What ending play `entry_id` at `ended_at` after `played` milliseconds
    /// does at `clock`: the open session (opened when none was) has that play
    /// ended.
    pub open spec fn play_ended(&self, old: &Self, entry_id: Seq<char>, ended_at: Seq<char>, played: i64, clock: Clock) -> bool {
        &&& self.touched_at(old, clock)
        &&& self.document matches Some(d) && entries_finished(old.open_entries(), d.entries@, entry_id, ended_at, played)
    }

    /// Log a committed play in the open session (opening one at `clock` when
    /// none is open) and record it.
    pub fn commit_play(&mut self, entry: HistoryEntry, clock: &Clock)
        requires
            old(self).wf(),
        ensures
            final(self).wf(),
            final(self).logged(&*old(self), entry, *clock),
    {
        self.ensure_active_session(clock);
        let ghost mid = *self;
        match &mut self.document {
            Some(d) => {
                append_entry(d, entry, clock.stamp.as_str());
            },
            None => {},
        }
        proof {
            assert(self.index == mid.index);
            assert(self.files@ == mid.files@);
        }
        self.persist();
        proof {
            let d = self.document->Some_0;
            assert(d.entries@ == old(self).open_entries().push(entry));
            assert(d.session.last_activity_at@ == clock.stamp@);
            assert(self.recorded_from(&*old(self)));
            assert(self.touched_at(&*old(self), *clock));
        }
    }
}

impl HistorySession {
    /// Log pending play `play` at `clock` (its snapshot filled in from the
    /// library) and mark it logged.
    pub fn commit_pending_play(&mut self, lib: &LibraryManager, play: &mut PendingPlay, clock: &Clock)
        requires
            old(self).wf(),
        ensures
            final(self).wf(),
            *final(play) == (PendingPlay { committed: true, ..*old(play) }),
            exists|e: HistoryEntry|
                #![trigger play_entry(lib, *old(play), e)]
                play_entry(lib, *old(play), e) && final(self).logged(&*old(self), e, *clock),
    {
        play.committed = true;
        let mut snap = play.snapshot.clone();
        let ghost before = snap;
        enrich_snapshot_from_library(lib, &mut snap);
        let entry = build_entry(play.entry_id.clone(), play.deck, play.started_at.clone(), &snap);
        assert(play_entry(lib, *old(play), entry));
        self.commit_play(entry, clock);
    }

    /// End pending play `play` at `clock`: a logged play gets `clock` as its
    /// end and the time since its start as its played duration; a play
    /// never logged leaves everything as it was.
    pub fn end_pending_play(&mut self, play: &PendingPlay, clock: &Clock)
        requires
            old(self).wf(),
        ensures
            final(self).wf(),
            !play.committed ==> final(self).unchanged(&*old(self)),
            play.committed ==> final(self).play_ended(
                &*old(self),
                play.entry_id@,
                clock.stamp@,
                sat_sub(clock.now_ms, millis_or_zero(play.started_at@)),
                *clock,
            ),
    {
        if !play.committed {
            return;
        }
        let started = parse_rfc3339_ms(play.started_at.as_str());
        let played = saturating_sub_i64(clock.now_ms, started);
        self.finish_play(play.entry_id.as_str(), clock.stamp.as_str(), played, clock);
    }
}

/// `c` is the session document `o` closed at `now`.
pub open spec fn closed_at(o: (SessionMeta, Seq<HistoryEntry>), c: (SessionMeta, Seq<HistoryEntry>), now: Seq<char>) -> bool {
    &&& c.0.id == o.0.id
    &&& c.0.title == o.0.title
    &&& c.0.started_at == o.0.started_at
    &&& c.0.closed
    &&& c.0.last_activity_at@ == now
    &&& entries_closed(o.1, c.1, now)
}

impl HistorySession {
    /// Everything but the files, the index and the change flag is as in `old`.
    pub open spec fn same_state(&self, old: &Self) -> bool {
        &&& self.document == old.document
        &&& self.xspf_path == old.xspf_path
        &&& self.manual_close_pending == old.manual_close_pending
        &&& self.restore_prompt == old.restore_prompt
        &&& self.restore_declined == old.restore_declined
        &&& self.history_dir == old.history_dir
    }

    /// Nothing changed.
    pub open spec fn unchanged(&self, old: &Self) -> bool {
        &&& self.same_state(old)
        &&& self.index == old.index
        &&& self.files@ == old.files@
        &&& self.session_updated == old.session_updated
    }

    /// The file at `path` now holds some `c`, the document `o` closed at
    /// `now`, and the index records it.
    pub open spec fn closed_into(&self, old: &Self, o: (SessionMeta, Seq<HistoryEntry>), path: Seq<char>, now: Seq<char>) -> bool {
        exists|c: (SessionMeta, Seq<HistoryEntry>)|
            #![trigger closed_at(o, c, now)]
            closed_at(o, c, now) && saved(old.files@, self.files@, path, c) && index_recorded(
                old.index,
                self.index,
                c.0,
                c.1.len() as int,
                path,
            ) && self.session_updated
    }

    /// What closing the open session does: the document, closed at `now`, is
    /// written to its file and recorded; nothing stays open.
    pub open spec fn closed_active(&self, old: &Self, now: Seq<char>) -> bool {
        &&& self.document is None
        &&& self.xspf_path is None
        &&& self.manual_close_pending == old.manual_close_pending
        &&& self.restore_prompt == old.restore_prompt
        &&& self.restore_declined == old.restore_declined
        &&& self.history_dir == old.history_dir
        &&& match (old.document, old.xspf_path) {
            (Some(o), Some(p)) => self.closed_into(old, doc_view(o), p@, now),
            _ => self.index == old.index && self.files@ == old.files@ && self.session_updated
                == old.session_updated,
        }
    }

    /// What closing session `id` at `now` does, with result `r`: the open
    /// session is closed when it is that one; otherwise the listed session's
    /// file is closed and recorded (an offer to restore it is withdrawn), and
    /// a session not listed, or whose file is missing, is refused.
    pub open spec fn closed_by_id(&self, old: &Self, id: Seq<char>, now: Seq<char>, r: Result<(), LibraryError>) -> bool {
        if old.document matches Some(o) && o.session.id@ == id {
            r is Ok && self.closed_active(old, now)
        } else {
            match old.index.model_of(id) {
                None => is_backend_error(r, "history"@, "session not found"@) && self.unchanged(old),
                Some(m) => match file_at(old.files@, m.xspf_path@) {
                    None => is_backend_error(r, "history"@, "session file not found: "@ + m.xspf_path@)
                        && self.unchanged(old),
                    Some(dv) => {
                        &&& r is Ok
                        &&& self.closed_into(old, dv, m.xspf_path@, now)
                        &&& self.document == old.document
                        &&& self.xspf_path == old.xspf_path
                        &&& self.manual_close_pending == old.manual_close_pending
                        &&& self.restore_declined == old.restore_declined
                        &&& self.history_dir == old.history_dir
                        &&& self.restore_prompt == (if old.restore_prompt matches Some(p) && p.session_id@ == id {
                            None
                        } else {
                            old.restore_prompt
                        })
                    },
                },
            }
        }
    }

    /// End a logged play of the open session (opening one at `clock` when
    /// none is open) and record it.
    pub fn finish_play(&mut self, entry_id: &str, ended_at: &str, played: i64, clock: &Clock)
        requires
            old(self).wf(),
        ensures
            final(self).wf(),
            final(self).play_ended(&*old(self), entry_id@, ended_at@, played, *clock),
    {
        self.ensure_active_session(clock);
        let ghost mid = *self;
        match &mut self.document {
            Some(d) => {
                finish_entry(d, entry_id, ended_at, played, clock.stamp.as_str());
            },
            None => {},
        }
        proof {
            assert(self.index == mid.index);
            assert(self.files@ == mid.files@);
        }
        self.persist();
    }

    /// Close the open session at `clock`: its plays still open end then, it
    /// is marked closed and written; nothing stays open.
    pub fn close_active_session(&mut self, clock: &Clock)
        requires
            old(self).wf(),
        ensures
            final(self).wf(),
            final(self).closed_active(&*old(self), clock.stamp@),
    {
        let doc = self.document.take();
        let path = self.xspf_path.take();
        match (doc, path) {
            (Some(mut d), Some(p)) => {
                let ghost o = doc_view(d);
                close_document(&mut d, clock.stamp.as_str());
                let ghost c = doc_view(d);
                save_document(&mut self.files, p.as_str(), copy_document(&d));
                self.index.upsert_session_index(&d, p.as_str());
                self.session_updated = true;
                assert(closed_at(o, c, clock.stamp@));
            },
            _ => {},
        }
    }

    /// Close session `id` at `clock` (see [`Self::closed_by_id`]).
    pub fn close_session_by_id(&mut self, id: &str, clock: &Clock) -> (r: Result<(), LibraryError>)
        requires
            old(self).wf(),
        ensures
            final(self).wf(),
            final(self).closed_by_id(&*old(self), id@, clock.stamp@, r),
    {
        let is_open = match &self.document {
            Some(d) => {
                let a = chars_of(d.session.id.as_str());
                let b = chars_of(id);
                chars_eq(a.as_slice(), b.as_slice())
            },
            None => false,
        };
        if is_open {
            self.close_active_session(clock);
            return Ok(());
        }
        let row = match self.index.get_session(id) {
            Some(row) => row,
            None => {
                return Err(history_err("session not found"));
            },
        };
        let mut d = match load_document(&self.files, row.xspf_path.as_str()) {
            Ok(d) => d,
            Err(e) => {
                return Err(e);
            },
        };
        let ghost o = doc_view(d);
        close_document(&mut d, clock.stamp.as_str());
        let ghost c = doc_view(d);
        save_document(&mut self.files, row.xspf_path.as_str(), copy_document(&d));
        self.index.upsert_session_index(&d, row.xspf_path.as_str());
        self.session_updated = true;
        let clear = match &self.restore_prompt {
            Some(p) => {
                let a = chars_of(p.session_id.as_str());
                let b = chars_of(id);
                chars_eq(a.as_slice(), b.as_slice())
            },
            None => false,
        };
        if clear {
            self.restore_prompt = None;
        }
        assert(closed_at(o, c, clock.stamp@));
        Ok(())
    }
}

/// `m` is a closed listed session that no other closed session started after.
pub open spec fn latest_closed(ix: SessionIndex, m: HistorySessionModel) -> bool {
    &&& ix.rows@.contains(m)
    &&& m.closed != 0
    &&& forall|i: int|
        0 <= i < ix.rows@.len() && #[trigger] ix.rows@[i].closed != 0 ==> !crate::text::chars_lt(
            m.started_at@,
            ix.rows@[i].started_at@,
        )
}

/// `m` is an open listed session that no other open session started after.
pub open spec fn latest_open(ix: SessionIndex, m: HistorySessionModel) -> bool {
    &&& ix.rows@.contains(m)
    &&& m.closed == 0
    &&& forall|i: int|
        0 <= i < ix.rows@.len() && #[trigger] ix.rows@[i].closed == 0 ==> !crate::text::chars_lt(
            m.started_at@,
            ix.rows@[i].started_at@,
        )
}

impl HistorySession {
    /// What restoring session `id` does, with result `r`: its document is
    /// reopened as the open session, at its file, and recorded; the restore
    /// offer and the close marks are cleared. A session not listed, or whose
    /// file is missing, is refused.
    pub open spec fn restored(&self, old: &Self, id: Seq<char>, r: Result<(), LibraryError>) -> bool {
        match old.index.model_of(id) {
            None => is_backend_error(r, "history"@, "session not found"@) && self.unchanged(old),
            Some(m) => match file_at(old.files@, m.xspf_path@) {
                None => is_backend_error(r, "history"@, "session file not found: "@ + m.xspf_path@)
                    && self.unchanged(old),
                Some(dv) => {
                    &&& r is Ok
                    &&& self.document matches Some(d) && d.session.id == dv.0.id && d.session.title
                        == dv.0.title && d.session.started_at == dv.0.started_at
                        && d.session.last_activity_at == dv.0.last_activity_at && !d.session.closed
                        && d.entries@ == dv.1
                    &&& self.xspf_path matches Some(p) && p == m.xspf_path
                    &&& self.recorded_from(old)
                    &&& self.restore_prompt is None
                    &&& !self.restore_declined
                    &&& !self.manual_close_pending
                    &&& self.history_dir == old.history_dir
                },
            },
        }
    }

    /// Reopen session `id` (see [`Self::restored`]).
    pub fn restore_session(&mut self, id: &str) -> (r: Result<(), LibraryError>)
        requires
            old(self).wf(),
        ensures
            final(self).wf(),
            final(self).restored(&*old(self), id@, r),
    {
        let row = match self.index.get_session(id) {
            Some(row) => row,
            None => {
                return Err(history_err("session not found"));
            },
        };
        let mut d = match load_document(&self.files, row.xspf_path.as_str()) {
            Ok(d) => d,
            Err(e) => {
                return Err(e);
            },
        };
        d.session.closed = false;
        self.document = Some(d);
        self.xspf_path = Some(row.xspf_path);
        self.restore_prompt = None;
        self.restore_declined = false;
        self.manual_close_pending = false;
        self.persist();
        Ok(())
    }

    /// `self` with no restore offer.
    pub open spec fn without_prompt(&self) -> Self {
        HistorySession {
            history_dir: self.history_dir,
            document: self.document,
            xspf_path: self.xspf_path,
            manual_close_pending: self.manual_close_pending,
            restore_prompt: None,
            restore_declined: self.restore_declined,
            session_updated: self.session_updated,
            index: self.index,
            files: self.files,
        }
    }

    /// `self` and `other` agree on everything but whether the offer was
    /// declined.
    pub open spec fn same_but_declined(&self, other: &Self) -> bool {
        &&& self.document == other.document
        &&& self.xspf_path == other.xspf_path
        &&& self.manual_close_pending == other.manual_close_pending
        &&& self.restore_prompt == other.restore_prompt
        &&& self.session_updated == other.session_updated
        &&& self.index == other.index
        &&& self.files@ == other.files@
        &&& self.history_dir == other.history_dir
    }

    /// Decline the restore offer: the offered session is closed at `clock`
    /// (see [`Self::closed_by_id`]), and once that succeeds no offer is made
    /// again.
    pub fn decline_restore(&mut self, clock: &Clock) -> (r: Result<(), LibraryError>)
        requires
            old(self).wf(),
        ensures
            final(self).wf(),
            match old(self).restore_prompt {
                None => r is Ok && final(self).restore_declined && final(self).same_but_declined(&*old(self)),
                Some(p) => exists|after: Self|
                    #![trigger after.closed_by_id(&old(self).without_prompt(), p.session_id@, clock.stamp@, r)]
                    after.closed_by_id(&old(self).without_prompt(), p.session_id@, clock.stamp@, r)
                        && final(self).same_but_declined(&after) && final(self).restore_declined == (if r is Ok {
                        true
                    } else {
                        after.restore_declined
                    }),
            },
    {
        let prompt = self.restore_prompt.take();
        match prompt {
            Some(p) => {
                let ghost mid = *self;
                assert(mid == old(self).without_prompt());
                let r = self.close_session_by_id(p.session_id.as_str(), clock);
                let ghost after = *self;
                assert(after.closed_by_id(&old(self).without_prompt(), p.session_id@, clock.stamp@, r));
                if r.is_ok() {
                    self.restore_declined = true;
                }
                assert(self.same_but_declined(&after));
                r
            },
            None => {
                self.restore_declined = true;
                Ok(())
            },
        }
    }
}

/// The document `o` renamed to `title`.
pub open spec fn renamed_doc(o: (SessionMeta, Seq<HistoryEntry>), title: Seq<char>, d: (SessionMeta, Seq<HistoryEntry>)) -> bool {
    &&& d.0.id == o.0.id
    &&& d.0.title@ == title
    &&& d.0.started_at == o.0.started_at
    &&& d.0.last_activity_at == o.0.last_activity_at
    &&& d.0.closed == o.0.closed
    &&& d.1 == o.1
}

impl HistorySession {
    /// Start a new session by request: the open session (it must have logged
    /// a play) is closed at `clock`, and the next play opens the next one.
    pub fn new_session(&mut self, clock: &Clock) -> (r: Result<(), LibraryError>)
        requires
            old(self).wf(),
        ensures
            final(self).wf(),
            old(self).document is None ==> is_backend_error(r, "history"@, "no active session"@)
                && final(self).unchanged(&*old(self)),
            old(self).document matches Some(d) && d.entries@.len() == 0 ==> is_backend_error(
                r,
                "history"@,
                "session has no entries"@,
            ) && final(self).unchanged(&*old(self)),
            old(self).document matches Some(d) && d.entries@.len() > 0 ==> r is Ok && exists|mid: Self|
                #![trigger mid.closed_active(old(self), clock.stamp@)]
                mid.closed_active(old(self), clock.stamp@) && final(self).document == mid.document
                    && final(self).xspf_path == mid.xspf_path && final(self).index == mid.index
                    && final(self).files@ == mid.files@ && final(self).session_updated == mid.session_updated
                    && final(self).restore_prompt == mid.restore_prompt && final(self).restore_declined
                    == mid.restore_declined && final(self).history_dir == mid.history_dir
                    && final(self).manual_close_pending,
    {
        match check_new_session(self.document.as_ref()) {
            Ok(()) => {},
            Err(e) => {
                return Err(e);
            },
        }
        self.close_active_session(clock);
        let ghost mid = *self;
        assert(mid.closed_active(old(self), clock.stamp@));
        self.manual_close_pending = true;
        Ok(())
    }

    /// Whether a closed session could be resumed: nothing is open and some
    /// listed session is closed.
    pub fn can_resume_session(&self) -> (b: bool)
        ensures
            b == (self.document is None && self.xspf_path is None && exists|i: int|
                0 <= i < self.index.rows@.len() && #[trigger] self.index.rows@[i].closed != 0),
    {
        if self.document.is_some() || self.xspf_path.is_some() {
            return false;
        }
        let mut i: usize = 0;
        while i < self.index.rows.len()
            invariant
                i <= self.index.rows@.len(),
                self.document is None && self.xspf_path is None,
                forall|q: int| 0 <= q < i ==> #[trigger] self.index.rows@[q].closed == 0,
            decreases self.index.rows.len() - i,
        {
            if self.index.rows[i].closed != 0 {
                return true;
            }
            i = i + 1;
        }
        false
    }

    /// Resume the last closed session (see [`Self::restored`]): refused while
    /// a session is open, and when no session is closed.
    pub fn resume_session(&mut self) -> (r: Result<(), LibraryError>)
        requires
            old(self).wf(),
        ensures
            final(self).wf(),
            old(self).document is Some ==> is_backend_error(r, "history"@, "successor session already exists"@)
                && final(self).unchanged(&*old(self)),
            old(self).document is None && (forall|i: int|
                0 <= i < old(self).index.rows@.len() ==> #[trigger] old(self).index.rows@[i].closed == 0)
                ==> is_backend_error(r, "history"@, "no closed session to resume"@) && final(self).unchanged(
                &*old(self),
            ),
            old(self).document is None && (exists|i: int|
                0 <= i < old(self).index.rows@.len() && #[trigger] old(self).index.rows@[i].closed != 0)
                ==> exists|m: HistorySessionModel|
                #![trigger latest_closed(old(self).index, m)]
                latest_closed(old(self).index, m) && final(self).restored(&*old(self), m.id@, r),
    {
        let rows = self.index.list_sessions();
        let k = match resume_target(self.document.is_some(), self.xspf_path.is_some(), &rows) {
            Ok(k) => k,
            Err(e) => {
                proof {
                    if exists|i: int| 0 <= i < self.index.rows@.len() && #[trigger] self.index.rows@[i].closed != 0 {
                        let i = choose|i: int| 0 <= i < self.index.rows@.len() && #[trigger] self.index.rows@[i].closed != 0;
                        let m = self.index.rows@[i];
                        assert(listed_rows(self.index.rows@).contains(row_of(m))) by {
                            assert(listed_rows(self.index.rows@)[i] == row_of(m));
                        }
                        vstd::seq_lib::to_multiset_contains(
                            listed_rows(self.index.rows@),
                            row_of(m),
                        );
                        vstd::seq_lib::to_multiset_contains(rows@, row_of(m));
                        let q = choose|q: int| 0 <= q < rows@.len() && rows@[q] == row_of(m);
                        assert(rows@[q].closed);
                    }
                }
                return Err(e);
            },
        };
        let ghost chosen = rows@[k as int];
        proof {
            vstd::seq_lib::to_multiset_contains(rows@, chosen);
            vstd::seq_lib::to_multiset_contains(
                listed_rows(self.index.rows@),
                chosen,
            );
            let j = choose|j: int|
                0 <= j < self.index.rows@.len() && #[trigger] listed_rows(self.index.rows@)[j] == chosen;
            let m = self.index.rows@[j];
            assert(row_of(m) == chosen);
            assert(self.index.rows@.contains(m));
            assert forall|i: int|
                0 <= i < self.index.rows@.len() && #[trigger] self.index.rows@[i].closed != 0 implies !crate::text::chars_lt(
                m.started_at@,
                self.index.rows@[i].started_at@,
            ) by {
                let mi = self.index.rows@[i];
                assert(listed_rows(self.index.rows@)[i] == row_of(mi));
                vstd::seq_lib::to_multiset_contains(
                    listed_rows(self.index.rows@),
                    row_of(mi),
                );
                vstd::seq_lib::to_multiset_contains(rows@, row_of(mi));
                let q = choose|q: int| 0 <= q < rows@.len() && rows@[q] == row_of(mi);
                if q < k {
                    assert(!rows@[q].closed);
                } else if q > k {
                    assert(!crate::text::chars_lt(rows@[k as int].started_at@, rows@[q].started_at@));
                } else {
                    crate::text::lemma_chars_lt_order(m.started_at@, m.started_at@, m.started_at@);
                }
            }
            assert(latest_closed(self.index, m));
        }
        let id = rows[k].id.clone();
        self.restore_session(id.as_str())
    }
}

impl HistorySession {
    /// Rename session `id`: its file and index row take the new title, and
    /// so does the open session when it is that one. A session not listed,
    /// or whose file is missing, is refused.
    pub fn rename_session(&mut self, id: &str, title: &str) -> (r: Result<(), LibraryError>)
        requires
            old(self).wf(),
        ensures
            final(self).wf(),
            match old(self).index.model_of(id@) {
                None => is_backend_error(r, "history"@, "session not found"@) && final(self).unchanged(&*old(self)),
                Some(m) => match file_at(old(self).files@, m.xspf_path@) {
                    None => is_backend_error(r, "history"@, "session file not found: "@ + m.xspf_path@)
                        && final(self).unchanged(&*old(self)),
                    Some(dv) => {
                        &&& r is Ok
                        &&& exists|d: (SessionMeta, Seq<HistoryEntry>)|
                            #![trigger renamed_doc(dv, title@, d)]
                            renamed_doc(dv, title@, d) && saved(old(self).files@, final(self).files@, m.xspf_path@, d)
                                && index_recorded(old(self).index, final(self).index, d.0, d.1.len() as int, m.xspf_path@)
                        &&& final(self).session_updated
                        &&& final(self).xspf_path == old(self).xspf_path
                        &&& final(self).manual_close_pending == old(self).manual_close_pending
                        &&& final(self).restore_prompt == old(self).restore_prompt
                        &&& final(self).restore_declined == old(self).restore_declined
                        &&& final(self).history_dir == old(self).history_dir
                        &&& match old(self).document {
                            Some(o) => if o.session.id@ == id@ {
                                final(self).document matches Some(n) && n.session.title@ == title@ && n.session.id
                                    == o.session.id && n.session.started_at == o.session.started_at
                                    && n.session.last_activity_at == o.session.last_activity_at
                                    && n.session.closed == o.session.closed && n.entries@ == o.entries@
                            } else {
                                final(self).document == old(self).document
                            },
                            None => final(self).document is None,
                        }
                    },
                },
            },
    {
        let row = match self.index.get_session(id) {
            Some(row) => row,
            None => {
                return Err(history_err("session not found"));
            },
        };
        let mut d = match load_document(&self.files, row.xspf_path.as_str()) {
            Ok(d) => d,
            Err(e) => {
                return Err(e);
            },
        };
        let ghost o = doc_view(d);
        d.session.title = owned(title);
        let ghost nd = doc_view(d);
        save_document(&mut self.files, row.xspf_path.as_str(), copy_document(&d));
        self.index.upsert_session_index(&d, row.xspf_path.as_str());
        self.session_updated = true;
        let same = match &self.document {
            Some(a) => {
                let x = chars_of(a.session.id.as_str());
                let y = chars_of(id);
                chars_eq(x.as_slice(), y.as_slice())
            },
            None => false,
        };
        if same {
            match &mut self.document {
                Some(a) => {
                    a.session.title = owned(title);
                },
                None => {},
            }
        }
        assert(renamed_doc(o, title@, nd));
        Ok(())
    }

    /// Delete session `id`: it stops being open when it is the open one, and
    /// its file and index row go.
    pub fn delete_session(&mut self, id: &str) -> (r: Result<(), LibraryError>)
        requires
            old(self).wf(),
        ensures
            final(self).wf(),
            r is Ok,
            match old(self).document {
                Some(o) => if o.session.id@ == id@ {
                    final(self).document is None && final(self).xspf_path is None
                } else {
                    final(self).document == old(self).document && final(self).xspf_path == old(self).xspf_path
                },
                None => final(self).document is None && final(self).xspf_path == old(self).xspf_path,
            },
            match old(self).index.model_of(id@) {
                Some(m) => {
                    &&& file_at(final(self).files@, m.xspf_path@) is None
                    &&& forall|p: Seq<char>|
                        #![auto]
                        p != m.xspf_path@ ==> file_at(final(self).files@, p) == file_at(old(self).files@, p)
                    &&& final(self).index.model_of(id@) is None
                    &&& forall|t: Seq<char>|
                        #![auto]
                        t != id@ ==> final(self).index.model_of(t) == old(self).index.model_of(t)
                    &&& final(self).session_updated
                },
                None => final(self).index == old(self).index && final(self).files@ == old(self).files@
                    && final(self).session_updated == old(self).session_updated,
            },
            final(self).manual_close_pending == old(self).manual_close_pending,
            final(self).restore_prompt == old(self).restore_prompt,
            final(self).restore_declined == old(self).restore_declined,
            final(self).history_dir == old(self).history_dir,
    {
        let open = match &self.document {
            Some(a) => {
                let x = chars_of(a.session.id.as_str());
                let y = chars_of(id);
                chars_eq(x.as_slice(), y.as_slice())
            },
            None => false,
        };
        if open {
            self.document = None;
            self.xspf_path = None;
        }
        match self.index.get_session(id) {
            Some(row) => {
                remove_document(&mut self.files, row.xspf_path.as_str());
                self.index.delete_session_index(id);
                self.session_updated = true;
            },
            None => {},
        }
        Ok(())
    }

    /// Every listed session, the latest started first.
    pub fn list_sessions(&self) -> (r: Vec<HistorySessionRow>)
        ensures
            r@.to_multiset() == listed_rows(self.index.rows@).to_multiset(),
            forall|i: int, j: int|
                0 <= i < j < r@.len() ==> !crate::text::chars_lt(#[trigger] r@[i].started_at@, #[trigger] r@[j].started_at@),
    {
        self.index.list_sessions()
    }

    /// The plays of session `id`, each with its missing details filled from
    /// the library. A session not listed, or whose file is missing, is refused.
    pub fn session_entries(&self, id: &str, lib: &LibraryManager) -> (r: Result<Vec<HistoryEntry>, LibraryError>)
        ensures
            match self.index.model_of(id@) {
                None => is_backend_error(r, "history"@, "session not found"@),
                Some(m) => match file_at(self.files@, m.xspf_path@) {
                    None => is_backend_error(r, "history"@, "session file not found: "@ + m.xspf_path@),
                    Some(dv) => r matches Ok(v) && v@.len() == dv.1.len() && forall|k: int|
                        0 <= k < dv.1.len() ==> enriched(lib, #[trigger] dv.1[k], v@[k]),
                },
            },
    {
        let row = match self.index.get_session(id) {
            Some(row) => row,
            None => {
                return Err(history_err("session not found"));
            },
        };
        let d = match load_document(&self.files, row.xspf_path.as_str()) {
            Ok(d) => d,
            Err(e) => {
                return Err(e);
            },
        };
        let ghost dv = doc_view(d);
        let mut out: Vec<HistoryEntry> = Vec::new();
        let mut k: usize = 0;
        while k < d.entries.len()
            invariant
                k <= d.entries@.len(),
                dv.1 == d.entries@,
                out@.len() == k,
                forall|q: int| 0 <= q < k ==> enriched(lib, #[trigger] dv.1[q], out@[q]),
            decreases d.entries.len() - k,
        {
            let mut e = copy_entry(&d.entries[k]);
            enrich_history_entry(lib, &mut e);
            out.push(e);
            k = k + 1;
        }
        Ok(out)
    }

    /// At start-up, look at the session left open last: close it at `clock`
    /// when it has idled `idle_minutes` or more, else offer to restore it
    /// (nothing is done once the offer was declined).
    pub fn bootstrap(&mut self, clock: &Clock, idle_minutes: u32) -> (r: Result<(), LibraryError>)
        requires
            old(self).wf(),
        ensures
            final(self).wf(),
            (forall|i: int| 0 <= i < old(self).index.rows@.len() ==> #[trigger] old(self).index.rows@[i].closed != 0)
                ==> r is Ok && final(self).unchanged(&*old(self)),
            (exists|i: int| 0 <= i < old(self).index.rows@.len() && #[trigger] old(self).index.rows@[i].closed == 0)
                ==> exists|m: HistorySessionModel|
                #![trigger latest_open(old(self).index, m)]
                latest_open(old(self).index, m) && if old(self).restore_declined {
                    r is Ok && final(self).unchanged(&*old(self))
                } else if idle_expired(clock.now_ms, m.last_activity_at@, idle_minutes) {
                    final(self).closed_by_id(&*old(self), m.id@, clock.stamp@, r)
                } else {
                    &&& r is Ok
                    &&& final(self).restore_prompt matches Some(p) && p.session_id == m.id && p.title == m.title
                        && p.last_activity_at == m.last_activity_at
                    &&& final(self).document == old(self).document
                    &&& final(self).xspf_path == old(self).xspf_path
                    &&& final(self).index == old(self).index
                    &&& final(self).files@ == old(self).files@
                    &&& final(self).session_updated == old(self).session_updated
                    &&& final(self).manual_close_pending == old(self).manual_close_pending
                    &&& final(self).restore_declined == old(self).restore_declined
                    &&& final(self).history_dir == old(self).history_dir
                },
    {
        let row = match self.index.active_session() {
            Some(row) => row,
            None => {
                return Ok(());
            },
        };
        let ghost m = choose|m: HistorySessionModel| latest_open(self.index, m) && row == row_of(m);
        proof {
            let i = choose|i: int|
                #![trigger self.index.rows@[i]]
                0 <= i < self.index.rows@.len() && self.index.rows@[i].closed == 0 && row == row_of(
                    self.index.rows@[i],
                ) && forall|j: int|
                    0 <= j < self.index.rows@.len() && #[trigger] self.index.rows@[j].closed == 0 ==> !crate::text::chars_lt(
                        self.index.rows@[i].started_at@,
                        self.index.rows@[j].started_at@,
                    );
            assert(self.index.rows@.contains(self.index.rows@[i]));
            assert(latest_open(self.index, self.index.rows@[i]));
        }
        if self.restore_declined {
            return Ok(());
        }
        if is_idle_expired(clock.now_ms, row.last_activity_at.as_str(), idle_minutes) {
            return self.close_session_by_id(row.id.as_str(), clock);
        }
        self.restore_prompt = Some(
            HistoryRestorePrompt {
                session_id: row.id,
                title: row.title,
                last_activity_at: row.last_activity_at,
            },
        );
        Ok(())
    }

    /// Close what has idled out at `clock`: nothing while a deck plays; the
    /// open session when its last activity is `idle_minutes` old; else the
    /// session left open last in the index, when it is.
    pub fn check_idle_timeout(&mut self, clock: &Clock, idle_minutes: u32, any_qualifying: bool) -> (r: Result<
        (),
        LibraryError,
    >)
        requires
            old(self).wf(),
        ensures
            final(self).wf(),
            any_qualifying ==> r is Ok && final(self).unchanged(&*old(self)),
            !any_qualifying ==> (old(self).document matches Some(o) ==> r is Ok && if idle_expired(
                clock.now_ms,
                o.session.last_activity_at@,
                idle_minutes,
            ) {
                final(self).closed_active(&*old(self), clock.stamp@)
            } else {
                final(self).unchanged(&*old(self))
            }),
            !any_qualifying && old(self).document is None && (forall|i: int|
                0 <= i < old(self).index.rows@.len() ==> #[trigger] old(self).index.rows@[i].closed != 0)
                ==> r is Ok && final(self).unchanged(&*old(self)),
            !any_qualifying && old(self).document is None && (exists|i: int|
                0 <= i < old(self).index.rows@.len() && #[trigger] old(self).index.rows@[i].closed == 0)
                ==> exists|m: HistorySessionModel|
                #![trigger latest_open(old(self).index, m)]
                latest_open(old(self).index, m) && if idle_expired(clock.now_ms, m.last_activity_at@, idle_minutes) {
                    final(self).closed_by_id(&*old(self), m.id@, clock.stamp@, r)
                } else {
                    r is Ok && final(self).unchanged(&*old(self))
                },
    {
        if any_qualifying {
            return Ok(());
        }
        let open_idle = match &self.document {
            Some(d) => Some(is_idle_expired(clock.now_ms, d.session.last_activity_at.as_str(), idle_minutes)),
            None => None,
        };
        match open_idle {
            Some(true) => {
                self.close_active_session(clock);
                return Ok(());
            },
            Some(false) => {
                return Ok(());
            },
            None => {},
        }
        let row = match self.index.active_session() {
            Some(row) => row,
            None => {
                return Ok(());
            },
        };
        proof {
            let i = choose|i: int|
                #![trigger self.index.rows@[i]]
                0 <= i < self.index.rows@.len() && self.index.rows@[i].closed == 0 && row == row_of(
                    self.index.rows@[i],
                ) && forall|j: int|
                    0 <= j < self.index.rows@.len() && #[trigger] self.index.rows@[j].closed == 0 ==> !crate::text::chars_lt(
                        self.index.rows@[i].started_at@,
                        self.index.rows@[j].started_at@,
                    );
            assert(self.index.rows@.contains(self.index.rows@[i]));
            assert(latest_open(self.index, self.index.rows@[i]));
        }
        if is_idle_expired(clock.now_ms, row.last_activity_at.as_str(), idle_minutes) {
            return self.close_session_by_id(row.id.as_str(), clock);
        }
        Ok(())
    }
}

} // verus!
