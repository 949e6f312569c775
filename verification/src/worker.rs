//! Library commands and the events that answer them: what each command does
//! to the library and what the library worker publishes for it.

use vstd::prelude::*;

use crate::error::{LibraryError, shows_message};
use crate::library::row_convertible;
use crate::manager::{LibraryManager, TrackRow};
use crate::paths::{file_name, file_name_of};
use crate::manager::{cues_wf, find_id, deck_ids, lemma_find_id, loops_wf};
use crate::records::{
    HotCueRecord, LoopRecord, TrackMetadata, at_own_slots, copy_opt_string, law_cleared_slot_not_listed,
    law_listed_in_slot_order, law_saved_slot_is_listed, listed,
};
use crate::source::{AudioSource, row_refusal};
use crate::text::{chars_of, owned, push_str, string_of};
use crate::types::TrackId;

verus! {

/// Who an event is about.
#[derive(Debug, PartialEq)]
pub enum EventOrigin {
    /// The library as a whole.
    Library,
    /// One track, by id.
    Track(String),
}

/// A hot cue as published to listeners.
#[derive(Debug, PartialEq)]
pub struct HotCue {
    pub slot: u8,
    pub position_ms: i32,
    pub loop_length_beats: Option<i32>,
    pub color: Option<String>,
    pub label: Option<String>,
}

/// A saved loop as published to listeners.
#[derive(Debug, PartialEq)]
pub struct SavedLoop {
    pub slot: u8,
    pub in_ms: i32,
    pub out_ms: i32,
    pub label: Option<String>,
    pub color: Option<String>,
}

/// What listeners are told of a file track (the tempo figure is a measured
/// value and is added by the app).
#[derive(Debug, PartialEq)]
pub struct TrackSummary {
    pub id: String,
    pub display_name: String,
    pub artist: Option<String>,
    pub title: Option<String>,
    pub album: Option<String>,
    pub genre: Option<String>,
    pub key: Option<String>,
    pub duration_ms: Option<i32>,
    pub path: String,
    pub isrc: Option<String>,
}

/// A command sent to the library worker.
#[derive(Debug, PartialEq)]
pub enum LibraryCmd {
    /// Publish a track's summary, hot cues and loops again.
    RefreshTrack { track_id: String },
    /// Save a hot cue in a slot.
    SaveHotCue {
        track_id: String,
        slot: u8,
        position_ms: i32,
        loop_length_beats: Option<i32>,
        color: Option<String>,
        label: Option<String>,
    },
    /// Clear a hot cue slot.
    DeleteHotCue { track_id: String, slot: u8 },
    /// Save a loop in a slot.
    SaveLoop {
        track_id: String,
        slot: u8,
        in_ms: i32,
        out_ms: i32,
        label: Option<String>,
        color: Option<String>,
    },
    /// Clear a loop slot.
    DeleteLoop { track_id: String, slot: u8 },
}

/// The body of a published event.
#[derive(Debug, PartialEq)]
pub enum LibraryEvent {
    /// A track was analyzed.
    TrackAnalyzed { track: TrackSummary },
    /// A track's data changed.
    TrackUpdated { track: TrackSummary },
    /// The hot cues of a track, in slot order.
    HotCuesChanged { track_id: String, hot_cues: Vec<HotCue> },
    /// The loops of a track, in slot order.
    LoopsChanged { track_id: String, loops: Vec<SavedLoop> },
    /// A command failed.
    Error { message: String, track_id: Option<String> },
}

/// An event as published: its origin and body.
#[derive(Debug, PartialEq)]
pub struct Published {
    pub origin: EventOrigin,
    pub body: LibraryEvent,
}

/// The published form of a stored hot cue.
pub open spec fn cue_view(r: HotCueRecord) -> HotCue {
    HotCue {
        slot: r.slot_index,
        position_ms: r.position_ms,
        loop_length_beats: r.loop_length_beats,
        color: r.color,
        label: r.label,
    }
}

/// The published form of a stored loop.
pub open spec fn loop_view(r: LoopRecord) -> SavedLoop {
    SavedLoop { slot: r.slot_index, in_ms: r.in_ms, out_ms: r.out_ms, label: r.label, color: r.color }
}

/// A hot cue record as published.
pub fn hot_cue_from_record(record: HotCueRecord) -> (c: HotCue)
    ensures
        c == cue_view(record),
{
    HotCue {
        slot: record.slot_index,
        position_ms: record.position_ms,
        loop_length_beats: record.loop_length_beats,
        color: record.color,
        label: record.label,
    }
}

/// A loop record as published.
pub fn saved_loop_from_record(record: LoopRecord) -> (l: SavedLoop)
    ensures
        l == loop_view(record),
{
    SavedLoop {
        slot: record.slot_index,
        in_ms: record.in_ms,
        out_ms: record.out_ms,
        label: record.label,
        color: record.color,
    }
}

/// The name a track is shown by: `artist — title` when both are known, the
/// title alone, else the file's name (the id when the path has none).
pub open spec fn display_name_of(meta: TrackMetadata, path: Seq<char>, id: Seq<char>) -> Seq<char> {
    match (meta.artist, meta.title) {
        (Some(a), Some(t)) => a@ + " — "@ + t@,
        (_, Some(t)) => t@,
        _ => match file_name_of(path) {
            Some(n) => n,
            None => id,
        },
    }
}

/// `s` summarizes the file track `id` at `path` with metadata `meta`.
pub open spec fn summarizes(s: TrackSummary, id: Seq<char>, path: Seq<char>, meta: TrackMetadata) -> bool {
    &&& s.id@ == id
    &&& s.display_name@ == display_name_of(meta, path, id)
    &&& s.artist == meta.artist
    &&& s.title == meta.title
    &&& s.album == meta.album
    &&& s.genre == meta.genre
    &&& s.key == meta.key
    &&& s.duration_ms == meta.duration_ms
    &&& s.path@ == path
    &&& s.isrc == meta.isrc
}

/// The summary of a source: one for a file, none for a stream.
pub fn track_summary(source: &AudioSource) -> (r: Option<TrackSummary>)
    ensures
        match source {
            AudioSource::File(f) => r matches Some(s) && summarizes(s, f.id.0@, f.path@, f.metadata),
            AudioSource::Stream(_) => r is None,
        },
{
    let f = match source {
        AudioSource::File(f) => f,
        AudioSource::Stream(_) => {
            return None;
        },
    };
    let meta = &f.metadata;
    let display_name = match (&meta.artist, &meta.title) {
        (Some(artist), Some(title)) => {
            let mut s = owned(artist.as_str());
            push_str(&mut s, " — ");
            push_str(&mut s, title.as_str());
            s
        },
        (_, Some(title)) => owned(title.as_str()),
        _ => {
            let cs = chars_of(f.path.as_str());
            match file_name(cs.as_slice()) {
                Some(name) => string_of(name.as_slice()),
                None => owned(f.id.0.as_str()),
            }
        },
    };
    Some(
        TrackSummary {
            id: owned(f.id.0.as_str()),
            display_name,
            artist: copy_opt_string(&meta.artist),
            title: copy_opt_string(&meta.title),
            album: copy_opt_string(&meta.album),
            genre: copy_opt_string(&meta.genre),
            key: copy_opt_string(&meta.key),
            duration_ms: meta.duration_ms,
            path: owned(f.path.as_str()),
            isrc: copy_opt_string(&meta.isrc),
        },
    )
}

/// `p` reports, from track `track_id`, an error with text `message`.
pub open spec fn is_error_event(p: Published, track_id: Seq<char>, message: Seq<char>) -> bool {
    &&& p.origin matches EventOrigin::Track(t) && t@ == track_id
    &&& p.body matches LibraryEvent::Error { message: m, track_id: Some(t2) } && m@ == message && t2@
        == track_id
}

/// `p` reports, from track `track_id`, error `e` by its text.
pub open spec fn is_error_event_of(p: Published, track_id: Seq<char>, e: LibraryError) -> bool {
    &&& p.origin matches EventOrigin::Track(t) && t@ == track_id
    &&& p.body matches LibraryEvent::Error { message: m, track_id: Some(t2) } && shows_message(e, m@)
        && t2@ == track_id
}

/// `p` publishes `cues` as the hot cues of track `track_id`.
pub open spec fn is_cues_event(p: Published, track_id: Seq<char>, cues: Seq<HotCueRecord>) -> bool {
    &&& p.origin matches EventOrigin::Track(t) && t@ == track_id
    &&& p.body matches LibraryEvent::HotCuesChanged { track_id: t2, hot_cues } && t2@ == track_id
        && hot_cues@ == cues.map_values(|r: HotCueRecord| cue_view(r))
}

/// `p` publishes `loops` as the loops of track `track_id`.
pub open spec fn is_loops_event(p: Published, track_id: Seq<char>, loops: Seq<LoopRecord>) -> bool {
    &&& p.origin matches EventOrigin::Track(t) && t@ == track_id
    &&& p.body matches LibraryEvent::LoopsChanged { track_id: t2, loops: ls } && t2@ == track_id
        && ls@ == loops.map_values(|r: LoopRecord| loop_view(r))
}

/// `p` publishes the updated summary of the file track `row`.
pub open spec fn is_updated_event(p: Published, track_id: Seq<char>, row: TrackRow) -> bool {
    &&& p.origin matches EventOrigin::Track(t) && t@ == track_id
    &&& p.body matches LibraryEvent::TrackUpdated { track } && summarizes(
        track,
        row.id@,
        row.source_ref@,
        row.metadata,
    )
}

/// An error event from track `track_id`.
pub fn error_event(track_id: &str, message: String) -> (p: Published)
    ensures
        is_error_event(p, track_id@, message@),
{
    Published {
        origin: EventOrigin::Track(owned(track_id)),
        body: LibraryEvent::Error { message, track_id: Some(owned(track_id)) },
    }
}

/// The hot cues event of track `track_id`.
pub fn cues_event(track_id: &str, rows: &[HotCueRecord]) -> (p: Published)
    ensures
        is_cues_event(p, track_id@, rows@),
{
    let mut hot_cues: Vec<HotCue> = Vec::new();
    let mut k: usize = 0;
    while k < rows.len()
        invariant
            k <= rows@.len(),
            hot_cues@ == rows@.take(k as int).map_values(|r: HotCueRecord| cue_view(r)),
        decreases rows.len() - k,
    {
        hot_cues.push(hot_cue_from_record(rows[k].clone()));
        assert(rows@.take(k + 1) =~= rows@.take(k as int).push(rows@[k as int]));
        k = k + 1;
    }
    assert(rows@.take(k as int) =~= rows@);
    Published {
        origin: EventOrigin::Track(owned(track_id)),
        body: LibraryEvent::HotCuesChanged { track_id: owned(track_id), hot_cues },
    }
}

/// The loops event of track `track_id`.
pub fn loops_event(track_id: &str, rows: &[LoopRecord]) -> (p: Published)
    ensures
        is_loops_event(p, track_id@, rows@),
{
    let mut loops: Vec<SavedLoop> = Vec::new();
    let mut k: usize = 0;
    while k < rows.len()
        invariant
            k <= rows@.len(),
            loops@ == rows@.take(k as int).map_values(|r: LoopRecord| loop_view(r)),
        decreases rows.len() - k,
    {
        loops.push(saved_loop_from_record(rows[k].clone()));
        assert(rows@.take(k + 1) =~= rows@.take(k as int).push(rows@[k as int]));
        k = k + 1;
    }
    assert(rows@.take(k as int) =~= rows@);
    Published {
        origin: EventOrigin::Track(owned(track_id)),
        body: LibraryEvent::LoopsChanged { track_id: owned(track_id), loops },
    }
}

/// The refusal text a stored row of unknown kind is reported with.
pub open spec fn row_refusal_text(row: TrackRow) -> Seq<char> {
    "library"@ + seq![':', ' '] + row_refusal(row)
}

/// The events that answer a refresh of track `track_id`: its summary, hot
/// cues and loops for a file track, else one error.
pub open spec fn refresh_answer(lib: LibraryManager, track_id: Seq<char>, out: Seq<Published>) -> bool {
    match lib.track_of(track_id) {
        None => out.len() == 1 && is_error_event(out[0], track_id, "Track not found: "@ + track_id),
        Some(row) => if !row_convertible(row) {
            out.len() == 1 && is_error_event(out[0], track_id, row_refusal_text(row))
        } else if row.source_type@ == "stream"@ {
            out.len() == 1 && is_error_event(out[0], track_id, "Only file tracks can be refreshed."@)
        } else {
            &&& out.len() == 3
            &&& is_updated_event(out[0], track_id, row)
            &&& is_cues_event(out[1], track_id, listed(lib.cues_of(track_id)))
            &&& is_loops_event(out[2], track_id, listed(lib.loops_of(track_id)))
        },
    }
}

/// Answer a refresh of track `track_id`.
pub fn refresh_track_events(lib: &LibraryManager, track_id: &str) -> (out: Vec<Published>)
    requires
        lib.wf(),
    ensures
        refresh_answer(*lib, track_id@, out@),
{
    let id = TrackId::new(track_id);
    match lib.get_track(&id) {
        Ok(Some(source)) => match track_summary(&source) {
            Some(track) => {
                let mut out: Vec<Published> = Vec::new();
                out.push(
                    Published {
                        origin: EventOrigin::Track(owned(track_id)),
                        body: LibraryEvent::TrackUpdated { track },
                    },
                );
                match lib.list_track_hot_cues(&id) {
                    Ok(rows) => out.push(cues_event(track_id, rows.as_slice())),
                    Err(e) => out.push(error_event(track_id, e.message())),
                }
                match lib.list_track_loops(&id) {
                    Ok(rows) => out.push(loops_event(track_id, rows.as_slice())),
                    Err(e) => out.push(error_event(track_id, e.message())),
                }
                out
            },
            None => {
                let mut out: Vec<Published> = Vec::new();
                out.push(error_event(track_id, owned("Only file tracks can be refreshed.")));
                out
            },
        },
        Ok(None) => {
            let mut m = owned("Track not found: ");
            push_str(&mut m, track_id);
            let mut out: Vec<Published> = Vec::new();
            out.push(error_event(track_id, m));
            out
        },
        Err(e) => {
            let mut out: Vec<Published> = Vec::new();
            out.push(error_event(track_id, e.message()));
            out
        },
    }
}

/// `new` is `old` with only the deck data of track `t` changed, its hot cue
/// slots becoming `cues`.
pub open spec fn cues_became(old: LibraryManager, new: LibraryManager, t: Seq<char>, cues: Seq<Option<HotCueRecord>>) -> bool {
    &&& new.wf()
    &&& new.same_but_decks(&old)
    &&& new.cues_of(t) == cues
    &&& forall|u: Seq<char>| #![auto] u != t ==> new.cues_of(u) == old.cues_of(u)
    &&& forall|u: Seq<char>| #![auto] new.loops_of(u) == old.loops_of(u)
}

/// `new` is `old` with only the deck data of track `t` changed, its loop
/// slots becoming `loops`.
pub open spec fn loops_became(old: LibraryManager, new: LibraryManager, t: Seq<char>, loops: Seq<Option<LoopRecord>>) -> bool {
    &&& new.wf()
    &&& new.same_but_decks(&old)
    &&& new.loops_of(t) == loops
    &&& forall|u: Seq<char>| #![auto] u != t ==> new.loops_of(u) == old.loops_of(u)
    &&& forall|u: Seq<char>| #![auto] new.cues_of(u) == old.cues_of(u)
}

/// A deck data error: nothing changed and one error event answers.
pub open spec fn deck_data_refused(old: LibraryManager, new: LibraryManager, t: Seq<char>, message: Seq<char>, out: Seq<Published>) -> bool {
    &&& new.wf()
    &&& new.same_but_decks(&old)
    &&& new.decks@ == old.decks@
    &&& out.len() == 1
    &&& is_error_event(out[0], t, "deck_data"@ + seq![':', ' '] + message)
}

/// Saving hot cue `rec` for track `t`: a slot past the last is refused, else
/// the slot is set and the track's hot cues are published.
pub open spec fn cue_save_answer(old: LibraryManager, new: LibraryManager, t: Seq<char>, rec: HotCueRecord, out: Seq<Published>) -> bool {
    if rec.slot_index > 15 {
        deck_data_refused(old, new, t, "hot cue slot must be 0..=15"@, out)
    } else {
        &&& cues_became(old, new, t, old.cues_of(t).update(rec.slot_index as int, Some(rec)))
        &&& out.len() == 1
        &&& is_cues_event(out[0], t, listed(new.cues_of(t)))
    }
}

/// Clearing hot cue slot `slot` of track `t` and publishing its hot cues.
pub open spec fn cue_delete_answer(old: LibraryManager, new: LibraryManager, t: Seq<char>, slot: u8, out: Seq<Published>) -> bool {
    &&& cues_became(old, new, t, if slot < 16 {
        old.cues_of(t).update(slot as int, None)
    } else {
        old.cues_of(t)
    })
    &&& out.len() == 1
    &&& is_cues_event(out[0], t, listed(new.cues_of(t)))
}

/// Saving loop `rec` for track `t`: a slot past the last, or an out point
/// not after the in point, is refused; else the slot is set and the track's
/// loops are published.
pub open spec fn loop_save_answer(old: LibraryManager, new: LibraryManager, t: Seq<char>, rec: LoopRecord, out: Seq<Published>) -> bool {
    if rec.slot_index > 15 {
        deck_data_refused(old, new, t, "loop slot must be 0..=15"@, out)
    } else if rec.out_ms <= rec.in_ms {
        deck_data_refused(old, new, t, "loop out must be after loop in"@, out)
    } else {
        &&& loops_became(old, new, t, old.loops_of(t).update(rec.slot_index as int, Some(rec)))
        &&& out.len() == 1
        &&& is_loops_event(out[0], t, listed(new.loops_of(t)))
    }
}

/// Clearing loop slot `slot` of track `t` and publishing its loops.
pub open spec fn loop_delete_answer(old: LibraryManager, new: LibraryManager, t: Seq<char>, slot: u8, out: Seq<Published>) -> bool {
    &&& loops_became(old, new, t, if slot < 16 {
        old.loops_of(t).update(slot as int, None)
    } else {
        old.loops_of(t)
    })
    &&& out.len() == 1
    &&& is_loops_event(out[0], t, listed(new.loops_of(t)))
}

/// What command `cmd` does to the library and the events that answer it.
pub open spec fn cmd_answer(old: LibraryManager, new: LibraryManager, cmd: LibraryCmd, out: Seq<Published>) -> bool {
    match cmd {
        LibraryCmd::RefreshTrack { track_id } => new == old && refresh_answer(old, track_id@, out),
        LibraryCmd::SaveHotCue { track_id, slot, position_ms, loop_length_beats, color, label } => cue_save_answer(
            old,
            new,
            track_id@,
            HotCueRecord { slot_index: slot, position_ms, loop_length_beats, color, label },
            out,
        ),
        LibraryCmd::DeleteHotCue { track_id, slot } => cue_delete_answer(old, new, track_id@, slot, out),
        LibraryCmd::SaveLoop { track_id, slot, in_ms, out_ms, label, color } => loop_save_answer(
            old,
            new,
            track_id@,
            LoopRecord { slot_index: slot, in_ms, out_ms, label, color },
            out,
        ),
        LibraryCmd::DeleteLoop { track_id, slot } => loop_delete_answer(old, new, track_id@, slot, out),
    }
}

/// One event in a list.
fn one(p: Published) -> (out: Vec<Published>)
    ensures
        out@ == seq![p],
{
    let mut out: Vec<Published> = Vec::new();
    out.push(p);
    out
}

/// Save a hot cue and answer with the track's hot cues (or the error).
pub fn save_hot_cue_events(
    lib: &mut LibraryManager,
    track_id: &str,
    slot: u8,
    position_ms: i32,
    loop_length_beats: Option<i32>,
    color: Option<String>,
    label: Option<String>,
) -> (out: Vec<Published>)
    requires
        old(lib).wf(),
    ensures
        cue_save_answer(
            *old(lib),
            *final(lib),
            track_id@,
            HotCueRecord { slot_index: slot, position_ms, loop_length_beats, color, label },
            out@,
        ),
{
    let id = TrackId::new(track_id);
    match lib.save_track_hot_cue(&id, slot, position_ms, loop_length_beats, color, label) {
        Ok(()) => match lib.list_track_hot_cues(&id) {
            Ok(rows) => one(cues_event(track_id, rows.as_slice())),
            Err(e) => one(error_event(track_id, e.message())),
        },
        Err(e) => one(error_event(track_id, e.message())),
    }
}

/// Clear a hot cue slot and answer with the track's hot cues.
pub fn delete_hot_cue_events(lib: &mut LibraryManager, track_id: &str, slot: u8) -> (out: Vec<Published>)
    requires
        old(lib).wf(),
    ensures
        cue_delete_answer(*old(lib), *final(lib), track_id@, slot, out@),
{
    let id = TrackId::new(track_id);
    match lib.delete_track_hot_cue(&id, slot) {
        Ok(()) => match lib.list_track_hot_cues(&id) {
            Ok(rows) => one(cues_event(track_id, rows.as_slice())),
            Err(e) => one(error_event(track_id, e.message())),
        },
        Err(e) => one(error_event(track_id, e.message())),
    }
}

/// Save a loop and answer with the track's loops (or the error).
pub fn save_loop_events(
    lib: &mut LibraryManager,
    track_id: &str,
    slot: u8,
    in_ms: i32,
    out_ms: i32,
    label: Option<String>,
    color: Option<String>,
) -> (out: Vec<Published>)
    requires
        old(lib).wf(),
    ensures
        loop_save_answer(
            *old(lib),
            *final(lib),
            track_id@,
            LoopRecord { slot_index: slot, in_ms, out_ms, label, color },
            out@,
        ),
{
    let id = TrackId::new(track_id);
    match lib.save_track_loop(&id, slot, in_ms, out_ms, label, color) {
        Ok(()) => match lib.list_track_loops(&id) {
            Ok(rows) => one(loops_event(track_id, rows.as_slice())),
            Err(e) => one(error_event(track_id, e.message())),
        },
        Err(e) => one(error_event(track_id, e.message())),
    }
}

/// Clear a loop slot and answer with the track's loops.
pub fn delete_loop_events(lib: &mut LibraryManager, track_id: &str, slot: u8) -> (out: Vec<Published>)
    requires
        old(lib).wf(),
    ensures
        loop_delete_answer(*old(lib), *final(lib), track_id@, slot, out@),
{
    let id = TrackId::new(track_id);
    match lib.delete_track_loop(&id, slot) {
        Ok(()) => match lib.list_track_loops(&id) {
            Ok(rows) => one(loops_event(track_id, rows.as_slice())),
            Err(e) => one(error_event(track_id, e.message())),
        },
        Err(e) => one(error_event(track_id, e.message())),
    }
}

/// Carry out command `cmd` and return the events that answer it.
pub fn handle_cmd(lib: &mut LibraryManager, cmd: LibraryCmd) -> (out: Vec<Published>)
    requires
        old(lib).wf(),
    ensures
        final(lib).wf(),
        cmd_answer(*old(lib), *final(lib), cmd, out@),
{
    match cmd {
        LibraryCmd::RefreshTrack { track_id } => refresh_track_events(lib, track_id.as_str()),
        LibraryCmd::SaveHotCue { track_id, slot, position_ms, loop_length_beats, color, label } => {
            save_hot_cue_events(lib, track_id.as_str(), slot, position_ms, loop_length_beats, color, label)
        },
        LibraryCmd::DeleteHotCue { track_id, slot } => delete_hot_cue_events(lib, track_id.as_str(), slot),
        LibraryCmd::SaveLoop { track_id, slot, in_ms, out_ms, label, color } => {
            save_loop_events(lib, track_id.as_str(), slot, in_ms, out_ms, label, color)
        },
        LibraryCmd::DeleteLoop { track_id, slot } => delete_loop_events(lib, track_id.as_str(), slot),
    }
}

/// The events that answer an analysis of track `track_id` that ended with
/// `result`: the analyzed file track's summary, else one error.
pub open spec fn analyzed_answer(track_id: Seq<char>, result: Result<AudioSource, LibraryError>, out: Seq<Published>) -> bool {
    match result {
        Ok(AudioSource::File(f)) => {
            &&& out.len() == 1
            &&& out[0].origin matches EventOrigin::Track(t) && t@ == f.id.0@
            &&& out[0].body matches LibraryEvent::TrackAnalyzed { track } && summarizes(
                track,
                f.id.0@,
                f.path@,
                f.metadata,
            )
        },
        Ok(AudioSource::Stream(_)) => out.len() == 1 && is_error_event(
            out[0],
            track_id,
            "Only file tracks can be analyzed."@,
        ),
        Err(e) => out.len() == 1 && is_error_event_of(out[0], track_id, e),
    }
}

/// Answer an analysis of track `track_id` that ended with `result`.
pub fn analyzed_events(track_id: &str, result: Result<AudioSource, LibraryError>) -> (out: Vec<Published>)
    ensures
        analyzed_answer(track_id@, result, out@),
{
    match result {
        Ok(source) => match track_summary(&source) {
            Some(track) => {
                let origin = EventOrigin::Track(owned(track.id.as_str()));
                one(Published { origin, body: LibraryEvent::TrackAnalyzed { track } })
            },
            None => one(error_event(track_id, owned("Only file tracks can be analyzed."))),
        },
        Err(e) => one(error_event(track_id, e.message())),
    }
}

/// The hot cue and loop slots of every track of a well-formed library hold
/// each record at its own slot.
proof fn lemma_slots_wf(lib: LibraryManager, t: Seq<char>)
    requires
        lib.wf(),
    ensures
        cues_wf(lib.cues_of(t)),
        loops_wf(lib.loops_of(t)),
{
    lemma_find_id(deck_ids(lib.decks@), t, 0);
    let k = find_id(deck_ids(lib.decks@), t, 0);
    if k >= 0 {
        assert(cues_wf(lib.decks@[k].hot_cues@));
    }
}

/// Saving a hot cue answers with the track's hot cues, the saved one among
/// them.
pub proof fn law_saved_cue_is_published(
    old: LibraryManager,
    new: LibraryManager,
    t: Seq<char>,
    rec: HotCueRecord,
    out: Seq<Published>,
)
    requires
        old.wf(),
        rec.slot_index <= 15,
        cue_save_answer(old, new, t, rec, out),
    ensures
        out.len() == 1,
        out[0].body matches LibraryEvent::HotCuesChanged { hot_cues, .. } && hot_cues@.contains(cue_view(rec)),
{
    lemma_slots_wf(old, t);
    law_saved_slot_is_listed(old.cues_of(t), rec.slot_index as int, rec);
    let l = listed(new.cues_of(t));
    let k = choose|k: int| 0 <= k < l.len() && l[k] == rec;
    if let LibraryEvent::HotCuesChanged { hot_cues, .. } = out[0].body {
        assert(hot_cues@[k] == cue_view(l[k]));
    }
}

/// Saving a loop answers with the track's loops, the saved one among them.
pub proof fn law_saved_loop_is_published(
    old: LibraryManager,
    new: LibraryManager,
    t: Seq<char>,
    rec: LoopRecord,
    out: Seq<Published>,
)
    requires
        old.wf(),
        rec.slot_index <= 15,
        rec.in_ms < rec.out_ms,
        loop_save_answer(old, new, t, rec, out),
    ensures
        out.len() == 1,
        out[0].body matches LibraryEvent::LoopsChanged { loops, .. } && loops@.contains(loop_view(rec)),
{
    lemma_slots_wf(old, t);
    law_saved_slot_is_listed(old.loops_of(t), rec.slot_index as int, rec);
    let l = listed(new.loops_of(t));
    let k = choose|k: int| 0 <= k < l.len() && l[k] == rec;
    if let LibraryEvent::LoopsChanged { loops, .. } = out[0].body {
        assert(loops@[k] == loop_view(l[k]));
    }
}

/// Clearing a hot cue slot answers with hot cues none of which is in that
/// slot.
pub proof fn law_cleared_cue_is_not_published(
    old: LibraryManager,
    new: LibraryManager,
    t: Seq<char>,
    slot: u8,
    out: Seq<Published>,
)
    requires
        old.wf(),
        slot < 16,
        cue_delete_answer(old, new, t, slot, out),
    ensures
        out.len() == 1,
        out[0].body matches LibraryEvent::HotCuesChanged { hot_cues, .. } && forall|k: int|
            0 <= k < hot_cues@.len() ==> (#[trigger] hot_cues@[k]).slot != slot,
{
    lemma_slots_wf(old, t);
    let idx = |r: HotCueRecord| r.slot_index as int;
    assert(at_own_slots(old.cues_of(t), idx));
    law_cleared_slot_not_listed(old.cues_of(t), slot as int, idx);
    let l = listed(new.cues_of(t));
    if let LibraryEvent::HotCuesChanged { hot_cues, .. } = out[0].body {
        assert forall|k: int| 0 <= k < hot_cues@.len() implies (#[trigger] hot_cues@[k]).slot != slot by {
            assert(hot_cues@[k] == cue_view(l[k]));
            assert(idx(l[k]) != slot);
        }
    }
}

/// The hot cues of a track are published in slot order.
pub proof fn law_published_cues_in_slot_order(lib: LibraryManager, t: Seq<char>, p: Published)
    requires
        lib.wf(),
        is_cues_event(p, t, listed(lib.cues_of(t))),
    ensures
        p.body matches LibraryEvent::HotCuesChanged { hot_cues, .. } && forall|i: int, j: int|
            0 <= i < j < hot_cues@.len() ==> (#[trigger] hot_cues@[i]).slot < (#[trigger] hot_cues@[j]).slot,
{
    lemma_slots_wf(lib, t);
    let idx = |r: HotCueRecord| r.slot_index as int;
    assert(at_own_slots(lib.cues_of(t), idx));
    law_listed_in_slot_order(lib.cues_of(t), idx);
    let l = listed(lib.cues_of(t));
    if let LibraryEvent::HotCuesChanged { hot_cues, .. } = p.body {
        assert forall|i: int, j: int| 0 <= i < j < hot_cues@.len() implies (#[trigger] hot_cues@[i]).slot < (
        #[trigger] hot_cues@[j]).slot by {
            assert(hot_cues@[i] == cue_view(l[i]));
            assert(hot_cues@[j] == cue_view(l[j]));
            assert(idx(l[i]) < idx(l[j]));
        }
    }
}

} // verus!
