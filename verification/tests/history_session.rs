use mixar_library::history::recorder::{
    build_entry, deck_sync, file_uri, is_qualifying, local_session_title,
    merge_deck_play_snapshot, parse_rfc3339_ms, should_commit, start_play, DeckPlaySnapshot,
    DeckSync,
};
use mixar_library::history::session::{Clock, HistorySession, StoredDocument};
use mixar_library::history::store::SessionIndex;
use mixar_library::history::xspf::{new_uuid, HistoryDocument};
use mixar_library::manager::LibraryManager;
use mixar_library::records::TrackMetadata;
use mixar_library::types::{LibraryConfig, TrackId};

fn clock(stamp: &str) -> Clock {
    Clock { stamp: stamp.to_string(), now_ms: parse_rfc3339_ms(stamp) }
}

fn session() -> HistorySession {
    HistorySession::new("/data/history".to_string(), SessionIndex::new(), Vec::new())
}

fn snap(path: &str, playing: bool) -> DeckPlaySnapshot {
    DeckPlaySnapshot {
        playing,
        track_id: Some("track-1".into()),
        track_path: Some(path.into()),
        title: Some("Title".into()),
        artist: Some("Artist".into()),
        album: Some("Album".into()),
        bpm: Some("128".into()),
        key: Some("Am".into()),
        isrc: Some("USXXX1234567".into()),
        duration_ms: Some(180_000),
    }
}

/// A qualifying play on `deck` committed at `at`; returns the entry id.
fn commit_play(h: &mut HistorySession, deck: u16, path: &str, at: &str) -> String {
    let id = new_uuid();
    let entry = build_entry(id.clone(), deck, at.to_string(), &snap(path, true));
    h.commit_play(entry, &clock(at));
    id
}

fn end_play(h: &mut HistorySession, entry_id: &str, started: &str, at: &str) {
    let played = parse_rfc3339_ms(at) - parse_rfc3339_ms(started);
    h.finish_play(entry_id, at, played, &clock(at));
}

fn lib() -> LibraryManager {
    LibraryManager::open_in_memory(LibraryConfig::default()).unwrap()
}

#[test]
fn session_updated_flag_take_and_restore() {
    let mut h = session();
    assert!(!h.take_session_updated());
    h.mark_session_updated();
    assert!(h.take_session_updated());
    assert!(!h.take_session_updated());
    h.mark_session_updated();
    assert!(h.take_session_updated());
}

#[test]
fn qualifying_play_commits_entry_with_metadata_under_history_dir() {
    let mut h = session();
    commit_play(&mut h, 0, "/music/a.flac", "2024-05-01T20:00:00Z");
    let session_id = h.active_session_id().expect("active").to_string();
    let entries = h.session_entries(&session_id, &lib()).expect("entries");
    assert_eq!(entries.len(), 1);
    let e = &entries[0];
    assert_eq!(e.deck, 0);
    assert!(!e.started_at.is_empty());
    assert_eq!(e.title.as_deref(), Some("Title"));
    assert_eq!(e.artist.as_deref(), Some("Artist"));
    assert_eq!(e.isrc.as_deref(), Some("USXXX1234567"));
    assert_eq!(e.location, "file:///music/a.flac");
    assert_eq!(e.duration_sec, Some(180));
    assert!(e.ended_at.is_none());
    let path = h.xspf_path.clone().expect("path");
    assert_eq!(path, "/data/history/20240501T200000Z.xspf");
    assert!(h.files.iter().any(|f| f.path == path));
    let doc = h.document.as_ref().unwrap();
    assert_eq!(doc.session.title, "2024-05-01 20:00:00");
    assert!(h.take_session_updated());
}

#[test]
fn ending_play_sets_ended_at_and_played_duration() {
    let mut h = session();
    let id = commit_play(&mut h, 0, "/music/a.flac", "2024-05-01T20:00:00Z");
    end_play(&mut h, &id, "2024-05-01T20:00:00Z", "2024-05-01T20:03:00Z");
    let session_id = h.active_session_id().expect("active").to_string();
    let entries = h.session_entries(&session_id, &lib()).expect("entries");
    assert_eq!(entries.len(), 1);
    assert_eq!(entries[0].ended_at.as_deref(), Some("2024-05-01T20:03:00Z"));
    assert_eq!(entries[0].played_duration_ms, Some(180_000));
    let doc = h.document.as_ref().unwrap();
    assert_eq!(doc.session.last_activity_at, "2024-05-01T20:03:00Z");
}

#[test]
fn replaying_same_track_appends_second_entry() {
    let mut h = session();
    let a = commit_play(&mut h, 0, "/music/a.flac", "2024-05-01T20:00:00Z");
    end_play(&mut h, &a, "2024-05-01T20:00:00Z", "2024-05-01T20:01:00Z");
    let b = commit_play(&mut h, 0, "/music/a.flac", "2024-05-01T20:02:00Z");
    end_play(&mut h, &b, "2024-05-01T20:02:00Z", "2024-05-01T20:03:00Z");
    let session_id = h.active_session_id().expect("active").to_string();
    let entries = h.session_entries(&session_id, &lib()).expect("entries");
    assert_eq!(entries.len(), 2);
    assert_eq!(entries[0].track_id.as_deref(), Some("track-1"));
    assert_eq!(entries[1].track_id.as_deref(), Some("track-1"));
    assert_ne!(entries[0].id, entries[1].id);
}

#[test]
fn below_duration_or_volume_produces_no_entry() {
    // Five seconds minimum: a play that stops after two seconds never commits.
    assert!(!should_commit(false, 2_000, 60, true));
    assert!(!should_commit(false, 60_000, 60, false));
    assert!(should_commit(false, 60_000, 60, true));
    assert!(!should_commit(true, 60_000, 60, true));
    // A deck below the output threshold does not qualify.
    assert!(!is_qualifying(&snap("/music/a.flac", true), false));
    let h = session();
    assert!(h.active_session_id().is_none());
}

#[test]
fn only_deck_snapshots_drive_logging_no_sampler_or_pfl_api() {
    let mut stopped = snap("/music/a.flac", false);
    assert!(!is_qualifying(&stopped, true));
    stopped.playing = true;
    stopped.track_id = None;
    stopped.track_path = None;
    assert!(!is_qualifying(&stopped, true));
    assert!(is_qualifying(&snap("/music/a.flac", true), true));
}

#[test]
fn crossfader_full_cut_prevents_logging() {
    // The crossfader cut makes the deck inaudible: it neither qualifies nor starts a play.
    let s = snap("/music/a.flac", true);
    assert!(!is_qualifying(&s, false));
    assert_eq!(deck_sync(true, is_qualifying(&s, false), false), DeckSync::Keep);
}

#[test]
fn settings_enabled_and_min_volume_affect_logging() {
    assert_eq!(deck_sync(false, true, false), DeckSync::Keep);
    assert_eq!(deck_sync(true, true, false), DeckSync::Start);
    assert_eq!(deck_sync(true, false, true), DeckSync::Finish);
    assert_eq!(deck_sync(true, true, true), DeckSync::Keep);
}

#[test]
fn manual_new_session_and_resume_before_successor() {
    let mut h = session();
    let a = commit_play(&mut h, 0, "/music/a.flac", "2024-05-01T20:00:00Z");
    end_play(&mut h, &a, "2024-05-01T20:00:00Z", "2024-05-01T20:01:00Z");
    let first = h.active_session_id().expect("active").to_string();

    h.new_session(&clock("2024-05-01T20:02:00Z")).expect("new");
    assert!(h.active_session_id().is_none());
    assert!(h.can_resume_session());
    h.resume_session().expect("resume");
    assert_eq!(h.active_session_id(), Some(first.as_str()));

    h.new_session(&clock("2024-05-01T20:03:00Z")).expect("new again");
    assert!(h.can_resume_session());
    commit_play(&mut h, 0, "/music/b.flac", "2024-05-01T20:04:00Z");
    assert!(!h.can_resume_session());
    assert!(h.resume_session().is_err());
}

#[test]
fn new_session_needs_an_open_session_with_plays() {
    let mut h = session();
    let err = h.new_session(&clock("2024-05-01T20:00:00Z")).unwrap_err();
    assert_eq!(err.message(), "history: no active session");
    let err = h.resume_session().unwrap_err();
    assert_eq!(err.message(), "history: no closed session to resume");
}

fn stale_session(h: &mut HistorySession, title: &str) -> String {
    let mut doc = HistoryDocument::new_session(title);
    doc.session.started_at = "2020-01-01T00:00:00Z".into();
    doc.session.last_activity_at = "2020-01-01T00:00:00Z".into();
    let path = format!("/data/history/{title}.xspf");
    h.index.upsert_session_index(&doc, &path);
    let id = doc.session.id.clone();
    h.files.push(StoredDocument { path, doc });
    id
}

#[test]
fn idle_timeout_closes_unloaded_session_from_last_activity_at() {
    let mut h = session();
    let id = stale_session(&mut h, "test");
    h.check_idle_timeout(&clock("2024-05-01T20:00:00Z"), 1, false).expect("tick");
    let row = h.index.get_session(&id).expect("row");
    assert!(row.closed);
}

#[test]
fn after_idle_timeout_next_play_opens_new_session() {
    let mut h = session();
    let old_id = stale_session(&mut h, "stale");
    h.check_idle_timeout(&clock("2024-05-01T20:00:00Z"), 1, false).expect("idle close");
    assert!(h.index.get_session(&old_id).expect("row").closed);
    commit_play(&mut h, 0, "/music/b.flac", "2024-05-01T20:00:30Z");
    let new_id = h.active_session_id().expect("new session").to_string();
    assert_ne!(old_id, new_id);
}

#[test]
fn idle_check_waits_while_a_deck_plays_and_before_timeout() {
    let mut h = session();
    commit_play(&mut h, 0, "/music/a.flac", "2024-05-01T20:00:00Z");
    h.check_idle_timeout(&clock("2024-05-01T21:00:00Z"), 5, true).unwrap();
    assert!(h.active_session_id().is_some());
    h.check_idle_timeout(&clock("2024-05-01T20:04:00Z"), 5, false).unwrap();
    assert!(h.active_session_id().is_some());
    h.check_idle_timeout(&clock("2024-05-01T20:05:00Z"), 5, false).unwrap();
    assert!(h.active_session_id().is_none());
}

#[test]
fn restore_prompt_on_bootstrap_decline_starts_fresh() {
    let mut first = session();
    let a = commit_play(&mut first, 0, "/music/a.flac", "2024-05-01T20:00:00Z");
    end_play(&mut first, &a, "2024-05-01T20:00:00Z", "2024-05-01T20:01:00Z");
    let old_id = first.active_session_id().expect("active").to_string();

    let mut restarted = HistorySession::new(first.history_dir.clone(), first.index, first.files);
    restarted
        .bootstrap(&clock("2024-05-01T20:02:00Z"), 60)
        .expect("bootstrap");
    let prompt = restarted.restore_prompt.clone().expect("prompt");
    assert_eq!(prompt.session_id, old_id);

    restarted
        .decline_restore(&clock("2024-05-01T20:02:30Z"))
        .expect("decline");
    assert!(restarted.restore_prompt.is_none());
    assert!(restarted.index.get_session(&old_id).expect("row").closed);

    commit_play(&mut restarted, 0, "/music/b.flac", "2024-05-01T20:03:00Z");
    let new_id = restarted.active_session_id().expect("fresh").to_string();
    assert_ne!(old_id, new_id);
}

#[test]
fn restore_reopens_and_rename_and_delete() {
    let mut h = session();
    commit_play(&mut h, 1, "/music/a.flac", "2024-05-01T20:00:00Z");
    let id = h.active_session_id().unwrap().to_string();
    h.close_active_session(&clock("2024-05-01T20:10:00Z"));
    let row = h.index.get_session(&id).unwrap();
    assert!(row.closed);
    assert_eq!(row.last_activity_at, "2024-05-01T20:10:00Z");
    h.restore_session(&id).unwrap();
    assert_eq!(h.active_session_id(), Some(id.as_str()));
    assert!(!h.index.get_session(&id).unwrap().closed);
    h.rename_session(&id, "Friday").unwrap();
    assert_eq!(h.index.get_session(&id).unwrap().title, "Friday");
    assert_eq!(h.document.as_ref().unwrap().session.title, "Friday");
    h.delete_session(&id).unwrap();
    assert!(h.active_session_id().is_none());
    assert!(h.index.get_session(&id).is_none());
    assert!(h.files.is_empty());
    let err = h.restore_session(&id).unwrap_err();
    assert_eq!(err.message(), "history: session not found");
}

#[test]
fn closing_ends_open_plays() {
    let mut h = session();
    commit_play(&mut h, 0, "/music/a.flac", "2024-05-01T20:00:00Z");
    let id = h.active_session_id().unwrap().to_string();
    h.close_session_by_id(&id, &clock("2024-05-01T20:00:10Z")).unwrap();
    let entries = h.session_entries(&id, &lib()).unwrap();
    assert_eq!(entries[0].ended_at.as_deref(), Some("2024-05-01T20:00:10Z"));
    assert_eq!(entries[0].played_duration_ms, Some(10_000));
}

#[test]
fn entries_are_filled_from_the_library() {
    let mut h = session();
    let mut library = lib();
    let meta = TrackMetadata { title: Some("Lib Title".into()), key: Some("8A".into()), ..Default::default() };
    library.upsert_file_track(&TrackId::new("t9"), "/music/t9.wav", &meta).unwrap();
    let entry = build_entry(
        "e1".into(),
        0,
        "2024-05-01T20:00:00Z".into(),
        &DeckPlaySnapshot {
            playing: true,
            track_id: Some("t9".into()),
            track_path: None,
            title: Some(String::new()),
            artist: None,
            album: None,
            bpm: None,
            key: None,
            isrc: None,
            duration_ms: None,
        },
    );
    h.commit_play(entry, &clock("2024-05-01T20:00:00Z"));
    let id = h.active_session_id().unwrap().to_string();
    let entries = h.session_entries(&id, &library).unwrap();
    assert_eq!(entries[0].title.as_deref(), Some("Lib Title"));
    assert_eq!(entries[0].key.as_deref(), Some("8A"));
    assert_eq!(entries[0].location, "file:///music/t9.wav");
}

#[test]
fn merge_keeps_known_track_details() {
    let prev = snap("/music/a.flac", true);
    let next = DeckPlaySnapshot {
        playing: false,
        track_id: None,
        track_path: None,
        title: None,
        artist: None,
        album: None,
        bpm: None,
        key: None,
        isrc: None,
        duration_ms: None,
    };
    let merged = merge_deck_play_snapshot(&prev, next);
    assert_eq!(merged.track_path.as_deref(), Some("/music/a.flac"));
    assert_eq!(merged.title.as_deref(), Some("Title"));
    assert!(!merged.playing);
}

#[test]
fn titles_and_uris() {
    assert_eq!(local_session_title("2024-05-01T20:00:00ZZ"), "2024-05-01 20:00:00");
    assert_eq!(file_uri(Some("/a b.mp3")), "file:///a b.mp3");
    assert_eq!(file_uri(Some("file:///x.mp3")), "file:///x.mp3");
    assert_eq!(file_uri(None), "");
    assert_eq!(parse_rfc3339_ms("1970-01-01T00:00:01Z"), 1000);
    assert_eq!(parse_rfc3339_ms("garbage"), 0);
}

#[test]
fn pending_play_is_logged_once_then_ended() {
    let mut library = lib();
    library
        .upsert_file_track(
            &TrackId::new("track-1"),
            "/music/one.flac",
            &TrackMetadata {
                genre: Some("House".into()),
                ..TrackMetadata::default()
            },
        )
        .unwrap();
    let mut h = session();
    let mut bare = snap("", true);
    bare.track_path = None;
    bare.title = None;
    let mut play = start_play(1, bare, "2024-05-01T20:00:00Z");
    assert!(!play.committed);

    // A play never logged ends without touching the history.
    h.end_pending_play(&play, &clock("2024-05-01T20:00:01Z"));
    assert!(h.document.is_none());

    h.commit_pending_play(&library, &mut play, &clock("2024-05-01T20:00:05Z"));
    assert!(play.committed);
    let doc = h.document.as_ref().unwrap();
    assert_eq!(doc.entries.len(), 1);
    assert_eq!(doc.entries[0].id, play.entry_id);
    assert_eq!(doc.entries[0].deck, 1);
    assert_eq!(doc.entries[0].location, "file:///music/one.flac");
    assert_eq!(doc.entries[0].started_at, "2024-05-01T20:00:00Z");

    h.end_pending_play(&play, &clock("2024-05-01T20:03:00Z"));
    let doc = h.document.as_ref().unwrap();
    assert_eq!(doc.entries[0].ended_at.as_deref(), Some("2024-05-01T20:03:00Z"));
    assert_eq!(doc.entries[0].played_duration_ms, Some(180_000));
}
