use mixar_library::error::LibraryError;
use mixar_library::history::store::{
    history_dir_for_db, row_from_model, HistorySessionModel, SessionIndex,
};
use mixar_library::history::xspf::{HistoryDocument, HistoryEntry, SessionMeta};
use mixar_library::library::copy_collection;
use mixar_library::manager::LibraryManager;
use mixar_library::model::{collection, CollectionModel};
use mixar_library::records::{SamplerPlayMode, TrackMetadata};
use mixar_library::source::AudioSource;
use mixar_library::transport::{DeckTransportEvent, StretchPullStats, TransportEvent};
use mixar_library::types::{
    CollectionConfig, CollectionId, CollectionType, LibraryConfig, NewCollection, StreamProvider,
    TrackId, UpdateCollection,
};

fn lib() -> LibraryManager {
    LibraryManager::open_in_memory(LibraryConfig::default()).unwrap()
}

fn import(lib: &mut LibraryManager, path: &str) -> TrackId {
    lib.upsert_file_source(path, &TrackMetadata::default())
        .unwrap()
        .id()
        .clone()
}

#[test]
fn hot_cue_and_loop_roundtrip_ms() {
    let mut lib = lib();
    let id = TrackId::new("/music/a.wav");
    lib.upsert_file_track(&id, "/music/a.wav", &TrackMetadata::default())
        .unwrap();

    lib.save_track_hot_cue(&id, 0, 12_500, None, None, Some("drop".into()))
        .unwrap();
    lib.save_track_loop(&id, 1, 0, 1000, None, None).unwrap();

    let cues = lib.list_track_hot_cues(&id).unwrap();
    assert_eq!(cues.len(), 1);
    assert_eq!(cues[0].position_ms, 12_500);

    let loops = lib.list_track_loops(&id).unwrap();
    assert_eq!(loops.len(), 1);
    assert_eq!(loops[0].in_ms, 0);
    assert_eq!(loops[0].out_ms, 1000);

    assert!(lib.save_track_loop(&id, 2, 1000, 1000, None, None).is_err());
    assert!(lib.save_track_hot_cue(&id, 0, -500, None, None, None).is_ok());
    assert_eq!(lib.list_track_hot_cues(&id).unwrap()[0].position_ms, -500);
}

#[test]
fn hot_cues_list_in_slot_order_and_delete_clears_slot() {
    let mut lib = lib();
    let id = TrackId::new("/music/b.wav");
    lib.save_track_hot_cue(&id, 5, 500, None, None, None).unwrap();
    lib.save_track_hot_cue(&id, 2, 200, Some(4), Some("#f00".into()), None)
        .unwrap();
    let cues = lib.list_track_hot_cues(&id).unwrap();
    assert_eq!(cues.iter().map(|c| c.slot_index).collect::<Vec<_>>(), vec![2, 5]);
    assert_eq!(cues[0].loop_length_beats, Some(4));
    lib.delete_track_hot_cue(&id, 2).unwrap();
    let cues = lib.list_track_hot_cues(&id).unwrap();
    assert_eq!(cues.len(), 1);
    assert_eq!(cues[0].slot_index, 5);
    let err = lib.save_track_hot_cue(&id, 16, 0, None, None, None).unwrap_err();
    assert_eq!(err.message(), "deck_data: hot cue slot must be 0..=15");
}

#[test]
fn create_list_assign_and_clear() {
    let mut lib = lib();
    let bank = lib.create_sampler_bank("Bank 1", None).unwrap();
    assert_eq!(bank.name, "Bank 1");
    assert!(bank.play_mode.is_none());

    lib.assign_sampler_bank_slot(
        &bank.id,
        0,
        None,
        Some("/tmp/kick.wav".into()),
        Some("Kick".into()),
    )
    .unwrap();
    let slots = lib.list_sampler_bank_slots(&bank.id).unwrap();
    assert_eq!(slots.len(), 1);
    assert_eq!(slots[0].label.as_deref(), Some("Kick"));

    lib.clear_sampler_bank_slot(&bank.id, 0).unwrap();
    assert!(lib.list_sampler_bank_slots(&bank.id).unwrap().is_empty());
}

#[test]
fn play_mode_round_trips() {
    let mut lib = lib();
    let bank = lib
        .create_sampler_bank("Hold bank", Some(SamplerPlayMode::Hold))
        .unwrap();
    assert_eq!(bank.play_mode, Some(SamplerPlayMode::Hold));

    lib.update_sampler_bank(&bank.id, &bank.name, Some(SamplerPlayMode::Loop))
        .unwrap();
    let loaded = lib.get_sampler_bank(&bank.id).unwrap().unwrap();
    assert_eq!(loaded.play_mode, Some(SamplerPlayMode::Loop));

    lib.update_sampler_bank(&bank.id, &bank.name, None).unwrap();
    let cleared = lib.get_sampler_bank(&bank.id).unwrap().unwrap();
    assert!(cleared.play_mode.is_none());
}

#[test]
fn rejects_out_of_range_slot() {
    let mut lib = lib();
    let bank = lib.create_sampler_bank("A", None).unwrap();
    let err = lib
        .assign_sampler_bank_slot(&bank.id, 8, None, Some("/x".into()), None)
        .unwrap_err();
    assert!(err.message().contains("slot"));
}

#[test]
fn sampler_bank_names_are_trimmed_and_required() {
    let mut lib = lib();
    let bank = lib.create_sampler_bank("  Pads  ", None).unwrap();
    assert_eq!(bank.name, "Pads");
    assert!(bank.id.starts_with("bank-"));
    assert_eq!(bank.sort_index, 0);
    let err = lib.create_sampler_bank("   ", None).unwrap_err();
    assert_eq!(err.message(), "sampler: bank name must not be empty");
    let err = lib.update_sampler_bank("bank-missing", "X", None).unwrap_err();
    assert_eq!(err.message(), "sampler: sampler bank not found: bank-missing");
    let err = lib
        .assign_sampler_bank_slot(&bank.id, 1, None, None, None)
        .unwrap_err();
    assert_eq!(err.message(), "sampler: track_id or path is required");
    let err = lib
        .assign_sampler_bank_slot(&bank.id, 1, Some("nope".into()), None, None)
        .unwrap_err();
    assert_eq!(err.message(), "library: FOREIGN KEY constraint failed");
}

#[test]
fn sampler_banks_list_by_sort_index_then_name() {
    let mut lib = lib();
    let a = lib.create_sampler_bank("Zeta", None).unwrap();
    let b = lib.create_sampler_bank("Alpha", None).unwrap();
    let banks = lib.list_sampler_banks().unwrap();
    assert_eq!(banks.len(), 2);
    assert_eq!(banks[0].id, a.id);
    assert_eq!(banks[1].id, b.id);
}

#[test]
fn deleting_a_bank_forgets_it_on_tracks() {
    let mut lib = lib();
    let t = import(&mut lib, "/music/c.wav");
    let bank = lib.create_sampler_bank("B", None).unwrap();
    lib.assign_sampler_bank_slot(&bank.id, 3, Some(t.0.clone()), None, None)
        .unwrap();
    lib.set_track_last_sampler_bank_id(&t, Some(&bank.id)).unwrap();
    assert_eq!(
        lib.get_track_last_sampler_bank_id(&t).unwrap().as_deref(),
        Some(bank.id.as_str())
    );
    lib.delete_sampler_bank(&bank.id).unwrap();
    assert!(lib.get_sampler_bank(&bank.id).unwrap().is_none());
    assert!(lib.get_track_last_sampler_bank_id(&t).unwrap().is_none());
    assert!(lib.delete_sampler_bank(&bank.id).is_err());
    let err = lib
        .set_track_last_sampler_bank_id(&TrackId::new("ghost"), None)
        .unwrap_err();
    assert_eq!(err.message(), "sampler: track not found: ghost");
    let err = lib
        .set_track_last_sampler_bank_id(&t, Some("bank-0"))
        .unwrap_err();
    assert_eq!(err.message(), "library: FOREIGN KEY constraint failed");
}

#[test]
fn upsert_and_get_file_track() {
    let mut lib = lib();
    let id = TrackId::new("/music/a.wav");
    let meta = TrackMetadata {
        title: Some("a".into()),
        duration_ms: Some(12_500),
        ..TrackMetadata::default()
    };
    lib.upsert_file_track(&id, "/music/a.wav", &meta).unwrap();
    let fetched = lib.get_track(&id).unwrap().unwrap();
    assert_eq!(fetched.metadata().title.as_deref(), Some("a"));
    assert_eq!(fetched.metadata().duration_ms, Some(12_500));
}

#[test]
fn beat_grid_context_defaults() {
    let mut lib = lib();
    let id = TrackId::new("/music/g.wav");
    let meta = TrackMetadata {
        duration_ms: Some(-4),
        key: Some("Am".into()),
        ..TrackMetadata::default()
    };
    lib.upsert_file_track(&id, "/music/g.wav", &meta).unwrap();
    let ctx = lib.track_beat_grid_context(&id).unwrap();
    assert_eq!(ctx.duration_ms, 0);
    assert_eq!(ctx.key.as_deref(), Some("Am"));
    assert_eq!(ctx.sample_rate, 48_000);
    let err = lib.track_beat_grid_context(&TrackId::new("x")).unwrap_err();
    assert_eq!(err.message(), "library: track not found: x");
}

#[test]
fn playlist_membership_and_order() {
    let mut lib = lib();
    let ta = import(&mut lib, "/music/a.wav");
    let tb = import(&mut lib, "/music/b.wav");

    let pl = lib
        .add_collection(&NewCollection::playlist("Warmup", true), false)
        .unwrap();
    lib.add_collection_track(&pl.id, &ta, None).unwrap();
    lib.add_collection_track(&pl.id, &tb, None).unwrap();

    let tracks = lib.get_collection_tracks(&pl.id).unwrap();
    assert_eq!(tracks.len(), 2);
    assert_eq!(tracks[0].id(), &ta);
    assert_eq!(tracks[1].id(), &tb);

    lib.update_collection_track(&pl.id, &[tb.clone(), ta.clone()])
        .unwrap();
    let tracks = lib.get_collection_tracks(&pl.id).unwrap();
    assert_eq!(tracks[0].id(), &tb);
    assert_eq!(tracks[1].id(), &ta);

    lib.remove_collection_track(&pl.id, &ta).unwrap();
    assert_eq!(lib.get_collection_tracks(&pl.id).unwrap().len(), 1);
}

#[test]
fn unsortable_playlist_rejects_reorder() {
    let mut lib = lib();
    let track = import(&mut lib, "/music/x.wav");
    let pl = lib
        .add_collection(&NewCollection::playlist("Crate", false), false)
        .unwrap();
    lib.add_collection_track(&pl.id, &track, None).unwrap();

    let err = lib
        .update_collection_track(&pl.id, &[track.clone()])
        .unwrap_err();
    assert!(matches!(err, LibraryError::Unsupported(_)));
}

#[test]
fn update_collection_sortable() {
    let mut lib = lib();
    let ta = import(&mut lib, "/music/a.wav");
    let tb = import(&mut lib, "/music/b.wav");
    let pl = lib
        .add_collection(&NewCollection::playlist("Set", false), false)
        .unwrap();
    lib.add_collection_track(&pl.id, &ta, None).unwrap();
    lib.add_collection_track(&pl.id, &tb, None).unwrap();

    lib.update_collection(&pl.id, &UpdateCollection::sortable(true))
        .unwrap();
    let pl = lib.get_collection(&pl.id).unwrap().unwrap();
    assert!(pl.sortable());
    lib.update_collection_track(&pl.id, &[tb.clone(), ta.clone()])
        .unwrap();

    lib.update_collection(&pl.id, &UpdateCollection::sortable(false))
        .unwrap();
    let err = lib
        .update_collection_track(&pl.id, &[tb.clone(), ta.clone()])
        .unwrap_err();
    assert!(matches!(err, LibraryError::Unsupported(_)));
}

#[test]
fn reorder_requires_exact_membership() {
    let mut lib = lib();
    let ta = import(&mut lib, "/music/a.wav");
    let tb = import(&mut lib, "/music/b.wav");
    let pl = lib
        .add_collection(&NewCollection::playlist("Set", true), false)
        .unwrap();
    lib.add_collection_track(&pl.id, &ta, None).unwrap();
    let err = lib
        .update_collection_track(&pl.id, &[ta.clone(), tb.clone()])
        .unwrap_err();
    assert_eq!(
        err.message(),
        "library: update_collection_track must include exactly the playlist membership"
    );
    let err = lib.add_collection_track(&pl.id, &TrackId::new("nope"), None).unwrap_err();
    assert!(matches!(err, LibraryError::NotFound(ref s) if s == "nope"));
}

#[test]
fn delete_playlist_keeps_tracks() {
    let mut lib = lib();
    let track = import(&mut lib, "/music/keep.wav");
    let pl = lib
        .add_collection(&NewCollection::playlist("Temp", true), false)
        .unwrap();
    lib.add_collection_track(&pl.id, &track, None).unwrap();
    lib.delete_collection(&pl.id).unwrap();

    assert!(lib.get_collection(&pl.id).unwrap().is_none());
    assert!(lib.get_track(&track).unwrap().is_some());
}

#[test]
fn delete_folder_keeps_tracks() {
    let mut lib = lib();
    let folder = lib
        .add_collection(&NewCollection::folder("/music/set"), true)
        .unwrap();
    import(&mut lib, "/music/set/t.wav");
    let track_id = lib.get_collection_tracks(&folder.id).unwrap()[0].id().clone();

    lib.delete_collection(&folder.id).unwrap();
    assert!(lib.get_track(&track_id).unwrap().is_some());
}

#[test]
fn folder_collections_list_files_under_their_path() {
    let mut lib = lib();
    let folder = lib
        .add_collection(&NewCollection::folder("/music/house"), true)
        .unwrap();
    assert_eq!(folder.collection_type(), CollectionType::Folder);
    assert_eq!(folder.id.0, "folder:/music/house");
    assert_eq!(folder.name, "house");
    import(&mut lib, "/music/house/b.wav");
    import(&mut lib, "/music/house/deep/a.wav");
    import(&mut lib, "/music/housework.wav");
    import(&mut lib, "/music/other/c.wav");
    let tracks = lib.get_collection_tracks(&folder.id).unwrap();
    let paths: Vec<String> = tracks.iter().map(|t| t.source_ref()).collect();
    assert_eq!(paths, vec!["/music/house/b.wav", "/music/house/deep/a.wav"]);
    let again = lib
        .add_collection(&NewCollection::folder_named("/music/house", "Other"), true)
        .unwrap();
    assert_eq!(again.name, "house");
    let err = lib
        .add_collection(&NewCollection::folder("/missing"), false)
        .unwrap_err();
    assert!(matches!(err, LibraryError::NotADirectory(ref p) if p == "/missing"));
    let err = lib.get_collection_tracks(&CollectionId::new("none")).unwrap_err();
    assert!(matches!(err, LibraryError::NotFound(_)));
}

#[test]
fn collections_list_by_name() {
    let mut lib = lib();
    lib.add_collection(&NewCollection::playlist("b", true), false).unwrap();
    lib.add_collection(&NewCollection::folder_named("/m", "a"), true).unwrap();
    let names: Vec<String> = lib
        .list_collections()
        .unwrap()
        .iter()
        .map(|c| copy_collection(c).name)
        .collect();
    assert_eq!(names, vec!["a", "b"]);
    let err = lib
        .add_collection(
            &NewCollection { name: None, config: CollectionConfig::Playlist { sortable: true } },
            false,
        )
        .unwrap_err();
    assert_eq!(err.message(), "library: playlist collection requires a name");
}

#[test]
fn remove_collection_track_drops_orphaned_stream() {
    let mut lib = lib();
    let meta = TrackMetadata {
        title: Some("Remote Track".into()),
        ..Default::default()
    };
    let source = lib
        .import_stream("https://example.com/track.mp3", &meta, Some(StreamProvider::Http))
        .unwrap();
    let pl = lib
        .add_collection(&NewCollection::playlist("Streaming", true), false)
        .unwrap();
    lib.add_collection_track(&pl.id, source.id(), None).unwrap();

    lib.remove_collection_track(&pl.id, source.id()).unwrap();
    assert!(lib.get_track(source.id()).unwrap().is_none());
}

#[test]
fn remove_collection_track_keeps_folder_linked_file() {
    let mut lib = lib();
    let folder = lib
        .add_collection(&NewCollection::folder("/music/keep"), true)
        .unwrap();
    import(&mut lib, "/music/keep/keep.wav");
    let track_id = lib.get_collection_tracks(&folder.id).unwrap()[0].id().clone();

    let pl = lib
        .add_collection(&NewCollection::playlist("Also", true), false)
        .unwrap();
    lib.add_collection_track(&pl.id, &track_id, None).unwrap();
    lib.remove_collection_track(&pl.id, &track_id).unwrap();

    assert!(lib.get_track(&track_id).unwrap().is_some());
    let err = lib.remove_collection_track(&pl.id, &track_id).unwrap_err();
    assert!(matches!(err, LibraryError::NotFound(ref s) if *s == format!("{}/{}", pl.id.0, track_id.0)));
}

#[test]
fn import_stream_round_trip() {
    let mut lib = lib();
    let meta = TrackMetadata {
        title: Some("Remote Track".into()),
        ..Default::default()
    };
    let source = lib
        .import_stream("https://example.com/track.mp3", &meta, Some(StreamProvider::Http))
        .unwrap();

    let AudioSource::Stream(stream) = &source else {
        panic!("expected stream source");
    };
    assert_eq!(stream.uri(), "https://example.com/track.mp3");
    assert_eq!(source.metadata().title.as_deref(), Some("Remote Track"));
    assert_eq!(source.id().0, "stream:http:https://example.com/track.mp3");

    let pl = lib
        .add_collection(&NewCollection::playlist("Streaming", true), false)
        .unwrap();
    lib.add_collection_track(&pl.id, source.id(), None).unwrap();
    assert_eq!(lib.get_collection_tracks(&pl.id).unwrap().len(), 1);
    let err = lib.import_stream("", &meta, None).unwrap_err();
    assert_eq!(err.message(), "library: stream uri must not be empty");
}

#[test]
fn stored_collection_rows_convert() {
    let c = collection(CollectionModel {
        id: "p1".into(),
        name: "Mix".into(),
        collection_type: "playlist".into(),
        sortable: 1,
        scan_folder_tree: 1,
        fs_path: None,
    })
    .unwrap();
    assert!(c.sortable());
    let err = collection(CollectionModel {
        id: "f1".into(),
        name: "F".into(),
        collection_type: "folder".into(),
        sortable: 0,
        scan_folder_tree: 0,
        fs_path: None,
    })
    .unwrap_err();
    assert_eq!(err.message(), "library: folder collection missing fs_path");
    let err = collection(CollectionModel {
        id: "x".into(),
        name: "X".into(),
        collection_type: "crate".into(),
        sortable: 0,
        scan_folder_tree: 0,
        fs_path: None,
    })
    .unwrap_err();
    assert_eq!(err.message(), "library: unknown collection_type: crate");
}

#[test]
fn transport_event_carries_deck() {
    assert_eq!(
        TransportEvent::from_deck(2, DeckTransportEvent::TrackEnded),
        TransportEvent::TrackEnded { deck_id: 2 }
    );
    assert_eq!(StretchPullStats::default(), StretchPullStats { source_frames_fed: 0, out_frames: 0 });
}

fn doc(id: &str, started: &str, closed: bool, entries: usize) -> HistoryDocument {
    let mut es = Vec::new();
    for i in 0..entries {
        es.push(HistoryEntry {
            id: format!("e{i}"),
            deck: 0,
            track_id: None,
            location: String::new(),
            title: None,
            artist: None,
            album: None,
            duration_sec: None,
            bpm: None,
            key: None,
            isrc: None,
            started_at: started.into(),
            ended_at: None,
            played_duration_ms: None,
        });
    }
    HistoryDocument {
        session: SessionMeta {
            id: id.into(),
            title: format!("t-{id}"),
            started_at: started.into(),
            last_activity_at: started.into(),
            closed,
        },
        entries: es,
    }
}

#[test]
fn session_index_upsert_get_active_and_list() {
    let mut ix = SessionIndex::new();
    ix.upsert_session_index(&doc("a", "2024-01-01T10:00:00Z", true, 2), "/h/a.xspf");
    ix.upsert_session_index(&doc("b", "2024-01-02T10:00:00Z", false, 0), "/h/b.xspf");
    ix.upsert_session_index(&doc("c", "2024-01-03T10:00:00Z", true, 1), "/h/c.xspf");
    let a = ix.get_session("a").unwrap();
    assert!(a.closed);
    assert_eq!(a.entry_count, 2);
    assert_eq!(ix.active_session().unwrap().id, "b");
    let order: Vec<String> = ix.list_sessions().into_iter().map(|r| r.id).collect();
    assert_eq!(order, vec!["c", "b", "a"]);
    // A later upsert keeps the stored path and start time.
    let mut moved = doc("a", "2030-01-01T00:00:00Z", false, 3);
    moved.session.title = "renamed".into();
    ix.upsert_session_index(&moved, "/elsewhere.xspf");
    let a = ix.get_session("a").unwrap();
    assert_eq!(a.xspf_path, "/h/a.xspf");
    assert_eq!(a.started_at, "2024-01-01T10:00:00Z");
    assert_eq!(a.title, "renamed");
    assert_eq!(a.entry_count, 3);
    assert_eq!(ix.active_session().unwrap().id, "b");
    ix.delete_session_index("b");
    assert!(ix.get_session("b").is_none());
    assert_eq!(ix.active_session().unwrap().id, "a");
}

#[test]
fn history_rows_and_dir() {
    let row = row_from_model(HistorySessionModel {
        id: "s".into(),
        xspf_path: "/p".into(),
        title: "T".into(),
        started_at: "x".into(),
        last_activity_at: "y".into(),
        closed: 2,
        entry_count: -3,
    });
    assert!(row.closed);
    assert_eq!(row.entry_count, 0);
    assert_eq!(history_dir_for_db("/data/lib/library.db"), "/data/lib/history");
    assert_eq!(history_dir_for_db("library.db"), "history");
}

#[test]
fn artwork_path_only_for_file_tracks() {
    let mut lib = lib();
    let id = TrackId::new("/music/art.flac");
    lib.upsert_file_track(&id, "/music/art.flac", &TrackMetadata::default())
        .unwrap();
    assert_eq!(
        lib.track_artwork_path(&id).unwrap().as_deref(),
        Some("/music/art.flac")
    );
    assert_eq!(lib.track_artwork_path(&TrackId::new("nope")).unwrap(), None);
    let sid = TrackId::new("stream:1");
    lib.upsert_stream_track(&sid, "https://x/1", &TrackMetadata::default(), None)
        .unwrap();
    assert_eq!(lib.track_artwork_path(&sid).unwrap(), None);
    let bad = TrackId::new("stream:2");
    lib.upsert_stream_track(&bad, "https://x/2", &TrackMetadata::default(), Some("zzz"))
        .unwrap();
    let err = lib.track_artwork_path(&bad).unwrap_err();
    assert_eq!(err.message(), "library: unknown stream provider: \"zzz\"");
}

#[test]
fn waveform_source_is_the_file_path_and_streams_are_refused() {
    let mut lib = lib();
    let id = TrackId::new("/music/w.wav");
    lib.upsert_file_track(&id, "/music/w.wav", &TrackMetadata::default())
        .unwrap();
    assert_eq!(lib.waveform_source_path(&id).unwrap(), "/music/w.wav");
    let err = lib.waveform_source_path(&TrackId::new("gone")).unwrap_err();
    assert!(matches!(err, LibraryError::NotFound(ref s) if s == "gone"));
    let sid = TrackId::new("stream:w");
    lib.upsert_stream_track(&sid, "https://x/w", &TrackMetadata::default(), None)
        .unwrap();
    let err = lib.waveform_source_path(&sid).unwrap_err();
    assert!(matches!(err, LibraryError::Unsupported("stream tracks have no waveform")));
}

#[test]
fn analysis_source_refuses_streams() {
    let mut lib = lib();
    let sid = TrackId::new("stream:an");
    lib.upsert_stream_track(&sid, "https://x/an", &TrackMetadata::default(), None)
        .unwrap();
    let err = lib.analysis_source_path(&sid).unwrap_err();
    assert!(matches!(err, LibraryError::Unsupported("stream track analysis not implemented")));
}

#[test]
fn analyze_track_rejects_stream() {
    let mut lib = lib();
    let source = lib
        .import_stream(
            "https://example.com/track.mp3",
            &TrackMetadata::default(),
            Some(StreamProvider::Http),
        )
        .unwrap();
    let err = lib.analysis_source_path(source.id()).unwrap_err();
    assert!(matches!(err, LibraryError::Unsupported(_)));
}

#[test]
fn update_track_isrc_sets_only_that_field() {
    let mut lib = lib();
    let id = TrackId::new("/music/i.wav");
    let meta = TrackMetadata {
        title: Some("I".into()),
        ..TrackMetadata::default()
    };
    lib.upsert_file_track(&id, "/music/i.wav", &meta).unwrap();
    lib.update_track_isrc(&id, Some("USRC17607839".into()));
    let t = lib.get_track(&id).unwrap().unwrap();
    assert_eq!(t.metadata().isrc.as_deref(), Some("USRC17607839"));
    assert_eq!(t.metadata().title.as_deref(), Some("I"));
    lib.update_track_isrc(&TrackId::new("missing"), Some("X".into()));
    assert!(lib.get_track(&TrackId::new("missing")).unwrap().is_none());
}

#[test]
fn insert_sampler_bank_refuses_a_taken_id() {
    let mut lib = lib();
    let bank = lib.insert_sampler_bank("bank-7".to_string(), " Drums ", Some(SamplerPlayMode::Hold)).unwrap();
    assert_eq!(bank.id, "bank-7");
    assert_eq!(bank.name, "Drums");
    assert_eq!(bank.sort_index, 0);
    let err = lib.insert_sampler_bank("bank-7".to_string(), "Again", None).unwrap_err();
    assert_eq!(err.message(), "sampler: sampler bank id already exists: bank-7");
    let err = lib.insert_sampler_bank("bank-8".to_string(), "", None).unwrap_err();
    assert_eq!(err.message(), "sampler: bank name must not be empty");
    let other = lib.insert_sampler_bank("bank-8".to_string(), "Keys", None).unwrap();
    assert_eq!(other.sort_index, 1);
    assert_eq!(lib.get_sampler_bank("bank-7").unwrap().unwrap().name, "Drums");
}

#[test]
fn create_sampler_bank_appends_with_a_bank_id() {
    let mut lib = lib();
    let bank = lib.create_sampler_bank("Loops", None).unwrap();
    assert!(bank.id.starts_with("bank-"));
    assert!(bank.id["bank-".len()..].chars().all(|c| c.is_ascii_digit()));
    assert_eq!(lib.get_sampler_bank(&bank.id).unwrap().unwrap().name, "Loops");
}

#[test]
fn adding_a_folder_twice_gives_the_same_collection() {
    let mut lib = lib();
    let c1 = lib.add_collection(&NewCollection::folder("/music/house"), true).unwrap();
    let c2 = lib
        .add_collection(&NewCollection::folder_named("/music/house", "Other"), true)
        .unwrap();
    assert_eq!(c1, c2);
    assert_eq!(c1.id.as_str(), "folder:/music/house");
    assert_eq!(lib.list_collections().unwrap().len(), 1);
    let err = lib.add_collection(&NewCollection::folder("/missing"), false).unwrap_err();
    assert!(matches!(err, LibraryError::NotADirectory(ref p) if p == "/missing"));
    assert_eq!(lib.list_collections().unwrap().len(), 1);
}
