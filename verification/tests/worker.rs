use mixar_library::error::LibraryError;
use mixar_library::manager::LibraryManager;
use mixar_library::records::TrackMetadata;
use mixar_library::source::{AudioSource, FileAudioSource};
use mixar_library::types::{LibraryConfig, TrackId};
use mixar_library::worker::{
    analyzed_events, handle_cmd, track_summary, EventOrigin, HotCue, LibraryCmd, LibraryEvent,
    SavedLoop,
};

fn lib() -> LibraryManager {
    LibraryManager::open_in_memory(LibraryConfig::default()).unwrap()
}

fn error_of(ev: &LibraryEvent) -> (&str, Option<&str>) {
    match ev {
        LibraryEvent::Error { message, track_id } => (message.as_str(), track_id.as_deref()),
        other => panic!("not an error: {other:?}"),
    }
}

#[test]
fn refresh_publishes_summary_cues_and_loops() {
    let mut lib = lib();
    let id = TrackId::new("/music/Song.flac");
    let meta = TrackMetadata {
        artist: Some("Artist".into()),
        title: Some("Title".into()),
        ..TrackMetadata::default()
    };
    lib.upsert_file_track(&id, "/music/Song.flac", &meta).unwrap();
    lib.save_track_hot_cue(&id, 3, 1500, None, None, Some("drop".into()))
        .unwrap();
    lib.save_track_loop(&id, 1, 100, 900, None, None).unwrap();

    let out = handle_cmd(
        &mut lib,
        LibraryCmd::RefreshTrack {
            track_id: "/music/Song.flac".into(),
        },
    );
    assert_eq!(out.len(), 3);
    assert_eq!(out[0].origin, EventOrigin::Track("/music/Song.flac".into()));
    match &out[0].body {
        LibraryEvent::TrackUpdated { track } => {
            assert_eq!(track.display_name, "Artist — Title");
            assert_eq!(track.path, "/music/Song.flac");
        }
        other => panic!("unexpected {other:?}"),
    }
    assert_eq!(
        out[1].body,
        LibraryEvent::HotCuesChanged {
            track_id: "/music/Song.flac".into(),
            hot_cues: vec![HotCue {
                slot: 3,
                position_ms: 1500,
                loop_length_beats: None,
                color: None,
                label: Some("drop".into()),
            }],
        }
    );
    assert_eq!(
        out[2].body,
        LibraryEvent::LoopsChanged {
            track_id: "/music/Song.flac".into(),
            loops: vec![SavedLoop {
                slot: 1,
                in_ms: 100,
                out_ms: 900,
                label: None,
                color: None,
            }],
        }
    );
}

#[test]
fn refresh_of_unknown_or_stream_track_is_an_error() {
    let mut lib = lib();
    let out = handle_cmd(&mut lib, LibraryCmd::RefreshTrack { track_id: "x".into() });
    assert_eq!(out.len(), 1);
    assert_eq!(error_of(&out[0].body), ("Track not found: x", Some("x")));

    let sid = TrackId::new("stream:s");
    lib.upsert_stream_track(&sid, "https://s", &TrackMetadata::default(), None)
        .unwrap();
    let out = handle_cmd(&mut lib, LibraryCmd::RefreshTrack { track_id: "stream:s".into() });
    assert_eq!(
        error_of(&out[0].body),
        ("Only file tracks can be refreshed.", Some("stream:s"))
    );
}

#[test]
fn save_and_delete_commands_answer_with_slots() {
    let mut lib = lib();
    let out = handle_cmd(
        &mut lib,
        LibraryCmd::SaveHotCue {
            track_id: "t".into(),
            slot: 16,
            position_ms: 0,
            loop_length_beats: None,
            color: None,
            label: None,
        },
    );
    assert_eq!(
        error_of(&out[0].body),
        ("deck_data: hot cue slot must be 0..=15", Some("t"))
    );

    let out = handle_cmd(
        &mut lib,
        LibraryCmd::SaveLoop {
            track_id: "t".into(),
            slot: 0,
            in_ms: 500,
            out_ms: 500,
            label: None,
            color: None,
        },
    );
    assert_eq!(
        error_of(&out[0].body),
        ("deck_data: loop out must be after loop in", Some("t"))
    );

    handle_cmd(
        &mut lib,
        LibraryCmd::SaveHotCue {
            track_id: "t".into(),
            slot: 2,
            position_ms: 20,
            loop_length_beats: Some(4),
            color: None,
            label: None,
        },
    );
    let out = handle_cmd(&mut lib, LibraryCmd::DeleteHotCue { track_id: "t".into(), slot: 2 });
    assert_eq!(
        out[0].body,
        LibraryEvent::HotCuesChanged { track_id: "t".into(), hot_cues: vec![] }
    );
    let out = handle_cmd(&mut lib, LibraryCmd::DeleteLoop { track_id: "t".into(), slot: 40 });
    assert_eq!(
        out[0].body,
        LibraryEvent::LoopsChanged { track_id: "t".into(), loops: vec![] }
    );
}

#[test]
fn summary_name_falls_back_to_title_then_file_name() {
    let file = |meta: TrackMetadata| {
        AudioSource::File(FileAudioSource {
            id: TrackId::new("id-1"),
            metadata: meta,
            path: "/m/Track One.wav".into(),
        })
    };
    let s = track_summary(&file(TrackMetadata {
        title: Some("Only Title".into()),
        ..TrackMetadata::default()
    }))
    .unwrap();
    assert_eq!(s.display_name, "Only Title");
    let s = track_summary(&file(TrackMetadata {
        artist: Some("Only Artist".into()),
        ..TrackMetadata::default()
    }))
    .unwrap();
    assert_eq!(s.display_name, "Track One.wav");
    assert_eq!(s.id, "id-1");
}

#[test]
fn analyzed_events_report_summary_or_error() {
    let src = AudioSource::File(FileAudioSource {
        id: TrackId::new("a"),
        metadata: TrackMetadata::default(),
        path: "/m/a.wav".into(),
    });
    let out = analyzed_events("a", Ok(src));
    assert_eq!(out.len(), 1);
    assert!(matches!(out[0].body, LibraryEvent::TrackAnalyzed { .. }));
    let out = analyzed_events("b", Err(LibraryError::NotFound("b".into())));
    assert_eq!(error_of(&out[0].body), ("not found: b", Some("b")));
}

fn import_song(lib: &mut LibraryManager) -> String {
    let path = "/tmp/session/song.wav";
    lib.upsert_file_track(&TrackId::new(path), path, &TrackMetadata::default())
        .unwrap();
    path.to_string()
}

#[test]
fn spawn_worker_refresh_missing_track_emits_error() {
    let mut lib = lib();
    let out = handle_cmd(
        &mut lib,
        LibraryCmd::RefreshTrack {
            track_id: "missing-track-id".into(),
        },
    );
    assert_eq!(out.len(), 1);
    assert!(matches!(out[0].body, LibraryEvent::Error { .. }));
}

#[test]
fn save_hot_cue_cmd_emits_hot_cues_changed_for_track() {
    let mut lib = lib();
    let track_id = import_song(&mut lib);
    let out = handle_cmd(
        &mut lib,
        LibraryCmd::SaveHotCue {
            track_id: track_id.clone(),
            slot: 3,
            position_ms: 12_500,
            loop_length_beats: None,
            color: None,
            label: None,
        },
    );
    assert_eq!(out[0].origin, EventOrigin::Track(track_id.clone()));
    match &out[0].body {
        LibraryEvent::HotCuesChanged {
            track_id: tid,
            hot_cues,
        } => {
            assert_eq!(tid, &track_id);
            assert_eq!(hot_cues.len(), 1);
            assert_eq!(hot_cues[0].slot, 3);
            assert_eq!(hot_cues[0].position_ms, 12_500);
        }
        other => panic!("unexpected evt body: {other:?}"),
    }
}

#[test]
fn save_loop_cmd_emits_loops_changed_for_track() {
    let mut lib = lib();
    let track_id = import_song(&mut lib);
    let out = handle_cmd(
        &mut lib,
        LibraryCmd::SaveLoop {
            track_id: track_id.clone(),
            slot: 1,
            in_ms: 1000,
            out_ms: 5000,
            label: None,
            color: None,
        },
    );
    match &out[0].body {
        LibraryEvent::LoopsChanged {
            track_id: tid,
            loops,
        } => {
            assert_eq!(tid, &track_id);
            assert_eq!(loops.len(), 1);
            assert_eq!(loops[0].slot, 1);
            assert_eq!(loops[0].in_ms, 1000);
            assert_eq!(loops[0].out_ms, 5000);
        }
        other => panic!("unexpected evt body: {other:?}"),
    }
}
