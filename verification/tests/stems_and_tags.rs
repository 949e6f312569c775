use std::path::Path;

use mixar_library::key_format::{camelot_code_to_musical, camelot_to_musical};
use mixar_library::stems::{ensure_stems_step, StemsAction, StemsEvent, StemsPhase};
use mixar_library::audio_extensions::is_stem_audio_path;
use mixar_library::stems::{StemIndex, TrackStemsInfo, 
    normalize_stems_format, stem_cache_key, stem_cache_path, stem_io_message,
};
use mixar_library::tags::{normalize_key_notation, track_metadata_from_file_tags, FileTags};
use mixar_library::types::TrackId;

#[test]
fn stem_io_message_maps_disk_full() {
    let enospc = std::io::Error::from(std::io::ErrorKind::StorageFull);
    assert_eq!(
        stem_io_message(&enospc),
        "Stem cache write failed: disk full"
    );
    let quota = std::io::Error::other("Disk quota exceeded");
    assert_eq!(
        stem_io_message(&quota),
        "Stem cache write failed: disk full"
    );
    let other = std::io::Error::other("permission denied");
    assert!(stem_io_message(&other).contains("permission denied"));
}

#[test]
fn stem_cache_key_is_bounded_and_stable() {
    let a = TrackId::new("/music/foo bar/track.wav");
    let b = TrackId::new("/music/foo_bar/track.wav");
    assert_eq!(stem_cache_key(&a).len(), 16);
    assert_ne!(stem_cache_key(&a), stem_cache_key(&b));
    assert_eq!(stem_cache_key(&a), stem_cache_key(&a));
}

#[test]
fn stem_cache_path_uses_stem_mp4_suffix() {
    let root = "/stems";
    let id = TrackId::new("/music/track.wav");
    let path = stem_cache_path(root, &id);
    assert!(path.ends_with(".stem.mp4"));
    assert_eq!(Path::new(&path).parent().unwrap(), Path::new(root));
}

#[test]
fn normalize_stems_format_defaults_unknown_to_opus() {
    assert_eq!(normalize_stems_format("flac"), "flac");
    assert_eq!(normalize_stems_format("opus"), "opus");
    assert_eq!(normalize_stems_format("aac"), "aac");
    assert_eq!(normalize_stems_format("wav"), "opus");
    assert_eq!(normalize_stems_format(""), "opus");
}

#[test]
fn normalize_camelot_key_to_musical() {
    assert_eq!(camelot_code_to_musical(8, false).as_deref(), Some("C"));
    assert_eq!(camelot_code_to_musical(8, true).as_deref(), Some("Am"));
    assert_eq!(normalize_key_notation("8A"), "Am");
    assert_eq!(normalize_key_notation("8B"), "C");
    assert_eq!(normalize_key_notation("F#m"), "F#m");
}

#[test]
fn maps_file_tags_and_falls_back_title() {
    let tags = FileTags {
        artist: Some("Artist".into()),
        key: Some("8A".into()),
        ..FileTags::default()
    };
    let meta = track_metadata_from_file_tags("/music/My Song.flac", tags);
    assert_eq!(meta.artist.as_deref(), Some("Artist"));
    assert_eq!(meta.key.as_deref(), Some("Am"));
    assert_eq!(meta.title.as_deref(), Some("My Song"));
}

#[test]
fn tagged_title_is_kept_and_dotfile_stem_is_whole_name() {
    let tags = FileTags {
        title: Some("Tagged".into()),
        ..FileTags::default()
    };
    let meta = track_metadata_from_file_tags("/music/x.mp3", tags);
    assert_eq!(meta.title.as_deref(), Some("Tagged"));
    let meta = track_metadata_from_file_tags("/music/.hidden", FileTags::default());
    assert_eq!(meta.title.as_deref(), Some(".hidden"));
    let meta = track_metadata_from_file_tags("/music/a.b.wav", FileTags::default());
    assert_eq!(meta.title.as_deref(), Some("a.b"));
    assert_eq!(meta.key, None);
}

#[test]
fn is_stem_source_path_is_detected() {
    assert!(is_stem_audio_path("/music/track.stem.mp4"));
    assert!(!is_stem_audio_path("/music/track.wav"));
}

#[test]
fn stems_format_mismatch_fails_matches() {
    let info = TrackStemsInfo {
        backend: "htdemucs_mixxx_v1".into(),
        source_fingerprint: "fp".into(),
        format: "opus".into(),
        sample_rate: 48_000,
        path: "/tmp/cache.stem.mp4".into(),
        generated_at: "1".into(),
    };
    assert!(info.matches_present(true, "fp", "htdemucs_mixxx_v1", "opus"));
    assert!(!info.matches_present(true, "fp", "htdemucs_mixxx_v1", "flac"));
}

fn info(format: &str) -> TrackStemsInfo {
    TrackStemsInfo {
        backend: "htdemucs/cpu".into(),
        source_fingerprint: "fp".into(),
        format: format.into(),
        sample_rate: 48_000,
        path: "/stems/x.stem.mp4".into(),
        generated_at: "2024-01-01T00:00:00Z".into(),
    }
}

#[test]
fn stem_index_upsert_get_delete() {
    let mut ix = StemIndex::new();
    let a = TrackId::new("/music/a.wav");
    let b = TrackId::new("/music/b.wav");
    assert!(ix.get_track_stems(&a).is_none());
    ix.upsert_track_stems(&a, &info("opus"));
    ix.upsert_track_stems(&b, &info("flac"));
    ix.upsert_track_stems(&a, &info(""));
    assert_eq!(ix.table.rows.len(), 2);
    assert_eq!(ix.get_track_stems(&a).unwrap().format, "opus");
    assert_eq!(ix.get_track_stems(&b).unwrap().format, "flac");
    ix.delete_track_stems(&a);
    assert!(!ix.has_track_stems(&a));
    assert!(ix.has_track_stems(&b));
    ix.clear();
    assert!(!ix.has_track_stems(&b));
}

fn stems_library() -> mixar_library::manager::LibraryManager {
    let mut lib = mixar_library::manager::LibraryManager::open_in_memory(
        mixar_library::types::LibraryConfig::default(),
    )
    .unwrap();
    lib.upsert_file_track(
        &TrackId::new("t1"),
        "/music/a.wav",
        &mixar_library::records::TrackMetadata::default(),
    )
    .unwrap();
    lib
}

fn stereo() -> mixar_library::stems::DecodedSource {
    mixar_library::stems::DecodedSource {
        sample_rate: 44100,
        channels: 2,
        samples: 1000,
        mtime_secs: 10,
        size: 20,
    }
}

#[test]
fn stems_steps_refuse_early() {
    let lib = stems_library();
    let mut ix = StemIndex::new();
    let id = TrackId::new("t1");
    let (p, a) = ensure_stems_step(&lib, &mut ix, &id, false, "opus", "", StemsPhase::Start, StemsEvent::Requested);
    assert!(matches!(p, StemsPhase::Done(Ok(()))));
    assert!(matches!(a, StemsAction::Finish));
    let (p, _) = ensure_stems_step(&lib, &mut ix, &id, true, "aac", "", StemsPhase::Start, StemsEvent::Requested);
    match p {
        StemsPhase::Done(Err(e)) => assert_eq!(e.message(), "stems: AAC stem encode is not implemented yet"),
        other => panic!("{other:?}"),
    }
    let missing = TrackId::new("nope");
    let (p, _) = ensure_stems_step(&lib, &mut ix, &missing, true, "flac", "", StemsPhase::Start, StemsEvent::Requested);
    assert!(matches!(p, StemsPhase::Done(Err(mixar_library::error::LibraryError::NotFound(ref s))) if s == "nope"));
    let (p, a) = ensure_stems_step(&lib, &mut ix, &id, true, "flac", "", StemsPhase::Start, StemsEvent::Requested);
    let p = match (p, a) {
        (p @ StemsPhase::Decoding { .. }, StemsAction::Decode(path)) => {
            assert_eq!(path, "/music/a.wav");
            p
        }
        other => panic!("{other:?}"),
    };
    let mono = mixar_library::stems::DecodedSource { channels: 1, ..stereo() };
    let (q, _) = ensure_stems_step(&lib, &mut ix, &id, true, "flac", "", p, StemsEvent::Decoded(Ok(mono)));
    match q {
        StemsPhase::Done(Err(e)) => assert_eq!(
            e.message(),
            "stems: stem separation requires interleaved stereo (got 1 channels)"
        ),
        other => panic!("{other:?}"),
    }
    let p = StemsPhase::Decoding { path: "/music/a.wav".into(), format: "flac".into() };
    let (q, _) = ensure_stems_step(&lib, &mut ix, &id, true, "flac", "", p, StemsEvent::Decoded(Err("bad header".into())));
    match q {
        StemsPhase::Done(Err(e)) => assert_eq!(e.message(), "stems: failed to decode track for stems: bad header"),
        other => panic!("{other:?}"),
    }
}

#[test]
fn stems_steps_generate_then_reuse() {
    let lib = stems_library();
    let mut ix = StemIndex::new();
    let id = TrackId::new("t1");
    let p = StemsPhase::Decoding { path: "/music/a.wav".into(), format: "opus".into() };
    let (p, a) = ensure_stems_step(&lib, &mut ix, &id, true, "opus", "htdemucs/cpu", p, StemsEvent::Decoded(Ok(stereo())));
    match &a {
        StemsAction::Generate { fingerprint, format } => {
            assert_eq!(fingerprint, "v1:/music/a.wav:10:20:44100:2:1000");
            assert_eq!(format, "opus");
        }
        other => panic!("{other:?}"),
    }
    let (w, a2) = ensure_stems_step(&lib, &mut ix, &id, true, "opus", "htdemucs/cpu", p, StemsEvent::StemFilePresent(true));
    assert!(matches!(a2, StemsAction::Wait));
    let info = TrackStemsInfo {
        backend: "htdemucs/cuda".into(),
        source_fingerprint: "v1:/music/a.wav:10:20:44100:2:1000".into(),
        format: "opus".into(),
        sample_rate: 44100,
        path: "/stems/t1.opus".into(),
        generated_at: "2026-01-01T00:00:00Z".into(),
    };
    let (done, a3) = ensure_stems_step(&lib, &mut ix, &id, true, "opus", "htdemucs/cpu", w, StemsEvent::Generated(Ok(info)));
    assert!(matches!(done, StemsPhase::Done(Ok(()))));
    assert!(matches!(a3, StemsAction::Finish));
    assert_eq!(ix.get_track_stems(&id).unwrap().path, "/stems/t1.opus");

    let p = StemsPhase::Decoding { path: "/music/a.wav".into(), format: "opus".into() };
    let (p, a) = ensure_stems_step(&lib, &mut ix, &id, true, "opus", "htdemucs/cpu", p, StemsEvent::Decoded(Ok(stereo())));
    match &a {
        StemsAction::CheckStemFile(path) => assert_eq!(path, "/stems/t1.opus"),
        other => panic!("{other:?}"),
    }
    let (gone, a) = ensure_stems_step(&lib, &mut ix, &id, true, "opus", "htdemucs/cpu", p, StemsEvent::StemFilePresent(false));
    assert!(matches!(gone, StemsPhase::Generating { .. }));
    assert!(matches!(a, StemsAction::Generate { .. }));
    let p = StemsPhase::Checking { fingerprint: "v1:/music/a.wav:10:20:44100:2:1000".into(), format: "opus".into() };
    let (ok, a) = ensure_stems_step(&lib, &mut ix, &id, true, "opus", "htdemucs/cpu", p, StemsEvent::StemFilePresent(true));
    assert!(matches!(ok, StemsPhase::Done(Ok(()))));
    assert!(matches!(a, StemsAction::Finish));
    let p = StemsPhase::Checking { fingerprint: "v1:other".into(), format: "opus".into() };
    let (stale, _) = ensure_stems_step(&lib, &mut ix, &id, true, "opus", "htdemucs/cpu", p, StemsEvent::StemFilePresent(true));
    assert!(matches!(stale, StemsPhase::Generating { .. }));
}

#[test]
fn camelot_codes_ignore_letter_case() {
    assert_eq!(camelot_to_musical(" 8b "), camelot_to_musical("8B"));
    assert_eq!(camelot_to_musical("8b").as_deref(), Some("C"));
    assert_eq!(camelot_to_musical("+12a"), camelot_to_musical("12A"));
    for bad in ["0A", "13B", "8C", "A", ""] {
        assert_eq!(camelot_to_musical(bad), None, "{bad}");
    }
}

#[test]
fn stems_steps_skip_native_stem_files() {
    let mut lib = stems_library();
    lib.upsert_file_track(
        &TrackId::new("t2"),
        "/music/Set.STEM.mp4",
        &mixar_library::records::TrackMetadata::default(),
    )
    .unwrap();
    let mut ix = StemIndex::new();
    let (p, a) = ensure_stems_step(&lib, &mut ix, &TrackId::new("t2"), true, "opus", "", StemsPhase::Start, StemsEvent::Requested);
    assert!(matches!(p, StemsPhase::Done(Ok(()))));
    assert!(matches!(a, StemsAction::Finish));
    assert!(ix.get_track_stems(&TrackId::new("t2")).is_none());
}
