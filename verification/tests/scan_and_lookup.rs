use mixar_library::error::LibraryError;
use mixar_library::lookup::PathQuery;
use mixar_library::manager::LibraryManager;
use mixar_library::records::TrackMetadata;
use mixar_library::scan::{
    collections_to_sync, import_file, merge_report, root_missing, scan_file, tally_refresh,
    tally_skip, ScannedFile,
};
use mixar_library::tags::{track_metadata_from_file_tags, FileTags};
use mixar_library::types::{CollectionId, LibraryConfig, NewCollection, ScanReport, TrackId};

fn lib() -> LibraryManager {
    LibraryManager::open_in_memory(LibraryConfig::default()).unwrap()
}

fn scanned(path: &str) -> ScannedFile {
    ScannedFile {
        path: path.into(),
        is_file: true,
        tags: Ok(TrackMetadata::default()),
    }
}

#[test]
fn import_file_checks_kind_before_tags() {
    let mut lib = lib();
    let err = import_file(
        &mut lib,
        ScannedFile {
            path: "/m/gone.wav".into(),
            is_file: false,
            tags: Ok(TrackMetadata::default()),
        },
    )
    .unwrap_err();
    assert!(matches!(err, LibraryError::PathNotFound(ref p) if p == "/m/gone.wav"));
    let err = import_file(&mut lib, scanned("/m/notes.txt")).unwrap_err();
    assert!(matches!(err, LibraryError::UnsupportedFile(ref p) if p == "/m/notes.txt"));
    let err = import_file(
        &mut lib,
        ScannedFile {
            path: "/m/bad.mp3".into(),
            is_file: true,
            tags: Err(LibraryError::Unsupported("broken tags")),
        },
    )
    .unwrap_err();
    assert!(matches!(err, LibraryError::Unsupported("broken tags")));
    assert!(lib.get_track(&TrackId::new("/m/bad.mp3")).unwrap().is_none());
    let ok = import_file(&mut lib, scanned("/m/ok.flac")).unwrap();
    assert_eq!(ok.id().as_str(), "/m/ok.flac");
}

#[test]
fn folder_scan_counts_added_updated_skipped_failed() {
    let mut lib = lib();
    let mut report = ScanReport::default();
    scan_file(&mut lib, &mut report, scanned("/m/a.wav")).unwrap();
    scan_file(&mut lib, &mut report, scanned("/m/a.wav")).unwrap();
    scan_file(&mut lib, &mut report, scanned("/m/readme.md")).unwrap();
    scan_file(
        &mut lib,
        &mut report,
        ScannedFile {
            path: "/m/x.wav".into(),
            is_file: false,
            tags: Ok(TrackMetadata::default()),
        },
    )
    .unwrap();
    assert_eq!(report.added, 1);
    assert_eq!(report.updated, 1);
    assert_eq!(report.skipped, 1);
    assert_eq!(report.failed, 1);
    assert_eq!(report.errors, vec!["/m/x.wav: path not found: /m/x.wav".to_string()]);
}

#[test]
fn reports_merge_and_missing_roots_count_as_failures() {
    let mut total = ScanReport::default();
    let mut part = ScanReport::default();
    root_missing(&mut part, "/gone");
    tally_skip(&mut part);
    tally_refresh(&mut part, "/m/p.wav", &Err(LibraryError::UnsupportedFile("/m/p.wav".into())));
    merge_report(&mut total, part);
    assert_eq!(total.failed, 1);
    assert_eq!(total.skipped, 2);
    assert_eq!(total.errors, vec!["root not found: /gone".to_string()]);
}

#[test]
fn sync_needs_a_collection() {
    let mut lib = lib();
    let err = collections_to_sync(&lib, None).unwrap_err();
    assert_eq!(err.message(), "library: no collections to sync");
    let err = collections_to_sync(&lib, Some(&CollectionId::new("nope"))).unwrap_err();
    assert!(matches!(err, LibraryError::NotFound(ref s) if s == "nope"));
    lib.add_collection(&NewCollection::playlist("B", true), true).unwrap();
    lib.add_collection(&NewCollection::playlist("A", false), true).unwrap();
    let all = collections_to_sync(&lib, None).unwrap();
    assert_eq!(all.len(), 2);
    assert_eq!(all[0].name, "A");
}

#[test]
fn lookup_tries_normalized_path_then_raw_and_by_stored_path() {
    let mut lib = lib();
    lib.upsert_file_track(&TrackId::new("id-1"), "/abs/one.wav", &TrackMetadata::default())
        .unwrap();
    let found = lib
        .lookup_file_track_at_path(Some("/abs/one.wav"), "one.wav")
        .unwrap()
        .unwrap();
    assert_eq!(found.id().as_str(), "id-1");
    let found = lib
        .lookup_file_track_at_path(Some("/abs/missing.wav"), "id-1")
        .unwrap()
        .unwrap();
    assert_eq!(found.id().as_str(), "id-1");
    assert!(lib
        .lookup_file_track_at_path(None, "/nowhere.wav")
        .unwrap()
        .is_none());

    let queries = vec![
        PathQuery { request: "one.wav".into(), normalized: Some("/abs/one.wav".into()) },
        PathQuery { request: "one.wav".into(), normalized: Some("/abs/one.wav".into()) },
        PathQuery { request: "two.wav".into(), normalized: None },
    ];
    let hits = lib.lookup_file_tracks_at_paths(&queries).unwrap();
    assert_eq!(hits.len(), 1);
    assert_eq!(hits[0].0, "one.wav");
}

fn tagged(path: &str) -> ScannedFile {
    ScannedFile {
        path: path.into(),
        is_file: true,
        tags: Ok(track_metadata_from_file_tags(path, FileTags::default())),
    }
}

#[test]
fn import_and_get_track_round_trip() {
    let mut lib = lib();
    let track = import_file(&mut lib, tagged("/tmp/dir/track.wav")).unwrap();
    assert_eq!(track.metadata().title.as_deref(), Some("track"));
    let fetched = lib.get_track(track.id()).unwrap().unwrap();
    assert_eq!(fetched.file().unwrap().path(), track.file().unwrap().path());
}

#[test]
fn lookup_file_track_at_path_finds_imported_track() {
    let mut lib = lib();
    let wav = "/tmp/dir/track.wav";
    let track = import_file(&mut lib, tagged(wav)).unwrap();
    let found = lib.lookup_file_track_at_path(Some(wav), wav).unwrap().unwrap();
    assert_eq!(found.id(), track.id());
}
