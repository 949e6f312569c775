use mixar_library::error::LibraryError;
use mixar_library::types::TrackId;
use mixar_library::waveform::{
    amplitude_mode_str, channel_mode_str, corrupt_blob_error, parse_amplitude_mode,
    parse_channel_mode, zstd_compress, zstd_decompress, AmplitudeMode, ChannelMode,
    WaveformIndex,
};

#[test]
fn zstd_round_trip() {
    let data: Vec<u8> = (0..=255).collect();
    let compressed = zstd_compress(&data).unwrap();
    let decoded = zstd_decompress(&compressed).unwrap();
    assert_eq!(data, decoded);
}

#[test]
fn zstd_decompress_rejects_garbage() {
    let err = zstd_decompress(b"not zstd at all").unwrap_err();
    assert!(matches!(err, LibraryError::Backend { backend: "waveform", .. }));
}

#[test]
fn modes_round_trip_through_their_names() {
    assert_eq!(amplitude_mode_str(AmplitudeMode::Rms), "rms");
    assert_eq!(channel_mode_str(ChannelMode::Stereo), "stereo");
    assert_eq!(parse_amplitude_mode("rms"), AmplitudeMode::Rms);
    assert_eq!(parse_amplitude_mode("loud"), AmplitudeMode::Peak);
    assert_eq!(parse_channel_mode("stereo"), ChannelMode::Stereo);
    assert_eq!(parse_channel_mode(""), ChannelMode::Mono);
}

#[test]
fn stored_overview_reads_back_for_its_version_only() {
    let mut ix = WaveformIndex::new();
    let id = TrackId::new("/music/w.wav");
    let raw: Vec<u8> = (0..90).map(|i| (i * 7 % 256) as u8).collect();
    ix.upsert_track_waveform(&id, &raw, 30, AmplitudeMode::Rms, ChannelMode::Stereo, 4, "17")
        .unwrap();
    assert!(ix.has_track_waveform(&id, 4));
    assert!(!ix.has_track_waveform(&id, 5));
    let got = ix.get_track_waveform_row(&id, 4).unwrap().unwrap();
    assert_eq!(got.raw, raw);
    assert_eq!(got.overview_count, 30);
    assert_eq!(got.amplitude_mode, AmplitudeMode::Rms);
    assert_eq!(got.channel_mode, ChannelMode::Stereo);
    assert!(ix.get_track_waveform_row(&id, 5).unwrap().is_none());
    assert!(ix
        .get_track_waveform_row(&TrackId::new("other"), 4)
        .unwrap()
        .is_none());
}

#[test]
fn corrupt_blob_error_names_track_and_count() {
    let e = corrupt_blob_error("t1", -3);
    assert_eq!(e.message(), "waveform: corrupt waveform blob for track t1 (count=-3)");
}
