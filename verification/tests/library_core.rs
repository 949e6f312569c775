use mixar_library::audio_extensions::{
    is_loadable_audio_path, is_stem_audio_path, is_supported_audio_extension,
    is_supported_audio_path,
};
use mixar_library::error::path_label;
use mixar_library::key_format::{
    camelot_code_to_musical, camelot_to_musical, format_key, major_key, minor_key,
    musical_to_camelot, KeyDisplayMode,
};

#[test]
fn recognizes_common_extensions() {
    assert!(is_supported_audio_extension("opus"));
    assert!(is_supported_audio_extension("OPUS"));
    assert!(is_supported_audio_extension("mp3"));
    assert!(!is_supported_audio_extension("txt"));
}

#[test]
fn recognizes_paths() {
    assert!(is_supported_audio_path("/music/track.opus"));
    assert!(!is_supported_audio_path("/music/readme.txt"));
}

#[test]
fn recognizes_stem_mp4_paths() {
    assert!(is_stem_audio_path("/music/Track.stem.mp4"));
    assert!(is_stem_audio_path("/music/Track.STEM.MP4"));
    assert!(!is_stem_audio_path("/music/Track.mp4"));
    assert!(is_loadable_audio_path("/music/Track.stem.mp4"));
    assert!(!is_loadable_audio_path("/music/readme.txt"));
}

#[test]
fn path_label_uses_basename_only() {
    let path = "/home/user/Music/secret/track.flac";
    assert_eq!(path_label(path), "track.flac");
}

#[test]
fn path_label_unknown_when_no_file_name() {
    assert_eq!(path_label("/"), "(unknown)");
}

#[test]
fn mixed_in_key_anchors() {
    assert_eq!(musical_to_camelot("C").as_deref(), Some("8B"));
    assert_eq!(musical_to_camelot("Am").as_deref(), Some("8A"));
    assert_eq!(camelot_to_musical("8B").as_deref(), Some("C"));
    assert_eq!(camelot_to_musical("8A").as_deref(), Some("Am"));
    assert_eq!(camelot_to_musical("1A").as_deref(), Some("G#m"));
    assert_eq!(musical_to_camelot("G#m").as_deref(), Some("1A"));
}

#[test]
fn round_trip_all_wheel() {
    let mut keys: Vec<String> = Vec::new();
    for i in 0..12 {
        keys.push(major_key(i).into_iter().collect());
    }
    for i in 0..12 {
        keys.push(minor_key(i).into_iter().collect());
    }
    for key in &keys {
        let camelot = musical_to_camelot(key).unwrap();
        assert_eq!(camelot_to_musical(&camelot).as_deref(), Some(key.as_str()));
    }
}

#[test]
fn format_key_modes() {
    assert_eq!(format_key("C", KeyDisplayMode::Camelot), "8B");
    assert_eq!(format_key("8A", KeyDisplayMode::Musical), "Am");
    assert_eq!(format_key("C", KeyDisplayMode::Musical), "C");
    assert_eq!(format_key("", KeyDisplayMode::Camelot), "");
}

#[test]
fn camelot_code_matches_string_parser() {
    assert_eq!(camelot_code_to_musical(8, false).as_deref(), Some("C"));
    assert_eq!(camelot_code_to_musical(8, true).as_deref(), Some("Am"));
}
