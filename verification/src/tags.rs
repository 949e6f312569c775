//! Tag-side helpers: key notation found in file tags, backend errors.

use vstd::prelude::*;

use crate::error::LibraryError;
use crate::key_format::{camelot_to_musical, camelot_to_musical_of};
use crate::paths::{file_stem, file_stem_of};
use crate::records::TrackMetadata;
use crate::text::{chars_of, string_of, trim, trim_chars};

verus! {

/// A key read from tags, in musical notation: Camelot / Mixed In Key codes
/// (`8A`, `8b`, …) become the musical key, anything else is kept trimmed.
pub open spec fn normalize_key_of(raw: Seq<char>) -> Seq<char> {
    match camelot_to_musical_of(raw) {
        Some(m) => m,
        None => trim(raw),
    }
}

/// Convert Camelot/Open Key codes to musical notation; pass through other values.
pub fn normalize_key_notation(raw: &str) -> (key: String)
    ensures
        key@ == normalize_key_of(raw@),
{
    match camelot_to_musical(raw) {
        Some(m) => m,
        None => {
            let cs = chars_of(raw);
            let t = trim_chars(cs.as_slice());
            string_of(t.as_slice())
        },
    }
}

/// The tags read from an audio file, as the library keeps them: the text and
/// integer fields (the tempo and gain figures are measured values and stay
/// with the app).
#[derive(Debug, PartialEq)]
pub struct FileTags {
    pub title: Option<String>,
    pub artist: Option<String>,
    pub album: Option<String>,
    pub genre: Option<String>,
    pub key: Option<String>,
    pub duration_ms: Option<i32>,
    pub sample_rate: Option<u32>,
    pub channels: Option<u16>,
    pub bitrate_kbps: Option<u32>,
    pub isrc: Option<String>,
}

impl Default for FileTags {
    fn default() -> (t: Self)
        ensures
            t.title is None && t.artist is None && t.album is None && t.genre is None
                && t.key is None && t.duration_ms is None && t.sample_rate is None
                && t.channels is None && t.bitrate_kbps is None && t.isrc is None,
    {
        FileTags {
            title: None,
            artist: None,
            album: None,
            genre: None,
            key: None,
            duration_ms: None,
            sample_rate: None,
            channels: None,
            bitrate_kbps: None,
            isrc: None,
        }
    }
}

/// The view of an optional string.
pub open spec fn opt_text(o: Option<String>) -> Option<Seq<char>> {
    match o {
        Some(s) => Some(s@),
        None => None,
    }
}

/// The title a track gets from its tags: the tagged title, else the stem of
/// the file's name.
pub open spec fn tagged_title(path: Seq<char>, title: Option<Seq<char>>) -> Option<Seq<char>> {
    match title {
        Some(t) => Some(t),
        None => file_stem_of(path),
    }
}

/// Map the tags read from the file at `path` into track metadata: fields are
/// taken over, the key is brought to musical notation, and a missing title
/// falls back to the file's stem.
pub fn track_metadata_from_file_tags(path: &str, tags: FileTags) -> (m: TrackMetadata)
    ensures
        opt_text(m.title) == tagged_title(path@, opt_text(tags.title)),
        m.artist == tags.artist,
        m.album == tags.album,
        m.genre == tags.genre,
        opt_text(m.key) == (match tags.key {
            Some(k) => Some(normalize_key_of(k@)),
            None => None::<Seq<char>>,
        }),
        m.duration_ms == tags.duration_ms,
        m.sample_rate == tags.sample_rate,
        m.channels == tags.channels,
        m.bitrate_kbps == tags.bitrate_kbps,
        m.isrc == tags.isrc,
{
    let key = match &tags.key {
        Some(k) => Some(normalize_key_notation(k.as_str())),
        None => None,
    };
    let title = match tags.title {
        Some(t) => Some(t),
        None => {
            let cs = chars_of(path);
            match file_stem(cs.as_slice()) {
                Some(stem) => Some(string_of(stem.as_slice())),
                None => None,
            }
        },
    };
    TrackMetadata {
        title,
        artist: tags.artist,
        album: tags.album,
        genre: tags.genre,
        key,
        duration_ms: tags.duration_ms,
        sample_rate: tags.sample_rate,
        channels: tags.channels,
        bitrate_kbps: tags.bitrate_kbps,
        isrc: tags.isrc,
    }
}

/// A `library` backend error carrying `message`.
pub fn io_backend(message: String) -> (e: LibraryError)
    ensures
        e matches LibraryError::Backend { backend, message: m } && backend@ == "library"@ && m
            == message,
{
    LibraryError::Backend { backend: "library", message }
}

} // verus!
