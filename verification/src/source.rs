//! Library audio sources: a file on disk or a stream, as the pool holds them.

use vstd::prelude::*;

use crate::error::{LibraryError, is_backend_error};
use crate::manager::TrackRow;
use crate::records::TrackMetadata;
use crate::text::{chars_eq, chars_of, debug_quoted, owned, push_str, str_debug};
use crate::types::{StreamProvider, TrackId, provider_wire};

verus! {

/// Local file on disk.
#[derive(Debug, PartialEq)]
pub struct FileAudioSource {
    /// Library-stable identifier.
    pub id: TrackId,
    /// File-tag and basic audio metadata.
    pub metadata: TrackMetadata,
    pub path: String,
}

impl FileAudioSource {
    /// Filesystem path of the audio file.
    pub fn path(&self) -> (p: &str)
        ensures
            p@ == self.path@,
    {
        self.path.as_str()
    }
}

/// Remote or service-backed audio.
#[derive(Debug, PartialEq)]
pub struct StreamAudioSource {
    /// Library-stable identifier.
    pub id: TrackId,
    /// File-tag and basic audio metadata.
    pub metadata: TrackMetadata,
    pub uri: String,
    /// Optional hint for adapter-specific resolution.
    pub provider: Option<StreamProvider>,
}

impl StreamAudioSource {
    /// Playback or service identifier (URL, `beatport:track:123`, …).
    pub fn uri(&self) -> (u: &str)
        ensures
            u@ == self.uri@,
    {
        self.uri.as_str()
    }
}

/// A track in the library pool — file or stream.
#[derive(Debug, PartialEq)]
pub enum AudioSource {
    /// Local file on disk.
    File(FileAudioSource),
    /// Remote or service-backed audio.
    Stream(StreamAudioSource),
}

impl AudioSource {
    /// Stable identifier within the library.
    pub fn id(&self) -> (id: &TrackId)
        ensures
            *id == match self {
                AudioSource::File(s) => s.id,
                AudioSource::Stream(s) => s.id,
            },
    {
        match self {
            AudioSource::File(s) => &s.id,
            AudioSource::Stream(s) => &s.id,
        }
    }

    /// Associated metadata.
    pub fn metadata(&self) -> (m: &TrackMetadata)
        ensures
            *m == match self {
                AudioSource::File(s) => s.metadata,
                AudioSource::Stream(s) => s.metadata,
            },
    {
        match self {
            AudioSource::File(s) => &s.metadata,
            AudioSource::Stream(s) => &s.metadata,
        }
    }

    /// Borrow when this is a file source.
    pub fn file(&self) -> (f: Option<&FileAudioSource>)
        ensures
            match self {
                AudioSource::File(s) => f == Some(s),
                AudioSource::Stream(_) => f is None,
            },
    {
        match self {
            AudioSource::File(s) => Some(s),
            AudioSource::Stream(_) => None,
        }
    }

    /// Borrow when this is a stream source.
    pub fn stream(&self) -> (st: Option<&StreamAudioSource>)
        ensures
            match self {
                AudioSource::File(_) => st is None,
                AudioSource::Stream(s) => st == Some(s),
            },
    {
        match self {
            AudioSource::File(_) => None,
            AudioSource::Stream(s) => Some(s),
        }
    }

    /// Wire format for storage (`file` / `stream`).
    pub fn source_type(&self) -> (t: &'static str)
        ensures
            t@ == match self {
                AudioSource::File(_) => "file"@,
                AudioSource::Stream(_) => "stream"@,
            },
    {
        match self {
            AudioSource::File(_) => "file",
            AudioSource::Stream(_) => "stream",
        }
    }

    /// Path or URI reference for storage.
    pub fn source_ref(&self) -> (r: String)
        ensures
            r@ == match self {
                AudioSource::File(s) => s.path@,
                AudioSource::Stream(s) => s.uri@,
            },
    {
        match self {
            AudioSource::File(s) => owned(s.path.as_str()),
            AudioSource::Stream(s) => owned(s.uri.as_str()),
        }
    }
}

/// The source a stored track row describes, when its type and provider are
/// known; else the error that names what is wrong.
pub open spec fn row_source_ok(row: TrackRow, s: AudioSource) -> bool {
    &&& row.source_type@ == "file"@ ==> (s matches AudioSource::File(f) && f.id.0 == row.id && f.path
        == row.source_ref && f.metadata == row.metadata)
    &&& row.source_type@ == "stream"@ ==> (s matches AudioSource::Stream(st) && st.id.0 == row.id
        && st.uri == row.source_ref && st.metadata == row.metadata && match row.provider {
        Some(p) => (st.provider matches Some(q) && provider_wire(q) == p@),
        None => st.provider is None,
    })
}

/// A stored provider name that names no known provider.
pub open spec fn unknown_provider(row: TrackRow) -> bool {
    match row.provider {
        Some(p) => forall|q: StreamProvider| provider_wire(q) != p@,
        None => false,
    }
}

/// The message with which a row of unknown type, or a stream of unknown
/// provider, is refused.
pub open spec fn row_refusal(row: TrackRow) -> Seq<char> {
    if row.source_type@ == "stream"@ {
        "unknown stream provider: "@ + str_debug(row.provider.unwrap()@)
    } else {
        "unknown source_type: "@ + row.source_type@
    }
}

/// Turn a stored track row into an [`AudioSource`]. An unknown source type, or
/// a stream whose provider is unknown, is refused.
pub fn track_source(row: TrackRow) -> (r: Result<AudioSource, LibraryError>)
    ensures
        row.source_type@ != "file"@ && row.source_type@ != "stream"@ ==> is_backend_error(
            r,
            "library"@,
            "unknown source_type: "@ + row.source_type@,
        ),
        row.source_type@ == "stream"@ && unknown_provider(row) ==> is_backend_error(
            r,
            "library"@,
            "unknown stream provider: "@ + str_debug(row.provider.unwrap()@),
        ),
        (row.source_type@ == "file"@ || (row.source_type@ == "stream"@ && !unknown_provider(row)))
            ==> (r matches Ok(s) && row_source_ok(row, s)),
{
    let t = chars_of(row.source_type.as_str());
    let file = vec!['f', 'i', 'l', 'e'];
    let stream = vec!['s', 't', 'r', 'e', 'a', 'm'];
    proof {
        reveal_strlit("file");
        reveal_strlit("stream");
        assert(file@ =~= "file"@);
        assert(stream@ =~= "stream"@);
    }
    if chars_eq(t.as_slice(), file.as_slice()) {
        return Ok(
            AudioSource::File(
                FileAudioSource { id: TrackId(row.id), metadata: row.metadata, path: row.source_ref },
            ),
        );
    }
    if chars_eq(t.as_slice(), stream.as_slice()) {
        let provider = match &row.provider {
            Some(p) => match StreamProvider::parse(p.as_str()) {
                Some(q) => Some(q),
                None => {
                    let mut m = owned("unknown stream provider: ");
                    let quoted = debug_quoted(p.as_str());
                    push_str(&mut m, quoted.as_str());
                    return Err(LibraryError::Backend { backend: "library", message: m });
                },
            },
            None => None,
        };
        return Ok(
            AudioSource::Stream(
                StreamAudioSource {
                    id: TrackId(row.id),
                    metadata: row.metadata,
                    uri: row.source_ref,
                    provider,
                },
            ),
        );
    }
    let mut m = owned("unknown source_type: ");
    push_str(&mut m, row.source_type.as_str());
    Err(LibraryError::Backend { backend: "library", message: m })
}

} // verus!
