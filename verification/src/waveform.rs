//! Stored waveform overviews: each track's overview blob, compressed with
//! zstd, and the modes it was made with. Computing the overview from audio,
//! and turning it into bytes, is the caller's part.

use vstd::prelude::*;

use crate::error::{LibraryError, io_error_text};
use crate::keyed::RowIndex;
use crate::text::{dec_int, owned, push_dec_i64, push_str};
use crate::types::TrackId;

verus! {

/// The frame `zstd::stream::copy_encode` writes for `data` at `level`.
pub uninterp spec fn zstd_frame(data: Seq<u8>, level: i32) -> Seq<u8>;

/// What `zstd::stream::copy_decode` reads back from `frame`: its content, or
/// `None` when the bytes are not zstd data.
pub uninterp spec fn zstd_content(frame: Seq<u8>) -> Option<Seq<u8>>;

/// `zstd::stream::copy_encode` of `data` into a fresh buffer. When it
/// succeeds the buffer holds the zstd frame of `data` (named by
/// [`zstd_frame`]), which decompresses to `data`; when it fails is not stated.
#[verifier::external_body]
fn zstd_encode(data: &[u8], level: i32) -> (r: Result<Vec<u8>, std::io::Error>)
    ensures
        r matches Ok(v) ==> v@ == zstd_frame(data@, level) && zstd_content(v@) == Some(data@),
{
    let mut out = Vec::new();
    zstd::stream::copy_encode(data, &mut out, level).map(|_| out)
}

/// `zstd::stream::copy_decode` of `frame` into a fresh buffer. What it gives
/// when it succeeds is the frame's content (named by [`zstd_content`]);
/// when it fails is not stated.
#[verifier::external_body]
fn zstd_decode(frame: &[u8]) -> (r: Result<Vec<u8>, std::io::Error>)
    ensures
        r matches Ok(v) ==> zstd_content(frame@) == Some(v@),
{
    let mut out = Vec::new();
    zstd::stream::copy_decode(frame, &mut out).map(|_| out)
}

/// `r` is a `waveform` backend error (its message is the text of an I/O
/// error, which is not stated; see [`io_error_text`]).
pub open spec fn is_waveform_io_error<T>(r: Result<T, LibraryError>) -> bool {
    r matches Err(LibraryError::Backend { backend, .. }) && backend@ == "waveform"@
}

/// Compress `data` (zstd level 3).
pub fn zstd_compress(data: &[u8]) -> (r: Result<Vec<u8>, LibraryError>)
    ensures
        match r {
            Ok(v) => v@ == zstd_frame(data@, 3) && zstd_content(v@) == Some(data@),
            Err(_) => is_waveform_io_error(r),
        },
{
    match zstd_encode(data, 3) {
        Ok(v) => Ok(v),
        Err(e) => {
            let message = io_error_text(&e);
            Err(LibraryError::Backend { backend: "waveform", message })
        },
    }
}

/// Decompress zstd data.
pub fn zstd_decompress(data: &[u8]) -> (r: Result<Vec<u8>, LibraryError>)
    ensures
        match r {
            Ok(v) => zstd_content(data@) == Some(v@),
            Err(_) => is_waveform_io_error(r),
        },
{
    match zstd_decode(data) {
        Ok(v) => Ok(v),
        Err(e) => {
            let message = io_error_text(&e);
            Err(LibraryError::Backend { backend: "waveform", message })
        },
    }
}

/// Data compressed here decompresses to itself.
pub proof fn law_zstd_round_trip(data: Seq<u8>, frame: Seq<u8>, back: Seq<u8>)
    requires
        zstd_content(frame) == Some(data),
        zstd_content(frame) == Some(back),
    ensures
        back == data,
{
}

/// How overview amplitudes were measured.
#[derive(Clone, Copy, Debug, PartialEq, Eq, Structural)]
pub enum AmplitudeMode {
    Peak,
    Rms,
}

/// Whether the overview keeps both channels.
#[derive(Clone, Copy, Debug, PartialEq, Eq, Structural)]
pub enum ChannelMode {
    Mono,
    Stereo,
}

/// Stored name of an amplitude mode.
pub open spec fn amplitude_wire(m: AmplitudeMode) -> Seq<char> {
    match m {
        AmplitudeMode::Peak => "peak"@,
        AmplitudeMode::Rms => "rms"@,
    }
}

/// Stored name of a channel mode.
pub open spec fn channel_wire(m: ChannelMode) -> Seq<char> {
    match m {
        ChannelMode::Mono => "mono"@,
        ChannelMode::Stereo => "stereo"@,
    }
}

/// The stored name of an amplitude mode.
pub fn amplitude_mode_str(mode: AmplitudeMode) -> (s: &'static str)
    ensures
        s@ == amplitude_wire(mode),
{
    match mode {
        AmplitudeMode::Peak => "peak",
        AmplitudeMode::Rms => "rms",
    }
}

/// The stored name of a channel mode.
pub fn channel_mode_str(mode: ChannelMode) -> (s: &'static str)
    ensures
        s@ == channel_wire(mode),
{
    match mode {
        ChannelMode::Mono => "mono",
        ChannelMode::Stereo => "stereo",
    }
}

/// An amplitude mode from its stored name; anything but `rms` is `Peak`.
pub fn parse_amplitude_mode(value: &str) -> (m: AmplitudeMode)
    ensures
        m == (if value@ == "rms"@ {
            AmplitudeMode::Rms
        } else {
            AmplitudeMode::Peak
        }),
{
    let rms = owned("rms");
    if crate::text::chars_eq(crate::text::chars_of(value).as_slice(), crate::text::chars_of(rms.as_str()).as_slice()) {
        AmplitudeMode::Rms
    } else {
        AmplitudeMode::Peak
    }
}

/// A channel mode from its stored name; anything but `stereo` is `Mono`.
pub fn parse_channel_mode(value: &str) -> (m: ChannelMode)
    ensures
        m == (if value@ == "stereo"@ {
            ChannelMode::Stereo
        } else {
            ChannelMode::Mono
        }),
{
    let stereo = owned("stereo");
    if crate::text::chars_eq(
        crate::text::chars_of(value).as_slice(),
        crate::text::chars_of(stereo.as_str()).as_slice(),
    ) {
        ChannelMode::Stereo
    } else {
        ChannelMode::Mono
    }
}

/// A stored overview row.
#[derive(Debug)]
pub struct WaveformRow {
    pub version: i32,
    pub amplitude_mode: String,
    pub channel_mode: String,
    pub overview_count: i32,
    pub overview_bytes: Vec<u8>,
    pub generated_at: String,
}

/// A stored overview, read back: its bytes as they were before compression,
/// how many points it has and the modes it was made with.
#[derive(Debug)]
pub struct StoredOverview {
    pub raw: Vec<u8>,
    pub overview_count: i32,
    pub amplitude_mode: AmplitudeMode,
    pub channel_mode: ChannelMode,
}

/// The error for a stored blob whose bytes do not make `count` points.
pub fn corrupt_blob_error(track_id: &str, count: i32) -> (e: LibraryError)
    ensures
        e matches LibraryError::Backend { backend, message } && backend@ == "waveform"@ && message@
            == "corrupt waveform blob for track "@ + track_id@ + " (count="@ + dec_int(count as int) + ")"@,
{
    let mut m = owned("corrupt waveform blob for track ");
    push_str(&mut m, track_id);
    push_str(&mut m, " (count=");
    push_dec_i64(&mut m, count as i64);
    push_str(&mut m, ")");
    LibraryError::Backend { backend: "waveform", message: m }
}

/// The overview rows of the library, one per track.
#[derive(Debug)]
pub struct WaveformIndex {
    pub table: RowIndex<WaveformRow>,
}

impl WaveformIndex {
    /// No track has two rows.
    pub open spec fn wf(&self) -> bool {
        self.table.wf()
    }

    /// The row stored for track `t`.
    pub open spec fn overview_of(&self, t: Seq<char>) -> Option<WaveformRow> {
        self.table.row_of(t)
    }

    /// An index with no rows.
    pub fn new() -> (ix: Self)
        ensures
            ix.wf(),
            forall|t: Seq<char>| #![auto] ix.overview_of(t) is None,
    {
        WaveformIndex { table: RowIndex::new() }
    }

    /// Store the overview of track `id`: its `count` points as `raw` bytes
    /// (compressed here), made with these modes under schema `version` at
    /// `generated_at`. A compression failure stores nothing.
    pub fn upsert_track_waveform(
        &mut self,
        id: &TrackId,
        raw: &[u8],
        count: usize,
        amplitude_mode: AmplitudeMode,
        channel_mode: ChannelMode,
        version: i32,
        generated_at: &str,
    ) -> (r: Result<(), LibraryError>)
        requires
            old(self).wf(),
        ensures
            final(self).wf(),
            r is Err ==> is_waveform_io_error(r) && final(self).table.rows@ == old(self).table.rows@,
            r is Ok ==> (final(self).overview_of(id.0@) matches Some(row) && row.version == version
                && row.amplitude_mode@ == amplitude_wire(amplitude_mode) && row.channel_mode@ == channel_wire(
                channel_mode,
            ) && row.overview_count == count as i32 && row.overview_bytes@ == zstd_frame(raw@, 3)
                && row.generated_at@ == generated_at@),
            r is Ok ==> forall|t: Seq<char>| #![auto] t != id.0@ ==> final(self).overview_of(t) == old(self).overview_of(t),
    {
        let compressed = match zstd_compress(raw) {
            Ok(c) => c,
            Err(e) => {
                return Err(e);
            },
        };
        let row = WaveformRow {
            version,
            amplitude_mode: owned(amplitude_mode_str(amplitude_mode)),
            channel_mode: owned(channel_mode_str(channel_mode)),
            overview_count: #[verifier::truncate] (count as i32),
            overview_bytes: compressed,
            generated_at: owned(generated_at),
        };
        self.table.upsert(id.as_str(), row);
        Ok(())
    }

    /// An overview of track `id` is stored under schema `version`.
    pub fn has_track_waveform(&self, id: &TrackId, version: i32) -> (b: bool)
        ensures
            b == (self.overview_of(id.0@) matches Some(row) && row.version == version),
    {
        match self.table.get(id.as_str()) {
            Some(row) => row.version == version,
            None => false,
        }
    }

    /// The overview of track `id` stored under schema `version`, its bytes
    /// decompressed; none when there is none, or it is of another version.
    pub fn get_track_waveform_row(&self, id: &TrackId, version: i32) -> (r: Result<Option<StoredOverview>, LibraryError>)
        ensures
            match self.overview_of(id.0@) {
                Some(row) => if row.version != version {
                    r matches Ok(o) && o is None
                } else {
                    match r {
                        Ok(Some(o)) => zstd_content(row.overview_bytes@) == Some(o.raw@) && o.overview_count
                            == row.overview_count && o.amplitude_mode == (if row.amplitude_mode@ == "rms"@ {
                            AmplitudeMode::Rms
                        } else {
                            AmplitudeMode::Peak
                        }) && o.channel_mode == (if row.channel_mode@ == "stereo"@ {
                            ChannelMode::Stereo
                        } else {
                            ChannelMode::Mono
                        }),
                        Ok(None) => false,
                        Err(_) => is_waveform_io_error(r),
                    }
                },
                None => r matches Ok(o) && o is None,
            },
    {
        let row = match self.table.get(id.as_str()) {
            Some(row) => row,
            None => {
                return Ok(None);
            },
        };
        if row.version != version {
            return Ok(None);
        }
        let raw = match zstd_decompress(row.overview_bytes.as_slice()) {
            Ok(raw) => raw,
            Err(e) => {
                return Err(e);
            },
        };
        Ok(
            Some(
                StoredOverview {
                    raw,
                    overview_count: row.overview_count,
                    amplitude_mode: parse_amplitude_mode(row.amplitude_mode.as_str()),
                    channel_mode: parse_channel_mode(row.channel_mode.as_str()),
                },
            ),
        )
    }
}

} // verus!
