//! Offline stem separations: cache naming, format choice, stored-row matching
//! and user-facing write-failure messages.

use vstd::prelude::*;

use crate::error::{io_error_text, LibraryError};
use crate::paths::{path_join, std_path_join};
use crate::text::{
    chars_contain, chars_eq, chars_of, contains_seq, dec, lower_chars, lower_seq, owned, push_char,
    push_dec, push_str,
};
use crate::error::is_backend_error;
use crate::library::row_convertible;
use crate::keyed::RowIndex;
use crate::manager::LibraryManager;
use crate::source::unknown_provider;
use crate::types::TrackId;
use crate::audio_extensions::{is_stem_audio_path, is_stem_path};

verus! {

/// Whether an I/O error's kind is `ErrorKind::StorageFull`.
pub uninterp spec fn io_error_storage_full(e: &std::io::Error) -> bool;

/// `err.kind() == ErrorKind::StorageFull`; the answer is named by
/// [`io_error_storage_full`] and depends on the error value alone.
#[verifier::external_body]
pub fn io_error_is_storage_full(e: &std::io::Error) -> (b: bool)
    ensures
        b == io_error_storage_full(e),
{
    e.kind() == std::io::ErrorKind::StorageFull
}

/// Message shown when the stem cache could not be written because the disk is full.
pub open spec fn disk_full_message() -> Seq<char> {
    "Stem cache write failed: disk full"@
}

/// Prefix of every stem cache write failure message.
pub open spec fn write_failed_prefix() -> Seq<char> {
    "Stem cache write failed: "@
}

/// The error text means the disk or quota is full.
pub open spec fn mentions_disk_full(raw: Seq<char>) -> bool {
    let lower = lower_seq(raw);
    contains_seq(lower, "no space"@) || contains_seq(lower, "disk quota"@) || contains_seq(
        lower,
        "quota exceeded"@,
    )
}

/// The message for a stem write failure whose error text is `raw`.
pub open spec fn stem_io_message_of(storage_full: bool, raw: Seq<char>) -> Seq<char> {
    if storage_full || mentions_disk_full(raw) {
        disk_full_message()
    } else {
        write_failed_prefix() + raw
    }
}

/// Map a stem write failure, given whether its kind is "storage full" and its
/// text, to a concise user-facing message.
pub fn stem_io_message_for(storage_full: bool, raw: &str) -> (msg: String)
    ensures
        msg@ == stem_io_message_of(storage_full, raw@),
{
    let cs = chars_of(raw);
    let lower = lower_chars(cs.as_slice());
    let no_space = chars_of("no space");
    let disk_quota = chars_of("disk quota");
    let quota_exceeded = chars_of("quota exceeded");
    if storage_full || chars_contain(lower.as_slice(), no_space.as_slice()) || chars_contain(
        lower.as_slice(),
        disk_quota.as_slice(),
    ) || chars_contain(lower.as_slice(), quota_exceeded.as_slice()) {
        return owned("Stem cache write failed: disk full");
    }
    let mut out = owned("Stem cache write failed: ");
    push_str(&mut out, raw);
    out
}

/// Map stem filesystem write failures to a concise user-facing message: the
/// message [`stem_io_message_for`] gives for the error's kind and for the
/// error's text (which is not stated, see [`io_error_text`]).
pub fn stem_io_message(err: &std::io::Error) -> (msg: String)
    ensures
        exists|raw: Seq<char>|
            #![trigger stem_io_message_of(io_error_storage_full(err), raw)]
            msg@ == stem_io_message_of(io_error_storage_full(err), raw),
{
    let raw = io_error_text(err);
    let full = io_error_is_storage_full(err);
    let msg = stem_io_message_for(full, raw.as_str());
    assert(msg@ == stem_io_message_of(io_error_storage_full(err), raw@));
    msg
}

/// Index of the first `/` in `s`, or -1.
pub open spec fn first_slash(s: Seq<char>) -> int
    decreases s.len(),
{
    if s.len() == 0 {
        -1
    } else if s[0] == '/' {
        0
    } else {
        let r = first_slash(s.drop_first());
        if r < 0 {
            -1
        } else {
            r + 1
        }
    }
}

/// Model id from a `{model}/{ep}` tag: the text before the first `/`, or all of it.
pub open spec fn model_id_of(backend: Seq<char>) -> Seq<char> {
    let k = first_slash(backend);
    if k < 0 {
        backend
    } else {
        backend.take(k)
    }
}

proof fn lemma_first_slash(s: Seq<char>, k: int)
    requires
        0 <= k <= s.len(),
        forall|j: int| 0 <= j < k ==> s[j] != '/',
        k == s.len() || s[k] == '/',
    ensures
        first_slash(s) == (if k == s.len() {
            -1
        } else {
            k
        }),
    decreases k,
{
    if k > 0 {
        let d = s.drop_first();
        assert forall|j: int| 0 <= j < k - 1 implies d[j] != '/' by {
            assert(d[j] == s[j + 1]);
        }
        if k < s.len() {
            assert(d[k - 1] == s[k]);
        }
        lemma_first_slash(d, k - 1);
    }
}

/// Model id from a `{model}/{ep}` tag: stems are interchangeable across EPs.
pub fn model_id(backend: &str) -> (m: Vec<char>)
    ensures
        m@ == model_id_of(backend@),
{
    let cs = chars_of(backend);
    let mut k: usize = 0;
    while k < cs.len() && cs[k] != '/'
        invariant
            k <= cs.len(),
            cs@ == backend@,
            forall|j: int| 0 <= j < k ==> cs@[j] != '/',
        decreases cs.len() - k,
    {
        k = k + 1;
    }
    proof {
        lemma_first_slash(cs@, k as int);
    }
    let mut out: Vec<char> = Vec::new();
    let mut i: usize = 0;
    while i < k
        invariant
            i <= k <= cs.len(),
            out@ == cs@.take(i as int),
        decreases k - i,
    {
        out.push(cs[i]);
        assert(cs@.take(i as int).push(cs@[i as int]) =~= cs@.take(i + 1));
        i = i + 1;
    }
    assert(k == cs.len() ==> cs@.take(k as int) =~= cs@);
    out
}

/// FNV-1a 64-bit offset basis.
pub open spec fn fnv_offset() -> u64 {
    0xcbf29ce484222325u64
}

/// FNV-1a 64-bit prime.
pub open spec fn fnv_prime() -> u64 {
    0x100000001b3u64
}

/// FNV-1a 64-bit hash of a byte sequence (xor the byte, then multiply modulo 2^64).
pub open spec fn fnv1a64_of(data: Seq<u8>) -> u64
    decreases data.len(),
{
    if data.len() == 0 {
        fnv_offset()
    } else {
        let h = fnv1a64_of(data.drop_last()) ^ (data.last() as u64);
        ((h as nat * fnv_prime() as nat) % 0x1_0000_0000_0000_0000nat) as u64
    }
}

/// Stable FNV-1a 64-bit (local cache keys; not a crypto hash).
pub fn fnv1a64(data: &[u8]) -> (hash: u64)
    ensures
        hash == fnv1a64_of(data@),
{
    let mut hash: u64 = 0xcbf29ce484222325u64;
    let mut i: usize = 0;
    while i < data.len()
        invariant
            i <= data.len(),
            hash == fnv1a64_of(data@.take(i as int)),
        decreases data.len() - i,
    {
        assert(data@.take(i + 1).drop_last() =~= data@.take(i as int));
        hash = hash ^ (data[i] as u64);
        hash = hash.wrapping_mul(0x100000001b3u64);
        i = i + 1;
    }
    assert(data@.take(data.len() as int) =~= data@);
    hash
}

/// Lowercase hexadecimal digit for `d < 16`.
pub open spec fn hex_digit(d: nat) -> char {
    if d < 10 {
        ((d + 48) as u32) as char
    } else {
        ((d + 87) as u32) as char
    }
}

/// The lowest `n` hexadecimal digits of `v`, most significant first, zero-padded.
pub open spec fn hex_digits(v: nat, n: nat) -> Seq<char>
    decreases n,
{
    if n == 0 {
        seq![]
    } else {
        hex_digits(v / 16, (n - 1) as nat).push(hex_digit(v % 16))
    }
}

/// `hex_digits` has exactly `n` characters.
pub proof fn lemma_hex_digits_len(v: nat, n: nat)
    ensures
        hex_digits(v, n).len() == n,
    decreases n,
{
    if n > 0 {
        lemma_hex_digits_len(v / 16, (n - 1) as nat);
    }
}

fn hex_char(d: u64) -> (c: char)
    requires
        d < 16,
    ensures
        c == hex_digit(d as nat),
{
    if d < 10 {
        ((d as u8 + 48) as char)
    } else {
        ((d as u8 + 87) as char)
    }
}

fn push_hex(out: &mut String, v: u64, n: u64)
    ensures
        final(out)@ == old(out)@ + hex_digits(v as nat, n as nat),
    decreases n,
{
    if n > 0 {
        push_hex(out, v / 16, n - 1);
        push_char(out, hex_char(v % 16));
        assert(old(out)@ + hex_digits((v / 16) as nat, (n - 1) as nat) + seq![hex_digit((v % 16) as nat)]
            =~= old(out)@ + hex_digits(v as nat, n as nat));
    } else {
        assert(old(out)@ + hex_digits(v as nat, 0) =~= old(out)@);
    }
}

/// Cache key of a track: its id's FNV-1a hash as 16 lowercase hex digits (`{:016x}`).
pub open spec fn stem_cache_key_of(track_id: Seq<char>) -> Seq<char> {
    hex_digits(fnv1a64_of(vstd::utf8::encode_utf8(track_id)) as nat, 16)
}

/// Bounded collision-resistant cache file name under `stems_root`.
pub fn stem_cache_key(track_id: &TrackId) -> (key: String)
    ensures
        key@ == stem_cache_key_of(track_id.0@),
        key@.len() == 16,
{
    let bytes = track_id.as_str().as_bytes();
    let h = fnv1a64(bytes);
    let mut out = String::new();
    push_hex(&mut out, h, 16);
    proof {
        lemma_hex_digits_len(h as nat, 16);
        assert(out@ =~= hex_digits(h as nat, 16));
    }
    out
}

/// File name of a track's stem container in the cache.
pub open spec fn stem_cache_file_name(track_id: Seq<char>) -> Seq<char> {
    stem_cache_key_of(track_id) + ".stem.mp4"@
}

/// Path of the stem container for a track under `stems_root`.
pub fn stem_cache_path(stems_root: &str, track_id: &TrackId) -> (p: String)
    ensures
        p@ == std_path_join(stems_root@, stem_cache_file_name(track_id.0@)),
{
    let mut name = stem_cache_key(track_id);
    push_str(&mut name, ".stem.mp4");
    path_join(stems_root, name.as_str())
}

/// The stem container format actually used for a requested one: `flac` and
/// `aac` are kept, anything else becomes `opus`.
pub open spec fn normalized_stems_format(format: Seq<char>) -> Seq<char> {
    if format == "flac"@ {
        "flac"@
    } else if format == "aac"@ {
        "aac"@
    } else {
        "opus"@
    }
}

/// Normalize a requested stem format.
pub fn normalize_stems_format(format: &str) -> (f: &'static str)
    ensures
        f@ == normalized_stems_format(format@),
{
    let cs = chars_of(format);
    let flac = chars_of("flac");
    let aac = chars_of("aac");
    if chars_eq(cs.as_slice(), flac.as_slice()) {
        "flac"
    } else if chars_eq(cs.as_slice(), aac.as_slice()) {
        "aac"
    } else {
        "opus"
    }
}

/// The error for stem encodes in a format that is not implemented.
pub fn aac_not_implemented_error() -> (e: LibraryError)
    ensures
        e matches LibraryError::Backend { backend, message } && backend@ == "stems"@ && message@
            == "AAC stem encode is not implemented yet"@,
{
    LibraryError::Backend { backend: "stems", message: owned("AAC stem encode is not implemented yet") }
}

/// Text that identifies the decoded source of a stem set: the path, the
/// file's modification time (seconds) and size, and the sample rate, channel
/// count and sample count of the decode.
pub open spec fn source_fingerprint_of(
    path: Seq<char>,
    mtime_secs: u64,
    size: u64,
    sample_rate: u32,
    channels: u16,
    samples: u64,
) -> Seq<char> {
    "v1:"@ + path + ":"@ + dec(mtime_secs as nat) + ":"@ + dec(size as nat) + ":"@ + dec(sample_rate as nat)
        + ":"@ + dec(channels as nat) + ":"@ + dec(samples as nat)
}

/// The fingerprint text of a decoded source (see [`source_fingerprint_of`]).
pub fn source_fingerprint(
    path: &str,
    mtime_secs: u64,
    size: u64,
    sample_rate: u32,
    channels: u16,
    samples: u64,
) -> (f: String)
    ensures
        f@ == source_fingerprint_of(path@, mtime_secs, size, sample_rate, channels, samples),
{
    let mut f = owned("v1:");
    push_str(&mut f, path);
    push_str(&mut f, ":");
    push_dec(&mut f, mtime_secs);
    push_str(&mut f, ":");
    push_dec(&mut f, size);
    push_str(&mut f, ":");
    push_dec(&mut f, sample_rate as u64);
    push_str(&mut f, ":");
    push_dec(&mut f, channels as u64);
    push_str(&mut f, ":");
    push_dec(&mut f, samples);
    f
}

/// Stem separation needs interleaved stereo.
pub fn require_stereo(channels: u16) -> (r: Result<(), LibraryError>)
    ensures
        channels == 2 ==> r is Ok,
        channels != 2 ==> is_backend_error(
            r,
            "stems"@,
            "stem separation requires interleaved stereo (got "@ + dec(channels as nat) + " channels)"@,
        ),
{
    if channels == 2 {
        return Ok(());
    }
    let mut m = owned("stem separation requires interleaved stereo (got ");
    push_dec(&mut m, channels as u64);
    push_str(&mut m, " channels)");
    Err(LibraryError::Backend { backend: "stems", message: m })
}

/// What looking up the audio file of track `id` for stems in `format` gives:
/// refused for the AAC format (not implemented), for an unknown track, and for
/// a stream; a track row that cannot be read is a `library` backend error.
pub open spec fn stems_source_outcome(
    lib: LibraryManager,
    id: Seq<char>,
    format: Seq<char>,
    r: Result<String, LibraryError>,
) -> bool {
    &&& normalized_stems_format(format) == "aac"@ ==> is_backend_error(
        r,
        "stems"@,
        "AAC stem encode is not implemented yet"@,
    )
    &&& normalized_stems_format(format) != "aac"@ ==> match lib.track_of(id) {
        None => r matches Err(LibraryError::NotFound(s)) && s@ == id,
        Some(row) => {
            &&& row.source_type@ == "file"@ ==> (r matches Ok(p) && p@ == row.source_ref@)
            &&& row.source_type@ == "stream"@ && !unknown_provider(row) ==> (r matches Err(
                LibraryError::Unsupported(m),
            ) && m@ == "stream tracks have no stems"@)
            &&& !row_convertible(row) ==> (r matches Err(LibraryError::Backend { backend, .. })
                && backend@ == "library"@)
        },
    }
}

/// The audio file stems are made from: refused for the AAC format (not
/// implemented), for an unknown track, and for a stream.
pub fn stems_source_path(lib: &LibraryManager, id: &TrackId, format: &str) -> (r: Result<String, LibraryError>)
    ensures
        stems_source_outcome(*lib, id.0@, format@, r),
{
    let f = normalize_stems_format(format);
    let fc = chars_of(f);
    let aac = chars_of("aac");
    if chars_eq(fc.as_slice(), aac.as_slice()) {
        return Err(aac_not_implemented_error());
    }
    let source = match lib.get_track(id) {
        Ok(Some(s)) => s,
        Ok(None) => {
            return Err(LibraryError::NotFound(owned(id.as_str())));
        },
        Err(e) => {
            return Err(e);
        },
    };
    match source.file() {
        Some(file) => Ok(owned(file.path())),
        None => {
            proof {
                reveal_strlit("stream tracks have no stems");
            }
            Err(LibraryError::Unsupported("stream tracks have no stems"))
        },
    }
}

/// A stored stem row, as the database holds it.
#[derive(Clone, Debug, PartialEq)]
pub struct TrackStemRow {
    pub backend: String,
    pub source_fingerprint: String,
    pub format: String,
    pub sample_rate: i32,
    pub path: String,
    pub generated_at: String,
}

/// Stems stored for a track.
#[derive(Clone, Debug)]
pub struct TrackStemsInfo {
    pub backend: String,
    pub source_fingerprint: String,
    pub format: String,
    pub sample_rate: i32,
    pub path: String,
    pub generated_at: String,
}

impl TrackStemsInfo {
    /// Stem info from a stored row; an empty format means `opus` (rows written
    /// before the format column existed).
    pub fn from_row(row: &TrackStemRow) -> (info: Self)
        ensures
            info.backend@ == row.backend@,
            info.source_fingerprint@ == row.source_fingerprint@,
            info.format@ == (if row.format@.len() == 0 {
                "opus"@
            } else {
                row.format@
            }),
            info.sample_rate == row.sample_rate,
            info.path@ == row.path@,
            info.generated_at@ == row.generated_at@,
    {
        let format = if row.format.as_str().is_empty() {
            owned("opus")
        } else {
            row.format.clone()
        };
        TrackStemsInfo {
            backend: row.backend.clone(),
            source_fingerprint: row.source_fingerprint.clone(),
            format,
            sample_rate: row.sample_rate,
            path: row.path.clone(),
            generated_at: row.generated_at.clone(),
        }
    }

    /// The stored stems can be reused for a decode with this fingerprint,
    /// model and format, given whether the stem file is present on disk.
    pub fn matches_present(&self, file_present: bool, fingerprint: &str, backend: &str, format: &str) -> (b: bool)
        ensures
            b == (file_present && self.source_fingerprint@ == fingerprint@ && model_id_of(
                self.backend@,
            ) == model_id_of(backend@) && self.format@ == format@),
    {
        if !file_present {
            return false;
        }
        let fp = chars_of(self.source_fingerprint.as_str());
        let want_fp = chars_of(fingerprint);
        if !chars_eq(fp.as_slice(), want_fp.as_slice()) {
            return false;
        }
        let m1 = model_id(self.backend.as_str());
        let m2 = model_id(backend);
        if !chars_eq(m1.as_slice(), m2.as_slice()) {
            return false;
        }
        let f1 = chars_of(self.format.as_str());
        let f2 = chars_of(format);
        chars_eq(f1.as_slice(), f2.as_slice())
    }
}

/// `row` holds what `info` says.
pub open spec fn row_holds(row: TrackStemRow, info: TrackStemsInfo) -> bool {
    &&& row.backend@ == info.backend@
    &&& row.source_fingerprint@ == info.source_fingerprint@
    &&& row.format@ == info.format@
    &&& row.sample_rate == info.sample_rate
    &&& row.path@ == info.path@
    &&& row.generated_at@ == info.generated_at@
}

/// `info` is what `TrackStemsInfo::from_row` makes of `row`.
pub open spec fn info_of_row(info: TrackStemsInfo, row: TrackStemRow) -> bool {
    &&& info.backend@ == row.backend@
    &&& info.source_fingerprint@ == row.source_fingerprint@
    &&& info.format@ == (if row.format@.len() == 0 {
        "opus"@
    } else {
        row.format@
    })
    &&& info.sample_rate == row.sample_rate
    &&& info.path@ == row.path@
    &&& info.generated_at@ == row.generated_at@
}

/// The stored stem rows, one per track id.
#[derive(Debug)]
pub struct StemIndex {
    pub table: RowIndex<TrackStemRow>,
}

impl StemIndex {
    /// No track has two rows.
    pub open spec fn wf(&self) -> bool {
        self.table.wf()
    }

    /// The row stored for track `t`.
    pub open spec fn stems_of(&self, t: Seq<char>) -> Option<TrackStemRow> {
        self.table.row_of(t)
    }

    /// An index with no rows.
    pub fn new() -> (ix: Self)
        ensures
            ix.wf(),
            forall|t: Seq<char>| #![auto] ix.stems_of(t) is None,
    {
        StemIndex { table: RowIndex::new() }
    }

    /// The stems stored for track `id`.
    pub fn get_track_stems(&self, id: &TrackId) -> (r: Option<TrackStemsInfo>)
        ensures
            match self.stems_of(id.0@) {
                Some(row) => r matches Some(info) && info_of_row(info, row),
                None => r is None,
            },
    {
        match self.table.get(id.as_str()) {
            Some(row) => Some(TrackStemsInfo::from_row(row)),
            None => None,
        }
    }

    /// Stems are stored for track `id`.
    pub fn has_track_stems(&self, id: &TrackId) -> (b: bool)
        ensures
            b == self.stems_of(id.0@) is Some,
    {
        self.table.get(id.as_str()).is_some()
    }

    /// Store `info` as the stems of track `id`, replacing what was stored.
    pub fn upsert_track_stems(&mut self, id: &TrackId, info: &TrackStemsInfo)
        requires
            old(self).wf(),
        ensures
            final(self).wf(),
            final(self).stems_of(id.0@) matches Some(row) && row_holds(row, *info),
            forall|t: Seq<char>| #![auto] t != id.0@ ==> final(self).stems_of(t) == old(self).stems_of(t),
    {
        let row = TrackStemRow {
            backend: owned(info.backend.as_str()),
            source_fingerprint: owned(info.source_fingerprint.as_str()),
            format: owned(info.format.as_str()),
            sample_rate: info.sample_rate,
            path: owned(info.path.as_str()),
            generated_at: owned(info.generated_at.as_str()),
        };
        self.table.upsert(id.as_str(), row);
    }

    /// Forget the stems of track `id`.
    pub fn delete_track_stems(&mut self, id: &TrackId)
        requires
            old(self).wf(),
        ensures
            final(self).wf(),
            final(self).stems_of(id.0@) is None,
            forall|t: Seq<char>| #![auto] t != id.0@ ==> final(self).stems_of(t) == old(self).stems_of(t),
    {
        self.table.delete(id.as_str());
    }

    /// Forget the stems of every track.
    pub fn clear(&mut self)
        ensures
            final(self).wf(),
            forall|t: Seq<char>| #![auto] final(self).stems_of(t) is None,
    {
        self.table.clear();
    }
}

/// What a decode of a track's audio tells the stems logic.
#[derive(Clone, Copy, Debug)]
pub struct DecodedSource {
    pub sample_rate: u32,
    pub channels: u16,
    pub samples: u64,
    /// Modification time of the source file, in seconds.
    pub mtime_secs: u64,
    /// Size of the source file in bytes.
    pub size: u64,
}

/// Where a request for a track's stems stands.
#[derive(Debug)]
pub enum StemsPhase {
    /// Nothing done yet.
    Start,
    /// Waiting for the decode of the source file at `path`.
    Decoding { path: String, format: String },
    /// Waiting to learn whether the stored stem file is on disk.
    Checking { fingerprint: String, format: String },
    /// Waiting for stems separated from the decoded source.
    Generating { fingerprint: String, format: String },
    /// Finished.
    Done(Result<(), LibraryError>),
}

/// What happened outside since the last step.
#[derive(Debug)]
pub enum StemsEvent {
    /// The request was made.
    Requested,
    /// The source was decoded, or the decoder's message.
    Decoded(core::result::Result<DecodedSource, String>),
    /// Whether the stored stem file exists.
    StemFilePresent(bool),
    /// Stems were separated and written (what to record), or why not.
    Generated(Result<TrackStemsInfo, LibraryError>),
}

/// What the caller does next.
#[derive(Clone, Debug)]
pub enum StemsAction {
    /// Decode the audio file at this path.
    Decode(String),
    /// Find out whether the stem file at this path exists.
    CheckStemFile(String),
    /// Separate stems from the decoded audio, tagged with this fingerprint and format.
    Generate { fingerprint: String, format: String },
    /// The request is finished: its outcome is in the phase.
    Finish,
    /// The event does not answer the phase: nothing to do.
    Wait,
}

/// Stored stems `row` can be reused for a decode with this fingerprint, model
/// and format, given whether its file is present.
pub open spec fn stored_stems_match(
    row: TrackStemRow,
    present: bool,
    fingerprint: Seq<char>,
    backend: Seq<char>,
    format: Seq<char>,
) -> bool {
    &&& present
    &&& row.source_fingerprint@ == fingerprint
    &&& model_id_of(row.backend@) == model_id_of(backend)
    &&& (if row.format@.len() == 0 {
        "opus"@
    } else {
        row.format@
    }) == format
}

/// The step that asks for stems to be separated.
pub open spec fn generating(p: StemsPhase, a: StemsAction, fingerprint: Seq<char>, format: Seq<char>) -> bool {
    &&& p matches StemsPhase::Generating { fingerprint: f, format: m } && f@ == fingerprint && m@ == format
    &&& a matches StemsAction::Generate { fingerprint: f, format: m } && f@ == fingerprint && m@ == format
}

/// One step of making sure track `id` has stems in `format` (made by model
/// `backend`) when `enabled`: from the phase and the event to the next phase
/// and what the caller does. Disabled means done; the source lookup may refuse
/// (see [`stems_source_outcome`]); a source that is itself a native stem file
/// (`*.stem.mp4`) needs nothing more; a failed decode, and audio that is not
/// stereo, are `stems` errors; stored stems that match the decode's
/// fingerprint, model and format, with their file present, mean done;
/// otherwise stems are separated and what comes back is recorded.
pub fn ensure_stems_step(
    lib: &LibraryManager,
    stems: &mut StemIndex,
    id: &TrackId,
    enabled: bool,
    format: &str,
    backend: &str,
    phase: StemsPhase,
    event: StemsEvent,
) -> (r: (StemsPhase, StemsAction))
    requires
        old(stems).wf(),
    ensures
        final(stems).wf(),
        !(phase is Generating && event matches StemsEvent::Generated(Ok(_))) ==> final(stems).stems_of(id.0@)
            == old(stems).stems_of(id.0@),
        forall|t: Seq<char>| #![auto] t != id.0@ ==> final(stems).stems_of(t) == old(stems).stems_of(t),
        match phase {
            StemsPhase::Start => {
                &&& !enabled ==> ((r.0 matches StemsPhase::Done(Ok(_))) && r.1 is Finish)
                &&& enabled ==> exists|src: Result<String, LibraryError>|
                    #![trigger stems_source_outcome(*lib, id.0@, format@, src)]
                    stems_source_outcome(*lib, id.0@, format@, src) && match src {
                        Ok(p) => if is_stem_path(p@) {
                            (r.0 matches StemsPhase::Done(Ok(_))) && r.1 is Finish
                        } else {
                            (r.0 matches StemsPhase::Decoding { path, format: f } && path@ == p@
                                && f@ == normalized_stems_format(format@)) && (r.1 matches StemsAction::Decode(q)
                                && q@ == p@)
                        },
                        Err(e) => r.0 == StemsPhase::Done(Err::<(), LibraryError>(e)) && r.1 is Finish,
                    }
            },
            StemsPhase::Decoding { path, format: f } => match event {
                StemsEvent::Decoded(Err(m)) => (r.0 matches StemsPhase::Done(res) && is_backend_error(
                    res,
                    "stems"@,
                    "failed to decode track for stems: "@ + m@,
                )) && r.1 is Finish,
                StemsEvent::Decoded(Ok(src)) => if src.channels != 2 {
                    (r.0 matches StemsPhase::Done(res) && is_backend_error(
                        res,
                        "stems"@,
                        "stem separation requires interleaved stereo (got "@ + dec(src.channels as nat)
                            + " channels)"@,
                    )) && r.1 is Finish
                } else {
                    let fp = source_fingerprint_of(
                        path@,
                        src.mtime_secs,
                        src.size,
                        src.sample_rate,
                        src.channels,
                        src.samples,
                    );
                    match old(stems).stems_of(id.0@) {
                        None => generating(r.0, r.1, fp, f@),
                        Some(row) => (r.0 matches StemsPhase::Checking { fingerprint: g, format: m }
                            && g@ == fp && m@ == f@) && (r.1 matches StemsAction::CheckStemFile(p)
                            && p@ == row.path@),
                    }
                },
                _ => r.0 == phase && r.1 is Wait,
            },
            StemsPhase::Checking { fingerprint: fp, format: f } => match event {
                StemsEvent::StemFilePresent(present) => match old(stems).stems_of(id.0@) {
                    Some(row) => if stored_stems_match(row, present, fp@, backend@, f@) {
                        (r.0 matches StemsPhase::Done(Ok(_))) && r.1 is Finish
                    } else {
                        generating(r.0, r.1, fp@, f@)
                    },
                    None => generating(r.0, r.1, fp@, f@),
                },
                _ => r.0 == phase && r.1 is Wait,
            },
            StemsPhase::Generating { .. } => match event {
                StemsEvent::Generated(Ok(info)) => {
                    &&& final(stems).stems_of(id.0@) matches Some(row) && row_holds(row, info)
                    &&& r.0 matches StemsPhase::Done(Ok(_))
                    &&& r.1 is Finish
                },
                StemsEvent::Generated(Err(e)) => r.0 == StemsPhase::Done(Err::<(), LibraryError>(e))
                    && r.1 is Finish,
                _ => r.0 == phase && r.1 is Wait,
            },
            StemsPhase::Done(_) => r.0 == phase && r.1 is Finish,
        },
{
    match phase {
        StemsPhase::Start => {
            if !enabled {
                return (StemsPhase::Done(Ok(())), StemsAction::Finish);
            }
            let src = stems_source_path(lib, id, format);
            let f = normalize_stems_format(format);
            match src {
                Ok(p) => {
                    if is_stem_audio_path(p.as_str()) {
                        return (StemsPhase::Done(Ok(())), StemsAction::Finish);
                    }
                    let q = p.clone();
                    (StemsPhase::Decoding { path: p, format: owned(f) }, StemsAction::Decode(q))
                },
                Err(e) => (StemsPhase::Done(Err(e)), StemsAction::Finish),
            }
        },
        StemsPhase::Decoding { path, format: f } => match event {
            StemsEvent::Decoded(Err(m)) => {
                let mut msg = owned("failed to decode track for stems: ");
                push_str(&mut msg, m.as_str());
                (StemsPhase::Done(Err(LibraryError::Backend { backend: "stems", message: msg })), StemsAction::Finish)
            },
            StemsEvent::Decoded(Ok(src)) => {
                if let Err(e) = require_stereo(src.channels) {
                    return (StemsPhase::Done(Err(e)), StemsAction::Finish);
                }
                let fp = source_fingerprint(
                    path.as_str(),
                    src.mtime_secs,
                    src.size,
                    src.sample_rate,
                    src.channels,
                    src.samples,
                );
                match stems.get_track_stems(id) {
                    None => {
                        let fp2 = fp.clone();
                        let f2 = f.clone();
                        (StemsPhase::Generating { fingerprint: fp, format: f }, StemsAction::Generate { fingerprint: fp2, format: f2 })
                    },
                    Some(info) => (StemsPhase::Checking { fingerprint: fp, format: f }, StemsAction::CheckStemFile(info.path)),
                }
            },
            _ => (StemsPhase::Decoding { path, format: f }, StemsAction::Wait),
        },
        StemsPhase::Checking { fingerprint: fp, format: f } => match event {
            StemsEvent::StemFilePresent(present) => {
                let reuse = match stems.get_track_stems(id) {
                    Some(info) => info.matches_present(present, fp.as_str(), backend, f.as_str()),
                    None => false,
                };
                if reuse {
                    (StemsPhase::Done(Ok(())), StemsAction::Finish)
                } else {
                    let fp2 = fp.clone();
                    let f2 = f.clone();
                    (StemsPhase::Generating { fingerprint: fp, format: f }, StemsAction::Generate { fingerprint: fp2, format: f2 })
                }
            },
            _ => (StemsPhase::Checking { fingerprint: fp, format: f }, StemsAction::Wait),
        },
        StemsPhase::Generating { fingerprint: fp, format: f } => match event {
            StemsEvent::Generated(Ok(info)) => {
                stems.upsert_track_stems(id, &info);
                (StemsPhase::Done(Ok(())), StemsAction::Finish)
            },
            StemsEvent::Generated(Err(e)) => (StemsPhase::Done(Err(e)), StemsAction::Finish),
            _ => (StemsPhase::Generating { fingerprint: fp, format: f }, StemsAction::Wait),
        },
        StemsPhase::Done(res) => (StemsPhase::Done(res), StemsAction::Finish),
    }
}

/// The cache key always has 16 characters, and equal ids give equal keys.
pub proof fn law_stem_cache_key_bounded(a: Seq<char>, b: Seq<char>)
    ensures
        stem_cache_key_of(a).len() == 16,
        a == b ==> stem_cache_key_of(a) == stem_cache_key_of(b),
{
    lemma_hex_digits_len(fnv1a64_of(vstd::utf8::encode_utf8(a)) as nat, 16);
}

/// Normalizing a format gives one of the three supported formats, and
/// normalizing again changes nothing.
pub proof fn law_normalize_stems_format(format: Seq<char>)
    ensures
        normalized_stems_format(format) == "flac"@ || normalized_stems_format(format) == "aac"@
            || normalized_stems_format(format) == "opus"@,
        normalized_stems_format(normalized_stems_format(format)) == normalized_stems_format(
            format,
        ),
{
    if normalized_stems_format(format) == "opus"@ {
        reveal_strlit("opus");
        reveal_strlit("flac");
        reveal_strlit("aac");
        assert("opus"@ != "flac"@) by {
            assert("opus"@[0] != "flac"@[0]);
        }
        assert("opus"@ != "aac"@) by {
            assert("opus"@[0] != "aac"@[0]);
        }
    }
}

} // verus!
