//! Canonical list of audio file extensions recognized by the library and GUI.

use vstd::prelude::*;

use crate::paths::{extension, extension_of, file_name, file_name_of};
use crate::text::{chars_end_with, chars_eq, chars_of, ends_with, lower_chars, lower_seq};

verus! {

/// Number of supported audio extensions.
pub const SUPPORTED_AUDIO_EXTENSION_COUNT: usize = 11;

/// The supported extensions (without a leading dot), in lower case:
/// mp3, flac, wav, aiff, aif, ogg, m4a, aac, opus, wma, alac.
pub open spec fn supported_exts() -> Seq<Seq<char>> {
    seq![
        seq!['m', 'p', '3'],
        seq!['f', 'l', 'a', 'c'],
        seq!['w', 'a', 'v'],
        seq!['a', 'i', 'f', 'f'],
        seq!['a', 'i', 'f'],
        seq!['o', 'g', 'g'],
        seq!['m', '4', 'a'],
        seq!['a', 'a', 'c'],
        seq!['o', 'p', 'u', 's'],
        seq!['w', 'm', 'a'],
        seq!['a', 'l', 'a', 'c'],
    ]
}

/// `ext` names a supported audio format, ignoring ASCII case.
pub open spec fn is_supported_ext(ext: Seq<char>) -> bool {
    supported_exts().contains(lower_seq(ext))
}

/// `path` has a supported audio extension.
pub open spec fn is_supported_path(path: Seq<char>) -> bool {
    match extension_of(path) {
        Some(ext) => is_supported_ext(ext),
        None => false,
    }
}

/// The suffix of a native stem container file name, in lower case.
pub open spec fn stem_suffix() -> Seq<char> {
    seq!['.', 's', 't', 'e', 'm', '.', 'm', 'p', '4']
}

/// `path` names a native stem container (`*.stem.mp4`, any ASCII case).
pub open spec fn is_stem_path(path: Seq<char>) -> bool {
    match file_name_of(path) {
        Some(name) => ends_with(lower_seq(name), stem_suffix()),
        None => false,
    }
}

/// The `i`-th supported extension.
pub fn supported_audio_extension(i: usize) -> (ext: Vec<char>)
    requires
        i < SUPPORTED_AUDIO_EXTENSION_COUNT,
    ensures
        ext@ == supported_exts()[i as int],
{
    let v = match i {
        0 => vec!['m', 'p', '3'],
        1 => vec!['f', 'l', 'a', 'c'],
        2 => vec!['w', 'a', 'v'],
        3 => vec!['a', 'i', 'f', 'f'],
        4 => vec!['a', 'i', 'f'],
        5 => vec!['o', 'g', 'g'],
        6 => vec!['m', '4', 'a'],
        7 => vec!['a', 'a', 'c'],
        8 => vec!['o', 'p', 'u', 's'],
        9 => vec!['w', 'm', 'a'],
        _ => vec!['a', 'l', 'a', 'c'],
    };
    assert(v@ =~= supported_exts()[i as int]);
    v
}

fn ext_chars_supported(ext: &[char]) -> (b: bool)
    ensures
        b == is_supported_ext(ext@),
{
    let lower = lower_chars(ext);
    let mut i: usize = 0;
    while i < SUPPORTED_AUDIO_EXTENSION_COUNT
        invariant
            i <= SUPPORTED_AUDIO_EXTENSION_COUNT,
            lower@ == lower_seq(ext@),
            forall|j: int| 0 <= j < i ==> supported_exts()[j] != lower@,
        decreases SUPPORTED_AUDIO_EXTENSION_COUNT - i,
    {
        let sup = supported_audio_extension(i);
        if chars_eq(sup.as_slice(), lower.as_slice()) {
            assert(supported_exts()[i as int] == lower@);
            return true;
        }
        i = i + 1;
    }
    assert(supported_exts().len() == SUPPORTED_AUDIO_EXTENSION_COUNT);
    false
}

/// Returns whether `ext` is a supported audio extension (case-insensitive).
pub fn is_supported_audio_extension(ext: &str) -> (b: bool)
    ensures
        b == is_supported_ext(ext@),
{
    let cs = chars_of(ext);
    ext_chars_supported(cs.as_slice())
}

/// Returns whether `path` has a supported audio file extension.
pub fn is_supported_audio_path(path: &str) -> (b: bool)
    ensures
        b == is_supported_path(path@),
{
    let cs = chars_of(path);
    match extension(cs.as_slice()) {
        Some(ext) => ext_chars_supported(ext.as_slice()),
        None => false,
    }
}

/// Native NI Traktor stem container (`*.stem.mp4`), judged by the file name only.
pub fn is_stem_audio_path(path: &str) -> (b: bool)
    ensures
        b == is_stem_path(path@),
{
    let cs = chars_of(path);
    match file_name(cs.as_slice()) {
        Some(name) => {
            let lower = lower_chars(name.as_slice());
            let suffix = vec!['.', 's', 't', 'e', 'm', '.', 'm', 'p', '4'];
            assert(suffix@ =~= stem_suffix());
            chars_end_with(lower.as_slice(), suffix.as_slice())
        },
        None => false,
    }
}

/// Returns whether `path` is a loadable/scannable audio file (including native stems).
pub fn is_loadable_audio_path(path: &str) -> (b: bool)
    ensures
        b == (is_supported_path(path@) || is_stem_path(path@)),
{
    is_supported_audio_path(path) || is_stem_audio_path(path)
}

/// An extension is supported exactly when, in lower case, it is one of mp3,
/// flac, wav, aiff, aif, ogg, m4a, aac, opus, wma or alac; a path is a
/// supported audio file exactly when its extension is.
pub proof fn law_supported_extension_names(ext: Seq<char>, path: Seq<char>)
    ensures
        is_supported_ext(ext) <==> {
            let l = lower_seq(ext);
            ||| l == "mp3"@
            ||| l == "flac"@
            ||| l == "wav"@
            ||| l == "aiff"@
            ||| l == "aif"@
            ||| l == "ogg"@
            ||| l == "m4a"@
            ||| l == "aac"@
            ||| l == "opus"@
            ||| l == "wma"@
            ||| l == "alac"@
        },
        is_supported_path(path) <==> (extension_of(path) matches Some(e) && is_supported_ext(e)),
{
    reveal_strlit("mp3");
    reveal_strlit("flac");
    reveal_strlit("wav");
    reveal_strlit("aiff");
    reveal_strlit("aif");
    reveal_strlit("ogg");
    reveal_strlit("m4a");
    reveal_strlit("aac");
    reveal_strlit("opus");
    reveal_strlit("wma");
    reveal_strlit("alac");
    let l = lower_seq(ext);
    let x = supported_exts();
    assert(x[0] =~= "mp3"@);
    assert(x[1] =~= "flac"@);
    assert(x[2] =~= "wav"@);
    assert(x[3] =~= "aiff"@);
    assert(x[4] =~= "aif"@);
    assert(x[5] =~= "ogg"@);
    assert(x[6] =~= "m4a"@);
    assert(x[7] =~= "aac"@);
    assert(x[8] =~= "opus"@);
    assert(x[9] =~= "wma"@);
    assert(x[10] =~= "alac"@);
    if x.contains(l) {
        let k = choose|k: int| 0 <= k < x.len() && x[k] == l;
        assert(0 <= k < 11);
    }
}

} // verus!
