//! Media helpers of audio export: PCM loudness checks and file-type tests
//! by extension.

use vstd::prelude::*;
use crate::text::{str_eq, string_push};

verus! {

/// Level of one sample as the export measures it: its absolute value,
/// computed in `i32` and cast back to `i16`, so the most negative sample
/// keeps its own (negative) value.
pub open spec fn sample_level(s: i16) -> i16 {
    if s == i16::MIN {
        i16::MIN
    } else if s < 0 {
        (-s) as i16
    } else {
        s
    }
}

/// Largest sample level of `pcm`, `0` for no samples.
pub open spec fn spec_pcm_peak(pcm: Seq<i16>) -> i16
    decreases pcm.len(),
{
    if pcm.len() == 0 {
        0
    } else if pcm.len() == 1 {
        sample_level(pcm[0])
    } else {
        let rest = spec_pcm_peak(pcm.drop_last());
        let l = sample_level(pcm.last());
        if rest >= l {
            rest
        } else {
            l
        }
    }
}

/// Sample level at which a decoded track counts as audible.
pub const AUDIBLE_LEVEL: i16 = 500;

fn level(s: i16) -> (r: i16)
    ensures
        r == sample_level(s),
{
    if s == i16::MIN {
        i16::MIN
    } else if s < 0 {
        -s
    } else {
        s
    }
}

/// Largest absolute sample value of a PCM buffer.
pub fn pcm_peak(pcm: &[i16]) -> (r: i16)
    ensures
        r == spec_pcm_peak(pcm@),
{
    let n = pcm.len();
    if n == 0 {
        return 0;
    }
    let mut best = level(pcm[0]);
    let mut i: usize = 1;
    assert(pcm@.take(1).drop_last() =~= Seq::<i16>::empty());
    assert(spec_pcm_peak(pcm@.take(1)) == sample_level(pcm@[0]));
    while i < n
        invariant
            n == pcm@.len(),
            1 <= i <= n,
            best == spec_pcm_peak(pcm@.take(i as int)),
        decreases n - i,
    {
        let l = level(pcm[i]);
        assert(pcm@.take(i + 1).drop_last() =~= pcm@.take(i as int));
        if l > best {
            best = l;
        }
        i = i + 1;
    }
    assert(pcm@.take(n as int) =~= pcm@);
    best
}

/// Whether a decoded track holds anything louder than near silence.
pub fn pcm_has_audible_samples(pcm: &[i16]) -> (r: bool)
    ensures
        r == (spec_pcm_peak(pcm@) >= AUDIBLE_LEVEL),
{
    pcm_peak(pcm) >= AUDIBLE_LEVEL
}

/// Peak of a buffer is at least the level of each of its samples, and it
/// is the level of one of them when there are any.
pub proof fn lemma_pcm_peak_bounds(pcm: Seq<i16>)
    ensures
        forall|i: int| 0 <= i < pcm.len() ==> sample_level(#[trigger] pcm[i]) <= spec_pcm_peak(pcm),
        pcm.len() > 0 ==> exists|i: int| 0 <= i < pcm.len() && sample_level(pcm[i]) == spec_pcm_peak(pcm),
    decreases pcm.len(),
{
    if pcm.len() > 1 {
        let rest = pcm.drop_last();
        lemma_pcm_peak_bounds(rest);
        assert forall|i: int| 0 <= i < pcm.len() implies sample_level(#[trigger] pcm[i]) <= spec_pcm_peak(pcm) by {
            if i < pcm.len() - 1 {
                assert(pcm[i] == rest[i]);
            }
        }
        if spec_pcm_peak(rest) >= sample_level(pcm.last()) {
            let j = choose|j: int| 0 <= j < rest.len() && sample_level(rest[j]) == spec_pcm_peak(rest);
            assert(pcm[j] == rest[j]);
        } else {
            assert(sample_level(pcm[pcm.len() - 1]) == spec_pcm_peak(pcm));
        }
    } else if pcm.len() == 1 {
        assert(sample_level(pcm[0]) == spec_pcm_peak(pcm));
    }
}

/// What `std::path::Path::extension` gives for a path, as text: the part of
/// the file name after its last `.`, when there is one that does not start
/// the name.
pub uninterp spec fn path_extension(path: Seq<char>) -> Option<Seq<char>>;

/// `Path::new(path).extension()`, as an owned string (the extension of a
/// path made from a `&str` is always valid UTF-8). Its result is that of
/// std's `Path::extension` for the same text, which depends on that text
/// alone; the rules by which std splits a path into components and finds
/// the file name are not restated here.
#[verifier::external_body]
fn extension_of(path: &str) -> (r: Option<String>)
    ensures
        match r {
            Some(e) => path_extension(path@) == Some(e@),
            None => path_extension(path@) is None,
        },
{
    match std::path::Path::new(path).extension() {
        Some(e) => match e.to_str() {
            Some(t) => Some(t.to_string()),
            None => None,
        },
        None => None,
    }
}

/// What `std::path::Path::file_stem` gives for a path, as text: the file
/// name without its extension.
pub uninterp spec fn path_file_stem(path: Seq<char>) -> Option<Seq<char>>;

/// `Path::new(path).file_stem()`, as an owned string (the stem of a path
/// made from a `&str` is always valid UTF-8). Its result is that of std's
/// `Path::file_stem` for the same text, which depends on that text alone;
/// std's splitting rules are not restated here.
#[verifier::external_body]
pub(crate) fn file_stem_of(path: &str) -> (r: Option<String>)
    ensures
        match r {
            Some(e) => path_file_stem(path@) == Some(e@),
            None => path_file_stem(path@) is None,
        },
{
    match std::path::Path::new(path).file_stem() {
        Some(e) => match e.to_str() {
            Some(t) => Some(t.to_string()),
            None => None,
        },
        None => None,
    }
}

/// `char::to_ascii_lowercase`.
pub open spec fn ascii_lower_char(c: char) -> char {
    if 'A' <= c && c <= 'Z' {
        ((c as u32) + 32) as char
    } else {
        c
    }
}

/// `str::to_ascii_lowercase`.
pub open spec fn ascii_lower(s: Seq<char>) -> Seq<char> {
    s.map_values(|c: char| ascii_lower_char(c))
}

fn to_ascii_lower(s: &str) -> (r: String)
    ensures
        r@ == ascii_lower(s@),
{
    let n = s.unicode_len();
    let mut r = String::new();
    let mut i: usize = 0;
    while i < n
        invariant
            n == s@.len(),
            i <= n,
            r@ == ascii_lower(s@.take(i as int)),
        decreases n - i,
    {
        let c = s.get_char(i);
        let l = if 'A' <= c && c <= 'Z' {
            ((c as u8) + 32) as char
        } else {
            c
        };
        string_push(&mut r, l);
        assert(ascii_lower(s@.take(i + 1)) =~= ascii_lower(s@.take(i as int)).push(l));
        i = i + 1;
    }
    assert(s@.take(n as int) =~= s@);
    r
}

/// Extensions of video containers whose audio stream is decoded directly.
pub open spec fn is_video_ext(e: Seq<char>) -> bool {
    let l = ascii_lower(e);
    l == "mp4"@ || l == "m4v"@ || l == "mov"@ || l == "mkv"@ || l == "webm"@ || l == "avi"@
}

/// Extensions of audio-only media files.
pub open spec fn is_audio_ext(e: Seq<char>) -> bool {
    let l = ascii_lower(e);
    l == "mp3"@ || l == "wav"@ || l == "aac"@ || l == "m4a"@ || l == "flac"@ || l == "ogg"@
        || l == "opus"@ || l == "wma"@
}

/// The extensions of video containers, in lower case.
pub open spec fn video_extensions() -> Seq<Seq<char>> {
    seq!["mp4"@, "m4v"@, "mov"@, "mkv"@, "webm"@, "avi"@]
}

/// Law: an extension names a video container exactly when, lower-cased,
/// it is one of the video extensions.
pub proof fn lemma_video_extensions(e: Seq<char>)
    ensures
        is_video_ext(e) <==> video_extensions().contains(ascii_lower(e)),
{
    let l = ascii_lower(e);
    let xs = video_extensions();
    if is_video_ext(e) {
        if l == "mp4"@ {
            assert(xs[0] == l);
        }
        if l == "m4v"@ {
            assert(xs[1] == l);
        }
        if l == "mov"@ {
            assert(xs[2] == l);
        }
        if l == "mkv"@ {
            assert(xs[3] == l);
        }
        if l == "webm"@ {
            assert(xs[4] == l);
        }
        if l == "avi"@ {
            assert(xs[5] == l);
        }
    }
    if xs.contains(l) {
        let i = choose|i: int| 0 <= i < xs.len() && xs[i] == l;
        assert(xs[i] == l);
    }
}

/// The extensions of audio-only media files, in lower case.
pub open spec fn audio_extensions() -> Seq<Seq<char>> {
    seq!["mp3"@, "wav"@, "aac"@, "m4a"@, "flac"@, "ogg"@, "opus"@, "wma"@]
}

/// Law: an extension names audio-only media exactly when, lower-cased,
/// it is one of the audio extensions; so every spelling of them in any
/// ASCII case counts, and no other extension does.
pub proof fn lemma_audio_extensions(e: Seq<char>)
    ensures
        is_audio_ext(e) <==> audio_extensions().contains(ascii_lower(e)),
{
    let l = ascii_lower(e);
    let xs = audio_extensions();
    if is_audio_ext(e) {
        if l == "mp3"@ {
            assert(xs[0] == l);
        }
        if l == "wav"@ {
            assert(xs[1] == l);
        }
        if l == "aac"@ {
            assert(xs[2] == l);
        }
        if l == "m4a"@ {
            assert(xs[3] == l);
        }
        if l == "flac"@ {
            assert(xs[4] == l);
        }
        if l == "ogg"@ {
            assert(xs[5] == l);
        }
        if l == "opus"@ {
            assert(xs[6] == l);
        }
        if l == "wma"@ {
            assert(xs[7] == l);
        }
    }
    if xs.contains(l) {
        let i = choose|i: int| 0 <= i < xs.len() && xs[i] == l;
        assert(xs[i] == l);
    }
}

/// Whether an extension (if any) names a video container, ignoring ASCII case.
pub fn video_container_ext(ext: Option<&str>) -> (r: bool)
    ensures
        r == (match ext {
            Some(e) => is_video_ext(e@),
            None => false,
        }),
{
    match ext {
        None => false,
        Some(e) => {
            let l = to_ascii_lower(e);
            let l = l.as_str();
            str_eq(l, "mp4") || str_eq(l, "m4v") || str_eq(l, "mov") || str_eq(l, "mkv") || str_eq(
                l,
                "webm",
            ) || str_eq(l, "avi")
        },
    }
}

/// Whether the path's extension names a video container (mp4, m4v, mov,
/// mkv, webm, avi in any ASCII case).
pub fn is_video_container_ext(path: &str) -> (r: bool)
    ensures
        r == (match path_extension(path@) {
            Some(e) => is_video_ext(e),
            None => false,
        }),
{
    match extension_of(path) {
        Some(e) => video_container_ext(Some(e.as_str())),
        None => video_container_ext(None),
    }
}

/// Whether an extension (missing counts as empty) names audio-only media.
pub fn audio_only_ext(ext: Option<&str>) -> (r: bool)
    ensures
        r == (match ext {
            Some(e) => is_audio_ext(e@),
            None => false,
        }),
{
    match ext {
        None => false,
        Some(e) => {
            let l = to_ascii_lower(e);
            let l = l.as_str();
            str_eq(l, "mp3") || str_eq(l, "wav") || str_eq(l, "aac") || str_eq(l, "m4a") || str_eq(
                l,
                "flac",
            ) || str_eq(l, "ogg") || str_eq(l, "opus") || str_eq(l, "wma")
        },
    }
}

/// Whether a clip's media path is audio-only; an empty path (a clip with no
/// media yet) counts as audio-only.
pub fn path_is_audio_only(path: &str) -> (r: bool)
    ensures
        r == (path@.len() == 0 || match path_extension(path@) {
            Some(e) => is_audio_ext(e),
            None => false,
        }),
{
    if path.unicode_len() == 0 {
        return true;
    }
    match extension_of(path) {
        Some(e) => audio_only_ext(Some(e.as_str())),
        None => audio_only_ext(None),
    }
}

} // verus!
