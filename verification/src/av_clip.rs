//! Media clips on an AV layer's timeline. Times in seconds are kept as the
//! bit patterns of their `f32` values.

use vstd::prelude::*;
use crate::ids::fresh_id;
use crate::media::{is_audio_ext, path_extension, path_is_audio_only};

verus! {

/// Bit pattern of the `f32` 3600.0: the play length of a clip made from a
/// media file (an hour, cut to the media's length when it is probed).
pub const AN_HOUR_BITS: u32 = 0x4561_0000u32;

/// Bit pattern of the `f32` 1.0.
pub const ONE_SECOND_BITS: u32 = 0x3F80_0000u32;

/// A clip of media (video and/or audio) on the AV timeline.
#[derive(Debug, Clone, PartialEq, Eq)]
pub struct AvClip {
    pub id: u128,
    pub name: String,
    pub media_path: String,
    pub video_start_offset_bits: u32,
    pub video_play_length_bits: u32,
    pub video_timeline_start_bits: u32,
    /// Probed length of the media, when known.
    pub media_source_duration_bits: Option<u32>,
    /// Sub-track row inside the AV layer.
    pub track_row: u32,
}

/// The path names an audio-only file (or no file at all).
pub open spec fn audio_only_path(path: Seq<char>) -> bool {
    path.len() == 0 || match path_extension(path) {
        Some(e) => is_audio_ext(e),
        None => false,
    }
}

impl AvClip {
    /// A clip of a media file starting at `timeline_start_bits`: from the
    /// file's start, an hour long, on the first row (fresh identity).
    pub fn new_from_media(name: String, path: String, timeline_start_bits: u32) -> (c: AvClip)
        ensures
            c.name@ == name@,
            c.media_path@ == path@,
            c.video_start_offset_bits == 0,
            c.video_play_length_bits == AN_HOUR_BITS,
            c.video_timeline_start_bits == timeline_start_bits,
            c.media_source_duration_bits is None,
            c.track_row == 0,
    {
        AvClip {
            id: fresh_id(),
            name,
            media_path: path,
            video_start_offset_bits: 0,
            video_play_length_bits: AN_HOUR_BITS,
            video_timeline_start_bits: timeline_start_bits,
            media_source_duration_bits: None,
            track_row: 0,
        }
    }

    /// A one-second clip with no media yet (fresh identity).
    pub fn new_empty(name: String, timeline_start_bits: u32) -> (c: AvClip)
        ensures
            c.name@ == name@,
            c.media_path@.len() == 0,
            c.video_start_offset_bits == 0,
            c.video_play_length_bits == ONE_SECOND_BITS,
            c.video_timeline_start_bits == timeline_start_bits,
            c.media_source_duration_bits is None,
            c.track_row == 0,
    {
        AvClip {
            id: fresh_id(),
            name,
            media_path: String::new(),
            video_start_offset_bits: 0,
            video_play_length_bits: ONE_SECOND_BITS,
            video_timeline_start_bits: timeline_start_bits,
            media_source_duration_bits: None,
            track_row: 0,
        }
    }

    /// The clip that the single-clip fields of an older AV layer describe,
    /// on the first row.
    pub fn from_legacy(
        id: u128,
        name: String,
        media_path: String,
        video_start_offset_bits: u32,
        video_play_length_bits: u32,
        video_timeline_start_bits: u32,
        media_source_duration_bits: Option<u32>,
    ) -> (c: AvClip)
        ensures
            c == (AvClip {
                id,
                name,
                media_path,
                video_start_offset_bits,
                video_play_length_bits,
                video_timeline_start_bits,
                media_source_duration_bits,
                track_row: 0,
            }),
    {
        AvClip {
            id,
            name,
            media_path,
            video_start_offset_bits,
            video_play_length_bits,
            video_timeline_start_bits,
            media_source_duration_bits,
            track_row: 0,
        }
    }

    /// Whether `path` names an audio-only file (or nothing).
    pub fn path_is_audio_only(path: &str) -> (r: bool)
        ensures
            r == audio_only_path(path@),
    {
        path_is_audio_only(path)
    }

    /// Whether the clip's media is audio only.
    pub fn is_audio_only(&self) -> (r: bool)
        ensures
            r == audio_only_path(self.media_path@),
    {
        path_is_audio_only(self.media_path.as_str())
    }
}

} // verus!
