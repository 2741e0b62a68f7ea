//! DAW music clips and their piano-roll notes. Clip times in seconds are
//! kept as the bit patterns of their `f32` values.

use vstd::prelude::*;
use crate::ids::fresh_id;

verus! {

/// Velocity of a note when none is given.
pub const DEFAULT_VELOCITY: u8 = 100;

/// One note of a music clip, in ticks.
#[derive(Debug, Clone, Copy, PartialEq, Eq, Structural)]
pub struct MusicNote {
    pub pitch: u8,
    pub start_tick: u32,
    pub duration_ticks: u32,
    pub velocity: u8,
}

pub fn default_velocity() -> (v: u8)
    ensures
        v == DEFAULT_VELOCITY,
{
    DEFAULT_VELOCITY
}

impl MusicNote {
    /// A note at the default velocity.
    pub fn new(pitch: u8, start_tick: u32, duration_ticks: u32) -> (n: MusicNote)
        ensures
            n == (MusicNote { pitch, start_tick, duration_ticks, velocity: DEFAULT_VELOCITY }),
    {
        MusicNote { pitch, start_tick, duration_ticks, velocity: DEFAULT_VELOCITY }
    }
}


/// A DAW music clip on the AV timeline.
#[derive(Debug, Clone, PartialEq, Eq)]
pub struct MusicClip {
    pub id: u128,
    pub name: String,
    pub timeline_start_sec_bits: u32,
    pub duration_sec_bits: u32,
    /// Sub-track row inside the AV layer.
    pub track_row: u32,
    pub notes: Vec<MusicNote>,
}

impl MusicClip {
    /// A clip with no notes on the first row (fresh identity).
    pub fn new_empty(name: String, timeline_start_sec_bits: u32, duration_sec_bits: u32) -> (c: MusicClip)
        ensures
            c.name@ == name@,
            c.timeline_start_sec_bits == timeline_start_sec_bits,
            c.duration_sec_bits == duration_sec_bits,
            c.track_row == 0,
            c.notes@.len() == 0,
    {
        MusicClip { id: fresh_id(), name, timeline_start_sec_bits, duration_sec_bits, track_row: 0, notes: Vec::new() }
    }
}

} // verus!
