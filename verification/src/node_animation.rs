//! The animation of one node: its keyframe tracks, addressed by label, and
//! its formula-driven stack functions.

use vstd::prelude::*;
use indexmap::IndexMap;
use crate::animation::{spec_end_frame, KeyframeTrack, StackAnimChannel, StackAnimationFunction};
use crate::seqs::{first_index, last_index, lemma_first_index, lemma_last_index};
use crate::text::{spec_parse_usize, str_eq, parse_usize_from, char_slice};
use crate::track_map::{label_index, track_entries, tracks_entry_or_default, tracks_get, tracks_new};

verus! {

/// The labels of the fixed tracks, in field order.
pub open spec fn named_index(label: Seq<char>) -> int {
    if label == "pos_x"@ {
        0
    } else if label == "pos_y"@ {
        1
    } else if label == "rotation"@ {
        2
    } else if label == "opacity"@ {
        3
    } else if label == "color_r"@ {
        4
    } else if label == "color_g"@ {
        5
    } else if label == "color_b"@ {
        6
    } else if label == "color_a"@ {
        7
    } else if label == "stroke_width"@ {
        8
    } else if label == "stroke_r"@ {
        9
    } else if label == "stroke_g"@ {
        10
    } else if label == "stroke_b"@ {
        11
    } else if label == "stroke_a"@ {
        12
    } else {
        -1
    }
}

/// Which track a label addresses.
#[derive(Debug, Clone, Copy, PartialEq, Eq, Structural)]
pub enum TrackSlot {
    /// One of the fixed tracks (position, rotation, opacity, colour, stroke).
    Named(usize),
    /// Geometry track `geom_N`.
    Geom(usize),
    /// A graph-parameter track (`param:…`).
    Param,
    /// No track has this label.
    Missing,
}

/// The track slot of a label: a fixed name; `geom_` followed by an index
/// (as `str::parse::<usize>` reads it); any label starting with `param:`;
/// nothing else.
pub open spec fn spec_slot(label: Seq<char>) -> TrackSlot {
    if named_index(label) >= 0 {
        TrackSlot::Named(named_index(label) as usize)
    } else if label.len() >= 5 && label.take(5) == "geom_"@ {
        match spec_parse_usize(label.skip(5)) {
            Some(i) => TrackSlot::Geom(i),
            None => TrackSlot::Missing,
        }
    } else if label.len() >= 6 && label.take(6) == "param:"@ {
        TrackSlot::Param
    } else {
        TrackSlot::Missing
    }
}

/// Track slot of `label`.
pub fn track_slot(label: &str) -> (r: TrackSlot)
    ensures
        r == spec_slot(label@),
{
    proof {
        reveal_strlit("pos_x");
        reveal_strlit("pos_y");
        reveal_strlit("rotation");
        reveal_strlit("opacity");
        reveal_strlit("color_r");
        reveal_strlit("color_g");
        reveal_strlit("color_b");
        reveal_strlit("color_a");
        reveal_strlit("stroke_width");
        reveal_strlit("stroke_r");
        reveal_strlit("stroke_g");
        reveal_strlit("stroke_b");
        reveal_strlit("stroke_a");
        reveal_strlit("geom_");
        reveal_strlit("param:");
    }
    if str_eq(label, "pos_x") {
        return TrackSlot::Named(0);
    } else if str_eq(label, "pos_y") {
        return TrackSlot::Named(1);
    } else if str_eq(label, "rotation") {
        return TrackSlot::Named(2);
    } else if str_eq(label, "opacity") {
        return TrackSlot::Named(3);
    } else if str_eq(label, "color_r") {
        return TrackSlot::Named(4);
    } else if str_eq(label, "color_g") {
        return TrackSlot::Named(5);
    } else if str_eq(label, "color_b") {
        return TrackSlot::Named(6);
    } else if str_eq(label, "color_a") {
        return TrackSlot::Named(7);
    } else if str_eq(label, "stroke_width") {
        return TrackSlot::Named(8);
    } else if str_eq(label, "stroke_r") {
        return TrackSlot::Named(9);
    } else if str_eq(label, "stroke_g") {
        return TrackSlot::Named(10);
    } else if str_eq(label, "stroke_b") {
        return TrackSlot::Named(11);
    } else if str_eq(label, "stroke_a") {
        return TrackSlot::Named(12);
    }
    let n = label.unicode_len();
    if n >= 5 && str_eq(char_slice(label, 0, 5).as_str(), "geom_") {
        assert(label@.take(5) =~= label@.subrange(0, 5));
        return match parse_usize_from(label, 5) {
            Some(i) => TrackSlot::Geom(i),
            None => TrackSlot::Missing,
        };
    }
    if n >= 6 && str_eq(char_slice(label, 0, 6).as_str(), "param:") {
        assert(label@.take(6) =~= label@.subrange(0, 6));
        return TrackSlot::Param;
    }
    proof {
        if label@.len() >= 5 {
            assert(label@.take(5) =~= label@.subrange(0, 5));
        }
        if label@.len() >= 6 {
            assert(label@.take(6) =~= label@.subrange(0, 6));
        }
    }
    TrackSlot::Missing
}

/// The start values that a stack function's formulas see as the variables
/// `x`, `y`, `r`, `g`, `b` and `a`, as `f64` bit patterns.
#[derive(Debug, Clone, Copy, PartialEq, Eq, Structural)]
pub struct ChannelStarts {
    pub x_bits: u64,
    pub y_bits: u64,
    pub r_bits: u64,
    pub g_bits: u64,
    pub b_bits: u64,
    pub a_bits: u64,
}

/// Bit pattern of the `f64` 1.0.
pub const ONE_BITS: u64 = 0x3FF0_0000_0000_0000u64;

/// The channel drives the fixed track number `k`.
pub open spec fn drives(k: usize) -> spec_fn(StackAnimChannel) -> bool {
    |c: StackAnimChannel| spec_slot(c.track@) == TrackSlot::Named(k)
}

/// The channel drives a geometry track whose index has parity `par`: even
/// indices are X-like coordinates, odd ones Y-like.
pub open spec fn drives_geom(par: int) -> spec_fn(StackAnimChannel) -> bool {
    |c: StackAnimChannel| spec_slot(c.track@) matches TrackSlot::Geom(i) && i % 2 == par
}

/// The fixed labels address fixed tracks `0..13` in field order.
proof fn lemma_fixed_slots()
    ensures
        spec_slot("pos_x"@) == TrackSlot::Named(0),
        spec_slot("pos_y"@) == TrackSlot::Named(1),
        spec_slot("rotation"@) == TrackSlot::Named(2),
        spec_slot("opacity"@) == TrackSlot::Named(3),
        spec_slot("color_r"@) == TrackSlot::Named(4),
        spec_slot("color_g"@) == TrackSlot::Named(5),
        spec_slot("color_b"@) == TrackSlot::Named(6),
        spec_slot("color_a"@) == TrackSlot::Named(7),
        spec_slot("stroke_width"@) == TrackSlot::Named(8),
        spec_slot("stroke_r"@) == TrackSlot::Named(9),
        spec_slot("stroke_g"@) == TrackSlot::Named(10),
        spec_slot("stroke_b"@) == TrackSlot::Named(11),
        spec_slot("stroke_a"@) == TrackSlot::Named(12),
{
    assert(named_index("pos_x"@) == 0) by {
        reveal_strlit("pos_x");
    }
    assert(named_index("pos_y"@) == 1) by {
        reveal_strlit("pos_x");
        reveal_strlit("pos_y");
        assert("pos_y"@[4] != "pos_x"@[4]);
    }
    assert(named_index("rotation"@) == 2) by {
        reveal_strlit("pos_x");
        reveal_strlit("pos_y");
        reveal_strlit("rotation");
        assert("rotation"@.len() != "pos_x"@.len());
        assert("rotation"@.len() != "pos_y"@.len());
    }
    assert(named_index("opacity"@) == 3) by {
        reveal_strlit("opacity");
        reveal_strlit("pos_x");
        reveal_strlit("pos_y");
        reveal_strlit("rotation");
        assert("opacity"@.len() != "pos_x"@.len());
        assert("opacity"@.len() != "pos_y"@.len());
        assert("opacity"@.len() != "rotation"@.len());
    }
    assert(named_index("color_r"@) == 4) by {
        reveal_strlit("color_r");
        reveal_strlit("opacity");
        reveal_strlit("pos_x");
        reveal_strlit("pos_y");
        reveal_strlit("rotation");
        assert("color_r"@.len() != "pos_x"@.len());
        assert("color_r"@.len() != "pos_y"@.len());
        assert("color_r"@.len() != "rotation"@.len());
        assert("color_r"@[0] != "opacity"@[0]);
    }
    assert(named_index("color_g"@) == 5) by {
        reveal_strlit("color_g");
        reveal_strlit("color_r");
        reveal_strlit("opacity");
        reveal_strlit("pos_x");
        reveal_strlit("pos_y");
        reveal_strlit("rotation");
        assert("color_g"@.len() != "pos_x"@.len());
        assert("color_g"@.len() != "pos_y"@.len());
        assert("color_g"@.len() != "rotation"@.len());
        assert("color_g"@[0] != "opacity"@[0]);
        assert("color_g"@[6] != "color_r"@[6]);
    }
    assert(named_index("color_b"@) == 6) by {
        reveal_strlit("color_b");
        reveal_strlit("color_g");
        reveal_strlit("color_r");
        reveal_strlit("opacity");
        reveal_strlit("pos_x");
        reveal_strlit("pos_y");
        reveal_strlit("rotation");
        assert("color_b"@.len() != "pos_x"@.len());
        assert("color_b"@.len() != "pos_y"@.len());
        assert("color_b"@.len() != "rotation"@.len());
        assert("color_b"@[0] != "opacity"@[0]);
        assert("color_b"@[6] != "color_r"@[6]);
        assert("color_b"@[6] != "color_g"@[6]);
    }
    assert(named_index("color_a"@) == 7) by {
        reveal_strlit("color_a");
        reveal_strlit("color_b");
        reveal_strlit("color_g");
        reveal_strlit("color_r");
        reveal_strlit("opacity");
        reveal_strlit("pos_x");
        reveal_strlit("pos_y");
        reveal_strlit("rotation");
        assert("color_a"@.len() != "pos_x"@.len());
        assert("color_a"@.len() != "pos_y"@.len());
        assert("color_a"@.len() != "rotation"@.len());
        assert("color_a"@[0] != "opacity"@[0]);
        assert("color_a"@[6] != "color_r"@[6]);
        assert("color_a"@[6] != "color_g"@[6]);
        assert("color_a"@[6] != "color_b"@[6]);
    }
    assert(named_index("stroke_width"@) == 8) by {
        reveal_strlit("color_a");
        reveal_strlit("color_b");
        reveal_strlit("color_g");
        reveal_strlit("color_r");
        reveal_strlit("opacity");
        reveal_strlit("pos_x");
        reveal_strlit("pos_y");
        reveal_strlit("rotation");
        reveal_strlit("stroke_width");
        assert("stroke_width"@.len() != "pos_x"@.len());
        assert("stroke_width"@.len() != "pos_y"@.len());
        assert("stroke_width"@.len() != "rotation"@.len());
        assert("stroke_width"@.len() != "opacity"@.len());
        assert("stroke_width"@.len() != "color_r"@.len());
        assert("stroke_width"@.len() != "color_g"@.len());
        assert("stroke_width"@.len() != "color_b"@.len());
        assert("stroke_width"@.len() != "color_a"@.len());
    }
    assert(named_index("stroke_r"@) == 9) by {
        reveal_strlit("color_a");
        reveal_strlit("color_b");
        reveal_strlit("color_g");
        reveal_strlit("color_r");
        reveal_strlit("opacity");
        reveal_strlit("pos_x");
        reveal_strlit("pos_y");
        reveal_strlit("rotation");
        reveal_strlit("stroke_r");
        reveal_strlit("stroke_width");
        assert("stroke_r"@.len() != "pos_x"@.len());
        assert("stroke_r"@.len() != "pos_y"@.len());
        assert("stroke_r"@[0] != "rotation"@[0]);
        assert("stroke_r"@.len() != "opacity"@.len());
        assert("stroke_r"@.len() != "color_r"@.len());
        assert("stroke_r"@.len() != "color_g"@.len());
        assert("stroke_r"@.len() != "color_b"@.len());
        assert("stroke_r"@.len() != "color_a"@.len());
        assert("stroke_r"@.len() != "stroke_width"@.len());
    }
    assert(named_index("stroke_g"@) == 10) by {
        reveal_strlit("color_a");
        reveal_strlit("color_b");
        reveal_strlit("color_g");
        reveal_strlit("color_r");
        reveal_strlit("opacity");
        reveal_strlit("pos_x");
        reveal_strlit("pos_y");
        reveal_strlit("rotation");
        reveal_strlit("stroke_g");
        reveal_strlit("stroke_r");
        reveal_strlit("stroke_width");
        assert("stroke_g"@.len() != "pos_x"@.len());
        assert("stroke_g"@.len() != "pos_y"@.len());
        assert("stroke_g"@[0] != "rotation"@[0]);
        assert("stroke_g"@.len() != "opacity"@.len());
        assert("stroke_g"@.len() != "color_r"@.len());
        assert("stroke_g"@.len() != "color_g"@.len());
        assert("stroke_g"@.len() != "color_b"@.len());
        assert("stroke_g"@.len() != "color_a"@.len());
        assert("stroke_g"@.len() != "stroke_width"@.len());
        assert("stroke_g"@[7] != "stroke_r"@[7]);
    }
    assert(named_index("stroke_b"@) == 11) by {
        reveal_strlit("color_a");
        reveal_strlit("color_b");
        reveal_strlit("color_g");
        reveal_strlit("color_r");
        reveal_strlit("opacity");
        reveal_strlit("pos_x");
        reveal_strlit("pos_y");
        reveal_strlit("rotation");
        reveal_strlit("stroke_b");
        reveal_strlit("stroke_g");
        reveal_strlit("stroke_r");
        reveal_strlit("stroke_width");
        assert("stroke_b"@.len() != "pos_x"@.len());
        assert("stroke_b"@.len() != "pos_y"@.len());
        assert("stroke_b"@[0] != "rotation"@[0]);
        assert("stroke_b"@.len() != "opacity"@.len());
        assert("stroke_b"@.len() != "color_r"@.len());
        assert("stroke_b"@.len() != "color_g"@.len());
        assert("stroke_b"@.len() != "color_b"@.len());
        assert("stroke_b"@.len() != "color_a"@.len());
        assert("stroke_b"@.len() != "stroke_width"@.len());
        assert("stroke_b"@[7] != "stroke_r"@[7]);
        assert("stroke_b"@[7] != "stroke_g"@[7]);
    }
    assert(named_index("stroke_a"@) == 12) by {
        reveal_strlit("color_a");
        reveal_strlit("color_b");
        reveal_strlit("color_g");
        reveal_strlit("color_r");
        reveal_strlit("opacity");
        reveal_strlit("pos_x");
        reveal_strlit("pos_y");
        reveal_strlit("rotation");
        reveal_strlit("stroke_a");
        reveal_strlit("stroke_b");
        reveal_strlit("stroke_g");
        reveal_strlit("stroke_r");
        reveal_strlit("stroke_width");
        assert("stroke_a"@.len() != "pos_x"@.len());
        assert("stroke_a"@.len() != "pos_y"@.len());
        assert("stroke_a"@[0] != "rotation"@[0]);
        assert("stroke_a"@.len() != "opacity"@.len());
        assert("stroke_a"@.len() != "color_r"@.len());
        assert("stroke_a"@.len() != "color_g"@.len());
        assert("stroke_a"@.len() != "color_b"@.len());
        assert("stroke_a"@.len() != "color_a"@.len());
        assert("stroke_a"@.len() != "stroke_width"@.len());
        assert("stroke_a"@[7] != "stroke_r"@[7]);
        assert("stroke_a"@[7] != "stroke_g"@[7]);
        assert("stroke_a"@[7] != "stroke_b"@[7]);
    }
}

/// Law: each fixed label addresses the field of the same name, both when
/// the track is read and when it is written through its reference (only
/// that field changes).
pub proof fn lemma_fixed_labels_address_fields(a: NodeAnimation, t0: KeyframeTrack, t1: KeyframeTrack, b: NodeAnimation)
    ensures
        track_at(a, "pos_x"@) == Some(a.pos_x),
        track_at(a, "pos_y"@) == Some(a.pos_y),
        track_at(a, "rotation"@) == Some(a.rotation),
        track_at(a, "opacity"@) == Some(a.opacity),
        track_at(a, "color_r"@) == Some(a.color_r),
        track_at(a, "color_g"@) == Some(a.color_g),
        track_at(a, "color_b"@) == Some(a.color_b),
        track_at(a, "color_a"@) == Some(a.color_a),
        track_at(a, "stroke_width"@) == Some(a.stroke_width),
        track_at(a, "stroke_r"@) == Some(a.stroke_r),
        track_at(a, "stroke_g"@) == Some(a.stroke_g),
        track_at(a, "stroke_b"@) == Some(a.stroke_b),
        track_at(a, "stroke_a"@) == Some(a.stroke_a),
        write_through(a, "pos_x"@, t0, t1, b) ==> t0 == a.pos_x && b == (NodeAnimation { pos_x: t1, ..a }),
        write_through(a, "pos_y"@, t0, t1, b) ==> t0 == a.pos_y && b == (NodeAnimation { pos_y: t1, ..a }),
        write_through(a, "rotation"@, t0, t1, b) ==> t0 == a.rotation && b == (NodeAnimation { rotation: t1, ..a }),
        write_through(a, "opacity"@, t0, t1, b) ==> t0 == a.opacity && b == (NodeAnimation { opacity: t1, ..a }),
        write_through(a, "color_r"@, t0, t1, b) ==> t0 == a.color_r && b == (NodeAnimation { color_r: t1, ..a }),
        write_through(a, "color_g"@, t0, t1, b) ==> t0 == a.color_g && b == (NodeAnimation { color_g: t1, ..a }),
        write_through(a, "color_b"@, t0, t1, b) ==> t0 == a.color_b && b == (NodeAnimation { color_b: t1, ..a }),
        write_through(a, "color_a"@, t0, t1, b) ==> t0 == a.color_a && b == (NodeAnimation { color_a: t1, ..a }),
        write_through(a, "stroke_width"@, t0, t1, b) ==> t0 == a.stroke_width && b == (NodeAnimation { stroke_width: t1, ..a }),
        write_through(a, "stroke_r"@, t0, t1, b) ==> t0 == a.stroke_r && b == (NodeAnimation { stroke_r: t1, ..a }),
        write_through(a, "stroke_g"@, t0, t1, b) ==> t0 == a.stroke_g && b == (NodeAnimation { stroke_g: t1, ..a }),
        write_through(a, "stroke_b"@, t0, t1, b) ==> t0 == a.stroke_b && b == (NodeAnimation { stroke_b: t1, ..a }),
        write_through(a, "stroke_a"@, t0, t1, b) ==> t0 == a.stroke_a && b == (NodeAnimation { stroke_a: t1, ..a }),
{
    lemma_fixed_slots();
}

/// The channel is on track `label`.
pub open spec fn on_track(label: Seq<char>) -> spec_fn(StackAnimChannel) -> bool {
    |c: StackAnimChannel| c.track@ == label
}

/// The start value of the last channel on track `label`, else `d`.
pub open spec fn last_start_on(s: Seq<StackAnimChannel>, label: Seq<char>, d: u64) -> u64 {
    let n = last_index(s, on_track(label));
    if n >= 0 {
        s[n].start_value_bits
    } else {
        d
    }
}

/// Law: the colour variables `r`, `g`, `b` and `a` of a stack function
/// start from the last channel on `color_r`, `color_g`, `color_b` and
/// `color_a` respectively (0.0, and 1.0 for `a`, when there is none); `x`
/// and `y` start from the last channel on `pos_x` and `pos_y` when there is
/// one.
pub proof fn lemma_formula_starts_follow_tracks(s: Seq<StackAnimChannel>)
    ensures
        spec_channel_starts(s).r_bits == last_start_on(s, "color_r"@, 0),
        spec_channel_starts(s).g_bits == last_start_on(s, "color_g"@, 0),
        spec_channel_starts(s).b_bits == last_start_on(s, "color_b"@, 0),
        spec_channel_starts(s).a_bits == last_start_on(s, "color_a"@, ONE_BITS),
        last_index(s, on_track("pos_x"@)) >= 0 ==> spec_channel_starts(s).x_bits == last_start_on(s, "pos_x"@, 0),
        last_index(s, on_track("pos_y"@)) >= 0 ==> spec_channel_starts(s).y_bits == last_start_on(s, "pos_y"@, 0),
{
    lemma_fixed_slots();
    assert(drives(4) =~= on_track("color_r"@));
    assert(drives(5) =~= on_track("color_g"@));
    assert(drives(6) =~= on_track("color_b"@));
    assert(drives(7) =~= on_track("color_a"@));
    assert(drives(0) =~= on_track("pos_x"@));
    assert(drives(1) =~= on_track("pos_y"@));
}

/// Start value for one coordinate: the last channel on its fixed track,
/// else the first channel on a geometry track of its kind, else nothing.
pub open spec fn coord_start(s: Seq<StackAnimChannel>, k: usize, par: int) -> Option<u64> {
    let n = last_index(s, drives(k));
    let g = first_index(s, drives_geom(par));
    if n >= 0 {
        Some(s[n].start_value_bits)
    } else if g >= 0 {
        Some(s[g].start_value_bits)
    } else {
        None
    }
}

/// Start value of the last channel on fixed track `k`, else `default`.
pub open spec fn named_start(s: Seq<StackAnimChannel>, k: usize, default: u64) -> u64 {
    let n = last_index(s, drives(k));
    if n >= 0 {
        s[n].start_value_bits
    } else {
        default
    }
}

/// `x`: from `pos_x` or an X-like geometry channel, else the first
/// channel, else 0.0.
pub open spec fn spec_start_x(s: Seq<StackAnimChannel>) -> u64 {
    match coord_start(s, 0, 0) {
        Some(v) => v,
        None => if s.len() > 0 {
            s[0].start_value_bits
        } else {
            0
        },
    }
}

/// `y`: from `pos_y` or a Y-like geometry channel, else the second
/// channel, else (with a single channel) the value of `x`, else 0.0.
pub open spec fn spec_start_y(s: Seq<StackAnimChannel>) -> u64 {
    match coord_start(s, 1, 1) {
        Some(v) => v,
        None => if s.len() >= 2 {
            s[1].start_value_bits
        } else if s.len() == 1 {
            spec_start_x(s)
        } else {
            0
        },
    }
}

/// The formula variables of a stack function with channels `s`.
pub open spec fn spec_channel_starts(s: Seq<StackAnimChannel>) -> ChannelStarts {
    ChannelStarts {
        x_bits: spec_start_x(s),
        y_bits: spec_start_y(s),
        r_bits: named_start(s, 4, 0),
        g_bits: named_start(s, 5, 0),
        b_bits: named_start(s, 6, 0),
        a_bits: named_start(s, 7, ONE_BITS),
    }
}

proof fn lemma_index_step(s: Seq<StackAnimChannel>, i: int, p: spec_fn(StackAnimChannel) -> bool)
    requires
        0 <= i < s.len(),
    ensures
        last_index(s.take(i + 1), p) == (if p(s[i]) { i } else { last_index(s.take(i), p) }),
        first_index(s.take(i + 1), p) == (if first_index(s.take(i), p) >= 0 {
            first_index(s.take(i), p)
        } else if p(s[i]) {
            i
        } else {
            -1
        }),
{
    assert(s.take(i + 1).drop_last() =~= s.take(i));
    assert(s.take(i + 1).last() == s[i]);
}

/// One more channel: a channel on fixed track `k` sets the value.
proof fn lemma_named_step(s: Seq<StackAnimChannel>, i: int, k: usize, d: u64)
    requires
        0 <= i < s.len(),
    ensures
        named_start(s.take(i + 1), k, d) == (if drives(k)(s[i]) {
            s[i].start_value_bits
        } else {
            named_start(s.take(i), k, d)
        }),
{
    lemma_index_step(s, i, drives(k));
    lemma_last_index(s.take(i), drives(k));
    assert(s.take(i + 1)[i] == s[i]);
    if last_index(s.take(i), drives(k)) >= 0 {
        assert(s.take(i + 1)[last_index(s.take(i), drives(k))] == s.take(i)[last_index(s.take(i), drives(k))]);
    }
}

/// One more channel: a channel on fixed track `k` sets the coordinate; a
/// geometry channel of its kind sets it when nothing has yet.
proof fn lemma_coord_step(s: Seq<StackAnimChannel>, i: int, k: usize, par: int)
    requires
        0 <= i < s.len(),
    ensures
        coord_start(s.take(i + 1), k, par) == (if drives(k)(s[i]) {
            Some(s[i].start_value_bits)
        } else if coord_start(s.take(i), k, par) is None && drives_geom(par)(s[i]) {
            Some(s[i].start_value_bits)
        } else {
            coord_start(s.take(i), k, par)
        }),
{
    lemma_index_step(s, i, drives(k));
    lemma_index_step(s, i, drives_geom(par));
    lemma_last_index(s.take(i), drives(k));
    lemma_first_index(s.take(i), drives_geom(par));
    assert(s.take(i + 1)[i] == s[i]);
    if last_index(s.take(i), drives(k)) >= 0 {
        assert(s.take(i + 1)[last_index(s.take(i), drives(k))] == s.take(i)[last_index(s.take(i), drives(k))]);
    }
    if first_index(s.take(i), drives_geom(par)) >= 0 {
        assert(s.take(i + 1)[first_index(s.take(i), drives_geom(par))] == s.take(i)[first_index(
            s.take(i),
            drives_geom(par),
        )]);
    }
}

impl StackAnimationFunction {
    /// The values the formula variables `x`, `y`, `r`, `g`, `b`, `a` start
    /// from: position and colour channels by their track, geometry channels
    /// by the parity of their index, and the first two channels as `x` and
    /// `y` when nothing else names them.
    pub fn channel_starts(&self) -> (st: ChannelStarts)
        ensures
            st == spec_channel_starts(self.channels@),
    {
        let ghost s = self.channels@;
        let n = self.channels.len();
        let mut x: u64 = 0;
        let mut y: u64 = 0;
        let mut cr: u64 = 0;
        let mut cg: u64 = 0;
        let mut cb: u64 = 0;
        let mut ca: u64 = ONE_BITS;
        let mut have_x = false;
        let mut have_y = false;
        let mut i: usize = 0;
        assert(s.take(0) =~= Seq::<StackAnimChannel>::empty());
        while i < n
            invariant
                n == s.len(),
                s == self.channels@,
                i <= n,
                (if have_x { Some(x) } else { None }) == coord_start(s.take(i as int), 0, 0),
                (if have_y { Some(y) } else { None }) == coord_start(s.take(i as int), 1, 1),
                !have_x ==> x == 0,
                !have_y ==> y == 0,
                cr == named_start(s.take(i as int), 4, 0),
                cg == named_start(s.take(i as int), 5, 0),
                cb == named_start(s.take(i as int), 6, 0),
                ca == named_start(s.take(i as int), 7, ONE_BITS),
            decreases n - i,
        {
            let ch = &self.channels[i];
            let v = ch.start_value_bits;
            proof {
                lemma_coord_step(s, i as int, 0, 0);
                lemma_coord_step(s, i as int, 1, 1);
                lemma_named_step(s, i as int, 4, 0);
                lemma_named_step(s, i as int, 5, 0);
                lemma_named_step(s, i as int, 6, 0);
                lemma_named_step(s, i as int, 7, ONE_BITS);
            }
            match track_slot(ch.track.as_str()) {
                TrackSlot::Named(k) => {
                    if k == 0 {
                        x = v;
                        have_x = true;
                    } else if k == 1 {
                        y = v;
                        have_y = true;
                    } else if k == 4 {
                        cr = v;
                    } else if k == 5 {
                        cg = v;
                    } else if k == 6 {
                        cb = v;
                    } else if k == 7 {
                        ca = v;
                    }
                },
                TrackSlot::Geom(idx) => {
                    let m = idx % 6;
                    let is_x = m == 0 || m == 2 || m == 4;
                    let is_y = m == 1 || m == 3 || m == 5;
                    assert(is_x == (idx % 2 == 0) && is_y == (idx % 2 == 1));
                    if is_x && !have_x {
                        x = v;
                        have_x = true;
                    } else if is_y && !have_y {
                        y = v;
                        have_y = true;
                    }
                },
                _ => {},
            }
            i = i + 1;
        }
        assert(s.take(n as int) =~= s);
        if !have_x {
            if n > 0 {
                x = self.channels[0].start_value_bits;
                have_x = true;
            }
        }
        if !have_y {
            if n > 1 {
                y = self.channels[1].start_value_bits;
            } else if have_x && n == 1 {
                y = x;
            }
        }
        ChannelStarts { x_bits: x, y_bits: y, r_bits: cr, g_bits: cg, b_bits: cb, a_bits: ca }
    }
}

/// The animation of one node. Fixed tracks by name, geometry tracks by
/// index, graph-parameter tracks by label; stack functions override the
/// keyframes inside their spans. (The base fill and stroke paints that the
/// editor keeps beside these are floating-point data and stay outside.)
#[derive(Debug)]
pub struct NodeAnimation {
    pub pos_x: KeyframeTrack,
    pub pos_y: KeyframeTrack,
    pub rotation: KeyframeTrack,
    pub opacity: KeyframeTrack,
    pub color_r: KeyframeTrack,
    pub color_g: KeyframeTrack,
    pub color_b: KeyframeTrack,
    pub color_a: KeyframeTrack,
    pub stroke_width: KeyframeTrack,
    pub stroke_r: KeyframeTrack,
    pub stroke_g: KeyframeTrack,
    pub stroke_b: KeyframeTrack,
    pub stroke_a: KeyframeTrack,
    pub geom_tracks: Vec<KeyframeTrack>,
    /// Graph-parameter tracks (`param:{uuid}` / `param:{uuid}:N`).
    pub param_tracks: IndexMap<String, KeyframeTrack>,
    pub stack_functions: Vec<StackAnimationFunction>,
}

/// Fixed track number `k` of `a`.
pub open spec fn named_track(a: NodeAnimation, k: int) -> KeyframeTrack {
    if k == 0 {
        a.pos_x
    } else if k == 1 {
        a.pos_y
    } else if k == 2 {
        a.rotation
    } else if k == 3 {
        a.opacity
    } else if k == 4 {
        a.color_r
    } else if k == 5 {
        a.color_g
    } else if k == 6 {
        a.color_b
    } else if k == 7 {
        a.color_a
    } else if k == 8 {
        a.stroke_width
    } else if k == 9 {
        a.stroke_r
    } else if k == 10 {
        a.stroke_g
    } else if k == 11 {
        a.stroke_b
    } else {
        a.stroke_a
    }
}

/// `a` with fixed track number `k` replaced by `t`.
pub open spec fn with_named(a: NodeAnimation, k: int, t: KeyframeTrack) -> NodeAnimation {
    if k == 0 {
        NodeAnimation { pos_x: t, ..a }
    } else if k == 1 {
        NodeAnimation { pos_y: t, ..a }
    } else if k == 2 {
        NodeAnimation { rotation: t, ..a }
    } else if k == 3 {
        NodeAnimation { opacity: t, ..a }
    } else if k == 4 {
        NodeAnimation { color_r: t, ..a }
    } else if k == 5 {
        NodeAnimation { color_g: t, ..a }
    } else if k == 6 {
        NodeAnimation { color_b: t, ..a }
    } else if k == 7 {
        NodeAnimation { color_a: t, ..a }
    } else if k == 8 {
        NodeAnimation { stroke_width: t, ..a }
    } else if k == 9 {
        NodeAnimation { stroke_r: t, ..a }
    } else if k == 10 {
        NodeAnimation { stroke_g: t, ..a }
    } else if k == 11 {
        NodeAnimation { stroke_b: t, ..a }
    } else {
        NodeAnimation { stroke_a: t, ..a }
    }
}

/// The track `label` addresses in `a`, if it exists.
pub open spec fn track_at(a: NodeAnimation, label: Seq<char>) -> Option<KeyframeTrack> {
    match spec_slot(label) {
        TrackSlot::Named(k) => Some(named_track(a, k as int)),
        TrackSlot::Geom(i) => if i < a.geom_tracks@.len() {
            Some(a.geom_tracks@[i as int])
        } else {
            None
        },
        TrackSlot::Param => if label_index(track_entries(a.param_tracks), label) >= 0 {
            Some(track_entries(a.param_tracks)[label_index(track_entries(a.param_tracks), label)].1)
        } else {
            None
        },
        TrackSlot::Missing => None,
    }
}

/// `b` is `a` with only the geometry tracks changed.
pub open spec fn same_but_geom(a: NodeAnimation, b: NodeAnimation) -> bool {
    b == NodeAnimation { geom_tracks: b.geom_tracks, ..a }
}

/// `b` is `a` with only the parameter tracks changed.
pub open spec fn same_but_params(a: NodeAnimation, b: NodeAnimation) -> bool {
    b == NodeAnimation { param_tracks: b.param_tracks, ..a }
}

/// The geometry tracks `g` after room is made for track `i` (new tracks are
/// empty) and track `i` is then set to `t`.
pub open spec fn geom_grown(old: Seq<KeyframeTrack>, i: int, new: Seq<KeyframeTrack>, t: KeyframeTrack) -> bool {
    &&& new.len() == (if i < old.len() { old.len() as int } else { i + 1 })
    &&& forall|j: int| 0 <= j < old.len() && j != i ==> #[trigger] new[j] == old[j]
    &&& forall|j: int| old.len() <= j < new.len() && j != i ==> (#[trigger] new[j]).keyframes@.len() == 0
    &&& new[i] == t
}

/// What writing through the track reference for `label` does: `t` is the
/// track the label addresses (an empty one when it is created), `t1` what
/// it holds at the end, and `b` the animation then.
pub open spec fn write_through(a: NodeAnimation, label: Seq<char>, t: KeyframeTrack, t1: KeyframeTrack, b: NodeAnimation) -> bool {
    match spec_slot(label) {
        TrackSlot::Named(k) => t == named_track(a, k as int) && b == with_named(a, k as int, t1),
        TrackSlot::Geom(i) => same_but_geom(a, b)
            && (i < a.geom_tracks@.len() ==> t == a.geom_tracks@[i as int])
            && (i >= a.geom_tracks@.len() ==> t.keyframes@.len() == 0)
            && geom_grown(a.geom_tracks@, i as int, b.geom_tracks@, t1),
        TrackSlot::Param => same_but_params(a, b) && ({
            let s = track_entries(a.param_tracks);
            let j = label_index(s, label);
            if j >= 0 {
                &&& t == s[j].1
                &&& track_entries(b.param_tracks) == s.update(j, (s[j].0, t1))
            } else {
                &&& t.keyframes@.len() == 0
                &&& track_entries(b.param_tracks).len() == s.len() + 1
                &&& track_entries(b.param_tracks).take(s.len() as int) == s
                &&& track_entries(b.param_tracks).last().0@ == label
                &&& track_entries(b.param_tracks).last().1 == t1
            }
        }),
        TrackSlot::Missing => false,
    }
}

impl Default for NodeAnimation {
    /// An animation with no keyframes and no stack functions.
    fn default() -> (a: NodeAnimation)
        ensures
            forall|k: int| 0 <= k <= 12 ==> (#[trigger] named_track(a, k)).keyframes@.len() == 0,
            a.geom_tracks@.len() == 0,
            track_entries(a.param_tracks).len() == 0,
            a.stack_functions@.len() == 0,
    {
        NodeAnimation {
            pos_x: KeyframeTrack::default(),
            pos_y: KeyframeTrack::default(),
            rotation: KeyframeTrack::default(),
            opacity: KeyframeTrack::default(),
            color_r: KeyframeTrack::default(),
            color_g: KeyframeTrack::default(),
            color_b: KeyframeTrack::default(),
            color_a: KeyframeTrack::default(),
            stroke_width: KeyframeTrack::default(),
            stroke_r: KeyframeTrack::default(),
            stroke_g: KeyframeTrack::default(),
            stroke_b: KeyframeTrack::default(),
            stroke_a: KeyframeTrack::default(),
            geom_tracks: Vec::new(),
            param_tracks: tracks_new(),
            stack_functions: Vec::new(),
        }
    }
}

impl NodeAnimation {
    /// The track `label` addresses, if it exists (reading never creates one).
    pub fn get_track(&self, label: &str) -> (r: Option<&KeyframeTrack>)
        ensures
            match track_at(*self, label@) {
                Some(t) => r matches Some(x) && *x == t,
                None => r is None,
            },
    {
        match track_slot(label) {
            TrackSlot::Named(k) => {
                if k == 0 {
                    Some(&self.pos_x)
                } else if k == 1 {
                    Some(&self.pos_y)
                } else if k == 2 {
                    Some(&self.rotation)
                } else if k == 3 {
                    Some(&self.opacity)
                } else if k == 4 {
                    Some(&self.color_r)
                } else if k == 5 {
                    Some(&self.color_g)
                } else if k == 6 {
                    Some(&self.color_b)
                } else if k == 7 {
                    Some(&self.color_a)
                } else if k == 8 {
                    Some(&self.stroke_width)
                } else if k == 9 {
                    Some(&self.stroke_r)
                } else if k == 10 {
                    Some(&self.stroke_g)
                } else if k == 11 {
                    Some(&self.stroke_b)
                } else {
                    Some(&self.stroke_a)
                }
            },
            TrackSlot::Geom(i) => {
                if i < self.geom_tracks.len() {
                    Some(&self.geom_tracks[i])
                } else {
                    None
                }
            },
            TrackSlot::Param => tracks_get(&self.param_tracks, label),
            TrackSlot::Missing => None,
        }
    }

    /// The track `label` addresses, for writing: a geometry track is
    /// created (with empty tracks before it) and a parameter track is added
    /// when missing; other unknown labels give nothing.
    pub fn get_track_mut(&mut self, label: &str) -> (r: Option<&mut KeyframeTrack>)
        requires
            spec_slot(label@) matches TrackSlot::Geom(i) ==> i < usize::MAX,
        ensures
            spec_slot(label@) is Missing <==> r is None,
            spec_slot(label@) is Missing ==> *final(self) == *old(self),
            r matches Some(t) ==> write_through(*old(self), label@, *t, *final(t), *final(self)),
    {
        match track_slot(label) {
            TrackSlot::Named(k) => {
                if k == 0 {
                    Some(&mut self.pos_x)
                } else if k == 1 {
                    Some(&mut self.pos_y)
                } else if k == 2 {
                    Some(&mut self.rotation)
                } else if k == 3 {
                    Some(&mut self.opacity)
                } else if k == 4 {
                    Some(&mut self.color_r)
                } else if k == 5 {
                    Some(&mut self.color_g)
                } else if k == 6 {
                    Some(&mut self.color_b)
                } else if k == 7 {
                    Some(&mut self.color_a)
                } else if k == 8 {
                    Some(&mut self.stroke_width)
                } else if k == 9 {
                    Some(&mut self.stroke_r)
                } else if k == 10 {
                    Some(&mut self.stroke_g)
                } else if k == 11 {
                    Some(&mut self.stroke_b)
                } else {
                    Some(&mut self.stroke_a)
                }
            },
            TrackSlot::Geom(i) => {
                let ghost g0 = self.geom_tracks@;
                while self.geom_tracks.len() <= i
                    invariant
                        i < usize::MAX,
                        g0 == old(self).geom_tracks@,
                        *self == (NodeAnimation { geom_tracks: self.geom_tracks, ..*old(self) }),
                        self.geom_tracks@.len() >= g0.len(),
                        self.geom_tracks@.len() <= (if i < g0.len() { g0.len() as int } else { i + 1 }),
                        self.geom_tracks@.take(g0.len() as int) == g0,
                        forall|j: int| g0.len() <= j < self.geom_tracks@.len() ==> (#[trigger] self.geom_tracks@[j]).keyframes@.len() == 0,
                    decreases i + 1 - self.geom_tracks@.len(),
                {
                    let ghost before = self.geom_tracks@;
                    self.geom_tracks.push(KeyframeTrack::default());
                    proof {
                        assert(self.geom_tracks@.take(g0.len() as int) =~= before.take(g0.len() as int));
                    }
                }
                proof {
                    assert forall|j: int| 0 <= j < g0.len() implies #[trigger] self.geom_tracks@[j] == g0[j] by {
                        assert(self.geom_tracks@.take(g0.len() as int)[j] == g0[j]);
                    }
                }
                Some(&mut self.geom_tracks[i])
            },
            TrackSlot::Param => Some(tracks_entry_or_default(&mut self.param_tracks, label)),
            TrackSlot::Missing => None,
        }
    }
}

/// Keeps the stack functions other than `id`.
pub open spec fn other_stack(id: u128) -> spec_fn(StackAnimationFunction) -> bool {
    |f: StackAnimationFunction| f.id != id
}

impl NodeAnimation {
    /// Makes sure the track `label` addresses exists: a geometry track is
    /// created (with empty tracks before it) and a parameter track is added
    /// when missing.
    pub fn ensure_track(&mut self, label: &str)
        requires
            spec_slot(label@) matches TrackSlot::Geom(i) ==> i < usize::MAX,
        ensures
            match spec_slot(label@) {
                TrackSlot::Geom(i) => same_but_geom(*old(self), *final(self)) && geom_grown(
                    old(self).geom_tracks@,
                    i as int,
                    final(self).geom_tracks@,
                    final(self).geom_tracks@[i as int],
                ) && (i < old(self).geom_tracks@.len() ==> final(self).geom_tracks@[i as int] == old(
                    self,
                ).geom_tracks@[i as int]) && (i >= old(self).geom_tracks@.len()
                    ==> final(self).geom_tracks@[i as int].keyframes@.len() == 0),
                TrackSlot::Param => same_but_params(*old(self), *final(self)) && ({
                    let s = track_entries(old(self).param_tracks);
                    if label_index(s, label@) >= 0 {
                        track_entries(final(self).param_tracks) == s
                    } else {
                        &&& track_entries(final(self).param_tracks).len() == s.len() + 1
                        &&& track_entries(final(self).param_tracks).take(s.len() as int) == s
                        &&& track_entries(final(self).param_tracks).last().0@ == label@
                        &&& track_entries(final(self).param_tracks).last().1.keyframes@.len() == 0
                    }
                }),
                _ => *final(self) == *old(self),
            },
    {
        let r = self.get_track_mut(label);
        proof {
            match spec_slot(label@) {
                TrackSlot::Param => {
                    let s = track_entries(old(self).param_tracks);
                    let j = label_index(s, label@);
                    crate::seqs::lemma_first_index(s, crate::track_map::label_pred(label@));
                    if j >= 0 {
                        assert(s.update(j, (s[j].0, s[j].1)) =~= s);
                    }
                },
                _ => {},
            }
        }
    }

    /// Removes the stack function `id`; `true` when there was one.
    pub fn remove_stack_function(&mut self, id: u128) -> (removed: bool)
        ensures
            final(self).stack_functions@ == old(self).stack_functions@.filter(other_stack(id)),
            removed == (final(self).stack_functions@.len() != old(self).stack_functions@.len()),
            *final(self) == (NodeAnimation { stack_functions: final(self).stack_functions, ..*old(self) }),
    {
        let ghost p = other_stack(id);
        let before = self.stack_functions.len();
        let mut kept: Vec<StackAnimationFunction> = Vec::new();
        let mut old_fns: Vec<StackAnimationFunction> = Vec::new();
        std::mem::swap(&mut old_fns, &mut self.stack_functions);
        let ghost orig = old_fns@;
        assert(orig.take(0).filter(p) =~= Seq::<StackAnimationFunction>::empty()) by {
            reveal(Seq::filter);
        }
        let ghost mut i: int = 0;
        while old_fns.len() > 0
            invariant
                orig == old(self).stack_functions@,
                0 <= i <= orig.len(),
                old_fns@ == orig.skip(i),
                p == other_stack(id),
                kept@ == orig.take(i).filter(p),
                *self == (NodeAnimation { stack_functions: self.stack_functions, ..*old(self) }),
            decreases old_fns@.len(),
        {
            proof {
                crate::seqs::lemma_filter_take_step(orig, p, i);
            }
            let f = old_fns.remove(0);
            assert(f == orig[i]);
            if f.id != id {
                kept.push(f);
            }
            proof {
                assert(old_fns@ =~= orig.skip(i + 1));
                i = i + 1;
            }
        }
        assert(orig.take(i) =~= orig);
        self.stack_functions = kept;
        self.stack_functions.len() != before
    }
}

/// Some keyframe of `s` is at frame `f`.
pub open spec fn keyed(s: Seq<crate::animation::Keyframe>, f: usize) -> bool {
    exists|k: int| 0 <= k < s.len() && s[k].frame == f
}

/// `t` has a keyframe at frame `f`.
pub open spec fn has_frame(t: KeyframeTrack, f: usize) -> bool {
    keyed(t.keyframes@, f)
}

/// Every frame keyed in `t0` is keyed in `t1`.
pub open spec fn frames_grow(t0: KeyframeTrack, t1: KeyframeTrack) -> bool {
    forall|f: usize| #[trigger] has_frame(t0, f) ==> has_frame(t1, f)
}

/// Every track of `a` is still there in `b`, with at least its keyed frames.
pub open spec fn keeps_frames(a: NodeAnimation, b: NodeAnimation) -> bool {
    forall|l: Seq<char>|
        #[trigger] track_at(a, l) is Some ==> track_at(b, l) is Some && frames_grow(
            track_at(a, l).unwrap(),
            track_at(b, l).unwrap(),
        )
}

/// The track `label` addresses exists and is keyed at frame `f` (a label
/// that addresses nothing is left alone).
pub open spec fn anchored(a: NodeAnimation, label: Seq<char>, f: usize) -> bool {
    spec_slot(label) is Missing || (track_at(a, label) is Some && has_frame(track_at(a, label).unwrap(), f))
}

proof fn lemma_same_labels_same_index(s1: Seq<(String, KeyframeTrack)>, s2: Seq<(String, KeyframeTrack)>, l: Seq<char>)
    requires
        s1.len() == s2.len(),
        forall|i: int| 0 <= i < s1.len() ==> (#[trigger] s1[i]).0@ == s2[i].0@,
    ensures
        label_index(s1, l) == label_index(s2, l),
{
    let p = crate::track_map::label_pred(l);
    crate::seqs::lemma_first_index(s1, p);
    crate::seqs::lemma_first_index(s2, p);
    let a = label_index(s1, l);
    let b = label_index(s2, l);
    if a >= 0 {
        assert(s2[a].0@ == s1[a].0@);
        assert forall|j: int| 0 <= j < a implies !p(#[trigger] s2[j]) by {
            assert(s1[j].0@ == s2[j].0@);
            assert(!p(s1[j]));
        }
        crate::seqs::lemma_first_index_is(s2, p, a);
    } else {
        if b >= 0 {
            assert(s1[b].0@ == s2[b].0@);
            assert(p(s1[b]));
        }
    }
}

proof fn lemma_prefix_index(s: Seq<(String, KeyframeTrack)>, s2: Seq<(String, KeyframeTrack)>, l: Seq<char>)
    requires
        s2.len() >= s.len(),
        s2.take(s.len() as int) == s,
        label_index(s, l) >= 0,
    ensures
        label_index(s2, l) == label_index(s, l),
{
    let p = crate::track_map::label_pred(l);
    crate::seqs::lemma_first_index(s, p);
    let k = label_index(s, l);
    assert(s2[k] == s2.take(s.len() as int)[k]);
    assert forall|j: int| 0 <= j < k implies !p(#[trigger] s2[j]) by {
        assert(s2[j] == s2.take(s.len() as int)[j]);
    }
    crate::seqs::lemma_first_index_is(s2, p, k);
}

proof fn lemma_appended_index(s: Seq<(String, KeyframeTrack)>, s2: Seq<(String, KeyframeTrack)>, l: Seq<char>)
    requires
        s2.len() == s.len() + 1,
        s2.take(s.len() as int) == s,
        s2.last().0@ == l,
        label_index(s, l) < 0,
    ensures
        label_index(s2, l) == s.len(),
{
    let p = crate::track_map::label_pred(l);
    crate::seqs::lemma_first_index(s, p);
    assert forall|j: int| 0 <= j < s.len() implies !p(#[trigger] s2[j]) by {
        assert(s2[j] == s2.take(s.len() as int)[j]);
        assert(!p(s[j]));
    }
    assert(s2[s.len() as int] == s2.last());
    crate::seqs::lemma_first_index_is(s2, p, s.len() as int);
}

/// After a write through the reference for `m`, label `m` reads the
/// written track.
proof fn lemma_write_reads(a: NodeAnimation, m: Seq<char>, t0: KeyframeTrack, t1: KeyframeTrack, b: NodeAnimation)
    requires
        write_through(a, m, t0, t1, b),
    ensures
        track_at(b, m) == Some(t1),
{
    match spec_slot(m) {
        TrackSlot::Param => {
            let s = track_entries(a.param_tracks);
            let s2 = track_entries(b.param_tracks);
            let j = label_index(s, m);
            crate::seqs::lemma_first_index(s, crate::track_map::label_pred(m));
            if j >= 0 {
                lemma_same_labels_same_index(s, s2, m);
            } else {
                lemma_appended_index(s, s2, m);
                assert(s2[s.len() as int] == s2.last());
            }
        },
        _ => {},
    }
}

/// A write through the reference for `m` that only adds keyed frames keeps
/// every track of the animation, with its keyed frames.
proof fn lemma_write_keeps(
    a: NodeAnimation,
    m: Seq<char>,
    t0: KeyframeTrack,
    t1: KeyframeTrack,
    b: NodeAnimation,
    l: Seq<char>,
)
    requires
        write_through(a, m, t0, t1, b),
        frames_grow(t0, t1),
        track_at(a, l) is Some,
    ensures
        track_at(b, l) is Some,
        frames_grow(track_at(a, l).unwrap(), track_at(b, l).unwrap()),
{
    let x = track_at(a, l).unwrap();
    assert(frames_grow(x, x));
    match spec_slot(l) {
        TrackSlot::Named(k) => {},
        TrackSlot::Geom(i) => {},
        TrackSlot::Param => {
            let s = track_entries(a.param_tracks);
            let k = label_index(s, l);
            crate::seqs::lemma_first_index(s, crate::track_map::label_pred(l));
            match spec_slot(m) {
                TrackSlot::Param => {
                    let s2 = track_entries(b.param_tracks);
                    let j = label_index(s, m);
                    crate::seqs::lemma_first_index(s, crate::track_map::label_pred(m));
                    if j >= 0 {
                        lemma_same_labels_same_index(s, s2, l);
                    } else {
                        lemma_prefix_index(s, s2, l);
                        assert(s2[k] == s2.take(s.len() as int)[k]);
                    }
                },
                _ => {},
            }
        },
        TrackSlot::Missing => {},
    }
}

fn has_key_at(t: &KeyframeTrack, f: usize) -> (r: bool)
    ensures
        r == has_frame(*t, f),
{
    let mut k: usize = 0;
    while k < t.keyframes.len()
        invariant
            k <= t.keyframes@.len(),
            forall|x: int| 0 <= x < k ==> t.keyframes@[x].frame != f,
        decreases t.keyframes@.len() - k,
    {
        if t.keyframes[k].frame == f {
            return true;
        }
        k = k + 1;
    }
    false
}

proof fn lemma_insert_grows(t: Seq<crate::animation::Keyframe>, f: usize, v: u64)
    ensures
        forall|g: usize| #[trigger] keyed(t, g) ==> keyed(crate::animation::spec_insert(t, f, v), g),
        keyed(crate::animation::spec_insert(t, f, v), f),
{
    broadcast use vstd::seq_lib::group_to_multiset_ensures;
    let r = crate::animation::spec_insert(t, f, v);
    let p = crate::animation::at_frame(f);
    crate::animation::lemma_insert_sets_value(t, f, v);
    crate::seqs::lemma_first_index(r, p);
    crate::seqs::lemma_first_index(t, p);
    assert(r[crate::seqs::first_index(r, p)].frame == f);
    assert forall|g: usize| #[trigger] keyed(t, g) implies keyed(r, g) by {
        let k = choose|k: int| 0 <= k < t.len() && t[k].frame == g;
        if crate::seqs::first_index(t, p) >= 0 {
            assert(r[k].frame == t[k].frame);
        } else {
            let q = t.push(crate::animation::new_keyframe(f, v));
            crate::animation::lemma_sort_by_frame(q);
            assert(q[k] == t[k]);
            assert(q.contains(t[k]));
            assert(r.to_multiset().count(t[k]) == q.to_multiset().count(t[k]));
            assert(r.contains(t[k]));
            let k2 = choose|k2: int| 0 <= k2 < r.len() && r[k2] == t[k];
            assert(r[k2].frame == g);
        }
    }
}

/// One start-keyframe job per channel, stack by stack: the channel's
/// label, its stack's start frame and the channel's start value.
pub open spec fn start_jobs(fns: Seq<StackAnimationFunction>) -> Seq<(Seq<char>, usize, u64)>
    decreases fns.len(),
{
    if fns.len() == 0 {
        Seq::empty()
    } else {
        start_jobs(fns.drop_last()) + channel_jobs(fns.last())
    }
}

/// The start-keyframe jobs of the channels of `f`.
pub open spec fn channel_jobs(f: StackAnimationFunction) -> Seq<(Seq<char>, usize, u64)> {
    f.channels@.map_values(|c: StackAnimChannel| (c.track@, f.start_frame, c.start_value_bits))
}

/// Step `q` of `ensure_stack_start_keyframes`: the track that job `q`
/// labels gets a keyframe at the job's frame with its value, unless it is
/// keyed there already (a label addressing nothing changes nothing).
pub open spec fn start_key_step(jobs: Seq<(Seq<char>, usize, u64)>) -> spec_fn(NodeAnimation, int, NodeAnimation) -> bool {
    |m: NodeAnimation, q: int, b: NodeAnimation|
        if spec_slot(jobs[q].0) is Missing {
            b == m
        } else {
            exists|t: KeyframeTrack, t1: KeyframeTrack|
                #[trigger] write_through(m, jobs[q].0, t, t1, b) && t1.keyframes@ == (if has_frame(t, jobs[q].1) {
                    t.keyframes@
                } else {
                    crate::animation::spec_insert(t.keyframes@, jobs[q].1, jobs[q].2)
                })
        }
}

/// `b` is `a` after its start-keyframe jobs ran in order.
pub open spec fn start_keys_run(a: NodeAnimation, b: NodeAnimation) -> bool {
    exists|trace: Seq<NodeAnimation>|
        #![trigger is_run(trace, start_key_step(start_jobs(a.stack_functions@)))]
        trace.len() == start_jobs(a.stack_functions@).len() + 1 && trace[0] == a && trace.last() == b
            && is_run(trace, start_key_step(start_jobs(a.stack_functions@)))
}

/// The jobs of the first `k` stacks come first among all the jobs.
proof fn lemma_jobs_prefix(s: Seq<StackAnimationFunction>, k: int)
    requires
        0 <= k <= s.len(),
    ensures
        start_jobs(s.take(k)).len() <= start_jobs(s).len(),
        forall|x: int| 0 <= x < start_jobs(s.take(k)).len() ==> #[trigger] start_jobs(s)[x] == start_jobs(s.take(k))[x],
    decreases s.len(),
{
    if k == s.len() {
        assert(s.take(k) =~= s);
    } else {
        lemma_jobs_prefix(s.drop_last(), k);
        assert(s.drop_last().take(k) =~= s.take(k));
    }
}

/// Job `j` of stack `i` comes right after the jobs of the stacks before it.
proof fn lemma_job_at(s: Seq<StackAnimationFunction>, i: int, j: int)
    requires
        0 <= i < s.len(),
        0 <= j < s[i].channels@.len(),
    ensures
        start_jobs(s.take(i)).len() + j < start_jobs(s).len(),
        start_jobs(s)[start_jobs(s.take(i)).len() + j] == (s[i].channels@[j].track@, s[i].start_frame, s[i].channels@[j].start_value_bits),
        start_jobs(s.take(i + 1)).len() == start_jobs(s.take(i)).len() + s[i].channels@.len(),
{
    assert(s.take(i + 1).drop_last() =~= s.take(i));
    assert(s.take(i + 1).last() == s[i]);
    lemma_jobs_prefix(s, i + 1);
    let x = start_jobs(s.take(i)).len() + j;
    assert(start_jobs(s.take(i + 1))[x] == channel_jobs(s[i])[j]);
}

impl NodeAnimation {
    /// Gives every channel of every stack function a keyframe at the stack's
    /// start frame (holding the channel's start value) when its track has
    /// none there; keyframes already there are kept as they are.
    pub fn ensure_stack_start_keyframes(&mut self)
        requires
            forall|i: int, j: int|
                0 <= i < old(self).stack_functions@.len() && 0 <= j < old(self).stack_functions@[i].channels@.len()
                    ==> (spec_slot(#[trigger] old(self).stack_functions@[i].channels@[j].track@) matches TrackSlot::Geom(g)
                    ==> g < usize::MAX),
        ensures
            final(self).stack_functions == old(self).stack_functions,
            keeps_frames(*old(self), *final(self)),
            forall|i: int, j: int|
                0 <= i < old(self).stack_functions@.len() && 0 <= j < old(self).stack_functions@[i].channels@.len()
                    ==> anchored(
                    *final(self),
                    #[trigger] old(self).stack_functions@[i].channels@[j].track@,
                    old(self).stack_functions@[i].start_frame,
                ),
            start_keys_run(*old(self), *final(self)),
    {
        let ghost sfs = self.stack_functions@;
        let ghost jobs = start_jobs(sfs);
        let ghost step = start_key_step(jobs);
        let ghost mut trace: Seq<NodeAnimation> = seq![*self];
        assert(sfs.take(0) =~= Seq::<StackAnimationFunction>::empty());
        let n = self.stack_functions.len();
        let mut i: usize = 0;
        while i < n
            invariant
                n == sfs.len(),
                sfs == old(self).stack_functions@,
                self.stack_functions == old(self).stack_functions,
                i <= n,
                jobs == start_jobs(sfs),
                step == start_key_step(jobs),
                trace.len() == start_jobs(sfs.take(i as int)).len() + 1,
                trace[0] == *old(self),
                trace.last() == *self,
                is_run(trace, step),
                keeps_frames(*old(self), *self),
                forall|i2: int, j2: int|
                    0 <= i2 < i && 0 <= j2 < sfs[i2].channels@.len() ==> anchored(
                        *self,
                        #[trigger] sfs[i2].channels@[j2].track@,
                        sfs[i2].start_frame,
                    ),
                forall|i2: int, j2: int|
                    0 <= i2 < sfs.len() && 0 <= j2 < sfs[i2].channels@.len() ==> (spec_slot(
                        #[trigger] sfs[i2].channels@[j2].track@,
                    ) matches TrackSlot::Geom(g) ==> g < usize::MAX),
            decreases n - i,
        {
            let m = self.stack_functions[i].channels.len();
            let frame = self.stack_functions[i].start_frame;
            let mut j: usize = 0;
            while j < m
                invariant
                    n == sfs.len(),
                    sfs == old(self).stack_functions@,
                    self.stack_functions == old(self).stack_functions,
                    i < n,
                    j <= m,
                    m == sfs[i as int].channels@.len(),
                    frame == sfs[i as int].start_frame,
                    jobs == start_jobs(sfs),
                    step == start_key_step(jobs),
                    trace.len() == start_jobs(sfs.take(i as int)).len() + j + 1,
                    trace[0] == *old(self),
                    trace.last() == *self,
                    is_run(trace, step),
                    keeps_frames(*old(self), *self),
                    forall|i2: int, j2: int|
                        0 <= i2 < i && 0 <= j2 < sfs[i2].channels@.len() ==> anchored(
                            *self,
                            #[trigger] sfs[i2].channels@[j2].track@,
                            sfs[i2].start_frame,
                        ),
                    forall|j2: int| 0 <= j2 < j ==> anchored(*self, #[trigger] sfs[i as int].channels@[j2].track@, frame),
                    forall|i2: int, j2: int|
                        0 <= i2 < sfs.len() && 0 <= j2 < sfs[i2].channels@.len() ==> (spec_slot(
                            #[trigger] sfs[i2].channels@[j2].track@,
                        ) matches TrackSlot::Geom(g) ==> g < usize::MAX),
                decreases m - j,
            {
                let label = self.stack_functions[i].channels[j].track.clone();
                let val = self.stack_functions[i].channels[j].start_value_bits;
                let ghost before = *self;
                let ghost lab = label@;
                let ghost mut t0v: KeyframeTrack = vstd::pervasive::arbitrary();
                let ghost mut t1v: KeyframeTrack = vstd::pervasive::arbitrary();
                assert(lab == sfs[i as int].channels@[j as int].track@);
                match self.get_track_mut(label.as_str()) {
                    Some(tr) => {
                        let ghost t0 = *tr;
                        if !has_key_at(tr, frame) {
                            tr.insert(frame, val);
                            proof {
                                lemma_insert_grows(t0.keyframes@, frame, val);
                            }
                        }
                        proof {
                            t0v = t0;
                            t1v = *tr;
                        }
                    },
                    None => {},
                }
                proof {
                    if !(spec_slot(lab) is Missing) {
                        assert(write_through(before, lab, t0v, t1v, *self));
                        assert(frames_grow(t0v, t1v));
                        assert(has_frame(t1v, frame));
                        lemma_write_reads(before, lab, t0v, t1v, *self);
                        assert forall|l: Seq<char>| #[trigger] track_at(*old(self), l) is Some implies track_at(*self, l) is Some
                            && frames_grow(track_at(*old(self), l).unwrap(), track_at(*self, l).unwrap()) by {
                            lemma_write_keeps(before, lab, t0v, t1v, *self, l);
                        }
                        assert forall|i2: int, j2: int|
                            0 <= i2 < i && 0 <= j2 < sfs[i2].channels@.len() implies anchored(
                                *self,
                                #[trigger] sfs[i2].channels@[j2].track@,
                                sfs[i2].start_frame,
                            ) by {
                            let l = sfs[i2].channels@[j2].track@;
                            if !(spec_slot(l) is Missing) {
                                lemma_write_keeps(before, lab, t0v, t1v, *self, l);
                            }
                        }
                        assert forall|j2: int| 0 <= j2 < j + 1 implies anchored(*self, #[trigger] sfs[i as int].channels@[j2].track@, frame) by {
                            let l = sfs[i as int].channels@[j2].track@;
                            if j2 < j && !(spec_slot(l) is Missing) {
                                lemma_write_keeps(before, lab, t0v, t1v, *self, l);
                            }
                        }
                        assert(self.stack_functions == before.stack_functions);
                    } else {
                        assert(*self == before);
                        assert forall|j2: int| 0 <= j2 < j + 1 implies anchored(*self, #[trigger] sfs[i as int].channels@[j2].track@, frame) by {
                        }
                    }
                    lemma_job_at(sfs, i as int, j as int);
                    let q = start_jobs(sfs.take(i as int)).len() + j;
                    assert(jobs[q] == (lab, frame, val));
                    if !(spec_slot(lab) is Missing) {
                        assert(write_through(before, lab, t0v, t1v, *self));
                        assert(t1v.keyframes@ == (if has_frame(t0v, frame) {
                            t0v.keyframes@
                        } else {
                            crate::animation::spec_insert(t0v.keyframes@, frame, val)
                        }));
                    }
                    assert(step(before, q, *self));
                    let t2 = trace.push(*self);
                    assert forall|x: int| #![trigger t2[x]] 0 <= x < t2.len() - 1 implies step(t2[x], x, t2[x + 1]) by {
                        if x < q {
                            assert(t2[x] == trace[x]);
                            assert(t2[x + 1] == trace[x + 1]);
                        }
                    }
                    trace = t2;
                }
                j = j + 1;
            }
            proof {
                assert(sfs.take(i + 1).drop_last() =~= sfs.take(i as int));
                assert(sfs.take(i + 1).last() == sfs[i as int]);
            }
            i = i + 1;
        }
        assert(sfs.take(n as int) =~= sfs);
    }
}

/// A write through the reference for `m` that makes track `l` appear
/// either makes it the written track (which was then created empty) or
/// fills it in empty.
proof fn lemma_write_creates(
    a: NodeAnimation,
    m: Seq<char>,
    t0: KeyframeTrack,
    t1: KeyframeTrack,
    b: NodeAnimation,
    l: Seq<char>,
)
    requires
        write_through(a, m, t0, t1, b),
        track_at(a, l) is None,
        track_at(b, l) is Some,
    ensures
        (track_at(b, l) == Some(t1) && t0.keyframes@.len() == 0) || track_at(b, l).unwrap().keyframes@.len() == 0,
{
    match spec_slot(l) {
        TrackSlot::Geom(i) => {
            match spec_slot(m) {
                TrackSlot::Geom(i2) => {
                    if i == i2 {
                        assert(i2 >= a.geom_tracks@.len());
                    }
                },
                _ => {},
            }
        },
        TrackSlot::Param => {
            let s = track_entries(a.param_tracks);
            let s2 = track_entries(b.param_tracks);
            crate::seqs::lemma_first_index(s, crate::track_map::label_pred(l));
            crate::seqs::lemma_first_index(s2, crate::track_map::label_pred(l));
            match spec_slot(m) {
                TrackSlot::Param => {
                    let j = label_index(s, m);
                    crate::seqs::lemma_first_index(s, crate::track_map::label_pred(m));
                    if j >= 0 {
                        lemma_same_labels_same_index(s, s2, l);
                    } else {
                        let k = label_index(s2, l);
                        if k < s.len() {
                            assert(s2[k] == s2.take(s.len() as int)[k]);
                            assert(s2[k] == s[k]);
                        }
                        assert(k == s.len());
                        assert(s2[k] == s2.last());
                    }
                },
                _ => {},
            }
        },
        _ => {},
    }
}

/// Labels `l` and `m` address the same track: the same fixed track or
/// geometry index, or the same `param:` label.
pub open spec fn same_track(l: Seq<char>, m: Seq<char>) -> bool {
    &&& spec_slot(l) == spec_slot(m)
    &&& !(spec_slot(l) is Missing)
    &&& (spec_slot(l) is Param ==> l == m)
}

/// After a write through the reference for `m`, every other track is as
/// it was; the written one goes from `t0` to `t1`.
proof fn lemma_write_effect(
    a: NodeAnimation,
    m: Seq<char>,
    t0: KeyframeTrack,
    t1: KeyframeTrack,
    b: NodeAnimation,
    l: Seq<char>,
)
    requires
        write_through(a, m, t0, t1, b),
        track_at(a, l) is Some,
    ensures
        track_at(b, l) == track_at(a, l) || (track_at(a, l) == Some(t0) && track_at(b, l) == Some(t1)),
        !same_track(l, m) ==> track_at(b, l) == track_at(a, l),
{
    match spec_slot(l) {
        TrackSlot::Param => {
            let s = track_entries(a.param_tracks);
            let k = label_index(s, l);
            crate::seqs::lemma_first_index(s, crate::track_map::label_pred(l));
            match spec_slot(m) {
                TrackSlot::Param => {
                    let s2 = track_entries(b.param_tracks);
                    let j = label_index(s, m);
                    crate::seqs::lemma_first_index(s, crate::track_map::label_pred(m));
                    if j >= 0 {
                        lemma_same_labels_same_index(s, s2, l);
                    } else {
                        lemma_prefix_index(s, s2, l);
                        assert(s2[k] == s2.take(s.len() as int)[k]);
                    }
                },
                _ => {},
            }
        },
        _ => {},
    }
}

/// No keyframe of `t` lies strictly inside `(start, end)`.
pub open spec fn span_clear(t: KeyframeTrack, start: usize, end: usize) -> bool {
    forall|k: int| 0 <= k < t.keyframes@.len() ==> !(start < #[trigger] t.keyframes@[k].frame < end)
}

/// `y` is `x`, or `x` with its keyframes strictly inside the span removed.
pub open spec fn cleared_from(x: KeyframeTrack, y: KeyframeTrack, start: usize, end: usize) -> bool {
    y == x || y.keyframes@ == x.keyframes@.filter(crate::animation::outside_open_span(start, end))
}

proof fn lemma_filter_twice(s: Seq<crate::animation::Keyframe>, p: spec_fn(crate::animation::Keyframe) -> bool)
    ensures
        s.filter(p).filter(p) == s.filter(p),
    decreases s.len(),
{
    reveal(Seq::filter);
    if s.len() > 0 {
        lemma_filter_twice(s.drop_last(), p);
        if p(s.last()) {
            let r = s.drop_last().filter(p);
            assert(r.push(s.last()).drop_last() =~= r);
        }
    }
}

impl NodeAnimation {
    /// Deletes the keyframes strictly inside `(start, end)` on the tracks the
    /// labels address (creating them as `get_track_mut` does), keeping the
    /// endpoints.
    pub fn clear_keyframes_in_open_span(&mut self, tracks: &[&str], start: usize, end: usize)
        requires
            forall|k: int| 0 <= k < tracks@.len() ==> (spec_slot(#[trigger] tracks@[k]@) matches TrackSlot::Geom(g) ==> g < usize::MAX),
        ensures
            final(self).stack_functions == old(self).stack_functions,
            forall|l: Seq<char>|
                #[trigger] track_at(*old(self), l) is Some ==> track_at(*final(self), l) is Some && cleared_from(
                    track_at(*old(self), l).unwrap(),
                    track_at(*final(self), l).unwrap(),
                    start,
                    end,
                ),
            forall|k: int|
                0 <= k < tracks@.len() && !(spec_slot(#[trigger] tracks@[k]@) is Missing) ==> track_at(*final(self), tracks@[k]@) is Some
                    && span_clear(track_at(*final(self), tracks@[k]@).unwrap(), start, end),
            forall|l: Seq<char>|
                #[trigger] track_at(*old(self), l) is Some && (forall|k: int| 0 <= k < tracks@.len() ==> !same_track(l, #[trigger] tracks@[k]@))
                    ==> track_at(*final(self), l) == track_at(*old(self), l),
            forall|l: Seq<char>|
                #[trigger] track_at(*old(self), l) is None && track_at(*final(self), l) is Some
                    ==> track_at(*final(self), l).unwrap().keyframes@.len() == 0,
    {
        let ghost p = crate::animation::outside_open_span(start, end);
        let n = tracks.len();
        let mut k: usize = 0;
        while k < n
            invariant
                n == tracks@.len(),
                k <= n,
                p == crate::animation::outside_open_span(start, end),
                forall|k2: int| 0 <= k2 < tracks@.len() ==> (spec_slot(#[trigger] tracks@[k2]@) matches TrackSlot::Geom(g) ==> g < usize::MAX),
                self.stack_functions == old(self).stack_functions,
                forall|l: Seq<char>|
                    #[trigger] track_at(*old(self), l) is Some ==> track_at(*self, l) is Some && cleared_from(
                        track_at(*old(self), l).unwrap(),
                        track_at(*self, l).unwrap(),
                        start,
                        end,
                    ),
                forall|k2: int|
                    0 <= k2 < k && !(spec_slot(#[trigger] tracks@[k2]@) is Missing) ==> track_at(*self, tracks@[k2]@) is Some
                        && span_clear(track_at(*self, tracks@[k2]@).unwrap(), start, end),
                forall|l: Seq<char>|
                    #[trigger] track_at(*old(self), l) is Some && (forall|k2: int| 0 <= k2 < k ==> !same_track(l, #[trigger] tracks@[k2]@))
                        ==> track_at(*self, l) == track_at(*old(self), l),
                forall|l: Seq<char>|
                    #[trigger] track_at(*old(self), l) is None && track_at(*self, l) is Some
                        ==> track_at(*self, l).unwrap().keyframes@.len() == 0,
            decreases n - k,
        {
            let label = tracks[k];
            let ghost before = *self;
            let ghost lab = label@;
            let ghost mut t0v: KeyframeTrack = vstd::pervasive::arbitrary();
            let ghost mut t1v: KeyframeTrack = vstd::pervasive::arbitrary();
            match self.get_track_mut(label) {
                Some(tr) => {
                    let ghost t0 = *tr;
                    tr.clear_keyframes_in_open_span(start, end);
                    proof {
                        crate::animation::lemma_clear_span_keeps_order(t0.keyframes@, start, end);
                        t0v = t0;
                        t1v = *tr;
                    }
                },
                None => {},
            }
            proof {
                if !(spec_slot(lab) is Missing) {
                    assert(write_through(before, lab, t0v, t1v, *self));
                    assert(span_clear(t1v, start, end));
                    lemma_write_reads(before, lab, t0v, t1v, *self);
                    assert forall|l: Seq<char>| #[trigger] track_at(*old(self), l) is Some implies track_at(*self, l) is Some
                        && cleared_from(track_at(*old(self), l).unwrap(), track_at(*self, l).unwrap(), start, end) by {
                        lemma_write_effect(before, lab, t0v, t1v, *self, l);
                        let x = track_at(*old(self), l).unwrap();
                        let y = track_at(before, l).unwrap();
                        if track_at(*self, l) != track_at(before, l) {
                            // y == t0v and the track is now the cleared t0v
                            if y != x {
                                lemma_filter_twice(x.keyframes@, p);
                            }
                        }
                    }
                    assert forall|k2: int|
                        0 <= k2 < k + 1 && !(spec_slot(#[trigger] tracks@[k2]@) is Missing) implies track_at(*self, tracks@[k2]@) is Some
                            && span_clear(track_at(*self, tracks@[k2]@).unwrap(), start, end) by {
                        if k2 < k {
                            lemma_write_effect(before, lab, t0v, t1v, *self, tracks@[k2]@);
                        } else {
                            assert(tracks@[k2]@ == lab);
                        }
                    }
                    assert forall|l: Seq<char>|
                        #[trigger] track_at(*old(self), l) is Some && (forall|k2: int| 0 <= k2 < k + 1 ==> !same_track(l, #[trigger] tracks@[k2]@))
                        implies track_at(*self, l) == track_at(*old(self), l) by {
                        assert(!same_track(l, tracks@[k as int]@));
                        assert forall|k2: int| 0 <= k2 < k implies !same_track(l, #[trigger] tracks@[k2]@) by {}
                        lemma_write_effect(before, lab, t0v, t1v, *self, l);
                    }
                    assert forall|l: Seq<char>|
                        #[trigger] track_at(*old(self), l) is None && track_at(*self, l) is Some
                        implies track_at(*self, l).unwrap().keyframes@.len() == 0 by {
                        if t0v.keyframes@.len() == 0 {
                            assert(t1v.keyframes@ =~= Seq::<crate::animation::Keyframe>::empty()) by {
                                reveal(Seq::filter);
                            }
                        }
                        if track_at(before, l) is None {
                            lemma_write_creates(before, lab, t0v, t1v, *self, l);
                        } else {
                            lemma_write_effect(before, lab, t0v, t1v, *self, l);
                        }
                    }
                } else {
                    assert(*self == before);
                }
            }
            k = k + 1;
        }
    }
}

impl NodeAnimation {
    /// Clears the keyframes under a stack span: those strictly between its
    /// start and end go, the start and end anchors and everything outside
    /// stay (the same keyframes `clear_keyframes_in_open_span` removes).
    pub fn clear_keyframes_under_stack(&mut self, tracks: &[&str], start: usize, end: usize)
        requires
            forall|k: int| 0 <= k < tracks@.len() ==> (spec_slot(#[trigger] tracks@[k]@) matches TrackSlot::Geom(g) ==> g < usize::MAX),
        ensures
            final(self).stack_functions == old(self).stack_functions,
            forall|l: Seq<char>|
                #[trigger] track_at(*old(self), l) is Some ==> track_at(*final(self), l) is Some && cleared_from(
                    track_at(*old(self), l).unwrap(),
                    track_at(*final(self), l).unwrap(),
                    start,
                    end,
                ),
            forall|k: int|
                0 <= k < tracks@.len() && !(spec_slot(#[trigger] tracks@[k]@) is Missing) ==> track_at(*final(self), tracks@[k]@) is Some
                    && span_clear(track_at(*final(self), tracks@[k]@).unwrap(), start, end),
            forall|l: Seq<char>|
                #[trigger] track_at(*old(self), l) is Some && (forall|k: int| 0 <= k < tracks@.len() ==> !same_track(l, #[trigger] tracks@[k]@))
                    ==> track_at(*final(self), l) == track_at(*old(self), l),
            forall|l: Seq<char>|
                #[trigger] track_at(*old(self), l) is None && track_at(*final(self), l) is Some
                    ==> track_at(*final(self), l).unwrap().keyframes@.len() == 0,
    {
        self.clear_keyframes_in_open_span(tracks, start, end)
    }
}

} // verus!

verus! {

/// Value of the first keyframe of `t` at frame `f`.
pub open spec fn key_value_at(t: KeyframeTrack, f: usize) -> Option<u64> {
    let i = first_index(t.keyframes@, crate::animation::at_frame(f));
    if i >= 0 {
        Some(t.keyframes@[i].value_bits)
    } else {
        None
    }
}

/// The start value a channel on `track` of a stack starting at `start`
/// reads from the keyframes of `a`.
pub open spec fn keyed_start(a: NodeAnimation, start: usize, track: Seq<char>) -> Option<u64> {
    match track_at(a, track) {
        Some(t) => key_value_at(t, start),
        None => None,
    }
}

/// The start values of every channel of every stack function.
pub open spec fn starts(fns: Seq<StackAnimationFunction>) -> Seq<Seq<u64>> {
    Seq::new(
        fns.len(),
        |i: int| Seq::new(fns[i].channels@.len(), |j: int| fns[i].channels@[j].start_value_bits),
    )
}

/// `b` has the stack functions of `a` with the same identities, spans,
/// channel tracks, formulas and errors; only start values may differ.
pub open spec fn same_shape(a: Seq<StackAnimationFunction>, b: Seq<StackAnimationFunction>) -> bool {
    &&& a.len() == b.len()
    &&& forall|i: int|
        0 <= i < a.len() ==> {
            &&& (#[trigger] b[i]).id == a[i].id
            &&& b[i].start_frame == a[i].start_frame
            &&& b[i].duration_frames == a[i].duration_frames
            &&& b[i].channels@.len() == a[i].channels@.len()
            &&& forall|j: int|
                0 <= j < a[i].channels@.len() ==> {
                    &&& (#[trigger] b[i].channels@[j]).track == a[i].channels@[j].track
                    &&& b[i].channels@[j].expr == a[i].channels@[j].expr
                    &&& b[i].channels@[j].last_error == a[i].channels@[j].last_error
                }
        }
}

/// Stack function with identity `id`.
pub open spec fn stack_with_id(id: u128) -> spec_fn(StackAnimationFunction) -> bool {
    |f: StackAnimationFunction| f.id == id
}

/// Channel on track `track`.
pub open spec fn channel_on(track: Seq<char>) -> spec_fn(StackAnimChannel) -> bool {
    |c: StackAnimChannel| c.track@ == track
}

/// Start values `m` after writing `v` to the first channel on `track` of
/// the first stack function with identity `id` (when there are such).
pub open spec fn write_start(
    fns: Seq<StackAnimationFunction>,
    m: Seq<Seq<u64>>,
    id: u128,
    track: Seq<char>,
    v: u64,
) -> Seq<Seq<u64>> {
    let p = first_index(fns, stack_with_id(id));
    if p < 0 {
        m
    } else {
        let q = first_index(fns[p].channels@, channel_on(track));
        if q < 0 {
            m
        } else {
            m.update(p, m[p].update(q, v))
        }
    }
}

/// The start values after the channels before channel `j` of stack `i`
/// (in stack order, then channel order) have each pulled the keyframe
/// value at their stack's start from `a`.
pub open spec fn synced_through(a: NodeAnimation, fns: Seq<StackAnimationFunction>, i: nat, j: nat) -> Seq<Seq<u64>>
    decreases i, j,
{
    if j > 0 {
        let m = synced_through(a, fns, i, (j - 1) as nat);
        let c = fns[i as int].channels@[j - 1];
        match keyed_start(a, fns[i as int].start_frame, c.track@) {
            Some(v) => write_start(fns, m, fns[i as int].id, c.track@, v),
            None => m,
        }
    } else if i > 0 {
        synced_through(a, fns, (i - 1) as nat, fns[i - 1].channels@.len())
    } else {
        starts(fns)
    }
}

/// First keyframe value of `t` at frame `f`.
fn first_key_value(t: &KeyframeTrack, f: usize) -> (r: Option<u64>)
    ensures
        r == key_value_at(*t, f),
{
    let ghost p = crate::animation::at_frame(f);
    let n = t.keyframes.len();
    let mut k: usize = 0;
    while k < n
        invariant
            n == t.keyframes@.len(),
            k <= n,
            p == crate::animation::at_frame(f),
            forall|q: int| 0 <= q < k ==> !p(#[trigger] t.keyframes@[q]),
        decreases n - k,
    {
        if t.keyframes[k].frame == f {
            proof {
                crate::seqs::lemma_first_index_is(t.keyframes@, p, k as int);
            }
            return Some(t.keyframes[k].value_bits);
        }
        k = k + 1;
    }
    proof {
        crate::seqs::lemma_first_index_none(t.keyframes@, p);
    }
    None
}

impl NodeAnimation {
    /// Pulls each stack channel's start value from the keyframe its track
    /// has at the stack's start frame. Channel by channel, the value found
    /// is written to the first channel on that track of the first stack
    /// with that identity; nothing else changes.
    pub fn sync_stack_starts_from_keyframes(&mut self)
        ensures
            *final(self) == (NodeAnimation { stack_functions: final(self).stack_functions, ..*old(self) }),
            same_shape(old(self).stack_functions@, final(self).stack_functions@),
            starts(final(self).stack_functions@) == synced_through(
                *old(self),
                old(self).stack_functions@,
                old(self).stack_functions@.len(),
                0,
            ),
    {
        let ghost a0 = *self;
        let ghost fns0 = self.stack_functions@;
        let n = self.stack_functions.len();
        let mut i: usize = 0;
        assert(starts(self.stack_functions@) == synced_through(a0, fns0, 0, 0));
        while i < n
            invariant
                n == fns0.len(),
                fns0 == a0.stack_functions@,
                a0 == *old(self),
                i <= n,
                *self == (NodeAnimation { stack_functions: self.stack_functions, ..a0 }),
                same_shape(fns0, self.stack_functions@),
                starts(self.stack_functions@) == synced_through(a0, fns0, i as nat, 0),
            decreases n - i,
        {
            let m = self.stack_functions[i].channels.len();
            let mut j: usize = 0;
            while j < m
                invariant
                    n == fns0.len(),
                    fns0 == a0.stack_functions@,
                    i < n,
                    m == fns0[i as int].channels@.len(),
                    j <= m,
                    *self == (NodeAnimation { stack_functions: self.stack_functions, ..a0 }),
                    same_shape(fns0, self.stack_functions@),
                    starts(self.stack_functions@) == synced_through(a0, fns0, i as nat, j as nat),
                decreases m - j,
            {
                let ghost before = self.stack_functions@;
                let ghost c = fns0[i as int].channels@[j as int];
                let start = self.stack_functions[i].start_frame;
                let found = match self.get_track(self.stack_functions[i].channels[j].track.as_str()) {
                    Some(t) => first_key_value(t, start),
                    None => None,
                };
                assert(self.stack_functions@[i as int].channels@[j as int].track == c.track);
                assert(track_at(*self, c.track@) == track_at(a0, c.track@));
                assert(found == keyed_start(a0, fns0[i as int].start_frame, c.track@));
                if let Some(v) = found {
                    let id = self.stack_functions[i].id;
                    // The first stack with this identity (stack `i` itself at the latest).
                    let mut p: usize = 0;
                    while self.stack_functions[p].id != id
                        invariant
                            n == fns0.len(),
                            i < n,
                            p <= i,
                            id == fns0[i as int].id,
                            same_shape(fns0, self.stack_functions@),
                            forall|k: int| 0 <= k < p ==> !stack_with_id(id)(#[trigger] fns0[k]),
                        decreases i - p,
                    {
                        p = p + 1;
                    }
                    proof {
                        crate::seqs::lemma_first_index_is(fns0, stack_with_id(id), p as int);
                    }
                    let mc = self.stack_functions[p].channels.len();
                    let mut q: usize = 0;
                    let mut hit = false;
                    while q < mc
                        invariant_except_break
                            !hit,
                        invariant
                            n == fns0.len(),
                            p < n,
                            mc == fns0[p as int].channels@.len(),
                            i < n,
                            j < fns0[i as int].channels@.len(),
                            c == fns0[i as int].channels@[j as int],
                            q <= mc,
                            same_shape(fns0, self.stack_functions@),
                            forall|k: int| 0 <= k < q ==> !channel_on(c.track@)(#[trigger] fns0[p as int].channels@[k]),
                        ensures
                            hit ==> q < mc && channel_on(c.track@)(fns0[p as int].channels@[q as int]),
                            !hit ==> q == mc,
                            forall|k: int| 0 <= k < q ==> !channel_on(c.track@)(#[trigger] fns0[p as int].channels@[k]),
                        decreases mc - q,
                    {
                        if str_eq(
                            self.stack_functions[p].channels[q].track.as_str(),
                            self.stack_functions[i].channels[j].track.as_str(),
                        ) {
                            hit = true;
                            break;
                        }
                        q = q + 1;
                    }
                    if hit {
                        proof {
                            crate::seqs::lemma_first_index_is(fns0[p as int].channels@, channel_on(c.track@), q as int);
                        }
                        self.stack_functions[p].channels[q].start_value_bits = v;
                        proof {
                            let sm = starts(before);
                            let want = sm.update(p as int, sm[p as int].update(q as int, v));
                            let now = starts(self.stack_functions@);
                            assert(self.stack_functions@.len() == before.len());
                            assert forall|k: int| 0 <= k < now.len() implies #[trigger] now[k] =~= want[k] by {
                                if k == p {
                                    assert(self.stack_functions@[k].channels@.len() == before[k].channels@.len());
                                    assert forall|r: int| 0 <= r < now[k].len() implies #[trigger] now[k][r] == want[k][r] by {
                                        if r != q {
                                            assert(self.stack_functions@[k].channels@[r] == before[k].channels@[r]);
                                        }
                                    }
                                } else {
                                    assert(self.stack_functions@[k] == before[k]);
                                }
                            }
                            assert(now =~= want);
                        }
                    } else {
                        proof {
                            crate::seqs::lemma_first_index_none(fns0[p as int].channels@, channel_on(c.track@));
                        }
                    }
                }
                j = j + 1;
            }
            i = i + 1;
        }
    }
}


/// Stack identities are distinct and no stack has two channels on one track.
pub open spec fn distinct_stacks(fns: Seq<StackAnimationFunction>) -> bool {
    &&& forall|i1: int, i2: int| 0 <= i1 < i2 < fns.len() ==> (#[trigger] fns[i1]).id != (#[trigger] fns[i2]).id
    &&& forall|i: int, j1: int, j2: int|
        0 <= i < fns.len() && 0 <= j1 < j2 < fns[i].channels@.len()
            ==> (#[trigger] fns[i].channels@[j1]).track@ != (#[trigger] fns[i].channels@[j2]).track@
}

/// The start value channel `j` of stack `i` ends with once synced: the
/// keyframe value its track has at the stack's start, else its own.
pub open spec fn pulled_start(a: NodeAnimation, fns: Seq<StackAnimationFunction>, i: int, j: int) -> u64 {
    match keyed_start(a, fns[i].start_frame, fns[i].channels@[j].track@) {
        Some(v) => v,
        None => fns[i].channels@[j].start_value_bits,
    }
}

proof fn lemma_synced_cells(a: NodeAnimation, fns: Seq<StackAnimationFunction>, ii: nat, jj: nat)
    requires
        distinct_stacks(fns),
        ii <= fns.len(),
        ii < fns.len() ==> jj <= fns[ii as int].channels@.len(),
        ii == fns.len() ==> jj == 0,
    ensures
        synced_through(a, fns, ii, jj).len() == fns.len(),
        forall|k: int| 0 <= k < fns.len() ==> (#[trigger] synced_through(a, fns, ii, jj)[k]).len() == fns[k].channels@.len(),
        forall|i: int, j: int|
            0 <= i < fns.len() && 0 <= j < fns[i].channels@.len() ==> #[trigger] synced_through(a, fns, ii, jj)[i][j] == (if i < ii || (i == ii && j < jj) {
                pulled_start(a, fns, i, j)
            } else {
                fns[i].channels@[j].start_value_bits
            }),
    decreases ii, jj,
{
    let m = synced_through(a, fns, ii, jj);
    if jj > 0 {
        lemma_synced_cells(a, fns, ii, (jj - 1) as nat);
        let m0 = synced_through(a, fns, ii, (jj - 1) as nat);
        let c = fns[ii as int].channels@[jj - 1];
        match keyed_start(a, fns[ii as int].start_frame, c.track@) {
            Some(v) => {
                crate::seqs::lemma_first_index_is(fns, stack_with_id(fns[ii as int].id), ii as int);
                crate::seqs::lemma_first_index_is(fns[ii as int].channels@, channel_on(c.track@), jj - 1);
                assert(m == m0.update(ii as int, m0[ii as int].update(jj - 1, v)));
            },
            None => {},
        }
    } else if ii > 0 {
        lemma_synced_cells(a, fns, (ii - 1) as nat, fns[ii - 1].channels@.len());
    }
}

/// Law: when stack identities are distinct and no stack has two channels
/// on one track, syncing gives every channel the value its track's keyframe
/// holds at the stack's start frame, and leaves channels whose track has no
/// keyframe there as they were.
pub proof fn lemma_sync_pulls_start_keys(a: NodeAnimation, i: int, j: int)
    requires
        distinct_stacks(a.stack_functions@),
        0 <= i < a.stack_functions@.len(),
        0 <= j < a.stack_functions@[i].channels@.len(),
    ensures
        synced_through(a, a.stack_functions@, a.stack_functions@.len(), 0)[i][j] == pulled_start(
            a,
            a.stack_functions@,
            i,
            j,
        ),
{
    lemma_synced_cells(a, a.stack_functions@, a.stack_functions@.len(), 0);
}


/// Every geometry label on a channel of `fns` has an index below the
/// largest `usize` (a track can be made for it).
pub open spec fn geom_labels_fit(fns: Seq<StackAnimationFunction>) -> bool {
    forall|i: int, j: int|
        0 <= i < fns.len() && 0 <= j < fns[i].channels@.len() ==> (spec_slot(
            #[trigger] fns[i].channels@[j].track@,
        ) matches TrackSlot::Geom(g) ==> g < usize::MAX)
}

/// The stack functions `fns` anchor frame `f` on track `label`: one of them
/// has a channel on that label and starts or ends at `f`.
pub open spec fn anchored_by(fns: Seq<StackAnimationFunction>, label: Seq<char>, f: usize) -> bool {
    exists|i: int, j: int|
        0 <= i < fns.len() && 0 <= j < fns[i].channels@.len() && (#[trigger] fns[i].channels@[j]).track@ == label
            && (fns[i].start_frame == f || spec_end_frame(fns[i].start_frame, fns[i].duration_frames) == f)
}

/// Keyframes that survive on track `label` when a stack spanning
/// `start..=end` goes: those off its two ends, and those the remaining
/// stacks `fns` still anchor.
pub open spec fn survives_removal(
    fns: Seq<StackAnimationFunction>,
    label: Seq<char>,
    start: usize,
    end: usize,
) -> spec_fn(crate::animation::Keyframe) -> bool {
    |k: crate::animation::Keyframe| !(k.frame == start || k.frame == end) || anchored_by(fns, label, k.frame)
}

/// Each animation of `trace` comes from the one before it by `step`
/// (step `q` leads from `trace[q]` to `trace[q + 1]`).
pub open spec fn is_run(trace: Seq<NodeAnimation>, step: spec_fn(NodeAnimation, int, NodeAnimation) -> bool) -> bool {
    forall|q: int| #![trigger trace[q]] 0 <= q < trace.len() - 1 ==> step(trace[q], q, trace[q + 1])
}

/// Step `k` of pruning: the track that `labels[k]` addresses keeps only the
/// keyframes that survive the removal (a label addressing nothing changes
/// nothing).
pub open spec fn prune_step(
    fns: Seq<StackAnimationFunction>,
    labels: Seq<Seq<char>>,
    start: usize,
    end: usize,
) -> spec_fn(NodeAnimation, int, NodeAnimation) -> bool {
    |m: NodeAnimation, k: int, b: NodeAnimation|
        if spec_slot(labels[k]) is Missing {
            b == m
        } else {
            exists|t: KeyframeTrack, t1: KeyframeTrack|
                #[trigger] write_through(m, labels[k], t, t1, b) && t1.keyframes@ == t.keyframes@.filter(
                    survives_removal(fns, labels[k], start, end),
                )
        }
}

/// `b` is `a` after `ensure_stack_start_keyframes`: its jobs ran in order,
/// so every track kept its keyed frames and every channel's track is keyed
/// at its stack's start.
pub open spec fn start_keys_ensured(a: NodeAnimation, b: NodeAnimation) -> bool {
    &&& start_keys_run(a, b)
    &&& b.stack_functions == a.stack_functions
    &&& keeps_frames(a, b)
    &&& forall|i: int, j: int|
        0 <= i < a.stack_functions@.len() && 0 <= j < a.stack_functions@[i].channels@.len() ==> anchored(
            b,
            #[trigger] a.stack_functions@[i].channels@[j].track@,
            a.stack_functions@[i].start_frame,
        )
}

/// Labels of the channels of `f`.
pub open spec fn channel_labels(f: StackAnimationFunction) -> Seq<Seq<char>> {
    f.channels@.map_values(|c: StackAnimChannel| c.track@)
}

/// `b` is `a` after stack function `id` (present in `a`) was removed with
/// the start and end keyframes it generated: every stack with identity
/// `id` goes; on the tracks of the first one's channels, keyframes at its
/// start and end frames go unless a remaining stack anchors them; then the
/// remaining stacks get their start keyframes back.
pub open spec fn removed_with_keys(a: NodeAnimation, id: u128, b: NodeAnimation) -> bool {
    let p = first_index(a.stack_functions@, stack_with_id(id));
    let sf = a.stack_functions@[p];
    let others = a.stack_functions@.filter(other_stack(id));
    let labels = channel_labels(sf);
    let start = sf.start_frame;
    let end = spec_end_frame(sf.start_frame, sf.duration_frames);
    &&& b.stack_functions@ == others
    &&& exists|trace: Seq<NodeAnimation>|
        #![trigger is_run(trace, prune_step(others, labels, start, end))]
        trace.len() == labels.len() + 1 && trace[0] == (NodeAnimation { stack_functions: trace[0].stack_functions, ..a })
            && trace[0].stack_functions@ == others && is_run(trace, prune_step(others, labels, start, end))
            && start_keys_ensured(trace.last(), b)
}

/// Whether the stack functions `fns` anchor frame `f` on track `label`.
fn anchors(fns: &Vec<StackAnimationFunction>, label: &str, f: usize) -> (r: bool)
    ensures
        r == anchored_by(fns@, label@, f),
{
    let n = fns.len();
    let mut i: usize = 0;
    while i < n
        invariant
            n == fns@.len(),
            i <= n,
            forall|i2: int, j2: int|
                0 <= i2 < i && 0 <= j2 < fns@[i2].channels@.len() ==> !((#[trigger] fns@[i2].channels@[j2]).track@ == label@
                    && (fns@[i2].start_frame == f || spec_end_frame(fns@[i2].start_frame, fns@[i2].duration_frames) == f)),
        decreases n - i,
    {
        let sf = &fns[i];
        let end = sf.end_frame();
        if sf.start_frame == f || end == f {
            let m = sf.channels.len();
            let mut j: usize = 0;
            while j < m
                invariant
                    n == fns@.len(),
                    i < n,
                    *sf == fns@[i as int],
                    end == spec_end_frame(sf.start_frame, sf.duration_frames),
                    sf.start_frame == f || end == f,
                    m == sf.channels@.len(),
                    j <= m,
                    forall|j2: int| 0 <= j2 < j ==> (#[trigger] sf.channels@[j2]).track@ != label@,
                decreases m - j,
            {
                if str_eq(sf.channels[j].track.as_str(), label) {
                    assert(fns@[i as int].channels@[j as int].track@ == label@);
                    return true;
                }
                j = j + 1;
            }
        }
        i = i + 1;
    }
    false
}

impl NodeAnimation {
    /// Keyframes of the track `label` addresses (none when it has no
    /// track) that survive removing a stack spanning `start..=end`, given
    /// the stacks that remain.
    fn surviving_keyframes(&self, label: &str, start: usize, end: usize) -> (r: Vec<crate::animation::Keyframe>)
        ensures
            r@ == (match track_at(*self, label@) {
                Some(t) => t.keyframes@,
                None => Seq::empty(),
            }).filter(survives_removal(self.stack_functions@, label@, start, end)),
    {
        let ghost p = survives_removal(self.stack_functions@, label@, start, end);
        let mut kept: Vec<crate::animation::Keyframe> = Vec::new();
        match self.get_track(label) {
            Some(t) => {
                let n = t.keyframes.len();
                let mut i: usize = 0;
                assert(t.keyframes@.take(0).filter(p) =~= Seq::<crate::animation::Keyframe>::empty()) by {
                    reveal(Seq::filter);
                }
                while i < n
                    invariant
                        n == t.keyframes@.len(),
                        i <= n,
                        p == survives_removal(self.stack_functions@, label@, start, end),
                        kept@ == t.keyframes@.take(i as int).filter(p),
                    decreases n - i,
                {
                    proof {
                        crate::seqs::lemma_filter_take_step(t.keyframes@, p, i as int);
                    }
                    let k = t.keyframes[i];
                    if !(k.frame == start || k.frame == end) || anchors(&self.stack_functions, label, k.frame) {
                        kept.push(k);
                    }
                    i = i + 1;
                }
                assert(t.keyframes@.take(n as int) =~= t.keyframes@);
            },
            None => {
                assert(Seq::<crate::animation::Keyframe>::empty().filter(p) =~= Seq::<crate::animation::Keyframe>::empty()) by {
                    reveal(Seq::filter);
                }
            },
        }
        kept
    }

    /// Removes stack function `id` and the start and end keyframes it
    /// generated on its channels' tracks, keeping those another stack still
    /// anchors; the remaining stacks then get their start keyframes back.
    /// `true` when there was such a stack. (The end keyframes of the
    /// remaining stacks hold the values of their formulas, which the caller
    /// evaluates and writes.)
    pub fn remove_stack_function_with_keyframes(&mut self, id: u128) -> (removed: bool)
        requires
            geom_labels_fit(old(self).stack_functions@),
        ensures
            removed == (first_index(old(self).stack_functions@, stack_with_id(id)) >= 0),
            !removed ==> *final(self) == *old(self),
            removed ==> removed_with_keys(*old(self), id, *final(self)),
    {
        let ghost a0 = *self;
        let ghost pid = stack_with_id(id);
        let n = self.stack_functions.len();
        let mut p: usize = 0;
        while p < n && self.stack_functions[p].id != id
            invariant
                n == self.stack_functions@.len(),
                p <= n,
                pid == stack_with_id(id),
                forall|k: int| 0 <= k < p ==> !pid(#[trigger] self.stack_functions@[k]),
            decreases n - p,
        {
            p = p + 1;
        }
        if p == n {
            proof {
                crate::seqs::lemma_first_index_none(self.stack_functions@, pid);
            }
            return false;
        }
        proof {
            crate::seqs::lemma_first_index_is(self.stack_functions@, pid, p as int);
        }
        let start = self.stack_functions[p].start_frame;
        let end = self.stack_functions[p].end_frame();
        let ghost sf = self.stack_functions@[p as int];
        let ghost labels = channel_labels(sf);
        let mut names: Vec<String> = Vec::new();
        let m = self.stack_functions[p].channels.len();
        let mut j: usize = 0;
        while j < m
            invariant
                *self == a0,
                p < n,
                n == self.stack_functions@.len(),
                sf == self.stack_functions@[p as int],
                m == sf.channels@.len(),
                labels == channel_labels(sf),
                j <= m,
                names@.len() == j,
                forall|k: int| 0 <= k < j ==> (#[trigger] names@[k])@ == labels[k],
            decreases m - j,
        {
            names.push(self.stack_functions[p].channels[j].track.clone());
            j = j + 1;
        }
        self.remove_stack_function(id);
        let ghost others = self.stack_functions@;
        let ghost m0 = *self;
        let ghost step = prune_step(others, labels, start, end);
        proof {
            assert forall|i: int, j2: int|
                0 <= i < others.len() && 0 <= j2 < others[i].channels@.len() implies (spec_slot(
                #[trigger] others[i].channels@[j2].track@,
            ) matches TrackSlot::Geom(g) ==> g < usize::MAX) by {
                assert(a0.stack_functions@.filter(other_stack(id)).contains(others[i]));
                a0.stack_functions@.lemma_filter_contains_rev(other_stack(id), others[i]);
                let w = choose|w: int| 0 <= w < a0.stack_functions@.len() && a0.stack_functions@[w] == others[i];
                assert(a0.stack_functions@[w].channels@[j2] == others[i].channels@[j2]);
            }
        }
        let ghost mut trace: Seq<NodeAnimation> = seq![m0];
        let mut k: usize = 0;
        while k < m
            invariant
                m == labels.len(),
                names@.len() == m,
                forall|q: int| 0 <= q < m ==> (#[trigger] names@[q])@ == labels[q],
                labels == channel_labels(sf),
                geom_labels_fit(a0.stack_functions@),
                sf == a0.stack_functions@[p as int],
                0 <= p < a0.stack_functions@.len(),
                step == prune_step(others, labels, start, end),
                self.stack_functions == m0.stack_functions,
                others == m0.stack_functions@,
                k <= m,
                trace.len() == k + 1,
                trace[0] == m0,
                trace.last() == *self,
                is_run(trace, step),
            decreases m - k,
        {
            let ghost prev = *self;
            let label = names[k].as_str();
            assert(label@ == labels[k as int]);
            assert(spec_slot(label@) matches TrackSlot::Geom(g) ==> g < usize::MAX) by {
                assert(labels[k as int] == sf.channels@[k as int].track@);
            }
            let kept = self.surviving_keyframes(label, start, end);
            let ghost mut t0: KeyframeTrack = arbitrary();
            let ghost mut t1: KeyframeTrack = arbitrary();
            match self.get_track_mut(label) {
                Some(tr) => {
                    proof {
                        t0 = *tr;
                    }
                    tr.keyframes = kept;
                    proof {
                        t1 = *tr;
                    }
                },
                None => {},
            }
            proof {
                if spec_slot(labels[k as int]) is Missing {
                    assert(*self == prev);
                } else {
                    assert(write_through(prev, labels[k as int], t0, t1, *self));
                    assert(self.stack_functions == prev.stack_functions);
                    assert(t1.keyframes@ == t0.keyframes@.filter(survives_removal(others, labels[k as int], start, end))) by {
                        match track_at(prev, labels[k as int]) {
                            Some(t) => {},
                            None => {
                                assert(t0.keyframes@ =~= Seq::<crate::animation::Keyframe>::empty());
                            },
                        }
                    }
                }
                assert(step(prev, k as int, *self));
                let t2 = trace.push(*self);
                assert forall|q: int| #![trigger t2[q]] 0 <= q < t2.len() - 1 implies step(t2[q], q, t2[q + 1]) by {
                    if q < k {
                        assert(t2[q] == trace[q]);
                        assert(t2[q + 1] == trace[q + 1]);
                    }
                }
                trace = t2;
            }
            k = k + 1;
        }
        let ghost m1 = *self;
        self.ensure_stack_start_keyframes();
        proof {
            assert(start_keys_ensured(m1, *self));
            assert(is_run(trace, prune_step(others, labels, start, end)));
        }
        true
    }
}

} // verus!
