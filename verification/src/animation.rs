//! Keyframe tracks: keyframes kept sorted by frame, the span a frame falls
//! in, and the frame ranges of formula-driven stack functions.

use vstd::prelude::*;
use crate::node::BezierHandleMode;
use crate::seqs::{
    first_index, lemma_filter_take_step, lemma_first_index, lemma_first_index_is,
    lemma_first_index_none,
};

verus! {

/// How values between two keyframes are computed.
#[derive(Debug, Clone, Copy, PartialEq, Eq, Structural)]
pub enum InterpolationMode {
    Linear,
    Bezier,
}

impl Default for InterpolationMode {
    fn default() -> (m: Self)
        ensures
            m == InterpolationMode::Linear,
    {
        InterpolationMode::Linear
    }
}

/// Handle mode of a keyframe that does not name one.
pub fn default_handle_mode() -> (m: BezierHandleMode)
    ensures
        m == BezierHandleMode::Both,
{
    BezierHandleMode::Both
}

/// Bit patterns of the default bezier handles of a new keyframe: `(-5, 0)`
/// on the left and `(5, 0)` on the right, as `f64`.
pub const HANDLE_LEFT_X_BITS: u64 = 0xc014_0000_0000_0000;
pub const HANDLE_RIGHT_X_BITS: u64 = 0x4014_0000_0000_0000;

/// One keyframe of a track. The value and the handle coordinates are kept
/// as the bit patterns of their `f64` values.
#[derive(Debug, Clone, Copy, PartialEq, Eq, Structural)]
pub struct Keyframe {
    pub frame: usize,
    pub value_bits: u64,
    pub interpolation: InterpolationMode,
    pub handle_left_x_bits: u64,
    pub handle_left_y_bits: u64,
    pub handle_right_x_bits: u64,
    pub handle_right_y_bits: u64,
    pub handle_mode: BezierHandleMode,
}

/// A keyframe added by `insert`: linear, with the default handles.
pub open spec fn new_keyframe(frame: usize, value_bits: u64) -> Keyframe {
    Keyframe {
        frame,
        value_bits,
        interpolation: InterpolationMode::Linear,
        handle_left_x_bits: HANDLE_LEFT_X_BITS,
        handle_left_y_bits: 0,
        handle_right_x_bits: HANDLE_RIGHT_X_BITS,
        handle_right_y_bits: 0,
        handle_mode: BezierHandleMode::Both,
    }
}

/// Frames never decrease along `s`.
pub open spec fn frames_sorted(s: Seq<Keyframe>) -> bool {
    forall|i: int, j: int| 0 <= i <= j < s.len() ==> s[i].frame <= s[j].frame
}

/// `x` put into `s` after every keyframe whose frame is at most its own
/// (the place a stable sort by frame gives it when it comes last).
pub open spec fn sorted_insert(s: Seq<Keyframe>, x: Keyframe) -> Seq<Keyframe>
    decreases s.len(),
{
    if s.len() == 0 || s.last().frame <= x.frame {
        s.push(x)
    } else {
        sorted_insert(s.drop_last(), x).push(s.last())
    }
}

/// Stable sort by frame (`sort_by_key(|k| k.frame)`): equal frames keep
/// their order.
pub open spec fn sort_by_frame(s: Seq<Keyframe>) -> Seq<Keyframe>
    decreases s.len(),
{
    if s.len() == 0 {
        s
    } else {
        sorted_insert(sort_by_frame(s.drop_last()), s.last())
    }
}

/// Index of the first keyframe at `frame`.
pub open spec fn at_frame(frame: usize) -> spec_fn(Keyframe) -> bool {
    |k: Keyframe| k.frame == frame
}

/// The keyframes after `insert(frame, value_bits)`: the first keyframe at
/// `frame` takes the value; without one, a new keyframe is added and the
/// track is sorted by frame.
pub open spec fn spec_insert(s: Seq<Keyframe>, frame: usize, value_bits: u64) -> Seq<Keyframe> {
    let p = first_index(s, at_frame(frame));
    if p >= 0 {
        s.update(p, Keyframe { value_bits, ..s[p] })
    } else {
        sort_by_frame(s.push(new_keyframe(frame, value_bits)))
    }
}

proof fn lemma_sorted_insert_facts(s: Seq<Keyframe>, x: Keyframe)
    ensures
        sorted_insert(s, x).len() == s.len() + 1,
        sorted_insert(s, x).to_multiset() == s.to_multiset().insert(x),
        frames_sorted(s) ==> frames_sorted(sorted_insert(s, x)),
    decreases s.len(),
{
    broadcast use vstd::seq_lib::group_to_multiset_ensures;
    if s.len() == 0 || s.last().frame <= x.frame {
    } else {
        let r = sorted_insert(s.drop_last(), x);
        lemma_sorted_insert_facts(s.drop_last(), x);
        assert(s.drop_last().push(s.last()) =~= s);
        assert(r.push(s.last()).to_multiset() == r.to_multiset().insert(s.last()));
        assert(s.to_multiset() == s.drop_last().to_multiset().insert(s.last()));
        assert(r.push(s.last()).to_multiset() =~= s.to_multiset().insert(x)) by {
            broadcast use vstd::multiset::group_multiset_axioms;
        }
        if frames_sorted(s) {
            assert(frames_sorted(s.drop_last()));
            lemma_sorted_insert_members(s.drop_last(), x);
            let t = r.push(s.last());
            assert forall|i: int, j: int| 0 <= i <= j < t.len() implies t[i].frame <= t[j].frame by {
                if j == t.len() - 1 && i < j {
                    if r[i] == x {
                    } else {
                        let k = choose|k: int| 0 <= k < s.drop_last().len() && s.drop_last()[k] == r[i];
                        assert(s[k] == r[i]);
                    }
                }
            }
        }
    }
}

proof fn lemma_sorted_insert_members(s: Seq<Keyframe>, x: Keyframe)
    ensures
        forall|i: int|
            0 <= i < sorted_insert(s, x).len() ==> #[trigger] sorted_insert(s, x)[i] == x || exists|k: int|
                0 <= k < s.len() && s[k] == sorted_insert(s, x)[i],
    decreases s.len(),
{
    if s.len() == 0 || s.last().frame <= x.frame {
        assert forall|i: int| 0 <= i < sorted_insert(s, x).len() implies #[trigger] sorted_insert(s, x)[i]
            == x || exists|k: int| 0 <= k < s.len() && s[k] == sorted_insert(s, x)[i] by {
            if i < s.len() {
                assert(s[i] == sorted_insert(s, x)[i]);
            }
        }
    } else {
        lemma_sorted_insert_members(s.drop_last(), x);
        let r = sorted_insert(s.drop_last(), x);
        assert forall|i: int| 0 <= i < sorted_insert(s, x).len() implies #[trigger] sorted_insert(s, x)[i]
            == x || exists|k: int| 0 <= k < s.len() && s[k] == sorted_insert(s, x)[i] by {
            if i == r.len() {
                assert(s[s.len() - 1] == sorted_insert(s, x)[i]);
            } else {
                assert(sorted_insert(s, x)[i] == r[i]);
                if r[i] != x {
                    let k = choose|k: int| 0 <= k < s.drop_last().len() && s.drop_last()[k] == r[i];
                    assert(s[k] == r[i]);
                }
            }
        }
    }
}

/// Sorting by frame gives a sorted track holding the same keyframes.
pub proof fn lemma_sort_by_frame(s: Seq<Keyframe>)
    ensures
        frames_sorted(sort_by_frame(s)),
        sort_by_frame(s).to_multiset() == s.to_multiset(),
        sort_by_frame(s).len() == s.len(),
    decreases s.len(),
{
    broadcast use vstd::seq_lib::group_to_multiset_ensures;
    if s.len() > 0 {
        lemma_sort_by_frame(s.drop_last());
        lemma_sorted_insert_facts(sort_by_frame(s.drop_last()), s.last());
        assert(s.drop_last().push(s.last()) =~= s);
    }
}

/// Sorting an already sorted track leaves it as it is.
pub proof fn lemma_sort_sorted_is_identity(s: Seq<Keyframe>)
    requires
        frames_sorted(s),
    ensures
        sort_by_frame(s) == s,
    decreases s.len(),
{
    if s.len() > 0 {
        assert(frames_sorted(s.drop_last()));
        lemma_sort_sorted_is_identity(s.drop_last());
        if s.len() > 1 {
            assert(s.drop_last().last() == s[s.len() - 2]);
        }
        assert(s.drop_last().push(s.last()) =~= s);
    }
}

/// After `insert(frame, value_bits)` the first keyframe at `frame` holds
/// `value_bits`; a sorted track stays sorted; the track grows by one
/// keyframe exactly when it had none at `frame`.
pub proof fn lemma_insert_sets_value(s: Seq<Keyframe>, frame: usize, value_bits: u64)
    ensures
        first_index(spec_insert(s, frame, value_bits), at_frame(frame)) >= 0,
        spec_insert(s, frame, value_bits)[first_index(spec_insert(s, frame, value_bits), at_frame(frame))].value_bits
            == value_bits,
        frames_sorted(s) ==> frames_sorted(spec_insert(s, frame, value_bits)),
        spec_insert(s, frame, value_bits).len() == s.len() + (if first_index(s, at_frame(frame)) >= 0 {
            0int
        } else {
            1int
        }),
{
    broadcast use vstd::seq_lib::group_to_multiset_ensures;
    let p = at_frame(frame);
    let r = spec_insert(s, frame, value_bits);
    lemma_first_index(s, p);
    if first_index(s, p) >= 0 {
        let i = first_index(s, p);
        assert forall|j: int| 0 <= j < i implies !p(#[trigger] r[j]) by {
            assert(r[j] == s[j]);
        }
        assert(p(r[i]));
        lemma_first_index_is(r, p, i);
        if frames_sorted(s) {
            assert forall|a: int, b: int| 0 <= a <= b < r.len() implies r[a].frame <= r[b].frame by {
                assert(r[a].frame == s[a].frame && r[b].frame == s[b].frame);
            }
        }
    } else {
        let k = new_keyframe(frame, value_bits);
        let t = s.push(k);
        lemma_sort_by_frame(t);
        assert(t.contains(k)) by {
            assert(t[t.len() - 1] == k);
        }
        assert(r.contains(k)) by {
            assert(r.to_multiset().count(k) == t.to_multiset().count(k));
        }
        let w = choose|w: int| 0 <= w < r.len() && r[w] == k;
        assert(p(r[w]));
        lemma_first_index(r, p);
        let f = first_index(r, p);
        assert(f >= 0) by {
            if f < 0 {
                assert(!p(r[w]));
            }
        }
        let e = r[f];
        assert(r.contains(e));
        assert(t.contains(e)) by {
            assert(r.to_multiset().count(e) == t.to_multiset().count(e));
        }
        let m = choose|m: int| 0 <= m < t.len() && t[m] == e;
        if m < s.len() {
            assert(t[m] == s[m]);
            assert(!p(s[m]));
        }
    }
}

/// Frames strictly increase along `s`.
pub open spec fn frames_strict(s: Seq<Keyframe>) -> bool {
    forall|i: int, j: int| 0 <= i < j < s.len() ==> s[i].frame < s[j].frame
}

proof fn lemma_sorted_insert_strict(s: Seq<Keyframe>, x: Keyframe)
    requires
        frames_strict(s),
        forall|i: int| 0 <= i < s.len() ==> (#[trigger] s[i]).frame != x.frame,
    ensures
        frames_strict(sorted_insert(s, x)),
        forall|i: int| 0 <= i < s.len() ==> sorted_insert(s, x).contains(#[trigger] s[i]),
        sorted_insert(s, x).contains(x),
    decreases s.len(),
{
    lemma_sorted_insert_members(s, x);
    if s.len() == 0 || s.last().frame <= x.frame {
        let r = s.push(x);
        assert forall|i: int, j: int| 0 <= i < j < r.len() implies r[i].frame < r[j].frame by {
            if j == s.len() {
                assert(s[i].frame <= s[s.len() - 1].frame);
            }
        }
        assert forall|i: int| 0 <= i < s.len() implies r.contains(#[trigger] s[i]) by {
            assert(r[i] == s[i]);
        }
        assert(r[s.len() as int] == x);
    } else {
        let d = s.drop_last();
        assert forall|i: int| 0 <= i < d.len() implies (#[trigger] d[i]).frame != x.frame by {
            assert(d[i] == s[i]);
        }
        lemma_sorted_insert_strict(d, x);
        lemma_sorted_insert_members(d, x);
        let r0 = sorted_insert(d, x);
        let r = r0.push(s.last());
        assert forall|i: int, j: int| 0 <= i < j < r.len() implies r[i].frame < r[j].frame by {
            if j == r0.len() {
                assert(r[i] == r0[i]);
                if r0[i] != x {
                    let k = choose|k: int| 0 <= k < d.len() && d[k] == r0[i];
                    assert(d[k] == s[k]);
                }
            } else {
                assert(r[i] == r0[i] && r[j] == r0[j]);
            }
        }
        assert forall|i: int| 0 <= i < s.len() implies r.contains(#[trigger] s[i]) by {
            if i == s.len() - 1 {
                assert(r[r0.len() as int] == s[i]);
            } else {
                assert(d[i] == s[i]);
                assert(r0.contains(d[i]));
                let w = choose|w: int| 0 <= w < r0.len() && r0[w] == d[i];
                assert(r[w] == r0[w]);
            }
        }
        let w = choose|w: int| 0 <= w < r0.len() && r0[w] == x;
        assert(r[w] == r0[w]);
    }
}

/// Law: on a track whose frames strictly increase, `insert(frame, v)`
/// keeps them strictly increasing; the one keyframe at `frame` then holds
/// `v`; every other keyframe stays as it was; the track grows by one
/// (a new linear keyframe) exactly when it had none at `frame`.
pub proof fn lemma_insert_keeps_strict(s: Seq<Keyframe>, frame: usize, value_bits: u64)
    requires
        frames_strict(s),
    ensures
        frames_strict(spec_insert(s, frame, value_bits)),
        exists|i: int| 0 <= i < spec_insert(s, frame, value_bits).len() && (#[trigger] spec_insert(s, frame, value_bits)[i]).frame == frame,
        forall|i: int|
            0 <= i < spec_insert(s, frame, value_bits).len() && (#[trigger] spec_insert(s, frame, value_bits)[i]).frame == frame
                ==> spec_insert(s, frame, value_bits)[i].value_bits == value_bits,
        forall|i: int| 0 <= i < s.len() && (#[trigger] s[i]).frame != frame ==> spec_insert(s, frame, value_bits).contains(s[i]),
        spec_insert(s, frame, value_bits).len() == s.len() + (if first_index(s, at_frame(frame)) >= 0 {
            0int
        } else {
            1int
        }),
        first_index(s, at_frame(frame)) < 0 ==> spec_insert(s, frame, value_bits).contains(new_keyframe(frame, value_bits)),
{
    let p = at_frame(frame);
    let r = spec_insert(s, frame, value_bits);
    lemma_insert_sets_value(s, frame, value_bits);
    lemma_first_index(r, p);
    lemma_first_index(s, p);
    if first_index(s, p) >= 0 {
        let q = first_index(s, p);
        assert forall|i: int, j: int| 0 <= i < j < r.len() implies r[i].frame < r[j].frame by {
            assert(r[i].frame == s[i].frame && r[j].frame == s[j].frame);
        }
        assert forall|i: int| 0 <= i < r.len() && (#[trigger] r[i]).frame == frame implies r[i].value_bits == value_bits by {
            if i != q {
                assert(r[i] == s[i]);
                assert(s[i].frame == s[q].frame);
            }
        }
        assert forall|i: int| 0 <= i < s.len() && (#[trigger] s[i]).frame != frame implies r.contains(s[i]) by {
            assert(r[i] == s[i]);
        }
    } else {
        let k = new_keyframe(frame, value_bits);
        let t = s.push(k);
        assert(t.drop_last() =~= s);
        lemma_sort_sorted_is_identity(s);
        assert(r == sorted_insert(s, k));
        assert forall|i: int| 0 <= i < s.len() implies (#[trigger] s[i]).frame != k.frame by {
            assert(!p(s[i]));
        }
        lemma_sorted_insert_strict(s, k);
        lemma_sorted_insert_members(s, k);
        assert forall|i: int| 0 <= i < r.len() && (#[trigger] r[i]).frame == frame implies r[i].value_bits == value_bits by {
            if r[i] != k {
                let w = choose|w: int| 0 <= w < s.len() && s[w] == r[i];
                assert(!p(s[w]));
            }
        }
    }
    let i0 = first_index(r, p);
    assert(r[i0].frame == frame);
}

/// Keeps keyframes at or before `start` and at or after `end`.
pub open spec fn outside_open_span(start: usize, end: usize) -> spec_fn(Keyframe) -> bool {
    |k: Keyframe| k.frame <= start || k.frame >= end
}

/// Clearing a span keeps a sorted track sorted and leaves no keyframe
/// strictly inside the span.
pub proof fn lemma_clear_span_keeps_order(s: Seq<Keyframe>, start: usize, end: usize)
    ensures
        frames_sorted(s) ==> frames_sorted(s.filter(outside_open_span(start, end))),
        forall|i: int|
            0 <= i < s.filter(outside_open_span(start, end)).len() ==> !(start < (#[trigger] s.filter(
                outside_open_span(start, end),
            )[i]).frame < end),
    decreases s.len(),
{
    reveal(Seq::filter);
    let p = outside_open_span(start, end);
    if s.len() > 0 {
        lemma_clear_span_keeps_order(s.drop_last(), start, end);
        let r = s.drop_last().filter(p);
        lemma_filter_members(s.drop_last(), p);
        if frames_sorted(s) {
            assert(frames_sorted(s.drop_last()));
            if p(s.last()) {
                let t = r.push(s.last());
                assert forall|a: int, b: int| 0 <= a <= b < t.len() implies t[a].frame <= t[b].frame by {
                    if b == t.len() - 1 && a < b {
                        let k = choose|k: int| 0 <= k < s.drop_last().len() && s.drop_last()[k] == r[a];
                        assert(s[k] == r[a]);
                        assert(s[s.len() - 1] == s.last());
                    }
                }
            }
        }
    }
}

proof fn lemma_filter_members(s: Seq<Keyframe>, p: spec_fn(Keyframe) -> bool)
    ensures
        forall|i: int|
            0 <= i < s.filter(p).len() ==> exists|k: int| 0 <= k < s.len() && s[k] == #[trigger] s.filter(p)[i],
    decreases s.len(),
{
    reveal(Seq::filter);
    if s.len() > 0 {
        lemma_filter_members(s.drop_last(), p);
        let r = s.drop_last().filter(p);
        assert forall|i: int| 0 <= i < s.filter(p).len() implies exists|k: int|
            0 <= k < s.len() && s[k] == #[trigger] s.filter(p)[i] by {
            if i < r.len() {
                assert(s.filter(p)[i] == r[i]);
                let k = choose|k: int| 0 <= k < s.drop_last().len() && s.drop_last()[k] == r[i];
                assert(s[k] == r[i]);
            } else {
                assert(s[s.len() - 1] == s.filter(p)[i]);
            }
        }
    }
}

/// One formula channel of a stack animation function. Its start value is
/// kept as the bit pattern of an `f64`.
#[derive(Debug, Clone, PartialEq, Eq)]
pub struct StackAnimChannel {
    /// Track label: pos_x, pos_y, rotation, color_r, geom_0, …
    pub track: String,
    /// Formula in `t` (0..1) and `f` (local frame); empty = constant start value.
    pub expr: String,
    pub start_value_bits: u64,
    /// Last evaluation error.
    pub last_error: Option<String>,
}

/// Formula-driven span that overrides keyframes while it is active.
#[derive(Debug, Clone, PartialEq, Eq)]
pub struct StackAnimationFunction {
    pub id: u128,
    pub start_frame: usize,
    /// Span length in frames (at least one is used). End frame = start + duration.
    pub duration_frames: usize,
    pub channels: Vec<StackAnimChannel>,
}

/// Last frame of a stack span: start plus the duration (at least one),
/// saturating at the largest frame.
pub open spec fn spec_end_frame(start: usize, duration: usize) -> usize {
    let d = if duration >= 1 { duration } else { 1 };
    if start + d <= usize::MAX { (start + d) as usize } else { usize::MAX }
}

impl StackAnimationFunction {
    pub fn end_frame(&self) -> (e: usize)
        ensures
            e == spec_end_frame(self.start_frame, self.duration_frames),
            e >= self.start_frame,
    {
        let d = if self.duration_frames >= 1 {
            self.duration_frames
        } else {
            1
        };
        self.start_frame.saturating_add(d)
    }

    /// Whether `frame` lies in the span, both ends included.
    pub fn contains_frame(&self, frame: usize) -> (r: bool)
        ensures
            r == (self.start_frame <= frame <= spec_end_frame(self.start_frame, self.duration_frames)),
    {
        frame >= self.start_frame && frame <= self.end_frame()
    }
}

/// A keyframe track. `insert` keeps it sorted by frame.
#[derive(Debug, Clone, PartialEq, Eq)]
pub struct KeyframeTrack {
    pub keyframes: Vec<Keyframe>,
}

impl Default for KeyframeTrack {
    fn default() -> (t: Self)
        ensures
            t.keyframes@.len() == 0,
    {
        KeyframeTrack { keyframes: Vec::new() }
    }
}

/// Which keyframes a frame falls between, for interpolation.
#[derive(Debug, Clone, Copy, PartialEq, Eq, Structural)]
pub enum FrameSpan {
    /// The track has no keyframes.
    NoKeys,
    /// At or before the first keyframe: its value holds.
    First,
    /// At or after the last keyframe: its value holds.
    Last,
    /// Between keyframes `i` and `i + 1` (both inclusive).
    Between(usize),
    /// No pair of neighbours brackets the frame (an unsorted track).
    Unbracketed,
}

/// First position `j >= i` whose keyframe and the next one bracket
/// `frame` (both ends inclusive), or -1.
pub open spec fn first_bracket(s: Seq<Keyframe>, frame: usize, i: int) -> int
    decreases s.len() - i,
{
    if i < 0 || i + 1 >= s.len() {
        -1
    } else if s[i].frame <= frame && frame <= s[i + 1].frame {
        i
    } else {
        first_bracket(s, frame, i + 1)
    }
}

/// Where `frame` falls in the keyframes `s`: before the first, after the
/// last, or in the first pair of neighbours that brackets it.
pub open spec fn spec_span_at(s: Seq<Keyframe>, frame: usize) -> FrameSpan {
    if s.len() == 0 {
        FrameSpan::NoKeys
    } else if frame <= s[0].frame {
        FrameSpan::First
    } else if frame >= s.last().frame {
        FrameSpan::Last
    } else if first_bracket(s, frame, 0) >= 0 {
        FrameSpan::Between(first_bracket(s, frame, 0) as usize)
    } else {
        FrameSpan::Unbracketed
    }
}

proof fn lemma_bracket_found(s: Seq<Keyframe>, frame: usize, i: int)
    requires
        frames_sorted(s),
        0 <= i < s.len() - 1,
        s[i].frame <= frame,
        frame < s.last().frame,
    ensures
        i <= first_bracket(s, frame, i) < s.len() - 1,
    decreases s.len() - i,
{
    if frame > s[i + 1].frame {
        assert(i + 1 < s.len() - 1) by {
            if i + 1 == s.len() - 1 {
                assert(s[i + 1] == s.last());
            }
        }
        lemma_bracket_found(s, frame, i + 1);
    }
}

/// In a sorted track, a frame strictly inside the keyed range always falls
/// between two neighbouring keyframes.
pub proof fn lemma_sorted_span_is_bracketed(s: Seq<Keyframe>, frame: usize)
    requires
        frames_sorted(s),
        0 < s.len() <= usize::MAX,
        s[0].frame < frame < s.last().frame,
    ensures
        spec_span_at(s, frame) matches FrameSpan::Between(i) && s[i as int].frame <= frame <= s[i + 1].frame,
{
    assert(s.len() > 1) by {
        if s.len() == 1 {
            assert(s[0] == s.last());
        }
    }
    lemma_bracket_found(s, frame, 0);
    lemma_first_bracket_holds(s, frame, 0);
}

proof fn lemma_first_bracket_holds(s: Seq<Keyframe>, frame: usize, i: int)
    ensures
        first_bracket(s, frame, i) >= 0 ==> i <= first_bracket(s, frame, i) && first_bracket(s, frame, i) + 1
            < s.len() && s[first_bracket(s, frame, i)].frame <= frame <= s[first_bracket(s, frame, i) + 1].frame,
    decreases s.len() - i,
{
    if !(i < 0 || i + 1 >= s.len()) && !(s[i].frame <= frame && frame <= s[i + 1].frame) {
        lemma_first_bracket_holds(s, frame, i + 1);
    }
}

impl KeyframeTrack {
    /// Where `frame` falls among the keyframes (the integer part of
    /// interpolation; the values are blended by the caller).
    pub fn span_at(&self, frame: usize) -> (r: FrameSpan)
        ensures
            r == spec_span_at(self.keyframes@, frame),
    {
        let n = self.keyframes.len();
        if n == 0 {
            return FrameSpan::NoKeys;
        }
        if frame <= self.keyframes[0].frame {
            return FrameSpan::First;
        }
        let last = n - 1;
        if frame >= self.keyframes[last].frame {
            return FrameSpan::Last;
        }
        let mut i: usize = 0;
        while i < last
            invariant
                n == self.keyframes@.len(),
                last == n - 1,
                i <= last,
                frame > self.keyframes@[0].frame,
                frame < self.keyframes@.last().frame,
                first_bracket(self.keyframes@, frame, 0) == first_bracket(self.keyframes@, frame, i as int),
            decreases last - i,
        {
            if self.keyframes[i].frame <= frame && frame <= self.keyframes[i + 1].frame {
                assert(first_bracket(self.keyframes@, frame, i as int) == i as int);
                return FrameSpan::Between(i);
            }
            i = i + 1;
        }
        FrameSpan::Unbracketed
    }

    /// Deletes the keyframes strictly inside `(start, end)`, keeping the
    /// endpoints and everything outside.
    pub fn clear_keyframes_in_open_span(&mut self, start: usize, end: usize)
        ensures
            final(self).keyframes@ == old(self).keyframes@.filter(outside_open_span(start, end)),
    {
        let ghost p = outside_open_span(start, end);
        let mut kept: Vec<Keyframe> = Vec::new();
        let n = self.keyframes.len();
        let mut i: usize = 0;
        assert(self.keyframes@.take(0).filter(p) =~= Seq::<Keyframe>::empty()) by {
            reveal(Seq::filter);
        }
        while i < n
            invariant
                n == self.keyframes@.len(),
                self.keyframes@ == old(self).keyframes@,
                i <= n,
                p == outside_open_span(start, end),
                kept@ == self.keyframes@.take(i as int).filter(p),
            decreases n - i,
        {
            proof {
                lemma_filter_take_step(self.keyframes@, p, i as int);
            }
            let k = self.keyframes[i];
            if k.frame <= start || k.frame >= end {
                kept.push(k);
            }
            i = i + 1;
        }
        assert(self.keyframes@.take(n as int) =~= self.keyframes@);
        self.keyframes = kept;
    }

    /// Sets the value at `frame`, adding a keyframe (and re-sorting the
    /// track by frame) when there is none there.
    pub fn insert(&mut self, frame: usize, value_bits: u64)
        ensures
            final(self).keyframes@ == spec_insert(old(self).keyframes@, frame, value_bits),
    {
        let ghost p = at_frame(frame);
        let n = self.keyframes.len();
        let mut i: usize = 0;
        while i < n && self.keyframes[i].frame != frame
            invariant
                n == self.keyframes@.len(),
                i <= n,
                p == at_frame(frame),
                self.keyframes@ == old(self).keyframes@,
                forall|j: int| 0 <= j < i ==> !p(#[trigger] self.keyframes@[j]),
            decreases n - i,
        {
            i = i + 1;
        }
        if i < n {
            proof {
                lemma_first_index_is(self.keyframes@, p, i as int);
            }
            self.keyframes[i].value_bits = value_bits;
        } else {
            proof {
                lemma_first_index_none(self.keyframes@, p);
            }
            self.keyframes.push(Keyframe {
                frame,
                value_bits,
                interpolation: InterpolationMode::Linear,
                handle_left_x_bits: HANDLE_LEFT_X_BITS,
                handle_left_y_bits: 0,
                handle_right_x_bits: HANDLE_RIGHT_X_BITS,
                handle_right_y_bits: 0,
                handle_mode: BezierHandleMode::Both,
            });
            sort_keyframes(&mut self.keyframes);
        }
    }
}

/// Stable in-place sort of keyframes by frame.
fn sort_keyframes(v: &mut Vec<Keyframe>)
    ensures
        final(v)@ == sort_by_frame(old(v)@),
{
    let n = v.len();
    if n == 0 {
        return;
    }
    let mut i: usize = 1;
    proof {
        let t = old(v)@.take(1);
        assert(t.drop_last() =~= Seq::<Keyframe>::empty());
        assert(sort_by_frame(t.drop_last()) == Seq::<Keyframe>::empty());
        assert(sorted_insert(Seq::<Keyframe>::empty(), t.last()) == Seq::<Keyframe>::empty().push(t.last()));
        assert(sort_by_frame(t) =~= t);
    }
    while i < n
        invariant
            n == v@.len(),
            n == old(v)@.len(),
            1 <= i <= n,
            v@.take(i as int) == sort_by_frame(old(v)@.take(i as int)),
            v@.skip(i as int) == old(v)@.skip(i as int),
        decreases n - i,
    {
        let ghost sorted = v@.take(i as int);
        let ghost x = old(v)@[i as int];
        assert(v@[i as int] == x) by {
            assert(v@.skip(i as int)[0] == old(v)@.skip(i as int)[0]);
        }
        assert(v@.skip(i + 1) =~= old(v)@.skip(i + 1)) by {
            assert forall|k: int| 0 <= k < n - i - 1 implies #[trigger] v@.skip(i + 1)[k] == old(v)@.skip(i + 1)[k] by {
                assert(v@.skip(i as int)[k + 1] == old(v)@.skip(i as int)[k + 1]);
            }
        }
        assert(sorted_insert(sorted, x) =~= sorted_insert(v@.take(i as int), x) + v@.subrange(i + 1, i + 1));
        let mut j: usize = i;
        while j > 0 && v[j - 1].frame > v[j].frame
            invariant
                n == v@.len(),
                n == old(v)@.len(),
                0 <= j <= i < n,
                v@[j as int] == x,
                v@.skip(i + 1) == old(v)@.skip(i + 1),
                sorted_insert(sorted, x) == sorted_insert(v@.take(j as int), x) + v@.subrange(j + 1, i + 1),
            decreases j,
        {
            let a = v[j - 1];
            let b = v[j];
            let ghost before = v@;
            v.set(j - 1, b);
            v.set(j, a);
            proof {
                let pre = before.take(j as int);
                assert(pre.last() == a);
                assert(pre.drop_last() =~= v@.take(j - 1));
                assert(sorted_insert(pre, x) == sorted_insert(pre.drop_last(), x).push(a));
                assert(v@.subrange(j as int, i + 1) =~= seq![a] + before.subrange(j + 1, i + 1));
                assert(sorted_insert(pre.drop_last(), x).push(a) + before.subrange(j + 1, i + 1)
                    =~= sorted_insert(pre.drop_last(), x) + (seq![a] + before.subrange(j + 1, i + 1)));
                assert(v@.skip(i + 1) =~= before.skip(i + 1));
            }
            j = j - 1;
        }
        proof {
            let pre = v@.take(j as int);
            assert(sorted_insert(pre, x) == pre.push(x));
            assert(v@.take(i + 1) =~= pre.push(x) + v@.subrange(j + 1, i + 1));
            assert(old(v)@.take(i + 1).drop_last() =~= old(v)@.take(i as int));
            assert(old(v)@.take(i + 1).last() == x);
            assert(v@.skip(i + 1) =~= old(v)@.skip(i + 1));
        }
        i = i + 1;
    }
    assert(v@.take(n as int) =~= v@);
    assert(old(v)@.take(n as int) =~= old(v)@);
}

} // verus!
