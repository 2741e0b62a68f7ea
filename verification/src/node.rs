//! Drawable-node vocabulary: path edit targets, bezier handle modes, arc
//! joins, and the display name of a text node.

use vstd::prelude::*;
use crate::text::{char_slice, owned, string_push, trim_str, trimmed};

verus! {

/// What a path edit drags: an anchor or one of its two handles.
#[derive(Debug, Clone, Copy, PartialEq, Eq, Structural)]
pub enum PathEditTarget {
    Anchor(usize),
    HandleOut(usize),
    HandleIn(usize),
}

impl PathEditTarget {
    /// Index of the anchor the target belongs to.
    pub fn anchor_index(self) -> (i: usize)
        ensures
            i == (match self {
                PathEditTarget::Anchor(a) => a,
                PathEditTarget::HandleOut(a) => a,
                PathEditTarget::HandleIn(a) => a,
            }),
    {
        match self {
            PathEditTarget::Anchor(i) => i,
            PathEditTarget::HandleOut(i) => i,
            PathEditTarget::HandleIn(i) => i,
        }
    }
}

/// How paired bezier handles behave when one is dragged.
#[derive(Debug, Clone, Copy, PartialEq, Eq, Structural)]
pub enum BezierHandleMode {
    /// Opposite direction, equal length.
    Symmetric,
    /// Each handle moves independently.
    Asymmetric,
    /// Opposite direction with equal length (alias of symmetric, shown in the UI).
    EqualLength,
    /// Single incoming handle.
    LeftOnly,
    /// Single outgoing handle.
    RightOnly,
    /// Both handles independent.
    Both,
}

impl Default for BezierHandleMode {
    fn default() -> (m: Self)
        ensures
            m == BezierHandleMode::Symmetric,
    {
        BezierHandleMode::Symmetric
    }
}

impl BezierHandleMode {
    pub fn label(self) -> (s: &'static str)
        ensures
            s@ == (match self {
                BezierHandleMode::Symmetric => "Symmetric"@,
                BezierHandleMode::Asymmetric => "Asymmetric"@,
                BezierHandleMode::EqualLength => "Equal Length"@,
                BezierHandleMode::LeftOnly => "Left Only"@,
                BezierHandleMode::RightOnly => "Right Only"@,
                BezierHandleMode::Both => "Both"@,
            }),
    {
        match self {
            BezierHandleMode::Symmetric => "Symmetric",
            BezierHandleMode::Asymmetric => "Asymmetric",
            BezierHandleMode::EqualLength => "Equal Length",
            BezierHandleMode::LeftOnly => "Left Only",
            BezierHandleMode::RightOnly => "Right Only",
            BezierHandleMode::Both => "Both",
        }
    }
}

/// How an open arc is closed.
#[derive(Debug, Clone, Copy, PartialEq, Eq, Structural)]
pub enum ArcJoin {
    /// Open arc.
    NoJoin,
    /// Straight line from the end point back to the start point.
    Chord,
    /// Pie slice: lines from the centre to both ends.
    ToOrigin,
}

impl Default for ArcJoin {
    fn default() -> (j: Self)
        ensures
            j == ArcJoin::NoJoin,
    {
        ArcJoin::NoJoin
    }
}

/// Marker for entities that can take part in object-on-path effects.
pub trait ObjectOnPath {
}

/// Font family of a new text node.
pub fn default_font_family() -> (s: String)
    ensures
        s@ == "Noto Sans"@,
{
    owned("Noto Sans")
}

/// End of the line of `s` that starts at `i`: the first `'\n'` from `i` on,
/// or the end of `s`.
pub open spec fn line_end(s: Seq<char>, i: int) -> int
    decreases s.len() - i,
{
    if 0 <= i < s.len() && s[i] != '\n' {
        line_end(s, i + 1)
    } else {
        i
    }
}

/// The first line of `s` (what `str::lines().next()` gives, up to a
/// trailing carriage return, which trimming removes anyway).
pub open spec fn first_line(s: Seq<char>) -> Seq<char> {
    s.take(line_end(s, 0))
}

/// Longest text-node name shown before it is cut with an ellipsis.
pub const DISPLAY_NAME_MAX_CHARS: usize = 40;

/// Layer-panel name of a text node: its first line, trimmed; `"Text"` when
/// that is empty; cut to 40 characters followed by `…` when longer.
pub open spec fn spec_text_display_name(content: Seq<char>) -> Seq<char> {
    let line = trimmed(first_line(content));
    if line.len() == 0 {
        "Text"@
    } else if line.len() <= DISPLAY_NAME_MAX_CHARS {
        line
    } else {
        line.take(DISPLAY_NAME_MAX_CHARS as int).push('…')
    }
}

proof fn lemma_line_end_bounds(s: Seq<char>, i: int)
    requires
        0 <= i <= s.len(),
    ensures
        i <= line_end(s, i) <= s.len(),
    decreases s.len() - i,
{
    if i < s.len() && s[i] != '\n' {
        lemma_line_end_bounds(s, i + 1);
    }
}

pub fn text_display_name(content: &str) -> (r: String)
    ensures
        r@ == spec_text_display_name(content@),
{
    let n = content.unicode_len();
    let mut e: usize = 0;
    while e < n && content.get_char(e) != '\n'
        invariant
            n == content@.len(),
            e <= n,
            line_end(content@, 0) == line_end(content@, e as int),
        decreases n - e,
    {
        e = e + 1;
    }
    proof {
        lemma_line_end_bounds(content@, 0);
    }
    let first = char_slice(content, 0, e);
    assert(first@ =~= first_line(content@));
    let line = trim_str(first.as_str());
    let len = line.as_str().unicode_len();
    if len == 0 {
        owned("Text")
    } else if len <= DISPLAY_NAME_MAX_CHARS {
        line
    } else {
        let mut cut = char_slice(line.as_str(), 0, DISPLAY_NAME_MAX_CHARS);
        string_push(&mut cut, '…');
        cut
    }
}

/// Scan of the first `k` verbs of a path with `n` points: the indices of
/// the anchor points found so far, and the index of the next point. A move
/// or line (verbs 0 and 1) takes one point, its anchor; a quadratic (2) two,
/// the second its anchor; a cubic (3) three, the third its anchor (with
/// only two left it takes them and names no anchor); a close (4) and
/// unknown verbs take none. A verb whose points are missing is skipped.
pub open spec fn anchor_scan(verbs: Seq<u8>, n: nat, k: int) -> (Seq<usize>, nat)
    decreases k,
{
    if k <= 0 {
        (Seq::empty(), 0)
    } else {
        let (ix, pi) = anchor_scan(verbs, n, k - 1);
        let v = verbs[k - 1];
        if v == 0 || v == 1 {
            if pi < n {
                (ix.push(pi as usize), pi + 1)
            } else {
                (ix, pi)
            }
        } else if v == 2 {
            if pi + 1 < n {
                (ix.push((pi + 1) as usize), pi + 2)
            } else {
                (ix, pi)
            }
        } else if v == 3 {
            if pi + 2 < n {
                (ix.push((pi + 2) as usize), pi + 3)
            } else if pi + 1 < n {
                (ix, pi + 2)
            } else {
                (ix, pi)
            }
        } else {
            (ix, pi)
        }
    }
}

proof fn lemma_anchor_scan_bounds(verbs: Seq<u8>, n: nat, k: int)
    requires
        k <= verbs.len(),
    ensures
        anchor_scan(verbs, n, k).1 <= n,
        forall|i: int| 0 <= i < anchor_scan(verbs, n, k).0.len() ==> (#[trigger] anchor_scan(verbs, n, k).0[i]) < n,
    decreases k,
{
    if k > 0 {
        lemma_anchor_scan_bounds(verbs, n, k - 1);
    }
}

/// Indices, among the `n_points` points of a path with verbs `verbs`, of
/// its anchor points (the on-curve end points), in order.
pub fn path_anchor_point_indices(verbs: &Vec<u8>, n_points: usize) -> (r: Vec<usize>)
    ensures
        r@ == anchor_scan(verbs@, n_points as nat, verbs@.len() as int).0,
        forall|i: int| 0 <= i < r@.len() ==> #[trigger] r@[i] < n_points,
{
    let mut indices: Vec<usize> = Vec::new();
    let mut pi: usize = 0;
    let mut k: usize = 0;
    while k < verbs.len()
        invariant
            k <= verbs@.len(),
            (indices@, pi as nat) == anchor_scan(verbs@, n_points as nat, k as int),
            pi <= n_points,
        decreases verbs@.len() - k,
    {
        proof {
            lemma_anchor_scan_bounds(verbs@, n_points as nat, k as int);
        }
        let v = verbs[k];
        if v == 0 || v == 1 {
            if pi < n_points {
                indices.push(pi);
                pi = pi + 1;
            }
        } else if v == 2 {
            if n_points - pi > 1 {
                indices.push(pi + 1);
                pi = pi + 2;
            }
        } else if v == 3 {
            if n_points - pi > 2 {
                indices.push(pi + 2);
                pi = pi + 3;
            } else if n_points - pi > 1 {
                pi = pi + 2;
            }
        }
        k = k + 1;
    }
    proof {
        lemma_anchor_scan_bounds(verbs@, n_points as nat, verbs@.len() as int);
    }
    indices
}

/// The anchors `0..n` that `indices` does not name, in order.
pub open spec fn kept_anchors(n: int, indices: Seq<usize>) -> Seq<usize>
    decreases n,
{
    if n <= 0 {
        Seq::empty()
    } else if indices.contains((n - 1) as usize) {
        kept_anchors(n - 1, indices)
    } else {
        kept_anchors(n - 1, indices).push((n - 1) as usize)
    }
}

/// Fewest anchors a path keeps: three when closed, two when open.
pub open spec fn min_anchors(closed: bool) -> nat {
    if closed {
        3
    } else {
        2
    }
}

/// Which anchors of a path with `n` anchors survive removing `indices`:
/// the kept ones, in order (their new index is their position), or None
/// when fewer than the minimum would remain or nothing would be removed.
pub fn remove_anchors_plan(n: usize, closed: bool, indices: &Vec<usize>) -> (r: Option<Vec<usize>>)
    ensures
        ({
            let kept = kept_anchors(n as int, indices@);
            match r {
                Some(k) => k@ == kept && min_anchors(closed) <= kept.len() && kept.len() != n,
                None => kept.len() < min_anchors(closed) || kept.len() == n,
            }
        }),
{
    let mut kept: Vec<usize> = Vec::new();
    let mut i: usize = 0;
    while i < n
        invariant
            i <= n,
            kept@ == kept_anchors(i as int, indices@),
            kept@.len() <= i,
        decreases n - i,
    {
        let mut named = false;
        let mut j: usize = 0;
        while j < indices.len()
            invariant
                j <= indices@.len(),
                named == (exists|w: int| 0 <= w < j && indices@[w] == i),
            decreases indices@.len() - j,
        {
            if indices[j] == i {
                named = true;
            }
            j = j + 1;
        }
        proof {
            if indices@.contains(i) {
                let w = choose|w: int| 0 <= w < indices@.len() && indices@[w] == i;
                assert(named);
            }
        }
        if !named {
            kept.push(i);
        }
        i = i + 1;
    }
    let min: usize = if closed {
        3
    } else {
        2
    };
    if kept.len() < min || kept.len() == n {
        None
    } else {
        Some(kept)
    }
}

/// The anchor indices `s` of a path with `n` anchors, counted from the
/// other end (`i` becomes `n - 1 - i`), as reversing the path renumbers
/// them.
pub open spec fn from_other_end(n: usize, s: Seq<usize>) -> Seq<usize> {
    s.map_values(|i: usize| (n - 1 - i) as usize)
}

/// `s` never decreases.
pub open spec fn ascending(s: Seq<usize>) -> bool {
    forall|i: int, j: int| 0 <= i <= j < s.len() ==> s[i] <= s[j]
}

/// The smooth anchors of a path with `n` anchors after the path is
/// reversed: each renumbered from the other end, then sorted (repeats
/// kept).
pub fn reversed_anchor_indices(n: usize, s: &Vec<usize>) -> (r: Vec<usize>)
    requires
        forall|k: int| 0 <= k < s@.len() ==> #[trigger] s@[k] < n,
    ensures
        ascending(r@),
        r@.to_multiset() == from_other_end(n, s@).to_multiset(),
{
    let ghost m = from_other_end(n, s@);
    let mut r: Vec<usize> = Vec::new();
    let mut k: usize = 0;
    assert(m.take(0) =~= r@);
    while k < s.len()
        invariant
            k <= s@.len(),
            m == from_other_end(n, s@),
            m.len() == s@.len(),
            forall|q: int| 0 <= q < s@.len() ==> #[trigger] s@[q] < n,
            ascending(r@),
            r@.to_multiset() == m.take(k as int).to_multiset(),
        decreases s@.len() - k,
    {
        let sk = s[k];
        let x = n - 1 - sk;
        assert(m[k as int] == x);
        let mut p: usize = 0;
        while p < r.len() && r[p] <= x
            invariant
                p <= r@.len(),
                forall|q: int| 0 <= q < p ==> #[trigger] r@[q] <= x,
            decreases r@.len() - p,
        {
            p = p + 1;
        }
        let ghost r0 = r@;
        r.insert(p, x);
        proof {
            assert(m.take(k as int + 1) =~= m.take(k as int).push(x));
            assert(r@ == r0.insert(p as int, x));
            vstd::seq_lib::to_multiset_insert(r0, p as int, x);
            vstd::seq_lib::to_multiset_build(m.take(k as int), x);
            assert forall|i: int, j: int| 0 <= i <= j < r@.len() implies r@[i] <= r@[j] by {
                if i < p && j < p {
                    assert(r@[i] == r0[i] && r@[j] == r0[j]);
                } else if i < p && j == p {
                    assert(r@[i] == r0[i]);
                } else if i < p {
                    assert(r@[i] == r0[i] && r@[j] == r0[j - 1]);
                } else if i == p && j > p {
                    assert(r@[j] == r0[j - 1]);
                    assert(r0[p as int] > x);
                    assert(r0[p as int] <= r0[j - 1]);
                } else if i > p {
                    assert(r@[i] == r0[i - 1] && r@[j] == r0[j - 1]);
                }
            }
        }
        k = k + 1;
    }
    assert(m.take(s@.len() as int) =~= m);
    r
}

} // verus!
