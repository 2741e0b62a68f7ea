//! Path effect settings: object-on-path modes, circular clone orientation
//! and boolean operations.

use vstd::prelude::*;
use indexmap::IndexMap;
use crate::effect_map::{
    boolean_effect_values, boolean_effects_in_order, circular_values, circulars_in_order, clip_mask_values,
    clip_masks_in_order, effect_entries, effects_get_index, effects_len, tiling_values, tilings_in_order,
};
use crate::ids::fresh_id;
use crate::seqs::{first_index, lemma_first_index_is, lemma_first_index_none};

verus! {

/// How copies of the source are laid along the path.
#[derive(Debug, Clone, Copy, PartialEq, Eq, Structural)]
pub enum OnPathMode {
    /// A copy every `gap` document units along the path.
    GapDuplicate,
    /// `count` evenly spaced copies.
    EvenlySpaced,
    /// Dense slices along the path: a continuous extrusion.
    Loft,
}

impl Default for OnPathMode {
    fn default() -> (m: Self)
        ensures
            m == OnPathMode::GapDuplicate,
    {
        OnPathMode::GapDuplicate
    }
}

/// How each circular-clone instance is oriented.
#[derive(Debug, Clone, Copy, PartialEq, Eq, Structural)]
pub enum CircularRotateMode {
    /// Keep the source orientation for every copy.
    Static,
    /// Rotate each copy by its step around the origin.
    ReferenceOrigin,
}

impl Default for CircularRotateMode {
    fn default() -> (m: Self)
        ensures
            m == CircularRotateMode::ReferenceOrigin,
    {
        CircularRotateMode::ReferenceOrigin
    }
}

impl CircularRotateMode {
    pub fn label(self) -> (s: &'static str)
        ensures
            s@ == (match self {
                CircularRotateMode::Static => "Static"@,
                CircularRotateMode::ReferenceOrigin => "Origin"@,
            }),
    {
        match self {
            CircularRotateMode::Static => "Static",
            CircularRotateMode::ReferenceOrigin => "Origin",
        }
    }
}

/// Boolean operation between solid face shapes.
#[derive(Debug, Clone, Copy, PartialEq, Eq, Structural)]
pub enum BooleanOpKind {
    Union,
    Intersection,
    Difference,
    /// Symmetric difference; only for exactly two operands.
    Exclude,
}

impl Default for BooleanOpKind {
    fn default() -> (k: Self)
        ensures
            k == BooleanOpKind::Union,
    {
        BooleanOpKind::Union
    }
}

impl BooleanOpKind {
    pub fn label(self) -> (s: &'static str)
        ensures
            s@ == (match self {
                BooleanOpKind::Union => "Union"@,
                BooleanOpKind::Intersection => "Intersection"@,
                BooleanOpKind::Difference => "Difference"@,
                BooleanOpKind::Exclude => "Exclude"@,
            }),
    {
        match self {
            BooleanOpKind::Union => "Union",
            BooleanOpKind::Intersection => "Intersection",
            BooleanOpKind::Difference => "Difference",
            BooleanOpKind::Exclude => "Exclude",
        }
    }

    /// Operations that fold cleanly over two or more operands.
    pub fn supports_multi(self) -> (r: bool)
        ensures
            r == (self == BooleanOpKind::Union || self == BooleanOpKind::Intersection),
    {
        match self {
            BooleanOpKind::Union | BooleanOpKind::Intersection => true,
            _ => false,
        }
    }
}

/// Default of the boolean effect flags that start switched on.
pub fn default_true() -> (b: bool)
    ensures
        b,
{
    true
}

/// Copies of a source object laid along a path. Distances and scales are
/// kept as the bit patterns of their floating-point values.
#[derive(Debug, Clone, Copy, PartialEq, Eq)]
pub struct ObjectOnPathEffect {
    pub id: u128,
    pub source_id: u128,
    pub path_id: u128,
    pub mode: OnPathMode,
    pub gap_bits: u64,
    pub count: usize,
    pub start_offset_bits: u64,
    pub rotate_to_tangent: bool,
    pub cyclic: bool,
    pub loft_end_scale_bits: u32,
    pub loft_end_opacity_bits: u32,
    pub hide_source: bool,
    /// Pick/drag proxy standing for the whole result (not drawn).
    pub form_node_id: Option<u128>,
}

/// A grid of copies of a source object. Gaps, offsets, rotations and
/// scales are kept as the bit patterns of their `f64` values.
#[derive(Debug, Clone, Copy, PartialEq, Eq)]
pub struct TilingEffect {
    pub id: u128,
    pub source_id: u128,
    pub gap_x_bits: u64,
    pub gap_y_bits: u64,
    pub count_x: usize,
    pub count_y: usize,
    pub offset_x_bits: u64,
    pub offset_y_bits: u64,
    pub row_rotation_bits: u64,
    pub col_rotation_bits: u64,
    pub row_scale_bits: u64,
    pub col_scale_bits: u64,
    pub hide_source: bool,
}

/// Copies of a source object around a circle. Positions, radius and angle
/// are kept as the bit patterns of their `f64` values.
#[derive(Debug, Clone, Copy, PartialEq, Eq)]
pub struct CircularCloneEffect {
    pub id: u128,
    pub source_id: u128,
    pub origin_x_bits: u64,
    pub origin_y_bits: u64,
    pub radius_bits: u64,
    pub copies: usize,
    pub angle_offset_bits: u64,
    pub base_x_bits: u64,
    pub base_y_bits: u64,
    pub hide_source: bool,
    pub rotate_mode: CircularRotateMode,
}

/// A raster source clipped to the filled shape of a mask node.
#[derive(Debug, Clone, Copy, PartialEq, Eq, Structural)]
pub struct ClipMaskEffect {
    pub id: u128,
    /// The object being clipped (usually an image).
    pub source_id: u128,
    /// The node whose filled geometry is the clip region.
    pub mask_id: u128,
    /// The mask node itself is hidden from normal rendering.
    pub hide_mask: bool,
}

/// A boolean operation between two solid face shapes.
#[derive(Debug, Clone, Copy, PartialEq, Eq, Structural)]
pub struct BooleanEffect {
    pub id: u128,
    /// Operand A (left side of A − B).
    pub a_id: u128,
    /// Operand B.
    pub b_id: u128,
    pub op: BooleanOpKind,
    /// A and B are hidden while the effect is active.
    pub hide_operands: bool,
    /// Generated path node showing the result.
    pub result_node_id: Option<u128>,
}

/// Bit pattern of the `f64` 48.0, the default gap and radius.
pub const FORTY_EIGHT_BITS: u64 = 0x4048_0000_0000_0000u64;

impl Default for TilingEffect {
    /// A 3 × 3 grid with 48-unit gaps and no source yet (fresh identity).
    fn default() -> (e: Self)
        ensures
            e.source_id == 0,
            e.gap_x_bits == FORTY_EIGHT_BITS && e.gap_y_bits == FORTY_EIGHT_BITS,
            e.count_x == 3 && e.count_y == 3,
            e.offset_x_bits == 0 && e.offset_y_bits == 0,
            e.row_rotation_bits == 0 && e.col_rotation_bits == 0,
            e.row_scale_bits == 0 && e.col_scale_bits == 0,
            !e.hide_source,
    {
        TilingEffect {
            id: fresh_id(),
            source_id: 0,
            gap_x_bits: FORTY_EIGHT_BITS,
            gap_y_bits: FORTY_EIGHT_BITS,
            count_x: 3,
            count_y: 3,
            offset_x_bits: 0,
            offset_y_bits: 0,
            row_rotation_bits: 0,
            col_rotation_bits: 0,
            row_scale_bits: 0,
            col_scale_bits: 0,
            hide_source: false,
        }
    }
}

impl Default for CircularCloneEffect {
    /// Six copies on a 48-unit ring around the origin, each turned with
    /// its step, no source yet (fresh identity).
    fn default() -> (e: Self)
        ensures
            e.source_id == 0,
            e.origin_x_bits == 0 && e.origin_y_bits == 0,
            e.radius_bits == FORTY_EIGHT_BITS,
            e.copies == 6,
            e.angle_offset_bits == 0,
            e.base_x_bits == 0 && e.base_y_bits == 0,
            !e.hide_source,
            e.rotate_mode == CircularRotateMode::ReferenceOrigin,
    {
        CircularCloneEffect {
            id: fresh_id(),
            source_id: 0,
            origin_x_bits: 0,
            origin_y_bits: 0,
            radius_bits: FORTY_EIGHT_BITS,
            copies: 6,
            angle_offset_bits: 0,
            base_x_bits: 0,
            base_y_bits: 0,
            hide_source: false,
            rotate_mode: CircularRotateMode::ReferenceOrigin,
        }
    }
}

impl Default for ClipMaskEffect {
    /// No source or mask yet; the mask is hidden (fresh identity).
    fn default() -> (e: Self)
        ensures
            e.source_id == 0 && e.mask_id == 0,
            e.hide_mask,
    {
        ClipMaskEffect { id: fresh_id(), source_id: 0, mask_id: 0, hide_mask: true }
    }
}

impl Default for BooleanEffect {
    /// A union of no operands yet, operands hidden, no result node (fresh
    /// identity).
    fn default() -> (e: Self)
        ensures
            e.a_id == 0 && e.b_id == 0,
            e.op == BooleanOpKind::Union,
            e.hide_operands,
            e.result_node_id is None,
    {
        BooleanEffect {
            id: fresh_id(),
            a_id: 0,
            b_id: 0,
            op: BooleanOpKind::Union,
            hide_operands: true,
            result_node_id: None,
        }
    }
}

/// The effects of a table, in order.
pub open spec fn effect_values(m: IndexMap<u128, ObjectOnPathEffect>) -> Seq<ObjectOnPathEffect> {
    effect_entries(m).map_values(|e: (u128, ObjectOnPathEffect)| e.1)
}

/// The effect joins objects `a` and `b`, in either role.
pub open spec fn pair_pred(a: u128, b: u128) -> spec_fn(ObjectOnPathEffect) -> bool {
    |e: ObjectOnPathEffect| (e.source_id == a && e.path_id == b) || (e.source_id == b && e.path_id == a)
}

/// The effect's pick proxy is `form_id`.
pub open spec fn form_pred(form_id: u128) -> spec_fn(ObjectOnPathEffect) -> bool {
    |e: ObjectOnPathEffect| e.form_node_id == Some(form_id)
}

/// First effect of `m` satisfying `p`.
pub open spec fn first_effect(m: IndexMap<u128, ObjectOnPathEffect>, p: spec_fn(ObjectOnPathEffect) -> bool) -> Option<ObjectOnPathEffect> {
    let i = first_index(effect_values(m), p);
    if i >= 0 {
        Some(effect_values(m)[i])
    } else {
        None
    }
}

fn find_first<'a>(effects: &'a IndexMap<u128, ObjectOnPathEffect>, pair: bool, a: u128, b: u128) -> (r: Option<&'a ObjectOnPathEffect>)
    ensures
        ({
            let p = if pair { pair_pred(a, b) } else { form_pred(a) };
            match first_effect(*effects, p) {
                Some(e) => r == Some(&e),
                None => r is None,
            }
        }),
{
    let ghost p = if pair { pair_pred(a, b) } else { form_pred(a) };
    let ghost vs = effect_values(*effects);
    let n = effects_len(effects);
    let mut i: usize = 0;
    while i < n
        invariant
            n == vs.len(),
            vs == effect_values(*effects),
            p == (if pair { pair_pred(a, b) } else { form_pred(a) }),
            i <= n,
            forall|j: int| 0 <= j < i ==> !p(#[trigger] vs[j]),
        decreases n - i,
    {
        let (_k, e) = effects_get_index(effects, i);
        assert(vs[i as int] == *e);
        let hit = if pair {
            (e.source_id == a && e.path_id == b) || (e.source_id == b && e.path_id == a)
        } else {
            e.form_node_id == Some(a)
        };
        if hit {
            proof {
                lemma_first_index_is(vs, p, i as int);
            }
            return Some(e);
        }
        i = i + 1;
    }
    proof {
        lemma_first_index_none(vs, p);
    }
    None
}

/// The effect that joins objects `a` and `b` (either one as the source).
pub fn find_effect_for_pair<'a>(effects: &'a IndexMap<u128, ObjectOnPathEffect>, a: u128, b: u128) -> (r: Option<&'a ObjectOnPathEffect>)
    ensures
        match first_effect(*effects, pair_pred(a, b)) {
            Some(e) => r == Some(&e),
            None => r is None,
        },
{
    find_first(effects, true, a, b)
}

/// The effect whose pick proxy is `form_id`.
pub fn path_effect_by_form_node<'a>(effects: &'a IndexMap<u128, ObjectOnPathEffect>, form_id: u128) -> (r: Option<&'a ObjectOnPathEffect>)
    ensures
        match first_effect(*effects, form_pred(form_id)) {
            Some(e) => r == Some(&e),
            None => r is None,
        },
{
    find_first(effects, false, form_id, 0)
}

/// Whether some object of `objects` is joined to `path_id` by an effect.
pub fn has_effect_for_objects(effects: &IndexMap<u128, ObjectOnPathEffect>, objects: &[u128], path_id: u128) -> (r: bool)
    ensures
        r == exists|k: int| 0 <= k < objects@.len() && #[trigger] first_effect(*effects, pair_pred(objects@[k], path_id)) is Some,
{
    let mut k: usize = 0;
    while k < objects.len()
        invariant
            k <= objects@.len(),
            forall|j: int| 0 <= j < k ==> #[trigger] first_effect(*effects, pair_pred(objects@[j], path_id)) is None,
        decreases objects@.len() - k,
    {
        if find_effect_for_pair(effects, objects[k], path_id).is_some() {
            return true;
        }
        k = k + 1;
    }
    false
}

/// Sources replaced on the canvas by an active effect (those with
/// `hide_source`).
pub fn hidden_effect_sources(effects: &IndexMap<u128, ObjectOnPathEffect>) -> (r: std::collections::HashSet<u128>)
    ensures
        forall|x: u128| r@.contains(x) <==> exists|j: int|
            0 <= j < effect_values(*effects).len() && #[trigger] effect_values(*effects)[j].hide_source
                && effect_values(*effects)[j].source_id == x,
{
    broadcast use vstd::std_specs::hash::group_hash_axioms;
    let ghost vs = effect_values(*effects);
    let mut r: std::collections::HashSet<u128> = std::collections::HashSet::new();
    let n = effects_len(effects);
    let mut i: usize = 0;
    while i < n
        invariant
            vstd::std_specs::hash::obeys_key_model::<u128>(),
            n == vs.len(),
            vs == effect_values(*effects),
            i <= n,
            forall|x: u128| r@.contains(x) <==> exists|j: int| 0 <= j < i && #[trigger] vs[j].hide_source && vs[j].source_id == x,
        decreases n - i,
    {
        let (_k, e) = effects_get_index(effects, i);
        assert(vs[i as int] == *e);
        if e.hide_source {
            r.insert(e.source_id);
        }
        i = i + 1;
    }
    r
}

/// The pick proxies of all effects.
pub fn path_effect_form_node_ids(effects: &IndexMap<u128, ObjectOnPathEffect>) -> (r: std::collections::HashSet<u128>)
    ensures
        forall|x: u128| r@.contains(x) <==> exists|j: int|
            0 <= j < effect_values(*effects).len() && #[trigger] effect_values(*effects)[j].form_node_id == Some(x),
{
    broadcast use vstd::std_specs::hash::group_hash_axioms;
    let ghost vs = effect_values(*effects);
    let mut r: std::collections::HashSet<u128> = std::collections::HashSet::new();
    let n = effects_len(effects);
    let mut i: usize = 0;
    while i < n
        invariant
            vstd::std_specs::hash::obeys_key_model::<u128>(),
            n == vs.len(),
            vs == effect_values(*effects),
            i <= n,
            forall|x: u128| r@.contains(x) <==> exists|j: int| 0 <= j < i && #[trigger] vs[j].form_node_id == Some(x),
        decreases n - i,
    {
        let (_k, e) = effects_get_index(effects, i);
        assert(vs[i as int] == *e);
        match e.form_node_id {
            Some(f) => {
                r.insert(f);
            },
            None => {},
        }
        i = i + 1;
    }
    r
}


/// Ids in increasing order, each once.
pub open spec fn increasing(s: Seq<u128>) -> bool {
    forall|i: int, j: int| 0 <= i < j < s.len() ==> s[i] < s[j]
}

/// `r` lists the ids of `s` in increasing order, each once (what sorting
/// and then dropping repeats gives).
pub open spec fn sorted_set_of(r: Seq<u128>, s: Seq<u128>) -> bool {
    &&& increasing(r)
    &&& forall|x: u128| r.contains(x) <==> s.contains(x)
}

/// The ids of `v`, sorted and each once.
fn sorted_unique(v: Vec<u128>) -> (r: Vec<u128>)
    ensures
        sorted_set_of(r@, v@),
{
    let mut r: Vec<u128> = Vec::new();
    let mut i: usize = 0;
    while i < v.len()
        invariant
            i <= v@.len(),
            increasing(r@),
            forall|x: u128| r@.contains(x) <==> v@.take(i as int).contains(x),
        decreases v@.len() - i,
    {
        let x = v[i];
        let ghost t1 = v@.take(i as int + 1);
        let mut k: usize = 0;
        while k < r.len() && r[k] < x
            invariant
                k <= r@.len(),
                forall|j: int| 0 <= j < k ==> r@[j] < x,
            decreases r@.len() - k,
        {
            k = k + 1;
        }
        proof {
            let t0 = v@.take(i as int);
            assert forall|y: u128| t1.contains(y) <==> (t0.contains(y) || y == x) by {
                if t1.contains(y) {
                    let w = choose|w: int| 0 <= w < t1.len() && t1[w] == y;
                    if w < i {
                        assert(t0[w] == y);
                    }
                }
                if t0.contains(y) {
                    let w = choose|w: int| 0 <= w < t0.len() && t0[w] == y;
                    assert(t1[w] == y);
                }
                if y == x {
                    assert(t1[i as int] == y);
                }
            }
        }
        if k < r.len() && r[k] == x {
            assert(r@[k as int] == x);
            assert forall|y: u128| r@.contains(y) <==> t1.contains(y) by {
                assert(r@.contains(y) <==> v@.take(i as int).contains(y));
            }
        } else {
            let ghost old_r = r@;
            r.insert(k, x);
            proof {
                assert(r@ =~= old_r.take(k as int).push(x) + old_r.skip(k as int));
                assert forall|a: int, b: int| 0 <= a < b < r@.len() implies r@[a] < r@[b] by {
                    if b < k {
                    } else if b == k {
                        assert(r@[a] == old_r[a]);
                    } else if a < k {
                        assert(r@[b] == old_r[b - 1]);
                        assert(old_r[k as int] >= x);
                        if b - 1 > k {
                            assert(old_r[k as int] < old_r[b - 1]);
                        }
                    } else if a == k {
                        assert(r@[b] == old_r[b - 1]);
                        if b - 1 > k {
                            assert(old_r[k as int] < old_r[b - 1]);
                        }
                    } else {
                        assert(r@[a] == old_r[a - 1]);
                        assert(r@[b] == old_r[b - 1]);
                    }
                }
                assert forall|y: u128| r@.contains(y) <==> (old_r.contains(y) || y == x) by {
                    if r@.contains(y) {
                        let w = choose|w: int| 0 <= w < r@.len() && r@[w] == y;
                        if w < k {
                            assert(old_r[w] == y);
                        } else if w > k {
                            assert(old_r[w - 1] == y);
                        }
                    }
                    if old_r.contains(y) {
                        let w = choose|w: int| 0 <= w < old_r.len() && old_r[w] == y;
                        if w < k {
                            assert(r@[w] == y);
                        } else {
                            assert(r@[w + 1] == y);
                        }
                    }
                    if y == x {
                        assert(r@[k as int] == y);
                    }
                }
                assert forall|y: u128| r@.contains(y) <==> t1.contains(y) by {
                    assert(old_r.contains(y) <==> v@.take(i as int).contains(y));
                }
            }
        }
        i = i + 1;
        assert(v@.take(i as int) =~= t1);
    }
    assert(v@.take(v@.len() as int) =~= v@);
    r
}

/// The effect's source or path is `id`.
pub open spec fn on_path_touching(id: u128) -> spec_fn(ObjectOnPathEffect) -> bool {
    |e: ObjectOnPathEffect| e.source_id == id || e.path_id == id
}

/// The boolean effect has `id` as an operand or as its result.
pub open spec fn boolean_touching(id: u128) -> spec_fn(BooleanEffect) -> bool {
    |e: BooleanEffect| e.a_id == id || e.b_id == id || e.result_node_id == Some(id)
}

/// What moves with node `id` (given the on-path, boolean and clip-mask
/// effects in table order): an on-path effect's pick proxy drags the whole
/// effect; an effect's source or path drags the effect's members (sorted,
/// each once); a boolean result drags both operands with it; anything else
/// (an operand alone, a clip-mask member, an ordinary node) moves alone.
pub open spec fn move_bundle_of(
    paths: Seq<ObjectOnPathEffect>,
    bools: Seq<BooleanEffect>,
    id: u128,
    r: Seq<u128>,
) -> bool {
    let f = first_index(paths, form_pred(id));
    let e = first_index(paths, on_path_touching(id));
    let b = first_index(bools, boolean_touching(id));
    if f >= 0 {
        r == seq![id, paths[f].source_id, paths[f].path_id]
    } else if e >= 0 {
        sorted_set_of(
            r,
            seq![paths[e].source_id, paths[e].path_id] + match paths[e].form_node_id {
                Some(x) => seq![x],
                None => Seq::empty(),
            },
        )
    } else if b >= 0 && bools[b].result_node_id == Some(id) {
        sorted_set_of(r, seq![bools[b].a_id, bools[b].b_id, id])
    } else {
        r == seq![id]
    }
}

/// Ids that move together when node `id` is dragged.
pub fn path_effect_move_bundle(
    path_effects: &IndexMap<u128, ObjectOnPathEffect>,
    boolean_effects: &IndexMap<u128, BooleanEffect>,
    clip_masks: &IndexMap<u128, ClipMaskEffect>,
    id: u128,
) -> (r: Vec<u128>)
    ensures
        move_bundle_of(effect_values(*path_effects), boolean_effect_values(*boolean_effects), id, r@),
{
    let ghost paths = effect_values(*path_effects);
    let ghost bools = boolean_effect_values(*boolean_effects);
    proof {
        crate::seqs::lemma_first_index(paths, form_pred(id));
    }
    if let Some(eff) = path_effect_by_form_node(path_effects, id) {
        let form = match eff.form_node_id {
            Some(f) => f,
            None => id,
        };
        let r = vec![form, eff.source_id, eff.path_id];
        assert(r@ =~= seq![id, eff.source_id, eff.path_id]);
        return r;
    }
    assert(first_index(paths, form_pred(id)) < 0);
    let ghost pe = on_path_touching(id);
    let n = effects_len(path_effects);
    let mut i: usize = 0;
    while i < n
        invariant
            n == paths.len(),
            paths == effect_values(*path_effects),
            pe == on_path_touching(id),
            first_index(paths, form_pred(id)) < 0,
            i <= n,
            forall|j: int| 0 <= j < i ==> !pe(#[trigger] paths[j]),
        decreases n - i,
    {
        let (_k, eff) = effects_get_index(path_effects, i);
        assert(paths[i as int] == *eff);
        if eff.source_id == id || eff.path_id == id {
            proof {
                lemma_first_index_is(paths, pe, i as int);
            }
            let mut v = vec![eff.source_id, eff.path_id];
            if let Some(fid) = eff.form_node_id {
                v.push(fid);
            }
            assert(v@ =~= seq![eff.source_id, eff.path_id] + match eff.form_node_id {
                Some(x) => seq![x],
                None => Seq::<u128>::empty(),
            });
            return sorted_unique(v);
        }
        i = i + 1;
    }
    proof {
        lemma_first_index_none(paths, pe);
    }
    let bs = boolean_effects_in_order(boolean_effects);
    let ghost pb = boolean_touching(id);
    let mut j: usize = 0;
    while j < bs.len()
        invariant
            bs@ == bools,
            pb == boolean_touching(id),
            paths == effect_values(*path_effects),
            bools == boolean_effect_values(*boolean_effects),
            first_index(paths, form_pred(id)) < 0,
            first_index(paths, on_path_touching(id)) < 0,
            j <= bs@.len(),
            forall|w: int| 0 <= w < j ==> !pb(#[trigger] bools[w]),
        decreases bs@.len() - j,
    {
        let e = bs[j];
        if e.a_id == id || e.b_id == id || e.result_node_id == Some(id) {
            proof {
                lemma_first_index_is(bools, pb, j as int);
            }
            if e.result_node_id == Some(id) {
                let v = vec![e.a_id, e.b_id, id];
                assert(v@ =~= seq![e.a_id, e.b_id, id]);
                return sorted_unique(v);
            }
            let r = vec![id];
            assert(r@ =~= seq![id]);
            return r;
        }
        j = j + 1;
    }
    proof {
        lemma_first_index_none(bools, pb);
    }
    // A clip mask's image and mask move independently.
    let cs = clip_masks_in_order(clip_masks);
    let mut c: usize = 0;
    while c < cs.len()
        invariant
            c <= cs@.len(),
            paths == effect_values(*path_effects),
            bools == boolean_effect_values(*boolean_effects),
            first_index(paths, form_pred(id)) < 0,
            first_index(paths, on_path_touching(id)) < 0,
            first_index(bools, boolean_touching(id)) < 0,
        decreases cs@.len() - c,
    {
        if cs[c].source_id == id || cs[c].mask_id == id {
            let r = vec![id];
            assert(r@ =~= seq![id]);
            return r;
        }
        c = c + 1;
    }
    let r = vec![id];
    assert(r@ =~= seq![id]);
    r
}

/// The on-path effect is built on node `id` (as source, path or proxy).
pub open spec fn built_on(id: u128) -> spec_fn(ObjectOnPathEffect) -> bool {
    |e: ObjectOnPathEffect| e.source_id == id || e.path_id == id || e.form_node_id == Some(id)
}

/// Whether node `id` is picked by the bounds of the effect built on it
/// (rather than its own): it is an on-path effect's source, path or pick
/// proxy, or the source of a tiling or circular clone.
pub fn node_uses_extended_pick_bounds(
    path_effects: &IndexMap<u128, ObjectOnPathEffect>,
    tiling_effects: &IndexMap<u128, TilingEffect>,
    circular_effects: &IndexMap<u128, CircularCloneEffect>,
    id: u128,
) -> (r: bool)
    ensures
        r == ((exists|k: int| 0 <= k < effect_values(*path_effects).len() && built_on(id)(#[trigger] effect_values(*path_effects)[k]))
            || (exists|k: int| 0 <= k < tiling_values(*tiling_effects).len() && (#[trigger] tiling_values(*tiling_effects)[k]).source_id == id)
            || (exists|k: int| 0 <= k < circular_values(*circular_effects).len() && (#[trigger] circular_values(*circular_effects)[k]).source_id == id)),
{
    let ghost paths = effect_values(*path_effects);
    let n = effects_len(path_effects);
    let mut i: usize = 0;
    while i < n
        invariant
            n == paths.len(),
            paths == effect_values(*path_effects),
            i <= n,
            forall|j: int| 0 <= j < i ==> !built_on(id)(#[trigger] paths[j]),
        decreases n - i,
    {
        let (_k, e) = effects_get_index(path_effects, i);
        assert(paths[i as int] == *e);
        if e.source_id == id || e.path_id == id || e.form_node_id == Some(id) {
            assert(built_on(id)(paths[i as int]));
            return true;
        }
        i = i + 1;
    }
    let ts = tilings_in_order(tiling_effects);
    let mut t: usize = 0;
    while t < ts.len()
        invariant
            ts@ == tiling_values(*tiling_effects),
            forall|j: int| 0 <= j < effect_values(*path_effects).len() ==> !built_on(id)(#[trigger] effect_values(*path_effects)[j]),
            t <= ts@.len(),
            forall|j: int| 0 <= j < t ==> (#[trigger] ts@[j]).source_id != id,
        decreases ts@.len() - t,
    {
        if ts[t].source_id == id {
            return true;
        }
        t = t + 1;
    }
    let cs = circulars_in_order(circular_effects);
    let mut c: usize = 0;
    while c < cs.len()
        invariant
            cs@ == circular_values(*circular_effects),
            forall|j: int| 0 <= j < effect_values(*path_effects).len() ==> !built_on(id)(#[trigger] effect_values(*path_effects)[j]),
            forall|j: int| 0 <= j < tiling_values(*tiling_effects).len() ==> (#[trigger] tiling_values(*tiling_effects)[j]).source_id != id,
            c <= cs@.len(),
            forall|j: int| 0 <= j < c ==> (#[trigger] cs@[j]).source_id != id,
        decreases cs@.len() - c,
    {
        if cs[c].source_id == id {
            return true;
        }
        c = c + 1;
    }
    false
}


/// Law: the dragged node is always part of what moves.
pub proof fn lemma_move_bundle_has_node(paths: Seq<ObjectOnPathEffect>, bools: Seq<BooleanEffect>, id: u128, r: Seq<u128>)
    requires
        move_bundle_of(paths, bools, id, r),
    ensures
        r.contains(id),
{
    let f = first_index(paths, form_pred(id));
    let e = first_index(paths, on_path_touching(id));
    let b = first_index(bools, boolean_touching(id));
    crate::seqs::lemma_first_index(paths, form_pred(id));
    crate::seqs::lemma_first_index(paths, on_path_touching(id));
    crate::seqs::lemma_first_index(bools, boolean_touching(id));
    if f >= 0 {
        assert(r[0] == id);
    } else if e >= 0 {
        let m = seq![paths[e].source_id, paths[e].path_id] + match paths[e].form_node_id {
            Some(x) => seq![x],
            None => Seq::<u128>::empty(),
        };
        if paths[e].source_id == id {
            assert(m[0] == id);
        } else {
            assert(m[1] == id);
        }
    } else if b >= 0 && bools[b].result_node_id == Some(id) {
        assert(seq![bools[b].a_id, bools[b].b_id, id][2] == id);
    } else {
        assert(r[0] == id);
    }
}


/// Whether node `id` is the source of an effect whose bounds pick it (see
/// `node_uses_extended_pick_bounds`).
pub fn is_pickable_effect_source(
    path_effects: &IndexMap<u128, ObjectOnPathEffect>,
    tiling_effects: &IndexMap<u128, TilingEffect>,
    circular_effects: &IndexMap<u128, CircularCloneEffect>,
    id: u128,
) -> (r: bool)
    ensures
        r == ((exists|k: int| 0 <= k < effect_values(*path_effects).len() && built_on(id)(#[trigger] effect_values(*path_effects)[k]))
            || (exists|k: int| 0 <= k < tiling_values(*tiling_effects).len() && (#[trigger] tiling_values(*tiling_effects)[k]).source_id == id)
            || (exists|k: int| 0 <= k < circular_values(*circular_effects).len() && (#[trigger] circular_values(*circular_effects)[k]).source_id == id)),
{
    node_uses_extended_pick_bounds(path_effects, tiling_effects, circular_effects, id)
}

} // verus!
