//! The effect tables of a document: `indexmap::IndexMap`s from effect id to
//! effect, in insertion order. The object-on-path table is modelled as the
//! sequence of its (id, effect) entries, the other tables as the sequence of
//! their effects; each method the effect logic calls has a contract that
//! states what the indexmap documentation promises.

use vstd::prelude::*;
use indexmap::IndexMap;
use crate::path_effects::{BooleanEffect, CircularCloneEffect, ClipMaskEffect, ObjectOnPathEffect, TilingEffect};

verus! {

/// The entries of an effect table, in the map's order.
pub uninterp spec fn effect_entries(m: IndexMap<u128, ObjectOnPathEffect>) -> Seq<(u128, ObjectOnPathEffect)>;

/// `IndexMap::len`: the number of entries.
#[verifier::external_body]
pub(crate) fn effects_len(m: &IndexMap<u128, ObjectOnPathEffect>) -> (n: usize)
    ensures
        n == effect_entries(*m).len(),
{
    m.len()
}

/// `IndexMap::get_index`: the entry at position `i` (the order `values()`
/// walks).
#[verifier::external_body]
pub(crate) fn effects_get_index<'a>(m: &'a IndexMap<u128, ObjectOnPathEffect>, i: usize) -> (r: (u128, &'a ObjectOnPathEffect))
    requires
        i < effect_entries(*m).len(),
    ensures
        r.0 == effect_entries(*m)[i as int].0,
        *r.1 == effect_entries(*m)[i as int].1,
{
    let (k, v) = m.get_index(i).unwrap();
    (*k, v)
}


/// The effects of a boolean-effect table, in the map's order.
pub uninterp spec fn boolean_effect_values(m: IndexMap<u128, BooleanEffect>) -> Seq<BooleanEffect>;

/// `IndexMap::values`, copied out in order: the table's effects.
#[verifier::external_body]
pub(crate) fn boolean_effects_in_order(m: &IndexMap<u128, BooleanEffect>) -> (r: Vec<BooleanEffect>)
    ensures
        r@ == boolean_effect_values(*m),
{
    m.values().copied().collect()
}

/// The effects of a clip-mask table, in the map's order.
pub uninterp spec fn clip_mask_values(m: IndexMap<u128, ClipMaskEffect>) -> Seq<ClipMaskEffect>;

/// `IndexMap::values`, copied out in order: the table's effects.
#[verifier::external_body]
pub(crate) fn clip_masks_in_order(m: &IndexMap<u128, ClipMaskEffect>) -> (r: Vec<ClipMaskEffect>)
    ensures
        r@ == clip_mask_values(*m),
{
    m.values().copied().collect()
}

/// The effects of a tiling table, in the map's order.
pub uninterp spec fn tiling_values(m: IndexMap<u128, TilingEffect>) -> Seq<TilingEffect>;

/// `IndexMap::values`, copied out in order: the table's effects.
#[verifier::external_body]
pub(crate) fn tilings_in_order(m: &IndexMap<u128, TilingEffect>) -> (r: Vec<TilingEffect>)
    ensures
        r@ == tiling_values(*m),
{
    m.values().copied().collect()
}

/// The effects of a circular-clone table, in the map's order.
pub uninterp spec fn circular_values(m: IndexMap<u128, CircularCloneEffect>) -> Seq<CircularCloneEffect>;

/// `IndexMap::values`, copied out in order: the table's effects.
#[verifier::external_body]
pub(crate) fn circulars_in_order(m: &IndexMap<u128, CircularCloneEffect>) -> (r: Vec<CircularCloneEffect>)
    ensures
        r@ == circular_values(*m),
{
    m.values().copied().collect()
}

} // verus!
