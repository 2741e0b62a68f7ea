//! The node table of a graph: an `indexmap::IndexMap` from node id to node,
//! kept in insertion order. Its contents are modelled as the sequence of its
//! (key, value) entries in order; each method the graph logic calls has a
//! contract that states what the indexmap documentation promises.

use vstd::prelude::*;
use indexmap::IndexMap;
use crate::node_graph::GraphNode;
use crate::seqs::first_index;

verus! {

#[verifier::external_type_specification]
#[verifier::external_body]
#[verifier::reject_recursive_types(K)]
#[verifier::reject_recursive_types(V)]
#[verifier::reject_recursive_types(S)]
pub struct ExIndexMap<K, V, S>(IndexMap<K, V, S>);

/// The entries of a node table, in the map's order.
pub uninterp spec fn node_entries(m: IndexMap<u128, GraphNode>) -> Seq<(u128, GraphNode)>;

/// The entry has key `k`.
pub open spec fn key_pred(k: u128) -> spec_fn((u128, GraphNode)) -> bool {
    |e: (u128, GraphNode)| e.0 == k
}

/// Position of the entry for key `k`, or -1 when the key is absent.
pub open spec fn key_index(s: Seq<(u128, GraphNode)>, k: u128) -> int {
    first_index(s, key_pred(k))
}

/// `key_index` is the first position holding key `k`, or -1 when no entry
/// holds it.
pub proof fn lemma_key_index(s: Seq<(u128, GraphNode)>, k: u128)
    ensures
        -1 <= key_index(s, k) < s.len(),
        key_index(s, k) >= 0 ==> s[key_index(s, k)].0 == k,
        key_index(s, k) >= 0 ==> forall|j: int| 0 <= j < key_index(s, k) ==> (#[trigger] s[j]).0 != k,
        key_index(s, k) < 0 ==> forall|j: int| 0 <= j < s.len() ==> (#[trigger] s[j]).0 != k,
{
    crate::seqs::lemma_first_index(s, key_pred(k));
    assert forall|j: int| 0 <= j < s.len() implies (key_pred(k)(s[j]) <==> (#[trigger] s[j]).0 == k) by {}
}

/// The entries after `IndexMap::insert(k, v)`: an existing key keeps its
/// place and gets the new value; a new key goes last.
pub open spec fn entries_insert(s: Seq<(u128, GraphNode)>, k: u128, v: GraphNode) -> Seq<(u128, GraphNode)> {
    if key_index(s, k) >= 0 {
        s.update(key_index(s, k), (k, v))
    } else {
        s.push((k, v))
    }
}

/// `IndexMap::new`: an empty map.
#[verifier::external_body]
pub(crate) fn nodes_new() -> (m: IndexMap<u128, GraphNode>)
    ensures
        node_entries(m) == Seq::<(u128, GraphNode)>::empty(),
{
    IndexMap::new()
}

/// `IndexMap::len`: the number of entries.
#[verifier::external_body]
pub(crate) fn nodes_len(m: &IndexMap<u128, GraphNode>) -> (n: usize)
    ensures
        n == node_entries(*m).len(),
{
    m.len()
}

/// `IndexMap::insert`: an existing key keeps its position and gets the new
/// value (the old value is returned); otherwise the pair is appended.
#[verifier::external_body]
pub(crate) fn nodes_insert(m: &mut IndexMap<u128, GraphNode>, k: u128, v: GraphNode) -> (r: Option<GraphNode>)
    ensures
        node_entries(*final(m)) == entries_insert(node_entries(*old(m)), k, v),
        r == (if key_index(node_entries(*old(m)), k) >= 0 {
            Some(node_entries(*old(m))[key_index(node_entries(*old(m)), k)].1)
        } else {
            None
        }),
{
    m.insert(k, v)
}

/// `IndexMap::shift_remove`: removes the entry for `k`, shifting the later
/// entries down and keeping their order; returns its value.
#[verifier::external_body]
pub(crate) fn nodes_shift_remove(m: &mut IndexMap<u128, GraphNode>, k: u128) -> (r: Option<GraphNode>)
    ensures
        key_index(node_entries(*old(m)), k) >= 0 ==> {
            &&& node_entries(*final(m)) == node_entries(*old(m)).remove(
                key_index(node_entries(*old(m)), k),
            )
            &&& r == Some(node_entries(*old(m))[key_index(node_entries(*old(m)), k)].1)
        },
        key_index(node_entries(*old(m)), k) < 0 ==> {
            &&& node_entries(*final(m)) == node_entries(*old(m))
            &&& r is None
        },
        forall|j: int|
            0 <= j < node_entries(*final(m)).len() ==> (#[trigger] node_entries(*final(m))[j]).0
                != k,
{
    m.shift_remove(&k)
}

/// `IndexMap::get`: the value stored for `k`.
#[verifier::external_body]
pub(crate) fn nodes_get<'a>(m: &'a IndexMap<u128, GraphNode>, k: u128) -> (r: Option<&'a GraphNode>)
    ensures
        key_index(node_entries(*m), k) >= 0 ==> r == Some(
            &node_entries(*m)[key_index(node_entries(*m), k)].1,
        ),
        key_index(node_entries(*m), k) < 0 ==> r is None,
{
    m.get(&k)
}

/// `IndexMap::get_index`: the entry at position `i`. Keys of an `IndexMap`
/// are unique, so no other entry has this key.
#[verifier::external_body]
pub(crate) fn nodes_get_index<'a>(m: &'a IndexMap<u128, GraphNode>, i: usize) -> (r: (u128, &'a GraphNode))
    requires
        i < node_entries(*m).len(),
    ensures
        r.0 == node_entries(*m)[i as int].0,
        *r.1 == node_entries(*m)[i as int].1,
        forall|j: int| 0 <= j < node_entries(*m).len() && j != i ==> (#[trigger] node_entries(*m)[j]).0 != r.0,
{
    let (k, v) = m.get_index(i).unwrap();
    (*k, v)
}

/// `IndexMap::get_index_mut` followed by `std::mem::replace`: puts `v` in
/// place of the value at position `i` (the key and order are unchanged) and
/// returns the old value.
#[verifier::external_body]
pub(crate) fn nodes_replace_at(m: &mut IndexMap<u128, GraphNode>, i: usize, v: GraphNode) -> (r: GraphNode)
    requires
        i < node_entries(*old(m)).len(),
    ensures
        r == node_entries(*old(m))[i as int].1,
        node_entries(*final(m)) == node_entries(*old(m)).update(
            i as int,
            (node_entries(*old(m))[i as int].0, v),
        ),
{
    std::mem::replace(m.get_index_mut(i).unwrap().1, v)
}

} // verus!
