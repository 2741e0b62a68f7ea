//! The project's drawable nodes, as far as the layer rules read them, and
//! the store that holds them: an `indexmap::IndexMap` from node id to node,
//! in insertion order. Its contents are modelled as the sequence of its
//! (key, value) entries; each method the rules call has a contract that
//! states what the indexmap documentation promises.

use vstd::prelude::*;
use indexmap::IndexMap;
use crate::ids::fresh_id;
use crate::seqs::first_index;
use crate::text::owned;

verus! {

/// What a drawable node is, as the layer rules see it. An image keeps its
/// placement as the bit patterns of four `f64` and its encoded bytes; the
/// other kinds (shapes, paths, text, groups) carry floating-point geometry
/// that only the application reads.
#[derive(Debug, Clone)]
pub enum NodeKind {
    Image { x_bits: u64, y_bits: u64, width_bits: u64, height_bits: u64, bytes: Vec<u8> },
    Other,
}

/// A drawable node: its id, display name and kind.
#[derive(Debug, Clone)]
pub struct Node {
    pub id: u128,
    pub name: String,
    pub kind: NodeKind,
}

impl Node {
    /// An image node with a fresh id, named "Image", placed at `x`, `y`
    /// with size `width` × `height` (bits of `f64`).
    pub fn image(x_bits: u64, y_bits: u64, width_bits: u64, height_bits: u64, bytes: Vec<u8>) -> (n: Node)
        ensures
            n.name@ == seq!['I', 'm', 'a', 'g', 'e'],
            n.kind matches NodeKind::Image { x_bits: a, y_bits: b, width_bits: c, height_bits: d, bytes: e }
                && a == x_bits && b == y_bits && c == width_bits && d == height_bits && e@ == bytes@,
    {
        let name = owned("Image");
        proof {
            reveal_strlit("Image");
        }
        Node { id: fresh_id(), name, kind: NodeKind::Image { x_bits, y_bits, width_bits, height_bits, bytes } }
    }
}

/// The entries of a node store, in the map's order.
pub uninterp spec fn store_entries(m: IndexMap<u128, Node>) -> Seq<(u128, Node)>;

/// The entry has key `k`.
pub open spec fn has_key(k: u128) -> spec_fn((u128, Node)) -> bool {
    |e: (u128, Node)| e.0 == k
}

/// Position of the entry for key `k`, or -1 when the key is absent.
pub open spec fn store_index(s: Seq<(u128, Node)>, k: u128) -> int {
    first_index(s, has_key(k))
}

/// The node stored under `k` (meaningful when `k` is present).
pub open spec fn node_at(s: Seq<(u128, Node)>, k: u128) -> Node {
    s[store_index(s, k)].1
}

/// The entries after `IndexMap::insert(k, v)`: an existing key keeps its
/// place and gets the new value; a new key goes last.
pub open spec fn store_put(s: Seq<(u128, Node)>, k: u128, v: Node) -> Seq<(u128, Node)> {
    if store_index(s, k) >= 0 {
        s.update(store_index(s, k), (k, v))
    } else {
        s.push((k, v))
    }
}

/// The entries after `IndexMap::swap_remove` of the entry at `i`: the last
/// entry takes its place.
pub open spec fn swap_removed(s: Seq<(u128, Node)>, i: int) -> Seq<(u128, Node)> {
    s.update(i, s.last()).drop_last()
}

/// `store_index` is the first position holding key `k`, or -1 when no
/// entry holds it.
pub proof fn lemma_store_index(s: Seq<(u128, Node)>, k: u128)
    ensures
        -1 <= store_index(s, k) < s.len(),
        store_index(s, k) >= 0 ==> s[store_index(s, k)].0 == k,
        store_index(s, k) >= 0 ==> forall|j: int| 0 <= j < store_index(s, k) ==> (#[trigger] s[j]).0 != k,
        store_index(s, k) < 0 ==> forall|j: int| 0 <= j < s.len() ==> (#[trigger] s[j]).0 != k,
{
    crate::seqs::lemma_first_index(s, has_key(k));
    assert forall|j: int| 0 <= j < s.len() implies (has_key(k)(s[j]) <==> (#[trigger] s[j]).0 == k) by {}
}

/// After `store_put(s, k, v)` the key `k` is present and holds `v`.
pub proof fn lemma_store_put(s: Seq<(u128, Node)>, k: u128, v: Node)
    ensures
        store_index(store_put(s, k, v), k) >= 0,
        node_at(store_put(s, k, v), k) == v,
{
    let t = store_put(s, k, v);
    lemma_store_index(s, k);
    let i = if store_index(s, k) >= 0 { store_index(s, k) } else { s.len() as int };
    assert(t[i].0 == k);
    assert forall|j: int| 0 <= j < i implies !has_key(k)(#[trigger] t[j]) by {
        assert(t[j] == s[j]);
    }
    crate::seqs::lemma_first_index_is(t, has_key(k), i);
}

/// `IndexMap::new`: an empty map.
#[verifier::external_body]
fn store_new() -> (m: IndexMap<u128, Node>)
    ensures
        store_entries(m) == Seq::<(u128, Node)>::empty(),
{
    IndexMap::new()
}

/// `IndexMap::insert`: an existing key keeps its position and gets the new
/// value (the old value is returned); otherwise the pair is appended.
#[verifier::external_body]
fn store_insert(m: &mut IndexMap<u128, Node>, k: u128, v: Node) -> (r: Option<Node>)
    ensures
        store_entries(*final(m)) == store_put(store_entries(*old(m)), k, v),
        r == (if store_index(store_entries(*old(m)), k) >= 0 {
            Some(node_at(store_entries(*old(m)), k))
        } else {
            None
        }),
{
    m.insert(k, v)
}

/// `IndexMap::get`: the value stored for `k`.
#[verifier::external_body]
fn store_get<'a>(m: &'a IndexMap<u128, Node>, k: u128) -> (r: Option<&'a Node>)
    ensures
        store_index(store_entries(*m), k) >= 0 ==> r == Some(&node_at(store_entries(*m), k)),
        store_index(store_entries(*m), k) < 0 ==> r is None,
{
    m.get(&k)
}

/// `IndexMap::swap_remove`: removes the entry for `k` by moving the last
/// entry into its place; returns its value.
#[verifier::external_body]
fn store_swap_remove(m: &mut IndexMap<u128, Node>, k: u128) -> (r: Option<Node>)
    ensures
        store_index(store_entries(*old(m)), k) >= 0 ==> {
            &&& store_entries(*final(m)) == swap_removed(
                store_entries(*old(m)),
                store_index(store_entries(*old(m)), k),
            )
            &&& r == Some(node_at(store_entries(*old(m)), k))
        },
        store_index(store_entries(*old(m)), k) < 0 ==> {
            &&& store_entries(*final(m)) == store_entries(*old(m))
            &&& r is None
        },
{
    m.swap_remove(&k)
}

/// The project's drawable nodes by id.
#[derive(Debug)]
pub struct NodeStore {
    pub map: IndexMap<u128, Node>,
}

impl NodeStore {
    /// The store's (id, node) entries in order.
    pub open spec fn entries(self) -> Seq<(u128, Node)> {
        store_entries(self.map)
    }

    /// Node `id` is in the store.
    pub open spec fn holds(self, id: u128) -> bool {
        store_index(self.entries(), id) >= 0
    }

    /// Stores `node` under its own id (replacing a node with that id) and
    /// returns the id.
    pub fn insert(&mut self, node: Node) -> (id: u128)
        ensures
            id == node.id,
            final(self).entries() == store_put(old(self).entries(), node.id, node),
    {
        let id = node.id;
        store_insert(&mut self.map, id, node);
        id
    }

    /// The node stored under `id`.
    pub fn get(&self, id: u128) -> (r: Option<&Node>)
        ensures
            self.holds(id) ==> r == Some(&node_at(self.entries(), id)),
            !self.holds(id) ==> r is None,
    {
        store_get(&self.map, id)
    }

    /// Removes and returns the node stored under `id`; the last node takes
    /// its place in the order.
    pub fn remove(&mut self, id: u128) -> (r: Option<Node>)
        ensures
            old(self).holds(id) ==> {
                &&& final(self).entries() == swap_removed(
                    old(self).entries(),
                    store_index(old(self).entries(), id),
                )
                &&& r == Some(node_at(old(self).entries(), id))
            },
            !old(self).holds(id) ==> final(self).entries() == old(self).entries() && r is None,
    {
        store_swap_remove(&mut self.map, id)
    }
}

impl Default for NodeStore {
    fn default() -> (s: Self)
        ensures
            s.entries() == Seq::<(u128, Node)>::empty(),
    {
        NodeStore { map: store_new() }
    }
}

} // verus!
