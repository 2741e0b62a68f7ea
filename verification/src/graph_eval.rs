//! Evaluation order of the real-valued part of a node graph: the nodes with
//! a Real output, ordered so that every Real wire goes from an earlier node
//! to a later one (Kahn's algorithm); nodes caught in or behind a cycle are
//! left out and reported.

use vstd::prelude::*;
use crate::node_graph::{entries_view, links_view, node_port, opt_text, GraphNode, GraphNodeView, LinkView, NodeGraph};
use crate::node_map::nodes_replace_at;
use crate::ports::{GraphNodeKind, NodeKindView};
use crate::text::{concat2, has_sub, owned, str_contains};
use crate::node_map::{key_index, lemma_key_index};
use crate::node_map::nodes_get_index;
use crate::node_map::nodes_len;
use crate::ports::{produces_output, spec_produces, PortType};

verus! {

/// Edges `(from, to)` between node positions `0..n`.
pub open spec fn edges_within(e: Seq<(usize, usize)>, n: nat) -> bool {
    forall|k: int| 0 <= k < e.len() ==> (#[trigger] e[k]).0 < n && e[k].1 < n
}

/// Number of edges into `v` whose source is not in `done`.
pub open spec fn open_in(e: Seq<(usize, usize)>, v: usize, done: Seq<usize>) -> nat
    decreases e.len(),
{
    if e.len() == 0 {
        0
    } else {
        open_in(e.drop_last(), v, done) + (if e.last().1 == v && !done.contains(e.last().0) {
            1nat
        } else {
            0nat
        })
    }
}

/// Number of edges equal to `(u, v)`.
pub open spec fn count_edge(e: Seq<(usize, usize)>, u: usize, v: usize) -> nat
    decreases e.len(),
{
    if e.len() == 0 {
        0
    } else {
        count_edge(e.drop_last(), u, v) + (if e.last() == (u, v) {
            1nat
        } else {
            0nat
        })
    }
}

proof fn lemma_open_in_push(e: Seq<(usize, usize)>, v: usize, done: Seq<usize>, u: usize)
    requires
        !done.contains(u),
    ensures
        open_in(e, v, done) == open_in(e, v, done.push(u)) + count_edge(e, u, v),
    decreases e.len(),
{
    if e.len() > 0 {
        lemma_open_in_push(e.drop_last(), v, done, u);
        let x = e.last();
        assert(done.push(u).contains(x.0) <==> (done.contains(x.0) || x.0 == u)) by {
            if done.push(u).contains(x.0) {
                let i = choose|i: int| 0 <= i < done.push(u).len() && done.push(u)[i] == x.0;
                if i < done.len() {
                    assert(done[i] == x.0);
                }
            }
            if done.contains(x.0) {
                let i = choose|i: int| 0 <= i < done.len() && done[i] == x.0;
                assert(done.push(u)[i] == x.0);
            }
            if x.0 == u {
                assert(done.push(u)[done.len() as int] == u);
            }
        }
    }
}

proof fn lemma_count_edge_prefix(e: Seq<(usize, usize)>, k: int, u: usize, v: usize)
    requires
        0 <= k <= e.len(),
    ensures
        count_edge(e.take(k), u, v) <= count_edge(e, u, v),
    decreases e.len() - k,
{
    if k < e.len() {
        lemma_count_edge_prefix(e, k + 1, u, v);
        assert(e.take(k + 1).drop_last() =~= e.take(k));
    } else {
        assert(e.take(k) =~= e);
    }
}

proof fn lemma_count_le_open(e: Seq<(usize, usize)>, u: usize, v: usize, done: Seq<usize>)
    requires
        !done.contains(u),
    ensures
        count_edge(e, u, v) <= open_in(e, v, done),
    decreases e.len(),
{
    if e.len() > 0 {
        lemma_count_le_open(e.drop_last(), u, v, done);
    }
}

proof fn lemma_open_in_witness(e: Seq<(usize, usize)>, v: usize, done: Seq<usize>)
    requires
        open_in(e, v, done) > 0,
    ensures
        exists|k: int| 0 <= k < e.len() && (#[trigger] e[k]).1 == v && !done.contains(e[k].0),
    decreases e.len(),
{
    if open_in(e.drop_last(), v, done) > 0 {
        lemma_open_in_witness(e.drop_last(), v, done);
        let k = choose|k: int| 0 <= k < e.drop_last().len() && (#[trigger] e.drop_last()[k]).1 == v
            && !done.contains(e.drop_last()[k].0);
        assert(e[k] == e.drop_last()[k]);
    } else {
        assert(e[e.len() - 1] == e.last());
    }
}

proof fn lemma_open_in_zero(e: Seq<(usize, usize)>, v: usize, done: Seq<usize>)
    requires
        open_in(e, v, done) == 0,
    ensures
        forall|k: int| 0 <= k < e.len() && (#[trigger] e[k]).1 == v ==> done.contains(e[k].0),
    decreases e.len(),
{
    if e.len() > 0 {
        lemma_open_in_zero(e.drop_last(), v, done);
        assert forall|k: int| 0 <= k < e.len() && (#[trigger] e[k]).1 == v implies done.contains(e[k].0) by {
            if k < e.len() - 1 {
                assert(e[k] == e.drop_last()[k]);
            }
        }
    }
}

proof fn lemma_distinct_below(q: Seq<usize>, n: usize)
    requires
        q.no_duplicates(),
        forall|p: int| 0 <= p < q.len() ==> #[trigger] q[p] < n,
    ensures
        q.len() <= n,
{
    let qi = q.map_values(|x: usize| x as int);
    assert(qi.no_duplicates()) by {
        assert forall|a: int, b: int| 0 <= a < b < qi.len() implies qi[a] != qi[b] by {
            assert(q[a] != q[b]);
        }
    }
    qi.unique_seq_to_set();
    vstd::set_lib::lemma_int_range(0, n as int);
    assert(qi.to_set().subset_of(vstd::set_lib::set_int_range(0, n as int))) by {
        assert forall|x: int| qi.to_set().contains(x) implies vstd::set_lib::set_int_range(0, n as int).contains(x) by {
            assert(qi.contains(x));
            let i = choose|i: int| 0 <= i < qi.len() && qi[i] == x;
            assert(q[i] < n);
        }
    }
    vstd::set_lib::lemma_len_subset(qi.to_set(), vstd::set_lib::set_int_range(0, n as int));
}

proof fn lemma_contains_take(q: Seq<usize>, h: int, x: usize)
    requires
        0 <= h <= q.len(),
        q.take(h).contains(x),
    ensures
        exists|r: int| 0 <= r < h && q[r] == x,
{
    let i = choose|i: int| 0 <= i < q.take(h).len() && q.take(h)[i] == x;
    assert(q[i] == x);
}

/// Kahn's algorithm on positions `0..n`: the result lists positions without
/// repeats; each listed position comes after the sources of all edges into
/// it; every position left out has an edge from another position left out.
pub fn topo_order(n: usize, edges: &Vec<(usize, usize)>) -> (q: Vec<usize>)
    requires
        edges_within(edges@, n as nat),
    ensures
        q@.no_duplicates(),
        forall|p: int| 0 <= p < q@.len() ==> #[trigger] q@[p] < n,
        forall|p: int, k: int|
            0 <= p < q@.len() && 0 <= k < edges@.len() && (#[trigger] edges@[k]).1 == #[trigger] q@[p]
                ==> exists|r: int| 0 <= r < p && q@[r] == edges@[k].0,
        forall|v: usize|
            v < n && !(#[trigger] q@.contains(v)) ==> exists|k: int|
                0 <= k < edges@.len() && (#[trigger] edges@[k]).1 == v && !q@.contains(edges@[k].0),
{
    let ghost e = edges@;
    let m = edges.len();
    // In-degree of every position.
    let mut indeg: Vec<usize> = Vec::new();
    let mut v: usize = 0;
    while v < n
        invariant
            v <= n,
            indeg@.len() == v,
            forall|w: int| 0 <= w < v ==> #[trigger] indeg@[w] == 0,
        decreases n - v,
    {
        indeg.push(0);
        v = v + 1;
    }
    let mut k: usize = 0;
    while k < m
        invariant
            m == e.len(),
            e == edges@,
            edges_within(e, n as nat),
            indeg@.len() == n,
            k <= m,
            forall|w: int| 0 <= w < n ==> #[trigger] indeg@[w] == open_in(e.take(k as int), w as usize, Seq::<usize>::empty()),
            forall|w: int| 0 <= w < n ==> #[trigger] indeg@[w] <= k,
        decreases m - k,
    {
        let t = edges[k].1;
        assert(e.take(k + 1).drop_last() =~= e.take(k as int));
        indeg.set(t, indeg[t] + 1);
        k = k + 1;
    }
    assert(e.take(m as int) =~= e);
    // Start with the positions nothing points into.
    let mut q: Vec<usize> = Vec::new();
    let mut inq: Vec<bool> = Vec::new();
    let mut v: usize = 0;
    while v < n
        invariant
            v <= n,
            indeg@.len() == n,
            inq@.len() == v,
            q@.len() <= v,
            q@.no_duplicates(),
            forall|p: int| 0 <= p < q@.len() ==> #[trigger] q@[p] < v,
            forall|w: int| 0 <= w < v ==> (#[trigger] inq@[w] <==> q@.contains(w as usize)),
            forall|w: int| 0 <= w < v ==> (inq@[w] <==> #[trigger] indeg@[w] == 0),
            forall|p: int, k: int|
                0 <= p < q@.len() && 0 <= k < e.len() && (#[trigger] e[k]).1 == #[trigger] q@[p] ==> false,
            forall|w: int| 0 <= w < n ==> #[trigger] indeg@[w] == open_in(e, w as usize, Seq::<usize>::empty()),
            e == edges@,
        decreases n - v,
    {
        let z = indeg[v] == 0;
        let ghost qb = q@;
        if z {
            proof {
                lemma_open_in_zero(e, v, Seq::<usize>::empty());
            }
            q.push(v);
        }
        inq.push(z);
        proof {
            assert forall|w: int| 0 <= w < v + 1 implies (#[trigger] inq@[w] <==> q@.contains(w as usize)) by {
                if w < v {
                    if q@.contains(w as usize) {
                        let i = choose|i: int| 0 <= i < q@.len() && q@[i] == w as usize;
                        if i < qb.len() {
                            assert(qb[i] == w as usize);
                        }
                    }
                    if qb.contains(w as usize) {
                        let i = choose|i: int| 0 <= i < qb.len() && qb[i] == w as usize;
                        assert(q@[i] == w as usize);
                    }
                } else {
                    if z {
                        assert(q@[q@.len() - 1] == v);
                    } else {
                        if q@.contains(v) {
                            let i = choose|i: int| 0 <= i < q@.len() && q@[i] == v;
                            assert(qb[i] < v);
                        }
                    }
                }
            }
        }
        v = v + 1;
    }
    assert(q@.take(0) =~= Seq::<usize>::empty());
    let mut h: usize = 0;
    while h < q.len()
        invariant
            e == edges@,
            m == e.len(),
            edges_within(e, n as nat),
            indeg@.len() == n,
            inq@.len() == n,
            h <= q@.len() <= n,
            q@.no_duplicates(),
            forall|p: int| 0 <= p < q@.len() ==> #[trigger] q@[p] < n,
            forall|w: int| 0 <= w < n ==> (#[trigger] inq@[w] <==> q@.contains(w as usize)),
            forall|w: int| 0 <= w < n ==> (inq@[w] <==> #[trigger] indeg@[w] == 0),
            forall|w: int| 0 <= w < n ==> #[trigger] indeg@[w] == open_in(e, w as usize, q@.take(h as int)),
            forall|p: int, k: int|
                0 <= p < q@.len() && 0 <= k < e.len() && (#[trigger] e[k]).1 == #[trigger] q@[p]
                    ==> exists|r: int| 0 <= r < p && q@[r] == e[k].0,
        decreases n - h,
    {
        let u = q[h];
        let ghost done = q@.take(h as int);
        assert(!done.contains(u)) by {
            if done.contains(u) {
                lemma_contains_take(q@, h as int, u);
                let r = choose|r: int| 0 <= r < h && q@[r] == u;
                assert(q@[r] == q@[h as int]);
            }
        }
        let mut k: usize = 0;
        while k < m
            invariant
                e == edges@,
                m == e.len(),
                edges_within(e, n as nat),
                indeg@.len() == n,
                inq@.len() == n,
                h < q@.len() <= n,
                u == q@[h as int],
                done == q@.take(h as int),
                !done.contains(u),
                k <= m,
                q@.no_duplicates(),
                forall|p: int| 0 <= p < q@.len() ==> #[trigger] q@[p] < n,
                forall|w: int| 0 <= w < n ==> (#[trigger] inq@[w] <==> q@.contains(w as usize)),
                forall|w: int| 0 <= w < n ==> (inq@[w] <==> #[trigger] indeg@[w] == 0),
                forall|w: int|
                    0 <= w < n ==> #[trigger] indeg@[w] + count_edge(e.take(k as int), u, w as usize) == open_in(
                        e,
                        w as usize,
                        done,
                    ),
                forall|p: int, k2: int|
                    0 <= p < q@.len() && 0 <= k2 < e.len() && (#[trigger] e[k2]).1 == #[trigger] q@[p]
                        ==> exists|r: int| 0 <= r < p && q@[r] == e[k2].0,
            decreases m - k,
        {
            let (a, t) = edges[k];
            assert(e.take(k + 1).drop_last() =~= e.take(k as int));
            if a == u {
                proof {
                    lemma_count_edge_prefix(e, k + 1, u, t);
                    lemma_count_le_open(e, u, t, done);
                }
                let d = indeg[t] - 1;
                indeg.set(t, d);
                if d == 0 {
                    let ghost qb = q@;
                    q.push(t);
                    inq.set(t, true);
                    proof {
                        assert(!qb.contains(t));
                        assert forall|x: int, y: int| 0 <= x < y < q@.len() implies q@[x] != q@[y] by {
                            if y == q@.len() - 1 {
                                if q@[x] == t {
                                    assert(qb[x] == t);
                                }
                            } else {
                                assert(qb[x] == q@[x] && qb[y] == q@[y]);
                            }
                        }
                        assert forall|w: int| 0 <= w < n implies (#[trigger] inq@[w] <==> q@.contains(w as usize)) by {
                            if q@.contains(w as usize) && w != t {
                                let i = choose|i: int| 0 <= i < q@.len() && q@[i] == w as usize;
                                assert(qb[i] == w as usize);
                            }
                            if qb.contains(w as usize) {
                                let i = choose|i: int| 0 <= i < qb.len() && qb[i] == w as usize;
                                assert(q@[i] == w as usize);
                            }
                            if w == t {
                                assert(q@[q@.len() - 1] == t);
                            }
                        }
                        // every edge into `t` comes from a finished position or from `u`
                        lemma_open_in_push(e, t, done, u);
                        assert(open_in(e, t, done.push(u)) == 0) by {
                            lemma_count_edge_prefix(e, k + 1, u, t);
                        }
                        lemma_open_in_zero(e, t, done.push(u));
                        assert(q@.take(h + 1) =~= done.push(u));
                        assert forall|p: int, k2: int|
                            0 <= p < q@.len() && 0 <= k2 < e.len() && (#[trigger] e[k2]).1 == #[trigger] q@[p]
                                implies exists|r: int| 0 <= r < p && q@[r] == e[k2].0 by {
                            if p == q@.len() - 1 {
                                assert(done.push(u).contains(e[k2].0));
                                lemma_contains_take(q@, h + 1, e[k2].0);
                            } else {
                                assert(qb[p] == q@[p]);
                                let r = choose|r: int| 0 <= r < p && qb[r] == e[k2].0;
                                assert(q@[r] == qb[r]);
                            }
                        }
                        assert(q@.take(h as int) =~= qb.take(h as int));
                        lemma_distinct_below(q@, n);
                    }
                }
            }
            k = k + 1;
        }
        proof {
            assert(e.take(m as int) =~= e);
            assert forall|w: int| 0 <= w < n implies #[trigger] indeg@[w] == open_in(e, w as usize, q@.take(h + 1)) by {
                lemma_open_in_push(e, w as usize, done, u);
                assert(q@.take(h + 1) =~= done.push(u));
            }
        }
        h = h + 1;
    }
    proof {
        assert(q@.take(h as int) =~= q@);
        assert forall|v: usize| v < n && !(#[trigger] q@.contains(v)) implies exists|k: int|
            0 <= k < e.len() && (#[trigger] e[k]).1 == v && !q@.contains(e[k].0) by {
            assert(indeg@[v as int] != 0);
            lemma_open_in_witness(e, v, q@);
        }
    }
    q
}


/// Ids of the nodes with a Real output, in table order.
pub open spec fn real_ids(s: Seq<(u128, GraphNode)>) -> Seq<u128>
    decreases s.len(),
{
    if s.len() == 0 {
        Seq::empty()
    } else {
        let r = real_ids(s.drop_last());
        if spec_produces(s.last().1@.kind, PortType::Real) {
            r.push(s.last().0)
        } else {
            r
        }
    }
}

/// Port `port` of node `id` exists and carries a Real.
pub open spec fn port_is_real(s: Seq<(u128, GraphNode)>, id: u128, port: Seq<char>) -> bool {
    node_port(s, id, port) matches Some(p) && p.0 == PortType::Real
}

/// A wire of the real-valued graph: Real port to Real port, between nodes
/// with a Real output.
#[verifier::opaque]
pub open spec fn is_real_link(s: Seq<(u128, GraphNode)>, l: LinkView) -> bool {
    &&& port_is_real(s, l.0, l.1)
    &&& port_is_real(s, l.2, l.3)
    &&& real_ids(s).contains(l.0)
    &&& real_ids(s).contains(l.2)
}

proof fn lemma_real_ids_members(s: Seq<(u128, GraphNode)>)
    ensures
        forall|x: int| 0 <= x < real_ids(s).len() ==> #[trigger] real_id_from(s, real_ids(s)[x]),
    decreases s.len(),
{
    if s.len() > 0 {
        lemma_real_ids_members(s.drop_last());
        let r = real_ids(s.drop_last());
        assert forall|x: int| 0 <= x < real_ids(s).len() implies #[trigger] real_id_from(s, real_ids(s)[x]) by {
            if x < r.len() {
                assert(real_ids(s)[x] == r[x]);
                assert(real_id_from(s.drop_last(), r[x]));
                let j = choose|j: int|
                    0 <= j < s.drop_last().len() && s.drop_last()[j].0 == r[x] && spec_produces(
                        s.drop_last()[j].1@.kind,
                        PortType::Real,
                    );
                assert(s[j] == s.drop_last()[j]);
            } else {
                assert(spec_produces(s.last().1@.kind, PortType::Real));
                assert(real_ids(s)[x] == s.last().0);
                assert(s[s.len() - 1] == s.last());
            }
        }
    }
}

/// Some entry of `s` with a Real output has key `x`.
pub open spec fn real_id_from(s: Seq<(u128, GraphNode)>, x: u128) -> bool {
    exists|j: int| 0 <= j < s.len() && s[j].0 == x && spec_produces(s[j].1@.kind, PortType::Real)
}

/// Edge `ed` (positions in `ids`) stands for some real wire of `lv`.
pub open spec fn edge_from_link(s: Seq<(u128, GraphNode)>, lv: Seq<LinkView>, ids: Seq<u128>, ed: (usize, usize)) -> bool {
    exists|j: int| 0 <= j < lv.len() && is_real_link(s, lv[j]) && lv[j].0 == ids[ed.0 as int] && lv[j].2 == ids[ed.1 as int]
}

/// Some edge of `e` stands for the wire `l`.
pub open spec fn link_has_edge(ids: Seq<u128>, e: Seq<(usize, usize)>, l: LinkView) -> bool {
    exists|k: int| 0 <= k < e.len() && ids[e[k].0 as int] == l.0 && ids[e[k].1 as int] == l.2
}

/// Position of `x` in `v`.
fn position_of(v: &Vec<u128>, x: u128) -> (r: Option<usize>)
    ensures
        r matches Some(i) ==> i < v@.len() && v@[i as int] == x,
        r is None ==> !v@.contains(x),
{
    let mut i: usize = 0;
    while i < v.len()
        invariant
            i <= v@.len(),
            forall|j: int| 0 <= j < i ==> v@[j] != x,
        decreases v@.len() - i,
    {
        if v[i] == x {
            return Some(i);
        }
        i = i + 1;
    }
    None
}

fn usize_in(v: &Vec<usize>, x: usize) -> (r: bool)
    ensures
        r == v@.contains(x),
{
    let mut i: usize = 0;
    while i < v.len()
        invariant
            i <= v@.len(),
            forall|j: int| 0 <= j < i ==> v@[j] != x,
        decreases v@.len() - i,
    {
        if v[i] == x {
            return true;
        }
        i = i + 1;
    }
    false
}

/// Evaluation order of the real-valued nodes, and the nodes left out
/// because a cycle feeds them.
pub struct RealEvalOrder {
    pub order: Vec<u128>,
    pub blocked: Vec<u128>,
}

impl NodeGraph {
    /// Ids of the nodes with a Real output, in table order.
    fn real_node_ids(&self) -> (r: Vec<u128>)
        ensures
            r@ == real_ids(self.entries()),
            r@.no_duplicates(),
    {
        let ghost s = self.entries();
        let n = nodes_len(&self.nodes);
        let mut r: Vec<u128> = Vec::new();
        let mut i: usize = 0;
        while i < n
            invariant
                s == self.entries(),
                n == s.len(),
                i <= n,
                r@ == real_ids(s.take(i as int)),
                r@.no_duplicates(),
                forall|x: int| 0 <= x < r@.len() ==> exists|j: int| 0 <= j < i && (#[trigger] s[j]).0 == #[trigger] r@[x],
            decreases n - i,
        {
            let (key, node) = nodes_get_index(&self.nodes, i);
            assert(s.take(i + 1).drop_last() =~= s.take(i as int));
            assert(s.take(i + 1).last() == s[i as int]);
            if produces_output(&node.kind, PortType::Real) {
                let ghost rb = r@;
                proof {
                    assert(!rb.contains(key)) by {
                        if rb.contains(key) {
                            let x = choose|x: int| 0 <= x < rb.len() && rb[x] == key;
                            let j = choose|j: int| 0 <= j < i && (#[trigger] s[j]).0 == rb[x];
                        }
                    }
                }
                r.push(key);
                proof {
                    assert forall|a: int, b: int| 0 <= a < b < r@.len() implies r@[a] != r@[b] by {
                        if b == r@.len() - 1 {
                            assert(r@[a] == rb[a]);
                        } else {
                            assert(r@[a] == rb[a] && r@[b] == rb[b]);
                        }
                    }
                    assert forall|x: int| 0 <= x < r@.len() implies exists|j: int| 0 <= j < i + 1 && (#[trigger] s[j]).0 == #[trigger] r@[x] by {
                        if x < rb.len() {
                            assert(r@[x] == rb[x]);
                        } else {
                            assert(s[i as int].0 == r@[x]);
                        }
                    }
                }
            }
            i = i + 1;
        }
        assert(s.take(n as int) =~= s);
        r
    }

    /// The real wires as edges between positions of `ids`.
    fn real_edges(&self, ids: &Vec<u128>) -> (e: Vec<(usize, usize)>)
        requires
            ids@ == real_ids(self.entries()),
        ensures
            edges_within(e@, ids@.len()),
            forall|k: int| 0 <= k < e@.len() ==> edge_from_link(self.entries(), links_view(self.links@), ids@, #[trigger] e@[k]),
            forall|j: int|
                0 <= j < self.links@.len() && #[trigger] is_real_link(self.entries(), links_view(self.links@)[j])
                    ==> link_has_edge(ids@, e@, links_view(self.links@)[j]),
    {
        reveal(is_real_link);
        let ghost s = self.entries();
        let ghost lv = links_view(self.links@);
        let mut e: Vec<(usize, usize)> = Vec::new();
        let m = self.links.len();
        let mut j: usize = 0;
        while j < m
            invariant
                s == self.entries(),
                lv == links_view(self.links@),
                m == lv.len(),
                ids@ == real_ids(s),
                j <= m,
                edges_within(e@, ids@.len()),
                forall|k: int| 0 <= k < e@.len() ==> edge_from_link(s, lv, ids@, #[trigger] e@[k]),
                forall|j2: int| 0 <= j2 < j && #[trigger] is_real_link(s, lv[j2]) ==> link_has_edge(ids@, e@, lv[j2]),
            decreases m - j,
        {
            proof {
                reveal(is_real_link);
            }
            let link = &self.links[j as usize];
            assert(lv[j as int] == link@);
            let from_real = match self.port_type(link.from_node, link.from_port.as_str()) {
                Some(t) => t == PortType::Real,
                None => false,
            };
            let to_real = match self.port_type(link.to_node, link.to_port.as_str()) {
                Some(t) => t == PortType::Real,
                None => false,
            };
            let ghost eb = e@;
            let mut added = false;
            if from_real && to_real {
                match (position_of(ids, link.from_node), position_of(ids, link.to_node)) {
                    (Some(fi), Some(ti)) => {
                        e.push((fi, ti));
                        added = true;
                        proof {
                            assert(is_real_link(s, lv[j as int]));
                            assert(edge_from_link(s, lv, ids@, (fi, ti)));
                            assert(e@[e@.len() - 1] == (fi, ti));
                        }
                    },
                    _ => {},
                }
            }
            proof {
                if !added {
                    assert(!is_real_link(s, lv[j as int]));
                    assert(e@ == eb);
                }
                assert forall|k: int| 0 <= k < e@.len() implies edge_from_link(s, lv, ids@, #[trigger] e@[k]) by {
                    if k < eb.len() {
                        assert(e@[k] == eb[k]);
                    }
                }
                assert forall|j2: int| 0 <= j2 < j + 1 && #[trigger] is_real_link(s, lv[j2]) implies link_has_edge(
                    ids@,
                    e@,
                    lv[j2],
                ) by {
                    if j2 < j {
                        let k = choose|k: int| 0 <= k < eb.len() && ids@[eb[k].0 as int] == lv[j2].0 && ids@[eb[k].1 as int] == lv[j2].2;
                        assert(e@[k] == eb[k]);
                    } else {
                        let k = e@.len() - 1;
                        assert(ids@[e@[k].0 as int] == lv[j2].0);
                    }
                }
            }
            j = j + 1;
        }
        e
    }

    /// The real-valued nodes in an order in which every Real wire goes from
    /// an earlier node to a later one; the nodes a cycle feeds are left out
    /// and listed as blocked.
    pub fn real_eval_order(&self) -> (r: RealEvalOrder)
        ensures
            eval_order_ok(self.entries(), links_view(self.links@), r.order@, r.blocked@),
    {
        let ids = self.real_node_ids();
        let edges = self.real_edges(&ids);
        let n = ids.len();
        assert(ids@.len() == n);
        let q = topo_order(n, &edges);
        let order = ids_at(&ids, &q);
        let blocked = ids_left_out(&ids, &q);
        proof {
            lemma_order_contract(self.entries(), links_view(self.links@), ids@, edges@, q@, order@, blocked@);
        }
        RealEvalOrder { order, blocked }
    }
}

/// What a real evaluation order promises: the order and the blocked list
/// hold each real node once, between them; every real wire between two
/// ordered nodes goes forward; every blocked node is fed by a real wire
/// from another blocked node; and every node a blocked node feeds through a
/// real wire is blocked too.
pub open spec fn eval_order_ok(s: Seq<(u128, GraphNode)>, lv: Seq<LinkView>, order: Seq<u128>, blocked: Seq<u128>) -> bool {
    &&& order.no_duplicates()
    &&& blocked.no_duplicates()
    &&& forall|x: u128| real_ids(s).contains(x) <==> (#[trigger] order.contains(x) || #[trigger] blocked.contains(x))
    &&& forall|x: u128| !(#[trigger] order.contains(x) && #[trigger] blocked.contains(x))
    &&& forall|j: int, p: int, q: int|
        0 <= j < lv.len() && #[trigger] is_real_link(s, lv[j]) && 0 <= p < order.len() && 0 <= q < order.len()
            && #[trigger] order[p] == lv[j].0 && #[trigger] order[q] == lv[j].2 ==> p < q
    &&& forall|b: u128| #[trigger] blocked.contains(b) ==> fed_by_blocked(s, lv, blocked, b)
    &&& forall|j: int|
        0 <= j < lv.len() && #[trigger] is_real_link(s, lv[j]) && blocked.contains(lv[j].0) ==> blocked.contains(lv[j].2)
}

/// Some real wire into `b` comes from a node of `blocked`.
pub open spec fn fed_by_blocked(s: Seq<(u128, GraphNode)>, lv: Seq<LinkView>, blocked: Seq<u128>, b: u128) -> bool {
    exists|j: int| 0 <= j < lv.len() && is_real_link(s, lv[j]) && lv[j].2 == b && blocked.contains(lv[j].0)
}

/// `x` is the id at some position of `ids` that `q` does not list.
pub open spec fn left_out(ids: Seq<u128>, q: Seq<usize>, x: u128) -> bool {
    exists|a: int| 0 <= a < ids.len() && ids[a] == x && !q.contains(a as usize)
}

fn ids_at(ids: &Vec<u128>, q: &Vec<usize>) -> (r: Vec<u128>)
    requires
        forall|x: int| 0 <= x < q@.len() ==> #[trigger] q@[x] < ids@.len(),
    ensures
        r@.len() == q@.len(),
        forall|x: int| 0 <= x < q@.len() ==> #[trigger] r@[x] == ids@[q@[x] as int],
{
    let mut r: Vec<u128> = Vec::new();
    let mut p: usize = 0;
    while p < q.len()
        invariant
            p <= q@.len(),
            forall|x: int| 0 <= x < q@.len() ==> #[trigger] q@[x] < ids@.len(),
            r@.len() == p,
            forall|x: int| 0 <= x < p ==> #[trigger] r@[x] == ids@[q@[x] as int],
        decreases q@.len() - p,
    {
        r.push(ids[q[p]]);
        p = p + 1;
    }
    r
}

fn ids_left_out(ids: &Vec<u128>, q: &Vec<usize>) -> (r: Vec<u128>)
    requires
        ids@.no_duplicates(),
    ensures
        r@.no_duplicates(),
        forall|x: u128| #[trigger] r@.contains(x) <==> left_out(ids@, q@, x),
{
    let n = ids.len();
    let mut r: Vec<u128> = Vec::new();
    let mut v: usize = 0;
    while v < n
        invariant
            v <= n,
            n == ids@.len(),
            ids@.no_duplicates(),
            r@.no_duplicates(),
            forall|x: u128|
                #[trigger] r@.contains(x) <==> exists|a: int| 0 <= a < v && ids@[a] == x && !q@.contains(a as usize),
        decreases n - v,
    {
        if !usize_in(q, v) {
            let ghost rb = r@;
            let x = ids[v];
            assert(!rb.contains(x)) by {
                if rb.contains(x) {
                    let a = choose|a: int| 0 <= a < v && ids@[a] == x && !q@.contains(a as usize);
                    assert(ids@[a] != ids@[v as int]);
                }
            }
            r.push(x);
            proof {
                assert forall|i: int, k: int| 0 <= i < k < r@.len() implies r@[i] != r@[k] by {
                    if k == r@.len() - 1 {
                        assert(r@[i] == rb[i]);
                    } else {
                        assert(r@[i] == rb[i] && r@[k] == rb[k]);
                    }
                }
                assert forall|y: u128|
                    #[trigger] r@.contains(y) <==> exists|a: int| 0 <= a < v + 1 && ids@[a] == y && !q@.contains(a as usize) by {
                    if r@.contains(y) {
                        let i = choose|i: int| 0 <= i < r@.len() && r@[i] == y;
                        if i < rb.len() {
                            assert(rb[i] == y);
                            assert(rb.contains(y));
                        } else {
                            assert(ids@[v as int] == y);
                        }
                    }
                    if exists|a: int| 0 <= a < v + 1 && ids@[a] == y && !q@.contains(a as usize) {
                        let a = choose|a: int| 0 <= a < v + 1 && ids@[a] == y && !q@.contains(a as usize);
                        if a < v {
                            assert(rb.contains(y));
                            let i = choose|i: int| 0 <= i < rb.len() && rb[i] == y;
                            assert(r@[i] == y);
                        } else {
                            assert(r@[r@.len() - 1] == y);
                        }
                    }
                }
            }
        } else {
            proof {
                assert forall|y: u128|
                    #[trigger] r@.contains(y) <==> exists|a: int| 0 <= a < v + 1 && ids@[a] == y && !q@.contains(a as usize) by {
                    if exists|a: int| 0 <= a < v + 1 && ids@[a] == y && !q@.contains(a as usize) {
                        let a = choose|a: int| 0 <= a < v + 1 && ids@[a] == y && !q@.contains(a as usize);
                        assert(a != v);
                    }
                }
            }
        }
        v = v + 1;
    }
    r
}

proof fn lemma_ids_injective(ids: Seq<u128>)
    requires
        ids.no_duplicates(),
    ensures
        forall|a: int, b: int| 0 <= a < ids.len() && 0 <= b < ids.len() && #[trigger] ids[a] == #[trigger] ids[b] ==> a == b,
{
    assert forall|a: int, b: int| 0 <= a < ids.len() && 0 <= b < ids.len() && #[trigger] ids[a] == #[trigger] ids[b] implies a == b by {
        if a < b {
            assert(ids[a] != ids[b]);
        } else if b < a {
            assert(ids[b] != ids[a]);
        }
    }
}

proof fn lemma_order_distinct(ids: Seq<u128>, q: Seq<usize>, order: Seq<u128>)
    requires
        ids.no_duplicates(),
        q.no_duplicates(),
        forall|p: int| 0 <= p < q.len() ==> #[trigger] q[p] < ids.len(),
        order.len() == q.len(),
        forall|x: int| 0 <= x < q.len() ==> #[trigger] order[x] == ids[q[x] as int],
    ensures
        order.no_duplicates(),
{
    lemma_ids_injective(ids);
    assert forall|a: int, b: int| 0 <= a < b < order.len() implies order[a] != order[b] by {
        assert(q[a] != q[b]);
        assert(order[a] == ids[q[a] as int] && order[b] == ids[q[b] as int]);
        assert(q[a] < ids.len() && q[b] < ids.len());
    }
}

proof fn lemma_order_cover(s: Seq<(u128, GraphNode)>, ids: Seq<u128>, q: Seq<usize>, order: Seq<u128>, blocked: Seq<u128>)
    requires
        ids.len() <= usize::MAX,
        ids == real_ids(s),
        ids.no_duplicates(),
        forall|p: int| 0 <= p < q.len() ==> #[trigger] q[p] < ids.len(),
        order.len() == q.len(),
        forall|x: int| 0 <= x < q.len() ==> #[trigger] order[x] == ids[q[x] as int],
        forall|x: u128| #[trigger] blocked.contains(x) <==> left_out(ids, q, x),
    ensures
        forall|x: u128| real_ids(s).contains(x) <==> (#[trigger] order.contains(x) || #[trigger] blocked.contains(x)),
        forall|x: u128| !(#[trigger] order.contains(x) && #[trigger] blocked.contains(x)),
{
    lemma_ids_injective(ids);
    assert forall|x: u128| real_ids(s).contains(x) <==> (#[trigger] order.contains(x) || #[trigger] blocked.contains(x)) by {
        if real_ids(s).contains(x) {
            let i = choose|i: int| 0 <= i < ids.len() && ids[i] == x;
            if q.contains(i as usize) {
                let p = choose|p: int| 0 <= p < q.len() && q[p] == i as usize;
                assert(order[p] == ids[q[p] as int]);
                assert(order.contains(x));
            } else {
                assert(left_out(ids, q, x));
            }
        }
        if order.contains(x) {
            let a = choose|a: int| 0 <= a < order.len() && order[a] == x;
            assert(ids[q[a] as int] == x);
        }
        if blocked.contains(x) {
            assert(left_out(ids, q, x));
        }
    }
    assert forall|x: u128| !(#[trigger] order.contains(x) && #[trigger] blocked.contains(x)) by {
        if order.contains(x) && blocked.contains(x) {
            let a = choose|a: int| 0 <= a < order.len() && order[a] == x;
            assert(left_out(ids, q, x));
            let b = choose|b: int| 0 <= b < ids.len() && ids[b] == x && !q.contains(b as usize);
            assert(ids[q[a] as int] == ids[b]);
            assert(q[a] as int == b);
            assert(q.contains(b as usize));
        }
    }
}

proof fn lemma_order_forward(
    s: Seq<(u128, GraphNode)>,
    lv: Seq<LinkView>,
    ids: Seq<u128>,
    e: Seq<(usize, usize)>,
    q: Seq<usize>,
    order: Seq<u128>,
)
    requires
        ids.no_duplicates(),
        edges_within(e, ids.len()),
        forall|j: int| 0 <= j < lv.len() && #[trigger] is_real_link(s, lv[j]) ==> link_has_edge(ids, e, lv[j]),
        q.no_duplicates(),
        forall|p: int| 0 <= p < q.len() ==> #[trigger] q[p] < ids.len(),
        forall|p: int, k: int|
            0 <= p < q.len() && 0 <= k < e.len() && (#[trigger] e[k]).1 == #[trigger] q[p] ==> exists|r: int|
                0 <= r < p && q[r] == e[k].0,
        order.len() == q.len(),
        forall|x: int| 0 <= x < q.len() ==> #[trigger] order[x] == ids[q[x] as int],
    ensures
        forall|j: int, p: int, pp: int|
            0 <= j < lv.len() && #[trigger] is_real_link(s, lv[j]) && 0 <= p < order.len() && 0 <= pp < order.len()
                && #[trigger] order[p] == lv[j].0 && #[trigger] order[pp] == lv[j].2 ==> p < pp,
{
    lemma_ids_injective(ids);
    assert forall|j: int, p: int, pp: int|
        0 <= j < lv.len() && #[trigger] is_real_link(s, lv[j]) && 0 <= p < order.len() && 0 <= pp < order.len()
            && #[trigger] order[p] == lv[j].0 && #[trigger] order[pp] == lv[j].2 implies p < pp by {
        assert(link_has_edge(ids, e, lv[j]));
        let k = choose|k: int| 0 <= k < e.len() && ids[e[k].0 as int] == lv[j].0 && ids[e[k].1 as int] == lv[j].2;
        assert(e[k].0 < ids.len() && e[k].1 < ids.len());
        assert(order[pp] == ids[q[pp] as int]);
        assert(ids[q[pp] as int] == ids[e[k].1 as int]);
        assert(q[pp] == e[k].1);
        let r = choose|r: int| 0 <= r < pp && q[r] == e[k].0;
        assert(order[p] == ids[q[p] as int]);
        assert(ids[q[p] as int] == ids[q[r] as int]);
        assert(q[p] == q[r]);
        if p != r {
            assert(q[p] != q[r]);
        }
    }
}

proof fn lemma_blocked_fed(
    s: Seq<(u128, GraphNode)>,
    lv: Seq<LinkView>,
    ids: Seq<u128>,
    e: Seq<(usize, usize)>,
    q: Seq<usize>,
    blocked: Seq<u128>,
)
    requires
        ids.len() <= usize::MAX,
        edges_within(e, ids.len()),
        forall|k: int| 0 <= k < e.len() ==> edge_from_link(s, lv, ids, #[trigger] e[k]),
        forall|v: usize|
            v < ids.len() && !(#[trigger] q.contains(v)) ==> exists|k: int|
                0 <= k < e.len() && (#[trigger] e[k]).1 == v && !q.contains(e[k].0),
        forall|x: u128| #[trigger] blocked.contains(x) <==> left_out(ids, q, x),
    ensures
        forall|b: u128| #[trigger] blocked.contains(b) ==> fed_by_blocked(s, lv, blocked, b),
{
    assert forall|b: u128| #[trigger] blocked.contains(b) implies fed_by_blocked(s, lv, blocked, b) by {
        assert(left_out(ids, q, b));
        let a = choose|a: int| 0 <= a < ids.len() && ids[a] == b && !q.contains(a as usize);
        let v = a as usize;
        assert(!q.contains(v));
        let k = choose|k: int| 0 <= k < e.len() && (#[trigger] e[k]).1 == v && !q.contains(e[k].0);
        assert(edge_from_link(s, lv, ids, e[k]));
        let j = choose|j: int| 0 <= j < lv.len() && is_real_link(s, lv[j]) && lv[j].0 == ids[e[k].0 as int]
            && lv[j].2 == ids[e[k].1 as int];
        assert(e[k].0 < ids.len());
        assert(left_out(ids, q, lv[j].0));
        assert(blocked.contains(lv[j].0));
    }
}

proof fn lemma_order_contract(
    s: Seq<(u128, GraphNode)>,
    lv: Seq<LinkView>,
    ids: Seq<u128>,
    e: Seq<(usize, usize)>,
    q: Seq<usize>,
    order: Seq<u128>,
    blocked: Seq<u128>,
)
    requires
        ids.len() <= usize::MAX,
        ids == real_ids(s),
        ids.no_duplicates(),
        edges_within(e, ids.len()),
        forall|k: int| 0 <= k < e.len() ==> edge_from_link(s, lv, ids, #[trigger] e[k]),
        forall|j: int| 0 <= j < lv.len() && #[trigger] is_real_link(s, lv[j]) ==> link_has_edge(ids, e, lv[j]),
        q.no_duplicates(),
        forall|p: int| 0 <= p < q.len() ==> #[trigger] q[p] < ids.len(),
        forall|p: int, k: int|
            0 <= p < q.len() && 0 <= k < e.len() && (#[trigger] e[k]).1 == #[trigger] q[p] ==> exists|r: int|
                0 <= r < p && q[r] == e[k].0,
        forall|v: usize|
            v < ids.len() && !(#[trigger] q.contains(v)) ==> exists|k: int|
                0 <= k < e.len() && (#[trigger] e[k]).1 == v && !q.contains(e[k].0),
        order.len() == q.len(),
        forall|x: int| 0 <= x < q.len() ==> #[trigger] order[x] == ids[q[x] as int],
        blocked.no_duplicates(),
        forall|x: u128| #[trigger] blocked.contains(x) <==> left_out(ids, q, x),
    ensures
        eval_order_ok(s, lv, order, blocked),
{
    lemma_order_distinct(ids, q, order);
    lemma_order_cover(s, ids, q, order, blocked);
    lemma_order_forward(s, lv, ids, e, q, order);
    lemma_blocked_fed(s, lv, ids, e, q, blocked);
    lemma_blocked_spreads(s, lv, ids, e, q, blocked);
}

/// A node fed through a real wire by a node Kahn's algorithm left out is
/// left out too.
proof fn lemma_blocked_spreads(
    s: Seq<(u128, GraphNode)>,
    lv: Seq<LinkView>,
    ids: Seq<u128>,
    e: Seq<(usize, usize)>,
    q: Seq<usize>,
    blocked: Seq<u128>,
)
    requires
        ids.no_duplicates(),
        edges_within(e, ids.len()),
        forall|j: int| 0 <= j < lv.len() && #[trigger] is_real_link(s, lv[j]) ==> link_has_edge(ids, e, lv[j]),
        forall|p: int, k: int|
            0 <= p < q.len() && 0 <= k < e.len() && (#[trigger] e[k]).1 == #[trigger] q[p] ==> exists|r: int|
                0 <= r < p && q[r] == e[k].0,
        forall|x: u128| #[trigger] blocked.contains(x) <==> left_out(ids, q, x),
    ensures
        forall|j: int|
            0 <= j < lv.len() && #[trigger] is_real_link(s, lv[j]) && blocked.contains(lv[j].0) ==> blocked.contains(lv[j].2),
{
    lemma_ids_injective(ids);
    assert forall|j: int|
        0 <= j < lv.len() && #[trigger] is_real_link(s, lv[j]) && blocked.contains(lv[j].0) implies blocked.contains(lv[j].2) by {
        assert(link_has_edge(ids, e, lv[j]));
        let k = choose|k: int| 0 <= k < e.len() && ids[e[k].0 as int] == lv[j].0 && ids[e[k].1 as int] == lv[j].2;
        assert(e[k].0 < ids.len() && e[k].1 < ids.len());
        assert(left_out(ids, q, lv[j].0));
        let a = choose|a: int| 0 <= a < ids.len() && ids[a] == lv[j].0 && !q.contains(a as usize);
        assert(ids[a] == ids[e[k].0 as int]);
        assert(a == e[k].0 as int);
        assert(!q.contains(e[k].1)) by {
            if q.contains(e[k].1) {
                let p = choose|p: int| 0 <= p < q.len() && q[p] == e[k].1;
                assert(e[k].1 == q[p]);
                let r = choose|r: int| 0 <= r < p && q[r] == e[k].0;
                assert(q.contains(e[k].0));
            }
        }
        assert(left_out(ids, q, lv[j].2));
    }
}

/// Consecutive nodes of `w` are joined by real wires, in order.
pub open spec fn real_walk(s: Seq<(u128, GraphNode)>, lv: Seq<LinkView>, w: Seq<u128>) -> bool {
    &&& w.len() >= 2
    &&& forall|i: int| 0 <= i < w.len() - 1 ==> #[trigger] real_step(s, lv, w[i], w[i + 1])
}

/// Some real wire goes from `a` to `b`.
pub open spec fn real_step(s: Seq<(u128, GraphNode)>, lv: Seq<LinkView>, a: u128, b: u128) -> bool {
    exists|j: int| 0 <= j < lv.len() && is_real_link(s, lv[j]) && lv[j].0 == a && lv[j].2 == b
}

/// The real wires contain a cycle: a walk that ends where it starts.
pub open spec fn has_real_cycle(s: Seq<(u128, GraphNode)>, lv: Seq<LinkView>) -> bool {
    exists|w: Seq<u128>| real_walk(s, lv, w) && w[0] == w.last()
}

/// A chain of `k + 1` blocked nodes, each fed by the next through a real wire.
proof fn blocked_chain(s: Seq<(u128, GraphNode)>, lv: Seq<LinkView>, blocked: Seq<u128>, b: u128, k: nat) -> (c: Seq<u128>)
    requires
        blocked.contains(b),
        forall|x: u128| #[trigger] blocked.contains(x) ==> fed_by_blocked(s, lv, blocked, x),
    ensures
        c.len() == k + 1,
        forall|i: int| 0 <= i < c.len() ==> blocked.contains(#[trigger] c[i]),
        forall|i: int| 0 <= i < k ==> #[trigger] real_step(s, lv, c[i + 1], c[i]),
    decreases k,
{
    if k == 0 {
        seq![b]
    } else {
        let c0 = blocked_chain(s, lv, blocked, b, (k - 1) as nat);
        let last = c0.last();
        assert(blocked.contains(last)) by {
            assert(c0[c0.len() - 1] == last);
        }
        assert(fed_by_blocked(s, lv, blocked, last));
        let j = choose|j: int| 0 <= j < lv.len() && is_real_link(s, lv[j]) && lv[j].2 == last && blocked.contains(lv[j].0);
        let c = c0.push(lv[j].0);
        assert forall|i: int| 0 <= i < c.len() implies blocked.contains(#[trigger] c[i]) by {
            if i < c0.len() {
                assert(c[i] == c0[i]);
            }
        }
        assert forall|i: int| 0 <= i < k implies #[trigger] real_step(s, lv, c[i + 1], c[i]) by {
            if i < k - 1 {
                assert(c[i + 1] == c0[i + 1] && c[i] == c0[i]);
            } else {
                assert(c[i] == last && c[i + 1] == lv[j].0);
            }
        }
        c
    }
}

proof fn lemma_repeat_in(c: Seq<u128>, blocked: Seq<u128>)
    requires
        blocked.no_duplicates(),
        c.len() > blocked.len(),
        forall|i: int| 0 <= i < c.len() ==> blocked.contains(#[trigger] c[i]),
    ensures
        exists|a: int, b: int| 0 <= a < b < c.len() && c[a] == c[b],
{
    if c.no_duplicates() {
        c.unique_seq_to_set();
        blocked.unique_seq_to_set();
        assert(c.to_set().subset_of(blocked.to_set())) by {
            assert forall|x: u128| c.to_set().contains(x) implies blocked.to_set().contains(x) by {
                assert(c.contains(x));
                let i = choose|i: int| 0 <= i < c.len() && c[i] == x;
                assert(blocked.contains(c[i]));
            }
        }
        vstd::set_lib::lemma_len_subset(c.to_set(), blocked.to_set());
    }
}

/// When some real node is blocked, the real wires contain a cycle; so a
/// graph without real cycles evaluates every real node.
pub proof fn lemma_blocked_means_cycle(
    s: Seq<(u128, GraphNode)>,
    lv: Seq<LinkView>,
    order: Seq<u128>,
    blocked: Seq<u128>,
)
    requires
        eval_order_ok(s, lv, order, blocked),
        blocked.len() > 0,
    ensures
        has_real_cycle(s, lv),
{
    let b0 = blocked[0];
    assert(blocked.contains(b0));
    let c = blocked_chain(s, lv, blocked, b0, blocked.len());
    lemma_repeat_in(c, blocked);
    let (a, b) = choose|a: int, b: int| 0 <= a < b < c.len() && c[a] == c[b];
    // walk forward from c[b] down to c[a]
    let w = Seq::new((b - a + 1) as nat, |i: int| c[b - i]);
    assert(w[0] == c[b]);
    assert(w.last() == c[a]);
    assert forall|i: int| 0 <= i < w.len() - 1 implies #[trigger] real_step(s, lv, w[i], w[i + 1]) by {
        assert(w[i] == c[b - i] && w[i + 1] == c[b - i - 1]);
        assert(real_step(s, lv, c[(b - i - 1) + 1], c[b - i - 1]));
    }
    assert(real_walk(s, lv, w));
}

proof fn lemma_walk_climbs(
    s: Seq<(u128, GraphNode)>,
    lv: Seq<LinkView>,
    order: Seq<u128>,
    blocked: Seq<u128>,
    w: Seq<u128>,
    i: int,
)
    requires
        eval_order_ok(s, lv, order, blocked),
        real_walk(s, lv, w),
        1 <= i < w.len(),
        forall|x: int| 0 <= x <= i ==> order.contains(#[trigger] w[x]),
    ensures
        exists|p: int, q: int| 0 <= p < q < order.len() && order[p] == w[0] && order[q] == w[i],
    decreases i,
{
    let k = i - 1;
    assert(real_step(s, lv, w[k], w[k + 1]));
    assert(k + 1 == i);
    let j = choose|j: int| 0 <= j < lv.len() && is_real_link(s, lv[j]) && lv[j].0 == w[i - 1] && lv[j].2 == w[i];
    assert(order.contains(w[i - 1]) && order.contains(w[i]));
    let a = choose|a: int| 0 <= a < order.len() && order[a] == w[i - 1];
    let c = choose|c: int| 0 <= c < order.len() && order[c] == w[i];
    assert(a < c);
    if i == 1 {
    } else {
        lemma_walk_climbs(s, lv, order, blocked, w, i - 1);
        let (p, q) = choose|p: int, q: int| 0 <= p < q < order.len() && order[p] == w[0] && order[q] == w[i - 1];
        if q != a {
            assert(order[q] == order[a]);
            if q < a {
                assert(order[q] != order[a]);
            } else {
                assert(order[a] != order[q]);
            }
        }
    }
}

/// A real cycle always leaves some node blocked: with the previous law, the
/// blocked list is empty exactly when the real wires have no cycle.
pub proof fn lemma_cycle_is_blocked(
    s: Seq<(u128, GraphNode)>,
    lv: Seq<LinkView>,
    order: Seq<u128>,
    blocked: Seq<u128>,
)
    requires
        eval_order_ok(s, lv, order, blocked),
        has_real_cycle(s, lv),
    ensures
        blocked.len() > 0,
{
    let w = choose|w: Seq<u128>| real_walk(s, lv, w) && w[0] == w.last();
    if blocked.len() == 0 {
        assert forall|x: int| 0 <= x < w.len() implies order.contains(#[trigger] w[x]) by {
            let i = if x < w.len() - 1 { x } else { x - 1 };
            assert(real_step(s, lv, w[i], w[i + 1]));
            let j = choose|j: int| 0 <= j < lv.len() && is_real_link(s, lv[j]) && lv[j].0 == w[i] && lv[j].2 == w[i + 1];
            reveal(is_real_link);
            assert(real_ids(s).contains(w[x]));
            assert(!blocked.contains(w[x]));
        }
        lemma_walk_climbs(s, lv, order, blocked, w, w.len() - 1);
        let (p, q) = choose|p: int, q: int| 0 <= p < q < order.len() && order[p] == w[0] && order[q] == w[w.len() - 1];
        assert(order[p] == order[q]);
    }
}

/// Kinds whose errors come from evaluating the real-valued graph.
pub open spec fn is_algebra_kind(k: NodeKindView) -> bool {
    k is Value || k is ExprX || k is ExprXy || k is ExprXyz || k is Frame || k is Time || k is ParamReal
}

/// An error left by an earlier evaluation (a cycle or a formula error).
pub open spec fn is_eval_error(m: Seq<char>) -> bool {
    has_sub(m, "cycle"@) || has_sub(m, "Expr"@) || has_sub(m, "expr"@)
}

/// Error of node `n` (stored under `key`) once a real evaluation is
/// prepared: a blocked node reports the cycle; an algebra node drops an
/// earlier evaluation error; other errors stay.
pub open spec fn prepared_error(key: u128, n: GraphNodeView, blocked: Seq<u128>) -> Option<Seq<char>> {
    if blocked.contains(key) {
        Some("cycle in Real graph"@)
    } else if is_algebra_kind(n.kind) && (n.error matches Some(m) && is_eval_error(m)) {
        None
    } else {
        n.error
    }
}

/// Root error once a real evaluation is prepared.
pub open spec fn prepared_root_error(old: Option<Seq<char>>, blocked: Seq<u128>) -> Option<Seq<char>> {
    if blocked.len() > 0 {
        Some("Graph error: cycle in algebra nodes"@)
    } else if old matches Some(m) && has_sub(m, "cycle"@) {
        None
    } else {
        old
    }
}

fn u128_in(v: &Vec<u128>, x: u128) -> (r: bool)
    ensures
        r == v@.contains(x),
{
    let mut i: usize = 0;
    while i < v.len()
        invariant
            i <= v@.len(),
            forall|j: int| 0 <= j < i ==> v@[j] != x,
        decreases v@.len() - i,
    {
        if v[i] == x {
            return true;
        }
        i = i + 1;
    }
    false
}

fn is_algebra(k: &GraphNodeKind) -> (r: bool)
    ensures
        r == is_algebra_kind(k@),
{
    match k {
        GraphNodeKind::Value { .. } | GraphNodeKind::ExprX { .. } | GraphNodeKind::ExprXy { .. }
        | GraphNodeKind::ExprXyz { .. } | GraphNodeKind::Frame | GraphNodeKind::Time
        | GraphNodeKind::ParamReal { .. } => true,
        _ => false,
    }
}

/// An unnamed Frame node with id 0 at the origin and no error, put in a
/// table slot while the node there is edited.
fn blank_node() -> (n: GraphNode)
    ensures
        n.id == 0,
        n.name@.len() == 0,
        n.kind == GraphNodeKind::Frame,
        n.x_bits == 0,
        n.y_bits == 0,
        n.error is None,
{
    GraphNode { id: 0, name: String::new(), kind: GraphNodeKind::Frame, x_bits: 0, y_bits: 0, error: None }
}

impl NodeGraph {
    /// The order-independent part of a real evaluation: computes the
    /// evaluation order, marks the nodes a cycle blocks, clears the errors
    /// an earlier evaluation left on algebra nodes, and sets or clears the
    /// graph's cycle error. Returns the order (the caller then computes the
    /// values in it).
    pub fn prepare_real_eval(&mut self) -> (r: RealEvalOrder)
        ensures
            eval_order_ok(old(self).entries(), links_view(old(self).links@), r.order@, r.blocked@),
            final(self).entries().len() == old(self).entries().len(),
            forall|i: int|
                0 <= i < old(self).entries().len() ==> {
                    let (k, n) = #[trigger] entries_view(old(self).entries())[i];
                    entries_view(final(self).entries())[i] == (k, GraphNodeView {
                        error: prepared_error(k, n, r.blocked@),
                        ..n
                    })
                },
            opt_text(final(self).root_error) == prepared_root_error(opt_text(old(self).root_error), r.blocked@),
            final(self).links == old(self).links,
            final(self).parameters == old(self).parameters,
            final(self).output_node_id == old(self).output_node_id,
            final(self).view == old(self).view,
    {
        let r = self.real_eval_order();
        let ghost ov = entries_view(self.entries());
        let n = nodes_len(&self.nodes);
        let mut i: usize = 0;
        while i < n
            invariant
                self.view == old(self).view,
                n == ov.len(),
                ov == entries_view(old(self).entries()),
                self.entries().len() == n,
                i <= n,
                forall|j: int| 0 <= j < i ==> #[trigger] entries_view(self.entries())[j] == (ov[j].0, GraphNodeView {
                    error: prepared_error(ov[j].0, ov[j].1, r.blocked@),
                    ..ov[j].1
                }),
                forall|j: int| i <= j < n ==> #[trigger] entries_view(self.entries())[j] == ov[j],
                self.links == old(self).links,
                self.parameters == old(self).parameters,
                self.output_node_id == old(self).output_node_id,
                self.root_error == old(self).root_error,
            decreases n - i,
        {
            let ghost before = self.entries();
            let node = nodes_replace_at(&mut self.nodes, i, blank_node());
            let (key, _unused) = nodes_get_index(&self.nodes, i);
            assert(entries_view(before)[i as int] == ov[i as int]);
            assert(key == ov[i as int].0);
            assert(node@ == ov[i as int].1);
            let GraphNode { id, name, kind, x_bits, y_bits, error } = node;
            let ghost old_node = GraphNode { id, name, kind, x_bits, y_bits, error }@;
            let new_error = if u128_in(&r.blocked, key) {
                Some(owned("cycle in Real graph"))
            } else if is_algebra(&kind) {
                match error {
                    Some(m) => {
                        if str_contains(m.as_str(), "cycle") || str_contains(m.as_str(), "Expr") || str_contains(
                            m.as_str(),
                            "expr",
                        ) {
                            None
                        } else {
                            Some(m)
                        }
                    },
                    None => None,
                }
            } else {
                error
            };
            let new_node = GraphNode { id, name, kind, x_bits, y_bits, error: new_error };
            assert(new_node@ == GraphNodeView { error: prepared_error(key, old_node, r.blocked@), ..old_node });
            nodes_replace_at(&mut self.nodes, i, new_node);
            proof {
                assert forall|j: int| 0 <= j < n && j != i implies #[trigger] entries_view(self.entries())[j]
                    == entries_view(before)[j] by {
                    assert(self.entries()[j] == before[j]);
                }
            }
            i = i + 1;
        }
        if r.blocked.len() > 0 {
            self.root_error = Some(owned("Graph error: cycle in algebra nodes"));
        } else {
            let clear = match &self.root_error {
                Some(m) => str_contains(m.as_str(), "cycle"),
                None => false,
            };
            if clear {
                self.root_error = None;
            }
        }
        r
    }
}

/// Error of an evaluated node after its outcome: a success drops an earlier
/// evaluation error; a failure reports `Expr: ` and the message.
pub open spec fn outcome_error(old: Option<Seq<char>>, outcome: Result<(), Seq<char>>) -> Option<Seq<char>> {
    match outcome {
        Ok(()) => if old matches Some(m) && is_eval_error(m) {
            None
        } else {
            old
        },
        Err(msg) => Some("Expr: "@ + msg),
    }
}

pub open spec fn outcome_view(o: Result<(), String>) -> Result<(), Seq<char>> {
    match o {
        Ok(()) => Ok(()),
        Err(m) => Err(m@),
    }
}

impl NodeGraph {
    /// Records the outcome of evaluating node `id`: on success an earlier
    /// evaluation error is cleared, on failure the node reports
    /// `Expr: <message>`. Nothing else changes; an unknown id changes nothing.
    pub fn record_eval_outcome(&mut self, id: u128, outcome: Result<(), String>)
        ensures
            final(self).entries().len() == old(self).entries().len(),
            forall|i: int|
                0 <= i < old(self).entries().len() ==> {
                    let (k, n) = #[trigger] entries_view(old(self).entries())[i];
                    entries_view(final(self).entries())[i] == (if i == key_index(old(self).entries(), id) {
                        (k, GraphNodeView { error: outcome_error(n.error, outcome_view(outcome)), ..n })
                    } else {
                        (k, n)
                    })
                },
            final(self).links == old(self).links,
            final(self).parameters == old(self).parameters,
            final(self).output_node_id == old(self).output_node_id,
            final(self).root_error == old(self).root_error,
            final(self).view == old(self).view,
    {
        let ghost ov = entries_view(self.entries());
        let ghost s = self.entries();
        proof {
            lemma_key_index(s, id);
        }
        let n = nodes_len(&self.nodes);
        let mut i: usize = 0;
        while i < n && nodes_get_index(&self.nodes, i).0 != id
            invariant
                self.view == old(self).view,
                n == s.len(),
                s == self.entries(),
                s == old(self).entries(),
                i <= n,
                forall|j: int| 0 <= j < i ==> (#[trigger] s[j]).0 != id,
            decreases n - i,
        {
            i = i + 1;
        }
        if i == n {
            proof {
                if key_index(s, id) >= 0 {
                    assert(s[key_index(s, id)].0 == id);
                }
            }
            return;
        }
        assert(s[i as int].0 == id);
        assert(key_index(s, id) == i) by {
            if key_index(s, id) < i {
                assert(s[key_index(s, id)].0 == id);
            }
        }
        let node = nodes_replace_at(&mut self.nodes, i, blank_node());
        assert(node@ == ov[i as int].1);
        let GraphNode { id: nid, name, kind, x_bits, y_bits, error } = node;
        let ghost old_node = GraphNode { id: nid, name, kind, x_bits, y_bits, error }@;
        let new_error = match outcome {
            Ok(()) => match error {
                Some(m) => {
                    if str_contains(m.as_str(), "cycle") || str_contains(m.as_str(), "Expr") || str_contains(
                        m.as_str(),
                        "expr",
                    ) {
                        None
                    } else {
                        Some(m)
                    }
                },
                None => None,
            },
            Err(msg) => Some(concat2("Expr: ", msg.as_str())),
        };
        let new_node = GraphNode { id: nid, name, kind, x_bits, y_bits, error: new_error };
        assert(new_node@ == GraphNodeView { error: outcome_error(old_node.error, outcome_view(outcome)), ..old_node });
        let ghost mid = self.entries();
        nodes_replace_at(&mut self.nodes, i, new_node);
        proof {
            assert forall|j: int| 0 <= j < n && j != i implies #[trigger] entries_view(self.entries())[j] == ov[j] by {
                assert(self.entries()[j] == mid[j]);
                assert(mid[j] == s[j]);
            }
        }
    }
}

} // verus!
