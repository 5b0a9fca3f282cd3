//! Topology of one audio graph at a fixed sample rate: its nodes, the directed
//! edges between them, and the order in which a block is processed.
//!
//! A node is a slot number `0..node_count`. An edge `(a, b)` feeds the output of
//! `a` into `b`. The graph stays acyclic: an edge that would close a cycle is
//! refused, and the graph keeps a topological order of all of its nodes, from
//! which the per-block processing order is taken.
use vstd::prelude::*;

use crate::channel::{push, ring_buffer, DEFAULT_QUEUE_SIZE, MAX_QUEUE_SIZE};
use crate::node::{NodeId, ProcessContext, BLOCK_SIZE};

verus! {

/// Every edge joins two nodes of an `n`-node graph.
pub open spec fn edges_valid(n: nat, edges: Seq<(u32, u32)>) -> bool {
    forall|k: int| 0 <= k < edges.len() ==> (#[trigger] edges[k]).0 < n && edges[k].1 < n
}

/// `s` lists each node of an `n`-node graph exactly once, and for every edge the
/// producer comes before the consumer.
pub open spec fn is_topo_order(n: nat, edges: Seq<(u32, u32)>, s: Seq<u32>) -> bool {
    &&& s.no_duplicates()
    &&& forall|i: int| 0 <= i < s.len() ==> (#[trigger] s[i]) < n
    &&& forall|v: u32| v < n ==> #[trigger] s.contains(v)
    &&& forall|k: int, i: int, j: int|
        0 <= k < edges.len() && 0 <= i < s.len() && 0 <= j < s.len() && #[trigger] s[i]
            == (#[trigger] edges[k]).0 && #[trigger] s[j] == edges[k].1 ==> i < j
}

/// The graph has no directed cycle, that is, its nodes can be ordered so that
/// every edge points forward.
pub open spec fn acyclic(n: nat, edges: Seq<(u32, u32)>) -> bool {
    exists|s: Seq<u32>| is_topo_order(n, edges, s)
}

/// `p` is a walk along the edges.
pub open spec fn is_path(edges: Seq<(u32, u32)>, p: Seq<u32>) -> bool {
    &&& p.len() >= 1
    &&& forall|i: int| 0 <= i < p.len() - 1 ==> #[trigger] edges.contains((p[i], p[i + 1]))
}

/// There is a walk from `x` to `t` (of length zero when `x == t`): the output of
/// `x` is needed to compute `t`.
pub open spec fn reaches(edges: Seq<(u32, u32)>, x: u32, t: u32) -> bool {
    exists|p: Seq<u32>| is_path(edges, p) && p[0] == x && p.last() == t
}

/// The producers feeding node `v`, one entry per edge, in the order the edges were added.
pub open spec fn inputs_spec(edges: Seq<(u32, u32)>, v: u32) -> Seq<u32>
    decreases edges.len(),
{
    if edges.len() == 0 {
        Seq::empty()
    } else {
        let rest = inputs_spec(edges.drop_last(), v);
        if edges.last().1 == v {
            rest.push(edges.last().0)
        } else {
            rest
        }
    }
}

/// `x` reaches `t` exactly when it is `t` or feeds a node that reaches `t`.
pub proof fn lemma_reaches_unfold(edges: Seq<(u32, u32)>, x: u32, t: u32)
    ensures
        reaches(edges, x, t) <==> (x == t || exists|k: int|
            0 <= k < edges.len() && (#[trigger] edges[k]).0 == x && reaches(edges, edges[k].1, t)),
{
    if reaches(edges, x, t) {
        let p = choose|p: Seq<u32>| is_path(edges, p) && p[0] == x && p.last() == t;
        if p.len() > 1 {
            let z: int = 0;
            assert(edges.contains((p[z], p[z + 1])));
            let k = choose|k: int| 0 <= k < edges.len() && edges[k] == (p[0], p[1]);
            let q = p.subrange(1, p.len() as int);
            assert forall|i: int| 0 <= i < q.len() - 1 implies #[trigger] edges.contains(
                (q[i], q[i + 1]),
            ) by {
                assert(q[i] == p[i + 1] && q[i + 1] == p[i + 2]);
                assert(edges.contains((p[i + 1], p[(i + 1) + 1])));
            }
            assert(is_path(edges, q) && q[0] == edges[k].1 && q.last() == t);
        }
    }
    if x == t {
        let p = seq![x];
        assert(is_path(edges, p) && p[0] == x && p.last() == t);
    } else if exists|k: int|
        0 <= k < edges.len() && (#[trigger] edges[k]).0 == x && reaches(edges, edges[k].1, t) {
        let k = choose|k: int|
            0 <= k < edges.len() && (#[trigger] edges[k]).0 == x && reaches(edges, edges[k].1, t);
        let q = choose|q: Seq<u32>| is_path(edges, q) && q[0] == edges[k].1 && q.last() == t;
        let p = seq![x] + q;
        assert forall|i: int| 0 <= i < p.len() - 1 implies #[trigger] edges.contains(
            (p[i], p[i + 1]),
        ) by {
            if i == 0 {
                assert(p[0] == x && p[1] == q[0]);
                assert(edges[k] == (x, q[0]));
            } else {
                assert(p[i] == q[i - 1] && p[i + 1] == q[(i - 1) + 1]);
                assert(edges.contains((q[i - 1], q[(i - 1) + 1])));
            }
        }
        assert(is_path(edges, p) && p[0] == x && p.last() == t);
    }
}

/// Number of nodes not yet placed.
spec fn unplaced(placed: Seq<bool>) -> nat
    decreases placed.len(),
{
    if placed.len() == 0 {
        0
    } else {
        unplaced(placed.drop_last()) + if placed.last() {
            0nat
        } else {
            1nat
        }
    }
}

proof fn lemma_unplaced_place(placed: Seq<bool>, v: int)
    requires
        0 <= v < placed.len(),
        !placed[v],
    ensures
        unplaced(placed.update(v, true)) + 1 == unplaced(placed),
    decreases placed.len(),
{
    let q = placed.update(v, true);
    if v == placed.len() - 1 {
        assert(q.drop_last() =~= placed.drop_last());
    } else {
        assert(q.drop_last() =~= placed.drop_last().update(v, true));
        lemma_unplaced_place(placed.drop_last(), v);
    }
}

/// In a topological order, if every unplaced node has an unplaced producer, the
/// nodes up to position `i` are all placed.
proof fn lemma_prefix_placed(n: nat, edges: Seq<(u32, u32)>, placed: Seq<bool>, s: Seq<u32>, i: int)
    requires
        placed.len() == n,
        edges_valid(n, edges),
        is_topo_order(n, edges, s),
        0 <= i < s.len(),
        forall|u: int|
            0 <= u < n && !#[trigger] placed[u] ==> exists|k: int|
                0 <= k < edges.len() && (#[trigger] edges[k]).1 == u && !placed[edges[k].0 as int],
    ensures
        forall|j: int| 0 <= j <= i ==> placed[#[trigger] s[j] as int],
    decreases i,
{
    if i > 0 {
        lemma_prefix_placed(n, edges, placed, s, i - 1);
    }
    let w = s[i];
    if !placed[w as int] {
        let k = choose|k: int|
            0 <= k < edges.len() && (#[trigger] edges[k]).1 == w && !placed[edges[k].0 as int];
        let u = edges[k].0;
        assert(s.contains(u));
        let j = choose|j: int| 0 <= j < s.len() && s[j] == u;
        assert(j < i);
        assert(placed[s[j] as int]);
    }
}

/// Whether every producer feeding `v` is already placed.
fn producers_placed(edges: &Vec<(u32, u32)>, placed: &Vec<bool>, v: u32) -> (r: bool)
    requires
        edges_valid(placed@.len() as nat, edges@),
    ensures
        r == forall|k: int|
            0 <= k < edges@.len() && (#[trigger] edges@[k]).1 == v ==> placed@[edges@[k].0 as int],
{
    let mut k: usize = 0;
    while k < edges.len()
        invariant
            edges_valid(placed@.len() as nat, edges@),
            k <= edges@.len(),
            forall|k2: int|
                0 <= k2 < k && (#[trigger] edges@[k2]).1 == v ==> placed@[edges@[k2].0 as int],
        decreases edges@.len() - k,
    {
        let (a, b) = edges[k];
        if b == v && !placed[a as usize] {
            assert(edges@[k as int].1 == v);
            return false;
        }
        k += 1;
    }
    true
}

/// A vector of `n` copies of `value`.
fn filled(n: u32, value: bool) -> (r: Vec<bool>)
    ensures
        r@.len() == n,
        forall|i: int| 0 <= i < n ==> r@[i] == value,
{
    let mut r: Vec<bool> = Vec::new();
    let mut i: u32 = 0;
    while i < n
        invariant
            i <= n,
            r@.len() == i,
            forall|j: int| 0 <= j < i ==> r@[j] == value,
        decreases n - i,
    {
        r.push(value);
        i += 1;
    }
    r
}

/// A topological order of all `n` nodes, or `None` when the edges contain a cycle.
///
/// Nodes are placed in rounds: a round scans the nodes in slot order and places
/// each one whose producers are all placed already.
pub fn topo_order(n: u32, edges: &Vec<(u32, u32)>) -> (r: Option<Vec<u32>>)
    requires
        edges_valid(n as nat, edges@),
    ensures
        r is Some <==> acyclic(n as nat, edges@),
        r matches Some(s) ==> is_topo_order(n as nat, edges@, s@),
{
    let mut placed = filled(n, false);
    let mut order: Vec<u32> = Vec::new();
    loop
        invariant_except_break
            placed@.len() == n,
            edges_valid(n as nat, edges@),
            order@.no_duplicates(),
            forall|i: int| 0 <= i < order@.len() ==> (#[trigger] order@[i]) < n,
            forall|v: int| 0 <= v < n ==> (#[trigger] placed@[v] <==> order@.contains(v as u32)),
            forall|i: int, k: int|
                0 <= i < order@.len() && 0 <= k < edges@.len() && (#[trigger] edges@[k]).1
                    == #[trigger] order@[i] ==> exists|j: int|
                    0 <= j < i && order@[j] == edges@[k].0,
        ensures
            placed@.len() == n,
            edges_valid(n as nat, edges@),
            order@.no_duplicates(),
            forall|i: int| 0 <= i < order@.len() ==> (#[trigger] order@[i]) < n,
            forall|v: int| 0 <= v < n ==> (#[trigger] placed@[v] <==> order@.contains(v as u32)),
            forall|i: int, k: int|
                0 <= i < order@.len() && 0 <= k < edges@.len() && (#[trigger] edges@[k]).1
                    == #[trigger] order@[i] ==> exists|j: int|
                    0 <= j < i && order@[j] == edges@[k].0,
            forall|u: int|
                0 <= u < n && !#[trigger] placed@[u] ==> exists|k: int|
                    0 <= k < edges@.len() && (#[trigger] edges@[k]).1 == u && !placed@[edges@[k].0 as int],
        decreases unplaced(placed@),
    {
        let ghost start = placed@;
        let mut progress = false;
        let mut v: u32 = 0;
        while v < n
            invariant
                placed@.len() == n,
                v <= n,
                edges_valid(n as nat, edges@),
                order@.no_duplicates(),
                forall|i: int| 0 <= i < order@.len() ==> (#[trigger] order@[i]) < n,
                forall|w: int| 0 <= w < n ==> (#[trigger] placed@[w] <==> order@.contains(w as u32)),
                forall|i: int, k: int|
                    0 <= i < order@.len() && 0 <= k < edges@.len() && (#[trigger] edges@[k]).1
                        == #[trigger] order@[i] ==> exists|j: int|
                        0 <= j < i && order@[j] == edges@[k].0,
                start.len() == n,
                !progress ==> placed@ == start,
                progress ==> unplaced(placed@) < unplaced(start),
                unplaced(placed@) <= unplaced(start),
                !progress ==> forall|u: int|
                    0 <= u < v && !#[trigger] placed@[u] ==> exists|k: int|
                        0 <= k < edges@.len() && (#[trigger] edges@[k]).1 == u
                            && !placed@[edges@[k].0 as int],
            decreases n - v,
        {
            if !placed[v as usize] {
                let ready = producers_placed(edges, &placed, v);
                if ready {
                    let ghost old_order = order@;
                    let ghost old_placed = placed@;
                    proof {
                        lemma_unplaced_place(placed@, v as int);
                    }
                    order.push(v);
                    placed.set(v as usize, true);
                    progress = true;
                    assert forall|w: int| 0 <= w < n implies (#[trigger] placed@[w]
                        <==> order@.contains(w as u32)) by {
                        if w == v {
                            assert(order@[old_order.len() as int] == v);
                        } else {
                            if order@.contains(w as u32) {
                                let j = choose|j: int| 0 <= j < order@.len() && order@[j] == w as u32;
                                assert(j < old_order.len());
                                assert(old_order[j] == w as u32);
                            }
                            if old_order.contains(w as u32) {
                                let j = choose|j: int|
                                    0 <= j < old_order.len() && old_order[j] == w as u32;
                                assert(order@[j] == w as u32);
                            }
                        }
                    }
                    assert forall|i: int, k: int|
                        0 <= i < order@.len() && 0 <= k < edges@.len() && (#[trigger] edges@[k]).1
                            == #[trigger] order@[i] implies exists|j: int|
                        0 <= j < i && order@[j] == edges@[k].0 by {
                        if i < old_order.len() {
                            assert(old_order[i] == order@[i]);
                            let j = choose|j: int| 0 <= j < i && old_order[j] == edges@[k].0;
                            assert(order@[j] == edges@[k].0);
                        } else {
                            assert(order@[i] == v);
                            assert(old_placed[edges@[k].0 as int]);
                            assert(old_order.contains(edges@[k].0));
                            let j = choose|j: int|
                                0 <= j < old_order.len() && old_order[j] == edges@[k].0;
                            assert(order@[j] == edges@[k].0);
                        }
                    }
                } else {
                    assert(!(forall|k: int|
                        0 <= k < edges@.len() && (#[trigger] edges@[k]).1 == v
                            ==> placed@[edges@[k].0 as int]));
                }
            }
            v += 1;
        }
        if !progress {
            break;
        }
    }
    let mut w: u32 = 0;
    while w < n
        invariant
            w <= n,
            placed@.len() == n,
            forall|u: int| 0 <= u < w ==> #[trigger] placed@[u],
            edges_valid(n as nat, edges@),
            forall|u: int|
                0 <= u < n && !#[trigger] placed@[u] ==> exists|k: int|
                    0 <= k < edges@.len() && (#[trigger] edges@[k]).1 == u && !placed@[edges@[k].0 as int],
        decreases n - w,
    {
        if !placed[w as usize] {
            proof {
                if acyclic(n as nat, edges@) {
                    let s = choose|s: Seq<u32>| is_topo_order(n as nat, edges@, s);
                    assert(s.contains(w));
                    let i = choose|i: int| 0 <= i < s.len() && s[i] == w;
                    lemma_prefix_placed(n as nat, edges@, placed@, s, s.len() - 1);
                    assert(placed@[s[i] as int]);
                }
            }
            return None;
        }
        w += 1;
    }
    assert forall|k: int, i: int, j: int|
        0 <= k < edges@.len() && 0 <= i < order@.len() && 0 <= j < order@.len() && #[trigger] order@[i]
            == (#[trigger] edges@[k]).0 && #[trigger] order@[j] == edges@[k].1 implies i < j by {
        let j2 = choose|j2: int| 0 <= j2 < j && order@[j2] == edges@[k].0;
        assert(order@[j2] == order@[i]);
    }
    assert forall|v: u32| v < n implies #[trigger] order@.contains(v) by {
        assert(placed@[v as int]);
    }
    assert(is_topo_order(n as nat, edges@, order@));
    Some(order)
}

/// `s` is the order in which one block ending at node `t` is processed: every
/// node whose output `t` needs appears exactly once, and each producer comes
/// before the nodes it feeds.
pub open spec fn is_schedule(n: nat, edges: Seq<(u32, u32)>, t: u32, s: Seq<u32>) -> bool {
    &&& s.no_duplicates()
    &&& forall|v: u32| #[trigger] s.contains(v) <==> (v < n && reaches(edges, v, t))
    &&& forall|k: int, i: int, j: int|
        0 <= k < edges.len() && 0 <= i < s.len() && 0 <= j < s.len() && #[trigger] s[i]
            == (#[trigger] edges[k]).0 && #[trigger] s[j] == edges[k].1 ==> i < j
}

/// The nodes that reach `t`, in the order in which they stand in `order`.
///
/// One backward pass over the topological order decides each node: a node
/// reaches `t` when it is `t` or feeds a node, standing later in the order,
/// that reaches `t`.
fn compute_schedule(n: u32, edges: &Vec<(u32, u32)>, order: &Vec<u32>, t: u32) -> (r: Vec<u32>)
    requires
        edges_valid(n as nat, edges@),
        is_topo_order(n as nat, edges@, order@),
        t < n,
    ensures
        is_schedule(n as nat, edges@, t, r@),
{
    let mut marked = filled(n, false);
    let mut i: usize = order.len();
    while i > 0
        invariant
            marked@.len() == n,
            i <= order@.len(),
            t < n,
            edges_valid(n as nat, edges@),
            is_topo_order(n as nat, edges@, order@),
            forall|j: int|
                i <= j < order@.len() ==> marked@[#[trigger] order@[j] as int] == reaches(
                    edges@,
                    order@[j],
                    t,
                ),
            forall|j: int| 0 <= j < i ==> !marked@[#[trigger] order@[j] as int],
        decreases i,
    {
        i -= 1;
        let x = order[i];
        let mut m = x == t;
        let mut k: usize = 0;
        while k < edges.len()
            invariant
                marked@.len() == n,
                k <= edges@.len(),
                edges_valid(n as nat, edges@),
                m == (x == t || exists|k2: int|
                    0 <= k2 < k && (#[trigger] edges@[k2]).0 == x && marked@[edges@[k2].1 as int]),
            decreases edges@.len() - k,
        {
            let (a, b) = edges[k];
            if a == x && marked[b as usize] {
                m = true;
                assert(edges@[k as int].0 == x && marked@[edges@[k as int].1 as int]);
            }
            k += 1;
        }
        proof {
            assert forall|k2: int|
                0 <= k2 < edges@.len() && (#[trigger] edges@[k2]).0 == x implies marked@[edges@[k2].1
                as int] == reaches(edges@, edges@[k2].1, t) by {
                let y = edges@[k2].1;
                assert(order@.contains(y));
                let j = choose|j: int| 0 <= j < order@.len() && order@[j] == y;
                assert(order@[i as int] == edges@[k2].0);
                assert(i < j);
            }
            lemma_reaches_unfold(edges@, x, t);
        }
        let ghost before = marked@;
        marked.set(x as usize, m);
        assert forall|j: int| i <= j < order@.len() implies marked@[#[trigger] order@[j] as int]
            == reaches(edges@, order@[j], t) by {
            if j != i {
                assert(order@[j] != order@[i as int]);
            }
        }
        assert forall|j: int| 0 <= j < i implies !marked@[#[trigger] order@[j] as int] by {
            assert(order@[j] != order@[i as int]);
        }
    }
    let mut r: Vec<u32> = Vec::new();
    let ghost mut idx: Seq<int> = Seq::empty();
    let mut j: usize = 0;
    while j < order.len()
        invariant
            marked@.len() == n,
            j <= order@.len(),
            t < n,
            edges_valid(n as nat, edges@),
            is_topo_order(n as nat, edges@, order@),
            forall|j2: int|
                0 <= j2 < order@.len() ==> marked@[#[trigger] order@[j2] as int] == reaches(
                    edges@,
                    order@[j2],
                    t,
                ),
            r@.len() == idx.len(),
            forall|a: int|
                0 <= a < idx.len() ==> 0 <= #[trigger] idx[a] < j && r@[a] == order@[idx[a]]
                    && marked@[r@[a] as int],
            forall|a: int, b: int| 0 <= a < b < idx.len() ==> idx[a] < idx[b],
            forall|j2: int|
                0 <= j2 < j && marked@[#[trigger] order@[j2] as int] ==> r@.contains(order@[j2]),
        decreases order@.len() - j,
    {
        let x = order[j];
        let ghost old_r = r@;
        if marked[x as usize] {
            r.push(x);
            proof {
                idx = idx.push(j as int);
                assert(r@[r@.len() - 1] == order@[j as int]);
            }
        }
        assert forall|j2: int|
            0 <= j2 < j + 1 && marked@[#[trigger] order@[j2] as int] implies r@.contains(
            order@[j2],
        ) by {
            if j2 < j {
                let a = choose|a: int| 0 <= a < old_r.len() && old_r[a] == order@[j2];
                assert(r@[a] == order@[j2]);
            } else {
                assert(r@[r@.len() - 1] == order@[j2]);
            }
        }
        j += 1;
    }
    assert forall|a: int, b: int| 0 <= a < r@.len() && 0 <= b < r@.len() && a != b implies r@[a]
        != r@[b] by {
        assert(idx[a] != idx[b]);
        assert(order@[idx[a]] != order@[idx[b]]);
    }
    assert forall|v: u32| #[trigger] r@.contains(v) <==> (v < n && reaches(edges@, v, t)) by {
        if r@.contains(v) {
            let a = choose|a: int| 0 <= a < r@.len() && r@[a] == v;
            assert(order@[idx[a]] == v);
        }
        if v < n && reaches(edges@, v, t) {
            assert(order@.contains(v));
            let j2 = choose|j2: int| 0 <= j2 < order@.len() && order@[j2] == v;
            assert(marked@[order@[j2] as int]);
        }
    }
    assert forall|k: int, a: int, b: int|
        0 <= k < edges@.len() && 0 <= a < r@.len() && 0 <= b < r@.len() && #[trigger] r@[a]
            == (#[trigger] edges@[k]).0 && #[trigger] r@[b] == edges@[k].1 implies a < b by {
        assert(order@[idx[a]] == edges@[k].0);
        assert(order@[idx[b]] == edges@[k].1);
        assert(idx[a] < idx[b]);
        if a >= b {
            if a > b {
                assert(idx[b] < idx[a]);
            }
        }
    }
    r
}

/// No edge feeds a node outside the first `n` nodes, so a node numbered `n` or
/// more has no producers.
proof fn lemma_inputs_beyond(edges: Seq<(u32, u32)>, n: nat, v: u32)
    requires
        edges_valid(n, edges),
        v >= n,
    ensures
        inputs_spec(edges, v) == Seq::<u32>::empty(),
    decreases edges.len(),
{
    if edges.len() > 0 {
        assert(edges.last() == edges[edges.len() - 1]);
        assert forall|k: int| 0 <= k < edges.drop_last().len() implies (#[trigger] edges.drop_last()[
            k]).0 < n && edges.drop_last()[k].1 < n by {
            assert(edges.drop_last()[k] == edges[k]);
        }
        lemma_inputs_beyond(edges.drop_last(), n, v);
    }
}

/// Appending a node without edges to a topological order keeps it one.
proof fn lemma_topo_append(n: nat, edges: Seq<(u32, u32)>, s: Seq<u32>)
    requires
        n < u32::MAX,
        edges_valid(n, edges),
        is_topo_order(n, edges, s),
    ensures
        is_topo_order(n + 1, edges, s.push(n as u32)),
{
    let s2 = s.push(n as u32);
    assert forall|a: int, b: int| 0 <= a < s2.len() && 0 <= b < s2.len() && a != b implies s2[a]
        != s2[b] by {
        if a < s.len() && b < s.len() {
            assert(s2[a] == s[a] && s2[b] == s[b]);
        } else if a < s.len() {
            assert(s2[a] == s[a]);
        } else if b < s.len() {
            assert(s2[b] == s[b]);
        }
    }
    assert forall|i: int| 0 <= i < s2.len() implies (#[trigger] s2[i]) < n + 1 by {
        if i < s.len() {
            assert(s2[i] == s[i]);
        }
    }
    assert forall|v: u32| v < n + 1 implies #[trigger] s2.contains(v) by {
        if v < n {
            assert(s.contains(v));
            let i = choose|i: int| 0 <= i < s.len() && s[i] == v;
            assert(s2[i] == v);
        } else {
            assert(s2[s.len() as int] == v);
        }
    }
    assert forall|k: int, i: int, j: int|
        0 <= k < edges.len() && 0 <= i < s2.len() && 0 <= j < s2.len() && #[trigger] s2[i]
            == (#[trigger] edges[k]).0 && #[trigger] s2[j] == edges[k].1 implies i < j by {
        if i == s.len() {
            assert(s2[i] == n as u32);
        }
        if j == s.len() {
            assert(s2[j] == n as u32);
        }
        assert(s2[i] == s[i] && s2[j] == s[j]);
    }
}

/// Why an operation on a graph was refused.
#[derive(Clone, Copy, Debug, PartialEq, Eq, Structural)]
pub enum GraphError {
    /// A node id does not name a node of this graph.
    UnknownNode,
    /// The edge would close a directed cycle.
    Cycle,
    /// The graph already holds as many nodes as node ids can number.
    Full,
}

/// The producing end of a node's parameter channel, with the node's id.
#[verifier::reject_recursive_types(M)]
pub struct NodeHandle<M> {
    pub(crate) id: NodeId,
    pub(crate) sender: rtrb::Producer<M>,
}

impl<M> NodeHandle<M> {
    /// The id of the node this handle sends to.
    pub closed spec fn spec_id(&self) -> NodeId {
        self.id
    }

    /// Queues a message for the node, to be applied at its next block; hands
    /// the message back when the queue is full.
    pub fn send(&mut self, msg: M) -> (r: Result<(), M>)
        ensures
            r matches Err(m) ==> m == msg,
            final(self).spec_id() == old(self).spec_id(),
    {
        push(&mut self.sender, msg)
    }

    /// The id of the node this handle sends to.
    pub fn id(&self) -> (r: NodeId)
        ensures
            r == self.spec_id(),
    {
        self.id
    }
}

/// The topology of one audio graph at a fixed sample rate.
pub struct AudioGraph {
    ctx: ProcessContext,
    node_count: u32,
    edges: Vec<(u32, u32)>,
    /// A topological order of all nodes.
    order: Vec<u32>,
    /// For each node, its producers, one per edge, in the order the edges were added.
    inputs: Vec<Vec<u32>>,
    terminal: Option<NodeId>,
    /// The processing order of one block, ending at the terminal.
    schedule: Vec<u32>,
}

impl AudioGraph {
    /// Number of nodes.
    pub closed spec fn spec_node_count(&self) -> nat {
        self.node_count as nat
    }

    /// The edges, in the order they were added.
    pub closed spec fn spec_edges(&self) -> Seq<(u32, u32)> {
        self.edges@
    }

    /// The node whose output a block computes, once one is chosen.
    pub closed spec fn spec_terminal(&self) -> Option<NodeId> {
        self.terminal
    }

    /// The sample rate of the graph.
    pub closed spec fn spec_sample_rate(&self) -> u32 {
        self.ctx.sample_rate
    }

    /// The graph is consistent: edges join existing nodes, the stored order is
    /// topological, the stored inputs and schedule match the edges.
    pub closed spec fn wf(&self) -> bool {
        &&& self.ctx.buffer_size == BLOCK_SIZE
        &&& edges_valid(self.node_count as nat, self.edges@)
        &&& is_topo_order(self.node_count as nat, self.edges@, self.order@)
        &&& self.inputs@.len() == self.node_count
        &&& forall|v: int|
            0 <= v < self.node_count ==> (#[trigger] self.inputs@[v])@ == inputs_spec(
                self.edges@,
                v as u32,
            )
        &&& match self.terminal {
            Some(t) => t.0 < self.node_count && is_schedule(
                self.node_count as nat,
                self.edges@,
                t.0,
                self.schedule@,
            ),
            None => self.schedule@.len() == 0,
        }
    }

    /// The processing order of one block as the stored terminal asks for it.
    pub open spec fn spec_order_ok(&self, s: Seq<u32>) -> bool {
        match self.spec_terminal() {
            Some(t) => is_schedule(self.spec_node_count(), self.spec_edges(), t.0, s),
            None => s.len() == 0,
        }
    }

    /// An empty graph running at `sample_rate`.
    pub fn new(sample_rate: u32) -> (r: AudioGraph)
        ensures
            r.wf(),
            r.spec_node_count() == 0,
            r.spec_edges() == Seq::<(u32, u32)>::empty(),
            r.spec_terminal() is None,
            r.spec_sample_rate() == sample_rate,
    {
        AudioGraph {
            ctx: ProcessContext::new(sample_rate),
            node_count: 0,
            edges: Vec::new(),
            order: Vec::new(),
            inputs: Vec::new(),
            terminal: None,
            schedule: Vec::new(),
        }
    }

    /// The sample rate of the graph.
    pub fn sample_rate(&self) -> (r: u32)
        ensures
            r == self.spec_sample_rate(),
    {
        self.ctx.sample_rate
    }

    /// The context handed to the graph's nodes for each block.
    pub fn context(&self) -> (r: ProcessContext)
        requires
            self.wf(),
        ensures
            r.sample_rate == self.spec_sample_rate(),
            r.buffer_size == BLOCK_SIZE,
    {
        self.ctx
    }

    /// Number of nodes.
    pub fn node_count(&self) -> (r: u32)
        ensures
            r == self.spec_node_count(),
    {
        self.node_count
    }

    /// Adds a node with a parameter queue of the default size; returns the
    /// node's handle and the receiving end of its queue.
    pub fn add<M>(&mut self) -> (r: Result<(NodeHandle<M>, rtrb::Consumer<M>), GraphError>)
        requires
            old(self).wf(),
        ensures
            final(self).wf(),
            final(self).spec_edges() == old(self).spec_edges(),
            final(self).spec_terminal() == old(self).spec_terminal(),
            final(self).spec_sample_rate() == old(self).spec_sample_rate(),
            old(self).spec_node_count() < u32::MAX ==> r is Ok && final(self).spec_node_count()
                == old(self).spec_node_count() + 1,
            r matches Ok(h) ==> h.0.spec_id().0 == old(self).spec_node_count(),
            old(self).spec_node_count() >= u32::MAX ==> r == Err::<(NodeHandle<M>, rtrb::Consumer<M>), GraphError>(
                GraphError::Full,
            ) && final(self).spec_node_count() == old(self).spec_node_count(),
    {
        self.add_with_queue_size(DEFAULT_QUEUE_SIZE)
    }

    /// Adds a node whose parameter queue holds `queue_size` messages. The new
    /// node has the next free slot number and no edges.
    pub fn add_with_queue_size<M>(&mut self, queue_size: usize) -> (r: Result<
        (NodeHandle<M>, rtrb::Consumer<M>),
        GraphError,
    >)
        requires
            old(self).wf(),
            queue_size <= MAX_QUEUE_SIZE,
        ensures
            final(self).wf(),
            final(self).spec_edges() == old(self).spec_edges(),
            final(self).spec_terminal() == old(self).spec_terminal(),
            final(self).spec_sample_rate() == old(self).spec_sample_rate(),
            old(self).spec_node_count() < u32::MAX ==> r is Ok && final(self).spec_node_count()
                == old(self).spec_node_count() + 1,
            r matches Ok(h) ==> h.0.spec_id().0 == old(self).spec_node_count(),
            old(self).spec_node_count() >= u32::MAX ==> r == Err::<(NodeHandle<M>, rtrb::Consumer<M>), GraphError>(
                GraphError::Full,
            ) && final(self).spec_node_count() == old(self).spec_node_count(),
    {
        if self.node_count == u32::MAX {
            return Err(GraphError::Full);
        }
        let id = self.node_count;
        proof {
            lemma_topo_append(id as nat, self.edges@, self.order@);
            lemma_inputs_beyond(self.edges@, id as nat, id);
            if let Some(t) = self.terminal {
                lemma_schedule_grow(id as nat, self.edges@, t.0, self.schedule@);
            }
        }
        self.order.push(id);
        self.inputs.push(Vec::new());
        self.node_count = id + 1;
        assert forall|v: int| 0 <= v < self.node_count implies (#[trigger] self.inputs@[v])@
            == inputs_spec(self.edges@, v as u32) by {}
        let (sender, receiver) = ring_buffer(queue_size);
        Ok((NodeHandle { id: NodeId(id), sender }, receiver))
    }

    /// Whether an edge from `from` to `to` would be accepted: both nodes exist
    /// and the edge closes no cycle.
    pub fn can_connect(&self, from: NodeId, to: NodeId) -> (r: bool)
        requires
            self.wf(),
        ensures
            r == (from.0 < self.spec_node_count() && to.0 < self.spec_node_count() && acyclic(
                self.spec_node_count(),
                self.spec_edges().push((from.0, to.0)),
            )),
    {
        if from.0 >= self.node_count || to.0 >= self.node_count {
            return false;
        }
        let mut edges = copy_edges(&self.edges);
        edges.push((from.0, to.0));
        assert(edges@ == self.edges@.push((from.0, to.0)));
        topo_order(self.node_count, &edges).is_some()
    }

    /// Adds an edge feeding the output of `from` into `to`. Refused, leaving
    /// the graph as it was, when a node does not exist or the edge would close
    /// a cycle.
    pub fn connect(&mut self, from: NodeId, to: NodeId) -> (r: Result<(), GraphError>)
        requires
            old(self).wf(),
        ensures
            final(self).wf(),
            final(self).spec_node_count() == old(self).spec_node_count(),
            final(self).spec_terminal() == old(self).spec_terminal(),
            final(self).spec_sample_rate() == old(self).spec_sample_rate(),
            !(from.0 < old(self).spec_node_count() && to.0 < old(self).spec_node_count()) ==> r
                == Err::<(), GraphError>(GraphError::UnknownNode),
            from.0 < old(self).spec_node_count() && to.0 < old(self).spec_node_count() ==> if acyclic(
                old(self).spec_node_count(),
                old(self).spec_edges().push((from.0, to.0)),
            ) {
                r is Ok
            } else {
                r == Err::<(), GraphError>(GraphError::Cycle)
            },
            r is Ok ==> final(self).spec_edges() == old(self).spec_edges().push((from.0, to.0)),
            r is Err ==> final(self).spec_edges() == old(self).spec_edges(),
    {
        if from.0 >= self.node_count || to.0 >= self.node_count {
            return Err(GraphError::UnknownNode);
        }
        let ghost old_edges = self.edges@;
        self.edges.push((from.0, to.0));
        assert(edges_valid(self.node_count as nat, self.edges@)) by {
            assert forall|k: int| 0 <= k < self.edges@.len() implies (#[trigger] self.edges@[k]).0
                < self.node_count && self.edges@[k].1 < self.node_count by {
                if k < old_edges.len() {
                    assert(self.edges@[k] == old_edges[k]);
                }
            }
        }
        match topo_order(self.node_count, &self.edges) {
            None => {
                self.edges.pop();
                assert(self.edges@ =~= old_edges);
                Err(GraphError::Cycle)
            },
            Some(order) => {
                self.order = order;
                let b = to.0 as usize;
                let mut row = copy_row(&self.inputs[b]);
                row.push(from.0);
                self.inputs.set(b, row);
                assert(self.edges@.drop_last() =~= old_edges);
                assert forall|v: int| 0 <= v < self.node_count implies (#[trigger] self.inputs@[
                    v])@ == inputs_spec(self.edges@, v as u32) by {}
                if let Some(t) = self.terminal {
                    self.schedule = compute_schedule(self.node_count, &self.edges, &self.order, t.0);
                }
                Ok(())
            },
        }
    }

    /// Chooses the node whose output each block computes.
    pub fn set_terminal(&mut self, id: NodeId) -> (r: Result<(), GraphError>)
        requires
            old(self).wf(),
        ensures
            final(self).wf(),
            final(self).spec_node_count() == old(self).spec_node_count(),
            final(self).spec_edges() == old(self).spec_edges(),
            final(self).spec_sample_rate() == old(self).spec_sample_rate(),
            id.0 < old(self).spec_node_count() ==> r is Ok && final(self).spec_terminal() == Some(
                id,
            ),
            id.0 >= old(self).spec_node_count() ==> r == Err::<(), GraphError>(
                GraphError::UnknownNode,
            ) && final(self).spec_terminal() == old(self).spec_terminal(),
    {
        if id.0 >= self.node_count {
            return Err(GraphError::UnknownNode);
        }
        self.schedule = compute_schedule(self.node_count, &self.edges, &self.order, id.0);
        self.terminal = Some(id);
        Ok(())
    }

    /// The order in which one block is processed: every node whose output the
    /// terminal needs, each once, every producer before the nodes it feeds.
    /// Empty while no terminal is chosen.
    pub fn processing_order(&self) -> (r: &Vec<u32>)
        requires
            self.wf(),
        ensures
            self.spec_order_ok(r@),
    {
        &self.schedule
    }

    /// The producers feeding node `v`, one entry per edge, in the order the
    /// edges were added; their outputs are summed into the node's input.
    pub fn inputs(&self, v: NodeId) -> (r: &Vec<u32>)
        requires
            self.wf(),
            v.0 < self.spec_node_count(),
        ensures
            r@ == inputs_spec(self.spec_edges(), v.0),
    {
        &self.inputs[v.0 as usize]
    }
} // impl AudioGraph

fn copy_edges(v: &Vec<(u32, u32)>) -> (r: Vec<(u32, u32)>)
    ensures
        r@ == v@,
{
    let mut r: Vec<(u32, u32)> = Vec::new();
    let mut i: usize = 0;
    while i < v.len()
        invariant
            i <= v@.len(),
            r@ == v@.subrange(0, i as int),
        decreases v@.len() - i,
    {
        r.push(v[i]);
        i += 1;
        assert(r@ =~= v@.subrange(0, i as int));
    }
    assert(r@ =~= v@);
    r
}

fn copy_row(v: &Vec<u32>) -> (r: Vec<u32>)
    ensures
        r@ == v@,
{
    let mut r: Vec<u32> = Vec::new();
    let mut i: usize = 0;
    while i < v.len()
        invariant
            i <= v@.len(),
            r@ == v@.subrange(0, i as int),
        decreases v@.len() - i,
    {
        r.push(v[i]);
        i += 1;
        assert(r@ =~= v@.subrange(0, i as int));
    }
    assert(r@ =~= v@);
    r
}

/// A node without edges reaches no other node, so adding one keeps a schedule valid.
proof fn lemma_schedule_grow(n: nat, edges: Seq<(u32, u32)>, t: u32, s: Seq<u32>)
    requires
        edges_valid(n, edges),
        t < n,
        is_schedule(n, edges, t, s),
    ensures
        is_schedule(n + 1, edges, t, s),
{
    assert forall|v: u32| #[trigger] s.contains(v) <==> (v < n + 1 && reaches(edges, v, t)) by {
        if v == n && reaches(edges, v, t) {
            lemma_reaches_unfold(edges, v, t);
            let k = choose|k: int|
                0 <= k < edges.len() && (#[trigger] edges[k]).0 == v && reaches(edges, edges[k].1, t);
            assert(edges[k].0 < n);
        }
    }
}

} // verus!
