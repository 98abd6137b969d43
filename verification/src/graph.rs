use vstd::prelude::*;

use daggy::{Dag, EdgeIndex, NodeIndex, Walker};

verus! {

/// A dependency graph, held in a `daggy::Dag`: node weights are indices of
/// tests, edge weights are the codes of the kinds of dependency.  The graph
/// is read only through the functions below, which say what it holds by
/// `dag_contents`.
#[verifier::external_body]
pub struct TestGraph {
    dag: Dag<usize, u8, u32>,
}

/// The edges of a graph: source, target and weight, in the order they were
/// added.
pub type EdgeList = Seq<(usize, usize, u8)>;

/// What a graph holds: the weight of each node (in the order of their
/// indices) and its edges (in the order of their indices).
pub uninterp spec fn dag_contents(d: TestGraph) -> (Seq<usize>, EdgeList);

pub open spec fn has_edge(edges: EdgeList, x: usize, y: usize) -> bool {
    exists|j: int| 0 <= j < edges.len() && #[trigger] edges[j].0 == x && edges[j].1 == y
}

/// `p` is a path: consecutive nodes are joined by edges.
pub open spec fn is_path(edges: EdgeList, p: Seq<usize>) -> bool {
    &&& p.len() >= 1
    &&& forall|i: int| 0 <= i < p.len() - 1 ==> has_edge(edges, #[trigger] p[i], p[i + 1])
}

/// `y` can be reached from `x` (every node reaches itself).
pub open spec fn reach(edges: EdgeList, x: usize, y: usize) -> bool {
    exists|p: Seq<usize>| is_path(edges, p) && p[0] == x && p.last() == y
}

/// The edges into `n`, as (edge index, source), most recently added first.
pub open spec fn incoming(edges: EdgeList, n: usize) -> Seq<(int, usize)>
    decreases edges.len(),
{
    if edges.len() == 0 {
        seq![]
    } else {
        let rest = incoming(edges.drop_last(), n);
        if edges.last().1 == n {
            seq![(edges.len() - 1, edges.last().0)] + rest
        } else {
            rest
        }
    }
}

/// The (edge index, node) pairs that a walk hands back.
pub open spec fn walk_view(v: Seq<(usize, usize)>) -> Seq<(int, usize)> {
    v.map_values(|p: (usize, usize)| (p.0 as int, p.1))
}

/// No edge closes a cycle: the source of an edge cannot be reached from its
/// target.
pub open spec fn acyclic(edges: EdgeList) -> bool {
    forall|j: int| 0 <= j < edges.len() ==> !reach(edges, (#[trigger] edges[j]).1, edges[j].0)
}

pub proof fn lemma_reach_refl(edges: EdgeList, a: usize)
    ensures
        reach(edges, a, a),
{
    let p = seq![a];
    assert(is_path(edges, p));
    assert(p[0] == a && p.last() == a);
}

/// A reach extended by one more edge.
pub proof fn lemma_reach_step(edges: EdgeList, a: usize, b: usize, c: usize)
    requires
        reach(edges, a, b),
        has_edge(edges, b, c),
    ensures
        reach(edges, a, c),
{
    let p = choose|p: Seq<usize>| is_path(edges, p) && p[0] == a && p.last() == b;
    let q = p.push(c);
    assert forall|i: int| 0 <= i < q.len() - 1 implies has_edge(edges, #[trigger] q[i], q[i + 1]) by {
        if i < p.len() - 1 {
            assert(q[i] == p[i] && q[i + 1] == p[i + 1]);
        } else {
            assert(q[i] == b && q[i + 1] == c);
        }
    }
    assert(is_path(edges, q));
    assert(q[0] == a && q.last() == c);
}

/// A path of the graph with one more edge `e` either keeps to the old edges
/// or passes through `e`.
proof fn lemma_path_split(edges: EdgeList, e: (usize, usize, u8), p: Seq<usize>)
    requires
        is_path(edges.push(e), p),
    ensures
        reach(edges, p[0], p.last()) || (reach(edges, p[0], e.0) && reach(edges, e.1, p.last())),
    decreases p.len(),
{
    let ne = edges.push(e);
    if p.len() == 1 {
        lemma_reach_refl(edges, p[0]);
    } else {
        let q = p.drop_last();
        assert forall|i: int| 0 <= i < q.len() - 1 implies has_edge(ne, #[trigger] q[i], q[i + 1]) by {
            assert(q[i] == p[i] && q[i + 1] == p[i + 1]);
            assert(has_edge(ne, p[i], p[i + 1]));
        }
        lemma_path_split(edges, e, q);
        let w = p[p.len() - 2];
        let v = p.last();
        assert(q.last() == w);
        assert(has_edge(ne, p[p.len() - 2], p[p.len() - 1]));
        let j = choose|j: int| 0 <= j < ne.len() && #[trigger] ne[j].0 == w && ne[j].1 == v;
        if j < edges.len() {
            assert(edges[j] == ne[j]);
            assert(has_edge(edges, w, v));
            if reach(edges, p[0], w) {
                lemma_reach_step(edges, p[0], w, v);
            } else {
                lemma_reach_step(edges, e.1, w, v);
            }
        } else {
            assert(w == e.0 && v == e.1);
            lemma_reach_refl(edges, e.1);
        }
    }
}

/// Adding an edge whose source cannot be reached from its target keeps a
/// graph acyclic.
pub proof fn lemma_acyclic_push(edges: EdgeList, e: (usize, usize, u8))
    requires
        acyclic(edges),
        !reach(edges, e.1, e.0),
    ensures
        acyclic(edges.push(e)),
{
    let ne = edges.push(e);
    assert forall|j: int| 0 <= j < ne.len() implies !reach(ne, (#[trigger] ne[j]).1, ne[j].0) by {
        let x = ne[j].0;
        let y = ne[j].1;
        if reach(ne, y, x) {
            let p = choose|p: Seq<usize>| is_path(ne, p) && p[0] == y && p.last() == x;
            lemma_path_split(edges, e, p);
            if j < edges.len() {
                assert(edges[j] == ne[j]);
                if !reach(edges, y, x) {
                    assert(has_edge(edges, x, y));
                    lemma_reach_step(edges, e.1, x, y);
                    lemma_reach_trans(edges, e.1, y, e.0);
                }
            }
        }
    }
}

/// In an acyclic graph the source of an edge cannot be reached from its
/// target.
pub proof fn lemma_acyclic_edge(edges: EdgeList, a: usize, b: usize)
    requires
        acyclic(edges),
        has_edge(edges, a, b),
    ensures
        !reach(edges, b, a),
{
    let j = choose|j: int| 0 <= j < edges.len() && #[trigger] edges[j].0 == a && edges[j].1 == b;
}

pub proof fn lemma_reach_trans(edges: EdgeList, a: usize, b: usize, c: usize)
    requires
        reach(edges, a, b),
        reach(edges, b, c),
    ensures
        reach(edges, a, c),
{
    let p = choose|p: Seq<usize>| is_path(edges, p) && p[0] == a && p.last() == b;
    let q = choose|q: Seq<usize>| is_path(edges, q) && q[0] == b && q.last() == c;
    let r = p + q.drop_first();
    assert forall|i: int| 0 <= i < r.len() - 1 implies has_edge(edges, #[trigger] r[i], r[i + 1]) by {
        if i < p.len() - 1 {
            assert(r[i] == p[i] && r[i + 1] == p[i + 1]);
        } else if i == p.len() - 1 {
            assert(r[i] == b && r[i + 1] == q[1]);
            assert(q[0] == b);
        } else {
            assert(r[i] == q[i - p.len() + 1] && r[i + 1] == q[i - p.len() + 2]);
        }
    }
    if q.len() == 1 {
        assert(r =~= p);
    } else {
        assert(r.last() == q.last());
    }
    assert(is_path(edges, r));
}

/// Every edge joins nodes of the graph.
pub open spec fn edges_within(edges: EdgeList, n: nat) -> bool {
    forall|j: int| 0 <= j < edges.len() ==> (#[trigger] edges[j]).0 < n && edges[j].1 < n
}

/// Calls `Dag::new`: a graph without nodes or edges.
#[verifier::external_body]
pub(crate) fn dag_new() -> (d: TestGraph)
    ensures
        dag_contents(d).0 == Seq::<usize>::empty(),
        dag_contents(d).1 == Seq::<(usize, usize, u8)>::empty(),
{
    TestGraph { dag: Dag::new() }
}

/// Calls `Dag::add_node`: the node is appended and its index returned.
#[verifier::external_body]
pub(crate) fn dag_add_node(d: &mut TestGraph, w: usize) -> (r: usize)
    requires
        dag_contents(*old(d)).0.len() < u32::MAX,
    ensures
        dag_contents(*final(d)).0 == dag_contents(*old(d)).0.push(w),
        dag_contents(*final(d)).1 == dag_contents(*old(d)).1,
        r == dag_contents(*old(d)).0.len(),
{
    d.dag.add_node(w).index()
}

/// Calls `Dag::add_edge` for the edge `a -> b`.  The edge is refused (and
/// `false` returned) only where `a` can be reached from `b`; where it is
/// added, `a` cannot be reached from `b` or the edge was there already.
#[verifier::external_body]
pub(crate) fn dag_add_edge(d: &mut TestGraph, a: usize, b: usize, w: u8) -> (r: bool)
    requires
        a < dag_contents(*old(d)).0.len(),
        b < dag_contents(*old(d)).0.len(),
        dag_contents(*old(d)).1.len() + 1 < u32::MAX,
    ensures
        dag_contents(*final(d)).0 == dag_contents(*old(d)).0,
        r ==> dag_contents(*final(d)).1 == dag_contents(*old(d)).1.push((a, b, w)),
        r ==> !reach(dag_contents(*old(d)).1, b, a) || has_edge(dag_contents(*old(d)).1, a, b),
        !r ==> dag_contents(*final(d)).1 == dag_contents(*old(d)).1,
        !r ==> reach(dag_contents(*old(d)).1, b, a),
{
    d.dag.add_edge(NodeIndex::new(a), NodeIndex::new(b), w).is_ok()
}

/// Walks `Dag::parents`: the edges into `n`, most recently added first.
#[verifier::external_body]
pub(crate) fn dag_parents(d: &TestGraph, n: usize) -> (r: Vec<(usize, usize)>)
    requires
        n < dag_contents(*d).0.len(),
    ensures
        walk_view(r@) == incoming(dag_contents(*d).1, n),
{
    d.dag.parents(NodeIndex::new(n)).iter(&d.dag).map(|(e, p)| (e.index(), p.index())).collect()
}

/// Calls `Dag::edge_weight` for an edge of the graph.
#[verifier::external_body]
pub(crate) fn dag_edge_weight(d: &TestGraph, e: usize) -> (r: u8)
    requires
        e < dag_contents(*d).1.len(),
    ensures
        r == dag_contents(*d).1[e as int].2,
{
    *d.dag.edge_weight(EdgeIndex::new(e)).unwrap()
}

// ---------------------------------------------------------------------------
// Facts about the walks
pub proof fn lemma_incoming(edges: EdgeList, n: usize, k: int)
    requires
        0 <= k < incoming(edges, n).len(),
    ensures
        0 <= incoming(edges, n)[k].0 < edges.len(),
        edges[incoming(edges, n)[k].0].1 == n,
        edges[incoming(edges, n)[k].0].0 == incoming(edges, n)[k].1,
    decreases edges.len(),
{
    let rest = incoming(edges.drop_last(), n);
    if edges.last().1 == n {
        if k > 0 {
            lemma_incoming(edges.drop_last(), n, k - 1);
            assert(incoming(edges, n)[k] == rest[k - 1]);
            assert(edges.drop_last()[rest[k - 1].0] == edges[rest[k - 1].0]);
        }
    } else {
        lemma_incoming(edges.drop_last(), n, k);
        assert(incoming(edges, n)[k] == rest[k]);
        assert(edges.drop_last()[rest[k].0] == edges[rest[k].0]);
    }
}

/// Every edge into `n` is listed by the walk.
pub proof fn lemma_incoming_complete(edges: EdgeList, n: usize, j: int)
    requires
        0 <= j < edges.len(),
        edges[j].1 == n,
    ensures
        exists|k: int|
            0 <= k < incoming(edges, n).len() && (#[trigger] incoming(edges, n)[k]).0 == j,
    decreases edges.len(),
{
    let rest = incoming(edges.drop_last(), n);
    if j == edges.len() - 1 {
        assert(incoming(edges, n) == seq![(edges.len() - 1, edges.last().0)] + rest);
        assert(incoming(edges, n)[0].0 == j);
    } else {
        assert(edges.drop_last()[j] == edges[j]);
        lemma_incoming_complete(edges.drop_last(), n, j);
        let k = choose|k: int| 0 <= k < rest.len() && (#[trigger] rest[k]).0 == j;
        if edges.last().1 == n {
            assert(incoming(edges, n)[k + 1] == rest[k]);
        } else {
            assert(incoming(edges, n)[k] == rest[k]);
        }
    }
}

// ---------------------------------------------------------------------------
// Connection, whatever the direction of the edges
/// An edge joins `a` and `b`, in either direction.
pub open spec fn adjacent(edges: EdgeList, a: usize, b: usize) -> bool {
    has_edge(edges, a, b) || has_edge(edges, b, a)
}

/// `p` is a path when the direction of the edges is ignored.
pub open spec fn is_upath(edges: EdgeList, p: Seq<usize>) -> bool {
    &&& p.len() >= 1
    &&& forall|i: int| 0 <= i < p.len() - 1 ==> adjacent(edges, #[trigger] p[i], p[i + 1])
}

/// `a` and `b` are joined by edges, whatever their direction.
pub open spec fn connected(edges: EdgeList, a: usize, b: usize) -> bool {
    exists|p: Seq<usize>| #[trigger] is_upath(edges, p) && p[0] == a && p.last() == b
}

pub proof fn lemma_connected_refl(edges: EdgeList, a: usize)
    ensures
        connected(edges, a, a),
{
    let p = seq![a];
    assert(is_upath(edges, p));
}

/// A connection extended by one more edge.
pub proof fn lemma_connected_step(edges: EdgeList, a: usize, b: usize, c: usize)
    requires
        connected(edges, a, b),
        adjacent(edges, b, c),
    ensures
        connected(edges, a, c),
{
    let p = choose|p: Seq<usize>| #[trigger] is_upath(edges, p) && p[0] == a && p.last() == b;
    let q = p.push(c);
    assert forall|i: int| 0 <= i < q.len() - 1 implies adjacent(edges, #[trigger] q[i], q[i + 1]) by {
        if i < p.len() - 1 {
            assert(q[i] == p[i] && q[i + 1] == p[i + 1]);
        } else {
            assert(q[i] == b);
        }
    }
    assert(is_upath(edges, q));
}

pub proof fn lemma_connected_trans(edges: EdgeList, a: usize, b: usize, c: usize)
    requires
        connected(edges, a, b),
        connected(edges, b, c),
    ensures
        connected(edges, a, c),
{
    let p = choose|p: Seq<usize>| #[trigger] is_upath(edges, p) && p[0] == a && p.last() == b;
    let q = choose|q: Seq<usize>| #[trigger] is_upath(edges, q) && q[0] == b && q.last() == c;
    let r = p + q.drop_first();
    assert forall|i: int| 0 <= i < r.len() - 1 implies adjacent(edges, #[trigger] r[i], r[i + 1]) by {
        if i < p.len() - 1 {
            assert(r[i] == p[i] && r[i + 1] == p[i + 1]);
        } else {
            let k = i - (p.len() - 1);
            assert(r[i] == q[k]);
            assert(r[i + 1] == q[k + 1]);
        }
    }
    assert(is_upath(edges, r));
}

/// Adding an edge keeps every connection.
pub proof fn lemma_connected_grow(edges: EdgeList, e: (usize, usize, u8), a: usize, b: usize)
    requires
        connected(edges, a, b),
    ensures
        connected(edges.push(e), a, b),
{
    let p = choose|p: Seq<usize>| #[trigger] is_upath(edges, p) && p[0] == a && p.last() == b;
    assert forall|i: int| 0 <= i < p.len() - 1 implies adjacent(edges.push(e), #[trigger] p[i], p[i + 1]) by {
        assert(adjacent(edges, p[i], p[i + 1]));
        if has_edge(edges, p[i], p[i + 1]) {
            let j = choose|j: int| 0 <= j < edges.len() && #[trigger] edges[j].0 == p[i] && edges[j].1 == p[i + 1];
            assert(edges.push(e)[j] == edges[j]);
        } else {
            let j = choose|j: int| 0 <= j < edges.len() && #[trigger] edges[j].0 == p[i + 1] && edges[j].1 == p[i];
            assert(edges.push(e)[j] == edges[j]);
        }
    }
    assert(is_upath(edges.push(e), p));
}

/// A path that follows the edges is a connection.
pub proof fn lemma_reach_connected(edges: EdgeList, a: usize, b: usize)
    requires
        reach(edges, a, b),
    ensures
        connected(edges, a, b),
{
    let p = choose|p: Seq<usize>| is_path(edges, p) && p[0] == a && p.last() == b;
    assert forall|i: int| 0 <= i < p.len() - 1 implies adjacent(edges, #[trigger] p[i], p[i + 1]) by {
        assert(has_edge(edges, p[i], p[i + 1]));
    }
    assert(is_upath(edges, p));
}

} // verus!
