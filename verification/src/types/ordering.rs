use vstd::prelude::*;

use crate::graph::{
    acyclic, lemma_acyclic_edge, lemma_acyclic_push, reach, adjacent, connected, dag_add_edge, dag_add_node, dag_contents, dag_new,
    dag_parents, edges_within, has_edge, incoming, lemma_connected_refl, lemma_connected_step,
    lemma_connected_trans, lemma_incoming, lemma_incoming_complete, walk_view, EdgeList, TestGraph,
};
use crate::text::{str_eq, strings_view};
use crate::types::deps::{count_false, edge_weight_of, lemma_count_false_set, TestEdge};
use crate::types::test::{Test, TestView};

verus! {

#[derive(Clone, Debug)]
pub enum ScenarioError {
    FileLoadError(String),
    MissingScenarioSection,
    TestListNotFound,
    TestNotFound(String),
    TestDependencyNotFound(String, String),
    CircularDependency(String, String),
    MissingDependency(String, String),
}

/// What a failure to load a scenario reports, by the views of its texts.
pub enum ScenarioErrorView {
    FileLoadError(Seq<char>),
    MissingScenarioSection,
    TestListNotFound,
    TestNotFound(Seq<char>),
    TestDependencyNotFound(Seq<char>, Seq<char>),
    CircularDependency(Seq<char>, Seq<char>),
    MissingDependency(Seq<char>, Seq<char>),
}

impl View for ScenarioError {
    type V = ScenarioErrorView;

    open spec fn view(&self) -> ScenarioErrorView {
        match self {
            ScenarioError::FileLoadError(s) => ScenarioErrorView::FileLoadError(s@),
            ScenarioError::MissingScenarioSection => ScenarioErrorView::MissingScenarioSection,
            ScenarioError::TestListNotFound => ScenarioErrorView::TestListNotFound,
            ScenarioError::TestNotFound(s) => ScenarioErrorView::TestNotFound(s@),
            ScenarioError::TestDependencyNotFound(a, b) => ScenarioErrorView::TestDependencyNotFound(a@, b@),
            ScenarioError::CircularDependency(a, b) => ScenarioErrorView::CircularDependency(a@, b@),
            ScenarioError::MissingDependency(a, b) => ScenarioErrorView::MissingDependency(a@, b@),
        }
    }
}

/// The ids of the tests, in order.
pub open spec fn test_ids(tests: Seq<Test>) -> Seq<Seq<char>> {
    tests.map_values(|t: Test| t@.id)
}

/// The test with id `name` is loaded.
pub open spec fn loaded(tests: Seq<Test>, name: Seq<char>) -> bool {
    test_ids(tests).contains(name)
}

/// No two tests share an id.
pub open spec fn ids_unique(tests: Seq<Test>) -> bool {
    forall|i: int, j: int| 0 <= i < j < tests.len() ==> tests[i]@.id != tests[j]@.id
}

/// The index of the test named `name`.
pub fn find_test(tests: &Vec<Test>, name: &str) -> (r: Option<usize>)
    ensures
        r is None <==> !loaded(tests@, name@),
        r matches Some(i) ==> i < tests.len() && tests@[i as int]@.id == name@,
{
    let mut i: usize = 0;
    while i < tests.len()
        invariant
            i <= tests.len(),
            forall|j: int| 0 <= j < i ==> tests@[j]@.id != name@,
        decreases tests.len() - i,
    {
        if str_eq(tests[i].id(), name) {
            assert(test_ids(tests@)[i as int] == name@);
            return Some(i);
        }
        i = i + 1;
    }
    assert forall|j: int| 0 <= j < test_ids(tests@).len() implies test_ids(tests@)[j] != name@ by {
        assert(test_ids(tests@)[j] == tests@[j]@.id);
    }
    None
}

/// The order of a scenario's tests and the graph of their dependencies.
pub struct TestOrder {
    pub graph: TestGraph,
    /// Indices of the tests, in the order they run.
    pub order: Vec<usize>,
}

/// No element of `s` appears twice.
pub open spec fn no_dup(s: Seq<usize>) -> bool {
    forall|i: int, j: int| 0 <= i < j < s.len() ==> s[i] != s[j]
}

/// The shape of a graph of `n` tests: node `i` stands for test `i`, and
/// every edge joins two of them.
pub open spec fn graph_of(g: TestGraph, n: nat) -> bool {
    &&& dag_contents(g).0.len() == n
    &&& edges_within(dag_contents(g).1, n)
}

/// What the order of a scenario's tests holds: each test at most once, each
/// a loaded test, and the first listed test among them.
pub open spec fn order_wf(order: Seq<usize>, n: nat) -> bool {
    &&& no_dup(order)
    &&& forall|i: int| 0 <= i < order.len() ==> #[trigger] order[i] < n
}

/// The failures that ordering the tests of a scenario may report, each with
/// the inputs it comes from.
pub open spec fn ordering_error_ok(e: ScenarioError, names: Seq<Seq<char>>, tests: Seq<Test>) -> bool {
    match e {
        ScenarioError::MissingDependency(this, prev) => exists|i: int|
            1 <= i < names.len() && #[trigger] names[i] == this@ && names[i - 1] == prev@ && (
            !loaded(tests, prev@) || !loaded(tests, this@)),
        ScenarioError::CircularDependency(a, b) => (exists|i: int|
            1 <= i < names.len() && names[i - 1] == a@ && #[trigger] names[i] == b@) || (exists|
            k: int,
        |
            0 <= k < tests.len() && #[trigger] tests[k]@.id == a@ && tests[k]@.required.contains(
                b@,
            )),
        ScenarioError::TestNotFound(t) => !loaded(tests, t@),
        ScenarioError::TestDependencyNotFound(t, r) => !loaded(tests, r@) && exists|k: int|
            0 <= k < tests.len() && #[trigger] tests[k]@.id == t@ && (tests[k]@.required.contains(
                r@,
            ) || tests[k]@.suggests.contains(r@)),
        _ => false,
    }
}

fn new_flags(n: usize) -> (r: Vec<bool>)
    ensures
        r.len() == n,
        forall|i: int| 0 <= i < n ==> !r@[i],
{
    let mut v: Vec<bool> = Vec::new();
    let mut k: usize = 0;
    while k < n
        invariant
            k <= n,
            v.len() == k,
            forall|i: int| 0 <= i < k ==> !v@[i],
        decreases n - k,
    {
        v.push(false);
        k = k + 1;
    }
    v
}

/// The visit of `node`, given what was `seen` before: what is seen after,
/// and the nodes placed in order.  An unseen node is marked, then its
/// parents (the tests it depends on or follows) are visited, most recently
/// joined first, then the node is placed: every test comes after those it
/// depends on.  `fuel` bounds the depth; a visit needs no more than the
/// number of unseen nodes.
pub open spec fn pvisit(edges: EdgeList, seen: Seq<bool>, node: usize, fuel: nat) -> (Seq<bool>, Seq<usize>)
    decreases fuel, 0nat,
{
    if fuel == 0 || node >= seen.len() || seen[node as int] {
        (seen, seq![])
    } else {
        let s1 = seen.update(node as int, true);
        let p = pvisit_list(edges, s1, incoming(edges, node), (fuel - 1) as nat);
        (p.0, p.1 + seq![node])
    }
}

/// The visits of the nodes of `nodes` (edge index, node), in turn.
pub open spec fn pvisit_list(edges: EdgeList, seen: Seq<bool>, nodes: Seq<(int, usize)>, fuel: nat) -> (Seq<bool>, Seq<usize>)
    decreases fuel, nodes.len() + 1,
{
    if nodes.len() == 0 {
        (seen, seq![])
    } else {
        let r = pvisit_list(edges, seen, nodes.drop_last(), fuel);
        let v = pvisit(edges, r.0, nodes.last().1, fuel);
        (v.0, r.1 + v.1)
    }
}

/// The visits of the first `k` listed tests `nv`, in turn, in a graph of `n`
/// tests.
pub open spec fn visit_listed(edges: EdgeList, seen: Seq<bool>, tv: Seq<Test>, nv: Seq<Seq<char>>, k: int, n: nat) -> (Seq<bool>, Seq<usize>)
    decreases k,
{
    if k <= 0 {
        (seen, seq![])
    } else {
        let r = visit_listed(edges, seen, tv, nv, k - 1, n);
        let v = pvisit(edges, r.0, test_index(tv, nv[k - 1]) as usize, n);
        (v.0, r.1 + v.1)
    }
}

/// The visits of the first `k` tests that `flags` marks, in the order of
/// their indices, in a graph of `n` tests.
pub open spec fn visit_flagged(edges: EdgeList, seen: Seq<bool>, flags: Seq<bool>, k: int, n: nat) -> (Seq<bool>, Seq<usize>)
    decreases k,
{
    if k <= 0 {
        (seen, seq![])
    } else {
        let r = visit_flagged(edges, seen, flags, k - 1, n);
        if flags[k - 1] {
            let v = pvisit(edges, r.0, (k - 1) as usize, n);
            (v.0, r.1 + v.1)
        } else {
            r
        }
    }
}

/// The order in which the tests of a scenario run: the listed tests are
/// visited in the order listed, then every other test of the scenario
/// (those `flags` marks) in the order of their indices; each visit places a
/// test after everything it depends on or follows.
pub open spec fn scenario_order(edges: EdgeList, tv: Seq<Test>, nv: Seq<Seq<char>>, flags: Seq<bool>) -> Seq<usize> {
    let n = tv.len();
    let a = visit_listed(edges, no_flags(n), tv, nv, nv.len() as int, n);
    a.1 + visit_flagged(edges, a.0, flags, n as int, n).1
}

/// Every test placed in `o` comes after each test joined to it by an edge:
/// after those it depends on, and after the listed test it follows.
pub open spec fn after_parents(edges: EdgeList, o: Seq<usize>) -> bool {
    forall|i: int, p: usize|
        0 <= i < o.len() && #[trigger] has_edge(edges, p, o[i]) ==> exists|k: int| 0 <= k < i && o[k] == p
}

/// Every node seen but not yet placed can be reached from `node`.
pub open spec fn pending_from(edges: EdgeList, seen: Seq<bool>, o: Seq<usize>, node: usize) -> bool {
    forall|v: usize| v < seen.len() && #[trigger] seen[v as int] && !o.contains(v) ==> reach(edges, node, v)
}

/// What a visit keeps: the seen flags only grow, every placed node is seen,
/// a node seen and not placed after was so before, and the order keeps every
/// node after its parents.
pub open spec fn visit_kept(edges: EdgeList, seen: Seq<bool>, o: Seq<usize>, r: (Seq<bool>, Seq<usize>)) -> bool {
    &&& r.0.len() == seen.len()
    &&& forall|i: int| 0 <= i < seen.len() && seen[i] ==> #[trigger] r.0[i]
    &&& forall|i: int| 0 <= i < (o + r.1).len() ==> (o + r.1)[i] < seen.len() && r.0[#[trigger] (o + r.1)[i] as int]
    &&& forall|v: usize| v < seen.len() && #[trigger] r.0[v as int] && !(o + r.1).contains(v) ==> seen[v as int] && !o.contains(v)
    &&& after_parents(edges, o + r.1)
}

proof fn lemma_reach_via_parent(edges: EdgeList, p: usize, node: usize, v: usize)
    requires
        has_edge(edges, p, node),
        reach(edges, node, v),
    ensures
        reach(edges, p, v),
{
    crate::graph::lemma_reach_refl(edges, p);
    crate::graph::lemma_reach_step(edges, p, p, node);
    crate::graph::lemma_reach_trans(edges, p, node, v);
}

/// A visit keeps every node after its parents, in an acyclic graph.
proof fn lemma_pvisit_kept(edges: EdgeList, seen: Seq<bool>, o: Seq<usize>, node: usize, fuel: nat)
    requires
        acyclic(edges),
        edges_within(edges, seen.len()),
        node < seen.len(),
        fuel >= count_false(seen),
        after_parents(edges, o),
        forall|i: int| 0 <= i < o.len() ==> o[i] < seen.len() && seen[#[trigger] o[i] as int],
        pending_from(edges, seen, o, node),
    ensures
        visit_kept(edges, seen, o, pvisit(edges, seen, node, fuel)),
        pvisit(edges, seen, node, fuel).0[node as int],
    decreases fuel, 0nat,
{
    let r = pvisit(edges, seen, node, fuel);
    if seen[node as int] {
        assert(o + r.1 =~= o);
    } else {
        lemma_count_false_set(seen, node as int);
        let s1 = seen.update(node as int, true);
        let inc = incoming(edges, node);
        assert(pending_from(edges, s1, o, node)) by {
            assert forall|v: usize| v < s1.len() && #[trigger] s1[v as int] && !o.contains(v) implies reach(
                edges,
                node,
                v,
            ) by {
                if v == node {
                    crate::graph::lemma_reach_refl(edges, node);
                }
            }
        }
        assert forall|k: int| 0 <= k < inc.len() implies has_edge(edges, (#[trigger] inc[k]).1, node) by {
            lemma_incoming(edges, node, k);
            let e = inc[k].0;
            assert(edges[e].0 == inc[k].1 && edges[e].1 == node);
        }
        lemma_pvisit_list_kept(edges, s1, o, node, inc, (fuel - 1) as nat);
        let p = pvisit_list(edges, s1, inc, (fuel - 1) as nat);
        let o1 = o + p.1;
        assert(r == (p.0, p.1 + seq![node]));
        assert(o + r.1 =~= o1.push(node));
        // Every parent of the node is placed before it.
        assert forall|q: usize| #[trigger] has_edge(edges, q, node) implies o1.contains(q) by {
            let j = choose|j: int| 0 <= j < edges.len() && #[trigger] edges[j].0 == q && edges[j].1 == node;
            lemma_incoming_complete(edges, node, j);
            let k = choose|k: int| 0 <= k < inc.len() && (#[trigger] inc[k]).0 == j;
            lemma_incoming(edges, node, k);
            assert(p.0[inc[k].1 as int]);
            crate::graph::lemma_acyclic_edge(edges, q, node);
            if !o1.contains(q) {
                assert(s1[q as int] && !o.contains(q));
                if q == node {
                    crate::graph::lemma_reach_refl(edges, node);
                }
            }
        }
        let o2 = o + r.1;
        assert forall|i: int, q: usize| 0 <= i < o2.len() && #[trigger] has_edge(edges, q, o2[i]) implies exists|
            k: int,
        | 0 <= k < i && o2[k] == q by {
            if i < o1.len() {
                assert(o2[i] == o1[i]);
                let k = choose|k: int| 0 <= k < i && o1[k] == q;
                assert(o2[k] == o1[k]);
            } else {
                assert(o2[i] == node);
                assert(o1.contains(q));
                let k = choose|k: int| 0 <= k < o1.len() && o1[k] == q;
                assert(o2[k] == o1[k]);
            }
        }
        assert forall|i: int| 0 <= i < o2.len() implies o2[i] < seen.len() && r.0[#[trigger] o2[i] as int] by {
            if i < o1.len() {
                assert(o2[i] == o1[i]);
            }
        }
        assert forall|v: usize| v < seen.len() && #[trigger] r.0[v as int] && !o2.contains(v) implies seen[v as int]
            && !o.contains(v) by {
            if !o1.contains(v) {
                assert(s1[v as int] && !o.contains(v));
                if v == node {
                    assert(o2[o2.len() - 1] == node);
                }
            } else {
                let k = choose|k: int| 0 <= k < o1.len() && o1[k] == v;
                assert(o2[k] == o1[k]);
            }
        }
    }
}

/// The visits of a list of parents of `node` keep every node after its
/// parents, and leave each of them seen.
proof fn lemma_pvisit_list_kept(
    edges: EdgeList,
    seen: Seq<bool>,
    o: Seq<usize>,
    node: usize,
    nodes: Seq<(int, usize)>,
    fuel: nat,
)
    requires
        acyclic(edges),
        edges_within(edges, seen.len()),
        node < seen.len(),
        seen[node as int],
        fuel >= count_false(seen),
        after_parents(edges, o),
        forall|i: int| 0 <= i < o.len() ==> o[i] < seen.len() && seen[#[trigger] o[i] as int],
        pending_from(edges, seen, o, node),
        forall|k: int| 0 <= k < nodes.len() ==> has_edge(edges, (#[trigger] nodes[k]).1, node),
    ensures
        visit_kept(edges, seen, o, pvisit_list(edges, seen, nodes, fuel)),
        forall|k: int| 0 <= k < nodes.len() ==> pvisit_list(edges, seen, nodes, fuel).0[(#[trigger] nodes[k]).1 as int],
    decreases fuel, nodes.len() + 1,
{
    let r = pvisit_list(edges, seen, nodes, fuel);
    if nodes.len() == 0 {
        assert(o + r.1 =~= o);
    } else {
        let rest = nodes.drop_last();
        assert forall|k: int| 0 <= k < rest.len() implies has_edge(edges, (#[trigger] rest[k]).1, node) by {
            assert(rest[k] == nodes[k]);
        }
        lemma_pvisit_list_kept(edges, seen, o, node, rest, fuel);
        let a = pvisit_list(edges, seen, rest, fuel);
        let oa = o + a.1;
        let x = nodes.last().1;
        assert(has_edge(edges, x, node)) by {
            assert(nodes[nodes.len() - 1] == nodes.last());
        }
        let jx = choose|j: int| 0 <= j < edges.len() && #[trigger] edges[j].0 == x && edges[j].1 == node;
        assert(x < seen.len());
        lemma_count_false_mono(seen, a.0);
        assert(pending_from(edges, a.0, oa, x)) by {
            assert forall|v: usize| v < a.0.len() && #[trigger] a.0[v as int] && !oa.contains(v) implies reach(
                edges,
                x,
                v,
            ) by {
                assert(seen[v as int] && !o.contains(v));
                lemma_reach_via_parent(edges, x, node, v);
            }
        }
        lemma_pvisit_kept(edges, a.0, oa, x, fuel);
        let b = pvisit(edges, a.0, x, fuel);
        assert(r == (b.0, a.1 + b.1));
        assert(o + r.1 =~= oa + b.1);
        assert forall|k: int| 0 <= k < nodes.len() implies r.0[(#[trigger] nodes[k]).1 as int] by {
            if k < rest.len() {
                assert(rest[k] == nodes[k]);
                assert(a.0[rest[k].1 as int]);
            }
        }
        assert forall|v: usize| v < seen.len() && #[trigger] r.0[v as int] && !(o + r.1).contains(v) implies seen[v as int]
            && !o.contains(v) by {
            assert(a.0[v as int] && !oa.contains(v));
        }
    }
}

/// A visiting state with nothing pending: the seen nodes are exactly those
/// placed, and each placed node comes after its parents.
pub open spec fn settled(edges: EdgeList, seen: Seq<bool>, o: Seq<usize>) -> bool {
    &&& after_parents(edges, o)
    &&& forall|i: int| 0 <= i < o.len() ==> o[i] < seen.len() && seen[#[trigger] o[i] as int]
    &&& forall|v: usize| v < seen.len() && #[trigger] seen[v as int] ==> o.contains(v)
}

proof fn lemma_pvisit_settled(edges: EdgeList, seen: Seq<bool>, o: Seq<usize>, node: usize)
    requires
        acyclic(edges),
        edges_within(edges, seen.len()),
        node < seen.len(),
        settled(edges, seen, o),
    ensures
        pvisit(edges, seen, node, seen.len()).0.len() == seen.len(),
        settled(edges, pvisit(edges, seen, node, seen.len()).0, o + pvisit(edges, seen, node, seen.len()).1),
{
    lemma_count_false_le_len(seen);
    lemma_pvisit_kept(edges, seen, o, node, seen.len());
    let r = pvisit(edges, seen, node, seen.len());
    assert forall|v: usize| v < r.0.len() && #[trigger] r.0[v as int] implies (o + r.1).contains(v) by {
        if !(o + r.1).contains(v) {
            assert(seen[v as int] && !o.contains(v));
        }
    }
}

proof fn lemma_visit_listed_settled(edges: EdgeList, tv: Seq<Test>, nv: Seq<Seq<char>>, k: int)
    requires
        acyclic(edges),
        edges_within(edges, tv.len()),
        k <= nv.len(),
        forall|j: int| 0 <= j < nv.len() ==> loaded(tv, #[trigger] nv[j]),
    ensures
        visit_listed(edges, no_flags(tv.len()), tv, nv, k, tv.len()).0.len() == tv.len(),
        settled(
            edges,
            visit_listed(edges, no_flags(tv.len()), tv, nv, k, tv.len()).0,
            visit_listed(edges, no_flags(tv.len()), tv, nv, k, tv.len()).1,
        ),
    decreases k,
{
    if k > 0 {
        lemma_visit_listed_settled(edges, tv, nv, k - 1);
        let r = visit_listed(edges, no_flags(tv.len()), tv, nv, k - 1, tv.len());
        assert(loaded(tv, nv[k - 1]));
        assert(test_ids(tv).len() == tv.len());
        lemma_pvisit_settled(edges, r.0, r.1, test_index(tv, nv[k - 1]) as usize);
    } else {
        let r = visit_listed(edges, no_flags(tv.len()), tv, nv, k, tv.len());
        assert(r.1 =~= Seq::<usize>::empty());
    }
}

proof fn lemma_visit_flagged_settled(edges: EdgeList, seen: Seq<bool>, o: Seq<usize>, flags: Seq<bool>, k: int)
    requires
        acyclic(edges),
        edges_within(edges, seen.len()),
        0 <= k <= seen.len(),
        settled(edges, seen, o),
    ensures
        visit_flagged(edges, seen, flags, k, seen.len()).0.len() == seen.len(),
        settled(
            edges,
            visit_flagged(edges, seen, flags, k, seen.len()).0,
            o + visit_flagged(edges, seen, flags, k, seen.len()).1,
        ),
    decreases k,
{
    if k > 0 {
        lemma_visit_flagged_settled(edges, seen, o, flags, k - 1);
        let r = visit_flagged(edges, seen, flags, k - 1, seen.len());
        if flags[k - 1] {
            lemma_pvisit_settled(edges, r.0, o + r.1, (k - 1) as usize);
            let v = pvisit(edges, r.0, (k - 1) as usize, r.0.len());
            assert(o + (r.1 + v.1) =~= (o + r.1) + v.1);
        }
    } else {
        assert(o + visit_flagged(edges, seen, flags, k, seen.len()).1 =~= o);
    }
}

/// In the order of a scenario's tests, each test comes after every test it
/// is joined to by an edge: after the tests it depends on, and after the
/// listed test before it.
pub proof fn lemma_scenario_order_after_parents(edges: EdgeList, tv: Seq<Test>, nv: Seq<Seq<char>>, flags: Seq<bool>)
    requires
        acyclic(edges),
        edges_within(edges, tv.len()),
        forall|j: int| 0 <= j < nv.len() ==> loaded(tv, #[trigger] nv[j]),
    ensures
        after_parents(edges, scenario_order(edges, tv, nv, flags)),
{
    lemma_visit_listed_settled(edges, tv, nv, nv.len() as int);
    let a = visit_listed(edges, no_flags(tv.len()), tv, nv, nv.len() as int, tv.len());
    lemma_visit_flagged_settled(edges, a.0, a.1, flags, tv.len() as int);
}

/// `e` extends `edges`: it keeps them, in order, and may add more.
pub open spec fn extends(e: EdgeList, edges: EdgeList) -> bool {
    e.len() >= edges.len() && e.subrange(0, edges.len() as int) == edges
}

proof fn lemma_push_keeps(edges: EdgeList, x: (usize, usize, u8), n: nat)
    requires
        acyclic(edges),
        edges_within(edges, n),
        x.0 < n && x.1 < n,
        !reach(edges, x.1, x.0),
    ensures
        acyclic(edges.push(x)),
        edges_within(edges.push(x), n),
        extends(edges.push(x), edges),
{
    lemma_acyclic_push(edges, x);
    assert(edges.push(x).subrange(0, edges.len() as int) =~= edges);
    assert forall|j: int| 0 <= j < edges.push(x).len() implies (#[trigger] edges.push(x)[j]).0 < n && edges.push(x)[j].1 < n by {
        if j < edges.len() {
            assert(edges.push(x)[j] == edges[j]);
        }
    }
}

proof fn lemma_extends_trans(a: EdgeList, b: EdgeList, c: EdgeList)
    requires
        extends(b, a),
        extends(c, b),
    ensures
        extends(c, a),
{
    assert forall|j: int| 0 <= j < a.len() implies c[j] == a[j] by {
        assert(c.subrange(0, b.len() as int)[j] == c[j]);
        assert(b.subrange(0, a.len() as int)[j] == b[j]);
    }
    assert(c.subrange(0, a.len() as int) =~= a);
}

proof fn lemma_extends_edge(e: EdgeList, edges: EdgeList, a: usize, b: usize)
    requires
        extends(e, edges),
        has_edge(edges, a, b),
    ensures
        has_edge(e, a, b),
{
    let j = choose|j: int| 0 <= j < edges.len() && #[trigger] edges[j].0 == a && edges[j].1 == b;
    assert(e.subrange(0, edges.len() as int)[j] == e[j]);
}

/// The chain of a scenario's list is acyclic, within the graph, and joins
/// each listed test to the one before it.
proof fn lemma_chain_good(tv: Seq<Test>, nv: Seq<Seq<char>>, k: int)
    ensures
        chain_edges(tv, nv, k) matches Ok(e) ==> acyclic(e) && edges_within(e, tv.len()) && forall|j: int|
            1 <= j < k && j < nv.len() ==> has_edge(
                e,
                test_index(tv, #[trigger] nv[j - 1]) as usize,
                test_index(tv, nv[j]) as usize,
            ) && loaded(tv, nv[j - 1]) && loaded(tv, nv[j]),
        chain_edges(tv, nv, k) is Ok && k >= 2 ==> forall|j: int| 0 <= j < k && j < nv.len() ==> loaded(tv, #[trigger] nv[j]),
    decreases k,
{
    if k > 1 {
        lemma_chain_good(tv, nv, k - 1);
        if let Ok(edges) = chain_edges(tv, nv, k - 1) {
            let i = k - 1;
            if loaded(tv, nv[i - 1]) && loaded(tv, nv[i]) {
                let a = test_index(tv, nv[i - 1]) as usize;
                let b = test_index(tv, nv[i]) as usize;
                if !reach(edges, b, a) {
                    assert(test_ids(tv).len() == tv.len());
                    lemma_push_keeps(edges, (a, b, 2u8), tv.len());
                    let e = edges.push((a, b, 2u8));
                    assert(e[edges.len() as int] == (a, b, 2u8));
                    assert forall|j: int| 1 <= j < k && j < nv.len() implies has_edge(
                        e,
                        test_index(tv, #[trigger] nv[j - 1]) as usize,
                        test_index(tv, nv[j]) as usize,
                    ) && loaded(tv, nv[j - 1]) && loaded(tv, nv[j]) by {
                        if j < k - 1 {
                            lemma_extends_edge(e, edges, test_index(tv, nv[j - 1]) as usize, test_index(tv, nv[j]) as usize);
                        } else {
                            assert(e[edges.len() as int].0 == a && e[edges.len() as int].1 == b);
                        }
                    }
                }
            }
        }
    } else {
        assert(chain_edges(tv, nv, k) matches Ok(e) ==> e =~= Seq::<(usize, usize, u8)>::empty());
    }
}

proof fn lemma_dep_good(tv: Seq<Test>, t: int, deps: Seq<Seq<char>>, k: int, edges: EdgeList, required: bool)
    requires
        acyclic(edges),
        edges_within(edges, tv.len()),
        0 <= t < tv.len(),
    ensures
        dep_edges(tv, t, deps, k, edges, required) matches Ok(e) ==> acyclic(e) && edges_within(e, tv.len())
            && extends(e, edges),
    decreases k,
{
    if k <= 0 {
        assert(edges.subrange(0, edges.len() as int) =~= edges);
    } else {
        lemma_dep_good(tv, t, deps, k - 1, edges, required);
        if let Ok(es) = dep_edges(tv, t, deps, k - 1, edges, required) {
            let d = deps[k - 1];
            if loaded(tv, d) {
                let e = test_index(tv, d) as usize;
                if !reach(es, t as usize, e) {
                    assert(test_ids(tv).len() == tv.len());
                    lemma_push_keeps(es, (e, t as usize, if required { 0u8 } else { 1u8 }), tv.len());
                    lemma_extends_trans(edges, es, es.push((e, t as usize, if required { 0u8 } else { 1u8 })));
                }
            }
        }
    }
}

proof fn lemma_resolve_good(tv: Seq<Test>, queue: Seq<Seq<char>>, q: int, resolved: Seq<bool>, edges: EdgeList)
    requires
        acyclic(edges),
        edges_within(edges, tv.len()),
    ensures
        resolve(tv, queue, q, resolved, edges) matches Ok(r) ==> acyclic(r.0) && edges_within(r.0, tv.len())
            && extends(r.0, edges),
    decreases count_false(resolved), queue.len() - q,
{
    if resolved.len() != tv.len() || q < 0 || q >= queue.len() {
        assert(edges.subrange(0, edges.len() as int) =~= edges);
    } else if loaded(tv, queue[q]) {
        let t = test_index(tv, queue[q]);
        assert(test_ids(tv).len() == tv.len());
        if resolved[t] {
            lemma_resolve_good(tv, queue, q + 1, resolved, edges);
        } else {
            let v = tv[t]@;
            lemma_dep_good(tv, t, v.required, v.required.len() as int, edges, true);
            if let Ok(e1) = dep_edges(tv, t, v.required, v.required.len() as int, edges, true) {
                lemma_dep_good(tv, t, v.suggests, v.suggests.len() as int, e1, false);
                if let Ok(e2) = dep_edges(tv, t, v.suggests, v.suggests.len() as int, e1, false) {
                    lemma_count_false_set(resolved, t);
                    lemma_resolve_good(tv, queue + v.required + v.suggests, q + 1, resolved.update(t, true), e2);
                    if let Ok(r) = resolve(tv, queue + v.required + v.suggests, q + 1, resolved.update(t, true), e2) {
                        lemma_extends_trans(edges, e1, e2);
                        lemma_extends_trans(edges, e2, r.0);
                    }
                }
            }
        }
    }
}

/// The order of a scenario's tests (see `order_result`) keeps the listed
/// order and every dependency: each test comes after every test it is
/// joined to in the graph (the tests it depends on, and the listed test
/// before it), so each listed test comes after the one listed before it.
pub proof fn lemma_order_result_keeps_order(tv: Seq<Test>, nv: Seq<Seq<char>>)
    requires
        order_result(tv, nv) is Ok,
    ensures
        ({
            let (edges, order) = order_result(tv, nv)->Ok_0;
            &&& after_parents(edges, order)
            &&& forall|k: int|
                1 <= k < nv.len() ==> has_edge(
                    edges,
                    test_index(tv, #[trigger] nv[k - 1]) as usize,
                    test_index(tv, nv[k]) as usize,
                )
        }),
{
    lemma_chain_good(tv, nv, nv.len() as int);
    let e1 = chain_edges(tv, nv, nv.len() as int)->Ok_0;
    lemma_resolve_good(tv, nv, 0, no_flags(tv.len()), e1);
    let r = resolve(tv, nv, 0, no_flags(tv.len()), e1)->Ok_0;
    assert forall|j: int| 0 <= j < nv.len() implies loaded(tv, #[trigger] nv[j]) by {
        assert(chain_edges(tv, nv, nv.len() as int) is Ok);
    }
    lemma_scenario_order_after_parents(r.0, tv, nv, r.1);
    assert forall|k: int| 1 <= k < nv.len() implies has_edge(
        r.0,
        test_index(tv, #[trigger] nv[k - 1]) as usize,
        test_index(tv, nv[k]) as usize,
    ) by {
        lemma_extends_edge(r.0, e1, test_index(tv, nv[k - 1]) as usize, test_index(tv, nv[k]) as usize);
    }
}

proof fn lemma_pvisit_list_step(edges: EdgeList, seen: Seq<bool>, nodes: Seq<(int, usize)>, i: int, fuel: nat)
    requires
        0 <= i < nodes.len(),
    ensures
        ({
            let r = pvisit_list(edges, seen, nodes.take(i), fuel);
            let v = pvisit(edges, r.0, nodes[i].1, fuel);
            pvisit_list(edges, seen, nodes.take(i + 1), fuel) == (v.0, r.1 + v.1)
        }),
{
    assert(nodes.take(i + 1).drop_last() =~= nodes.take(i));
    assert(nodes.take(i + 1).last() == nodes[i]);
}

/// The edges that join each listed test to the one listed before it, over
/// the first `k` names, in turn: a name that is not loaded, or an edge that
/// would close a cycle, stops the list with an error.
pub open spec fn chain_edges(tv: Seq<Test>, nv: Seq<Seq<char>>, k: int) -> Result<EdgeList, ScenarioErrorView>
    decreases k,
{
    if k <= 1 {
        Ok(seq![])
    } else {
        match chain_edges(tv, nv, k - 1) {
            Err(e) => Err(e),
            Ok(edges) => {
                let i = k - 1;
                if !loaded(tv, nv[i - 1]) || !loaded(tv, nv[i]) {
                    Err(ScenarioErrorView::MissingDependency(nv[i], nv[i - 1]))
                } else {
                    let a = test_index(tv, nv[i - 1]) as usize;
                    let b = test_index(tv, nv[i]) as usize;
                    if reach(edges, b, a) {
                        Err(ScenarioErrorView::CircularDependency(nv[i - 1], nv[i]))
                    } else {
                        Ok(edges.push((a, b, 2u8)))
                    }
                }
            }
        }
    }
}

/// The edges from the first `k` dependencies `deps` of test `t` to it, over
/// `edges`, in turn: a dependency that is not loaded stops with an error; an
/// edge that would close a cycle stops with an error for a requirement and
/// is left out for a suggestion.
pub open spec fn dep_edges(tv: Seq<Test>, t: int, deps: Seq<Seq<char>>, k: int, edges: EdgeList, required: bool) -> Result<EdgeList, ScenarioErrorView>
    decreases k,
{
    if k <= 0 {
        Ok(edges)
    } else {
        match dep_edges(tv, t, deps, k - 1, edges, required) {
            Err(e) => Err(e),
            Ok(es) => {
                let d = deps[k - 1];
                if !loaded(tv, d) {
                    Err(ScenarioErrorView::TestDependencyNotFound(tv[t]@.id, d))
                } else {
                    let e = test_index(tv, d) as usize;
                    if reach(es, t as usize, e) {
                        if required {
                            Err(ScenarioErrorView::CircularDependency(tv[t]@.id, d))
                        } else {
                            Ok(es)
                        }
                    } else {
                        Ok(es.push((e, t as usize, if required { 0u8 } else { 1u8 })))
                    }
                }
            }
        }
    }
}

/// The resolution of the names `queue` from position `q` on, with the tests
/// `resolved` done and `edges` so far: a name that is not loaded stops with
/// an error; a test not yet resolved gets the edges from its requirements,
/// then from its suggestions, and these are queued in turn.  The result is
/// the edges and the tests resolved.
pub open spec fn resolve(tv: Seq<Test>, queue: Seq<Seq<char>>, q: int, resolved: Seq<bool>, edges: EdgeList) -> Result<(EdgeList, Seq<bool>), ScenarioErrorView>
    decreases count_false(resolved), queue.len() - q,
{
    if resolved.len() != tv.len() || q < 0 || q >= queue.len() {
        Ok((edges, resolved))
    } else if !loaded(tv, queue[q]) {
        Err(ScenarioErrorView::TestNotFound(queue[q]))
    } else {
        let t = test_index(tv, queue[q]);
        if resolved[t] {
            resolve(tv, queue, q + 1, resolved, edges)
        } else {
            let v = tv[t]@;
            match dep_edges(tv, t, v.required, v.required.len() as int, edges, true) {
                Err(e) => Err(e),
                Ok(e1) => match dep_edges(tv, t, v.suggests, v.suggests.len() as int, e1, false) {
                    Err(e) => Err(e),
                    Ok(e2) => {
                        proof {
                            lemma_count_false_set(resolved, t);
                        }
                        resolve(tv, queue + v.required + v.suggests, q + 1, resolved.update(t, true), e2)
                    },
                },
            }
        }
    }
}

/// The ordering of the scenario whose tests are listed as `nv`: the edges
/// of its graph and the order its tests run in, or the error it stops with.
/// Each listed test follows the one before it; every test reached from the
/// list is resolved; the order is that of `scenario_order`.
/// `n` flags, none set.
pub open spec fn no_flags(n: nat) -> Seq<bool> {
    Seq::new(n, |i: int| false)
}

pub open spec fn order_result(tv: Seq<Test>, nv: Seq<Seq<char>>) -> Result<(EdgeList, Seq<usize>), ScenarioErrorView> {
    match chain_edges(tv, nv, nv.len() as int) {
        Err(e) => Err(e),
        Ok(e1) => if !loaded(tv, nv[0]) {
            Err(ScenarioErrorView::TestNotFound(nv[0]))
        } else {
            match resolve(tv, nv, 0, no_flags(tv.len()), e1) {
                Err(e) => Err(e),
                Ok((e2, flags)) => Ok((e2, scenario_order(e2, tv, nv, flags))),
            }
        },
    }
}

proof fn lemma_chain_err(tv: Seq<Test>, nv: Seq<Seq<char>>, k: int, m: int)
    requires
        chain_edges(tv, nv, k) is Err,
        k <= m,
    ensures
        chain_edges(tv, nv, m) == chain_edges(tv, nv, k),
    decreases m - k,
{
    if k < m {
        lemma_chain_err(tv, nv, k, m - 1);
    }
}

proof fn lemma_dep_err(tv: Seq<Test>, t: int, deps: Seq<Seq<char>>, k: int, m: int, edges: EdgeList, required: bool)
    requires
        dep_edges(tv, t, deps, k, edges, required) is Err,
        k <= m,
    ensures
        dep_edges(tv, t, deps, m, edges, required) == dep_edges(tv, t, deps, k, edges, required),
    decreases m - k,
{
    if k < m {
        lemma_dep_err(tv, t, deps, k, m - 1, edges, required);
    }
}

/// `v` is the source of an edge: a test that another follows or depends on.
pub open spec fn is_source(edges: EdgeList, v: usize) -> bool {
    exists|j: int| 0 <= j < edges.len() && #[trigger] edges[j].0 == v
}

/// Visits `node` (see `pvisit`): first, recursively, its parents, then the
/// node itself, skipping nodes already seen.
#[verifier::spinoff_prover]
fn visit_node(
    graph: &TestGraph,
    n: usize,
    node: usize,
    seen: &mut Vec<bool>,
    order: &mut Vec<usize>,
    Ghost(fuel): Ghost<nat>,
)
    requires
        graph_of(*graph, n as nat),
        node < n,
        old(seen).len() == n,
        fuel >= count_false(old(seen)@),
        order_wf(old(order)@, n as nat),
        forall|i: int| 0 <= i < old(order).len() ==> old(seen)@[#[trigger] old(order)@[i] as int],
    ensures
        final(seen).len() == n,
        final(seen)@[node as int],
        forall|i: int| 0 <= i < n && old(seen)@[i] ==> final(seen)@[i],
        order_wf(final(order)@, n as nat),
        forall|i: int| 0 <= i < final(order).len() ==> final(seen)@[#[trigger] final(order)@[i] as int],
        forall|i: int|
            old(order)@.len() <= i < final(order)@.len() ==> !old(seen)@[#[trigger] final(order)@[i] as int]
                && (final(order)@[i] == node || is_source(dag_contents(*graph).1, final(order)@[i])),
        forall|v: usize|
            v < n && #[trigger] final(seen)@[v as int] && !old(seen)@[v as int] ==> final(order)@.contains(v),
        final(seen)@ == pvisit(dag_contents(*graph).1, old(seen)@, node, fuel).0,
        final(order)@ == old(order)@ + pvisit(dag_contents(*graph).1, old(seen)@, node, fuel).1,
    decreases count_false(old(seen)@),
{
    if seen[node] {
        assert(order@ =~= order@ + Seq::<usize>::empty());
        return ;
    }
    proof {
        lemma_count_false_set(seen@, node as int);
    }
    let ghost seen0 = seen@;
    let ghost order0 = order@;
    seen.set(node, true);
    let ghost seen1 = seen@;
    let ghost edges = dag_contents(*graph).1;
    let ghost inc = incoming(edges, node);
    let parents = dag_parents(graph, node);
    assert(walk_view(parents@).len() == parents.len());
    let mut i: usize = 0;
    assert(inc.take(0) =~= Seq::<(int, usize)>::empty());
    assert(order@ =~= order0 + Seq::<usize>::empty());
    while i < parents.len()
        invariant
            graph_of(*graph, n as nat),
            edges == dag_contents(*graph).1,
            walk_view(parents@) == inc,
            inc == incoming(edges, node),
            node < n,
            i <= parents.len(),
            seen.len() == n,
            seen@[node as int],
            forall|j: int| 0 <= j < n && seen1[j] ==> seen@[j],
            count_false(seen@) <= count_false(seen1),
            count_false(seen1) < count_false(seen0),
            seen0 == old(seen)@,
            seen0.len() == n,
            seen1.len() == n,
            seen1 == seen0.update(node as int, true),
            order_wf(order@, n as nat),
            forall|j: int| 0 <= j < order.len() ==> seen@[#[trigger] order@[j] as int],
            order0 == old(order)@,
            forall|j: int| order0.len() <= j < order@.len() ==> !seen1[#[trigger] order@[j] as int]
                && is_source(edges, order@[j]),
            forall|v: usize|
                v < n && #[trigger] seen@[v as int] && !seen1[v as int] ==> order@.contains(v),
            fuel >= count_false(seen0),
            seen@ == pvisit_list(edges, seen1, inc.take(i as int), (fuel - 1) as nat).0,
            order@ == order0 + pvisit_list(edges, seen1, inc.take(i as int), (fuel - 1) as nat).1,
        decreases parents.len() - i,
    {
        let (_, p) = parents[i];
        proof {
            lemma_incoming(edges, node, i as int);
            assert(walk_view(parents@)[i as int] == (parents@[i as int].0 as int, p));
            assert(has_edge(edges, p, node));
        }
        let ghost order_b = order@;
        let ghost seen_b = seen@;
        visit_node(graph, n, p, seen, order, Ghost((fuel - 1) as nat));
        proof {
            lemma_pvisit_list_step(edges, seen1, inc, i as int, (fuel - 1) as nat);
            assert(inc[i as int].1 == p);
            assert(order@ =~= order0 + pvisit_list(edges, seen1, inc.take(i + 1), (fuel - 1) as nat).1);
            lemma_count_false_mono(seen_b, seen@);
            let e = inc[i as int].0;
            assert(edges[e].0 == p);
            assert(is_source(edges, p));
            assert forall|j: int| order0.len() <= j < order@.len() implies !seen1[#[trigger] order@[j] as int]
                && is_source(edges, order@[j]) by {
                if j < order_b.len() {
                    assert(order@[j] == order_b[j]);
                } else {
                    assert(!seen_b[order@[j] as int]);
                }
            }
            assert forall|v: usize| v < n && #[trigger] seen@[v as int] && !seen1[v as int] implies order@.contains(v) by {
                if seen_b[v as int] {
                    let k = choose|k: int| 0 <= k < order_b.len() && order_b[k] == v;
                    assert(order@[k] == order_b[k]);
                }
            }
        }
        i = i + 1;
    }
    // The node itself: it was unseen on entry, so nothing pushed it yet.
    proof {
        assert forall|j: int| 0 <= j < order.len() implies order@[j] != node by {
            if j < order0.len() {
                assert(order@[j] == order0[j]);
                assert(seen0[order0[j] as int]);
            } else {
                assert(!seen1[order@[j] as int]);
            }
        }
    }
    let ghost order_p = order@;
    order.push(node);
    proof {
        assert(inc.take(inc.len() as int) =~= inc);
        assert(order@ =~= order0 + pvisit(edges, seen0, node, fuel).1);
        assert forall|j: int| 0 <= j < n && seen0[j] implies seen@[j] by {
            assert(seen1[j]);
        }
        assert forall|j: int| order0.len() <= j < order@.len() implies !seen0[#[trigger] order@[j] as int]
            && (order@[j] == node || is_source(edges, order@[j])) by {
            if j < order_p.len() {
                assert(order@[j] == order_p[j]);
                assert(!seen1[order_p[j] as int]);
            }
        }
        assert forall|v: usize| v < n && #[trigger] seen@[v as int] && !seen0[v as int] implies order@.contains(v) by {
            if v == node {
                assert(order@[order_p.len() as int] == node);
            } else {
                assert(!seen1[v as int]);
                let k = choose|k: int| 0 <= k < order_p.len() && order_p[k] == v;
                assert(order@[k] == order_p[k]);
            }
        }
    }
}

proof fn lemma_count_false_le_len(a: Seq<bool>)
    ensures
        count_false(a) <= a.len(),
    decreases a.len(),
{
    if a.len() > 0 {
        lemma_count_false_le_len(a.drop_last());
    }
}

proof fn lemma_count_false_mono(a: Seq<bool>, b: Seq<bool>)
    requires
        a.len() == b.len(),
        forall|i: int| 0 <= i < a.len() && a[i] ==> b[i],
    ensures
        count_false(b) <= count_false(a),
    decreases a.len(),
{
    if a.len() > 0 {
        lemma_count_false_mono(a.drop_last(), b.drop_last());
    }
}

/// How many dependencies (Requires and Suggests) a test lists.
pub open spec fn deps_of(t: Test) -> nat {
    t@.required.len() + t@.suggests.len()
}

/// The dependencies listed by the flagged tests, counted.
pub open spec fn flagged_deps(tests: Seq<Test>, flags: Seq<bool>) -> nat
    decreases tests.len(),
{
    if tests.len() == 0 || flags.len() == 0 {
        0
    } else {
        flagged_deps(tests.drop_last(), flags.drop_last()) + if flags.last() {
            deps_of(tests.last())
        } else {
            0nat
        }
    }
}

/// The dependencies listed by all tests, counted.
pub open spec fn total_deps(tests: Seq<Test>) -> nat
    decreases tests.len(),
{
    if tests.len() == 0 {
        0
    } else {
        total_deps(tests.drop_last()) + deps_of(tests.last())
    }
}

proof fn lemma_flag_set(tests: Seq<Test>, flags: Seq<bool>, i: int)
    requires
        tests.len() == flags.len(),
        0 <= i < flags.len(),
        !flags[i],
    ensures
        flagged_deps(tests, flags.update(i, true)) == flagged_deps(tests, flags) + deps_of(tests[i]),
    decreases tests.len(),
{
    if i < tests.len() - 1 {
        assert(flags.update(i, true).drop_last() =~= flags.drop_last().update(i, true));
        lemma_flag_set(tests.drop_last(), flags.drop_last(), i);
    } else {
        assert(flags.update(i, true).drop_last() =~= flags.drop_last());
    }
}

proof fn lemma_flagged_le_total(tests: Seq<Test>, flags: Seq<bool>)
    requires
        tests.len() == flags.len(),
    ensures
        flagged_deps(tests, flags) <= total_deps(tests),
    decreases tests.len(),
{
    if tests.len() > 0 {
        lemma_flagged_le_total(tests.drop_last(), flags.drop_last());
    }
}

proof fn lemma_no_flags(tests: Seq<Test>, flags: Seq<bool>)
    requires
        tests.len() == flags.len(),
        forall|i: int| 0 <= i < flags.len() ==> !flags[i],
    ensures
        flagged_deps(tests, flags) == 0,
    decreases tests.len(),
{
    if tests.len() > 0 {
        lemma_no_flags(tests.drop_last(), flags.drop_last());
    }
}

/// `name` is a test that `t` requires or suggests.
pub open spec fn is_dep(t: TestView, name: Seq<char>) -> bool {
    t.required.contains(name) || t.suggests.contains(name)
}

/// `p` is a chain of loaded tests that starts at a listed one, each next
/// test being one that the test before requires or suggests.
pub open spec fn dep_chain(tests: Seq<Test>, names: Seq<Seq<char>>, p: Seq<int>) -> bool {
    &&& p.len() >= 1
    &&& forall|k: int| 0 <= k < p.len() ==> 0 <= #[trigger] p[k] < tests.len()
    &&& names.contains(tests[p[0]]@.id)
    &&& forall|k: int| 0 <= k < p.len() - 1 ==> #[trigger] is_dep(tests[p[k]]@, tests[p[k + 1]]@.id)
}

/// Test `j` runs in a scenario that lists `names`: it is listed, or a test
/// that runs there requires or suggests it.
pub open spec fn in_scenario(tests: Seq<Test>, names: Seq<Seq<char>>, j: int) -> bool {
    exists|p: Seq<int>| #[trigger] dep_chain(tests, names, p) && p.last() == j
}

/// The index of the test named `name`.
pub open spec fn test_index(tests: Seq<Test>, name: Seq<char>) -> int {
    test_ids(tests).index_of(name)
}

proof fn lemma_test_index(tests: Seq<Test>, name: Seq<char>, j: int)
    requires
        ids_unique(tests),
        0 <= j < tests.len(),
        tests[j]@.id == name,
    ensures
        test_index(tests, name) == j,
{
    assert(test_ids(tests)[j] == name);
    let i = test_index(tests, name);
    assert(test_ids(tests).contains(name));
    assert(test_ids(tests)[i] == name);
    if i != j {
        if i < j {
            assert(tests[i]@.id != tests[j]@.id);
        } else {
            assert(tests[j]@.id != tests[i]@.id);
        }
    }
}

proof fn lemma_chain_start(tests: Seq<Test>, names: Seq<Seq<char>>, j: int)
    requires
        0 <= j < tests.len(),
        names.contains(tests[j]@.id),
    ensures
        in_scenario(tests, names, j),
{
    let p = seq![j];
    assert(dep_chain(tests, names, p));
}

proof fn lemma_chain_extend(tests: Seq<Test>, names: Seq<Seq<char>>, i: int, j: int)
    requires
        in_scenario(tests, names, i),
        0 <= j < tests.len(),
        is_dep(tests[i]@, tests[j]@.id),
    ensures
        in_scenario(tests, names, j),
{
    let p = choose|p: Seq<int>| #[trigger] dep_chain(tests, names, p) && p.last() == i;
    let q = p.push(j);
    assert forall|k: int| 0 <= k < q.len() implies 0 <= #[trigger] q[k] < tests.len() by {
        if k < p.len() {
            assert(q[k] == p[k]);
        }
    }
    assert forall|k: int| 0 <= k < q.len() - 1 implies #[trigger] is_dep(tests[q[k]]@, tests[q[k + 1]]@.id) by {
        if k < p.len() - 1 {
            assert(q[k] == p[k] && q[k + 1] == p[k + 1]);
            assert(is_dep(tests[p[k]]@, tests[p[k + 1]]@.id));
        } else {
            assert(q[k] == i);
        }
    }
    assert(q[0] == p[0]);
    assert(dep_chain(tests, names, q));
}

/// A set of tests that holds the listed tests, and every test that one of
/// its members requires or suggests, holds every test of the scenario.
proof fn lemma_chain_closed(tests: Seq<Test>, names: Seq<Seq<char>>, flags: Seq<bool>, p: Seq<int>)
    requires
        dep_chain(tests, names, p),
        flags.len() == tests.len(),
        forall|j: int| 0 <= j < tests.len() && names.contains(#[trigger] tests[j]@.id) ==> flags[j],
        forall|i: int, j: int|
            0 <= i < tests.len() && flags[i] && 0 <= j < tests.len() && #[trigger] is_dep(
                tests[i]@,
                tests[j]@.id,
            ) ==> flags[j],
    ensures
        flags[p.last()],
    decreases p.len(),
{
    if p.len() == 1 {
        assert(names.contains(tests[p[0]]@.id));
    } else {
        let q = p.drop_last();
        assert forall|k: int| 0 <= k < q.len() implies 0 <= #[trigger] q[k] < tests.len() by {
            assert(q[k] == p[k]);
        }
        assert forall|k: int| 0 <= k < q.len() - 1 implies #[trigger] is_dep(tests[q[k]]@, tests[q[k + 1]]@.id) by {
            assert(q[k] == p[k] && q[k + 1] == p[k + 1]);
            assert(is_dep(tests[p[k]]@, tests[p[k + 1]]@.id));
        }
        assert(q[0] == p[0]);
        assert(dep_chain(tests, names, q));
        lemma_chain_closed(tests, names, flags, q);
        let k = p.len() - 2;
        assert(q.last() == p[k]);
        assert(is_dep(tests[p[k]]@, tests[p[k + 1]]@.id));
    }
}

/// `x` stands in the queue at or after position `q`.
pub open spec fn queued_after(queue: Seq<String>, q: int, x: Seq<char>) -> bool {
    exists|pos: int| q <= pos < queue.len() && (#[trigger] queue[pos])@ == x
}

proof fn lemma_queued_push(queue: Seq<String>, q: int, x: Seq<char>, s: String)
    requires
        0 <= q,
        queued_after(queue, q, x),
    ensures
        queued_after(queue.push(s), q, x),
{
    let pos = choose|pos: int| q <= pos < queue.len() && (#[trigger] queue[pos])@ == x;
    assert(q <= pos < queue.len());
    assert(queue.push(s)[pos] == queue[pos]);
    assert(queue.push(s)[pos]@ == x);
}

/// Adding an edge keeps every connection.
proof fn lemma_connected_grow_all(edges: EdgeList, e: (usize, usize, u8))
    ensures
        forall|a: usize, b: usize| #[trigger] connected(edges, a, b) ==> connected(edges.push(e), a, b),
{
    assert forall|a: usize, b: usize| #[trigger] connected(edges, a, b) implies connected(edges.push(e), a, b) by {
        crate::graph::lemma_connected_grow(edges, e, a, b);
    }
}

// ---------------------------------------------------------------------------
// What resolving the tests of a scenario keeps true.
/// Every edge joins two tests of the scenario.
#[verifier::opaque]
spec fn edges_in_scenario(tv: Seq<Test>, nv: Seq<Seq<char>>, edges: EdgeList) -> bool {
    forall|j: int|
        0 <= j < edges.len() ==> in_scenario(tv, nv, (#[trigger] edges[j]).0 as int) && in_scenario(
            tv,
            nv,
            edges[j].1 as int,
        )
}

/// Every listed test is connected to the first one, `f`.
#[verifier::opaque]
spec fn listed_connected(tv: Seq<Test>, nv: Seq<Seq<char>>, edges: EdgeList, f: usize) -> bool {
    forall|a: int| 0 <= a < tv.len() && nv.contains(#[trigger] tv[a]@.id) ==> connected(edges, f, a as usize)
}

/// Every listed test is resolved, or still to be taken from the queue.
#[verifier::opaque]
spec fn listed_pending(tv: Seq<Test>, nv: Seq<Seq<char>>, resolved: Seq<bool>, queue: Seq<String>, q: int) -> bool {
    forall|a: int|
        0 <= a < tv.len() && nv.contains(#[trigger] tv[a]@.id) ==> resolved[a] || queued_after(
            queue,
            q,
            tv[a]@.id,
        )
}

/// Every resolved test is in the scenario and connected to the first one.
#[verifier::opaque]
spec fn resolved_ok(tv: Seq<Test>, nv: Seq<Seq<char>>, resolved: Seq<bool>, edges: EdgeList, f: usize) -> bool {
    forall|a: int|
        0 <= a < tv.len() && #[trigger] resolved[a] ==> in_scenario(tv, nv, a) && connected(
            edges,
            f,
            a as usize,
        )
}

/// Every dependency of a resolved test (but `skip`) is connected to it, and
/// resolved or still queued.
#[verifier::opaque]
spec fn deps_done(tv: Seq<Test>, resolved: Seq<bool>, queue: Seq<String>, q: int, edges: EdgeList, skip: int) -> bool {
    forall|a: int, b: int|
        0 <= a < tv.len() && resolved[a] && a != skip && 0 <= b < tv.len() && #[trigger] is_dep(
            tv[a]@,
            tv[b]@.id,
        ) ==> connected(edges, a as usize, b as usize) && (resolved[b] || queued_after(
            queue,
            q,
            tv[b]@.id,
        ))
}

/// Every queued name is listed, or a dependency of a resolved test.
#[verifier::opaque]
spec fn queue_sources(tv: Seq<Test>, nv: Seq<Seq<char>>, resolved: Seq<bool>, queue: Seq<String>) -> bool {
    forall|pos: int|
        0 <= pos < queue.len() ==> nv.contains(#[trigger] queue[pos]@) || exists|r: int|
            0 <= r < tv.len() && resolved[r] && #[trigger] is_dep(tv[r]@, queue[pos]@)
}

/// The first `j` of the dependency names `deps` of test `t` are loaded,
/// connected to `t`, and resolved or still queued.
#[verifier::opaque]
spec fn names_done(
    tv: Seq<Test>,
    deps: Seq<Seq<char>>,
    j: int,
    edges: EdgeList,
    t: usize,
    resolved: Seq<bool>,
    queue: Seq<String>,
    q: int,
) -> bool {
    forall|k: int|
        0 <= k < j ==> loaded(tv, #[trigger] deps[k]) && connected(
            edges,
            t,
            test_index(tv, deps[k]) as usize,
        ) && (resolved[test_index(tv, deps[k])] || queued_after(queue, q, deps[k]))
}

proof fn lemma_grow_preds(
    tv: Seq<Test>,
    nv: Seq<Seq<char>>,
    edges: EdgeList,
    e: (usize, usize, u8),
    f: usize,
    resolved: Seq<bool>,
    queue: Seq<String>,
    q: int,
    skip: int,
)
    requires
        edges_in_scenario(tv, nv, edges),
        in_scenario(tv, nv, e.0 as int),
        in_scenario(tv, nv, e.1 as int),
        listed_connected(tv, nv, edges, f),
        resolved_ok(tv, nv, resolved, edges, f),
        deps_done(tv, resolved, queue, q, edges, skip),
    ensures
        edges_in_scenario(tv, nv, edges.push(e)),
        listed_connected(tv, nv, edges.push(e), f),
        resolved_ok(tv, nv, resolved, edges.push(e), f),
        deps_done(tv, resolved, queue, q, edges.push(e), skip),
{
    reveal(edges_in_scenario);
    reveal(listed_connected);
    reveal(resolved_ok);
    reveal(deps_done);
    lemma_connected_grow_all(edges, e);
    let e1 = edges.push(e);
    assert forall|j: int| 0 <= j < e1.len() implies in_scenario(tv, nv, (#[trigger] e1[j]).0 as int)
        && in_scenario(tv, nv, e1[j].1 as int) by {
        if j < edges.len() {
            assert(e1[j] == edges[j]);
        }
    }
}

proof fn lemma_grow_names_done(
    tv: Seq<Test>,
    deps: Seq<Seq<char>>,
    j: int,
    edges: EdgeList,
    e: (usize, usize, u8),
    t: usize,
    resolved: Seq<bool>,
    queue: Seq<String>,
    q: int,
)
    requires
        names_done(tv, deps, j, edges, t, resolved, queue, q),
    ensures
        names_done(tv, deps, j, edges.push(e), t, resolved, queue, q),
{
    reveal(names_done);
    lemma_connected_grow_all(edges, e);
}

proof fn lemma_push_preds(
    tv: Seq<Test>,
    nv: Seq<Seq<char>>,
    edges: EdgeList,
    resolved: Seq<bool>,
    queue: Seq<String>,
    q: int,
    skip: int,
    s: String,
)
    requires
        0 <= q,
        listed_pending(tv, nv, resolved, queue, q),
        deps_done(tv, resolved, queue, q, edges, skip),
        queue_sources(tv, nv, resolved, queue),
        nv.contains(s@) || exists|r: int| 0 <= r < tv.len() && resolved[r] && #[trigger] is_dep(tv[r]@, s@),
    ensures
        listed_pending(tv, nv, resolved, queue.push(s), q),
        deps_done(tv, resolved, queue.push(s), q, edges, skip),
        queue_sources(tv, nv, resolved, queue.push(s)),
        queued_after(queue.push(s), q, s@) || queue.len() < q,
{
    reveal(listed_pending);
    reveal(deps_done);
    reveal(queue_sources);
    let q1 = queue.push(s);
    assert forall|a: int| 0 <= a < tv.len() && nv.contains(#[trigger] tv[a]@.id) implies resolved[a]
        || queued_after(q1, q, tv[a]@.id) by {
        if !resolved[a] {
            lemma_queued_push(queue, q, tv[a]@.id, s);
        }
    }
    assert forall|a: int, b: int|
        0 <= a < tv.len() && resolved[a] && a != skip && 0 <= b < tv.len() && #[trigger] is_dep(
            tv[a]@,
            tv[b]@.id,
        ) implies connected(edges, a as usize, b as usize) && (resolved[b] || queued_after(
        q1,
        q,
        tv[b]@.id,
    )) by {
        if !resolved[b] {
            lemma_queued_push(queue, q, tv[b]@.id, s);
        }
    }
    assert forall|pos: int| 0 <= pos < q1.len() implies nv.contains(#[trigger] q1[pos]@) || exists|r: int|
        0 <= r < tv.len() && resolved[r] && #[trigger] is_dep(tv[r]@, q1[pos]@) by {
        if pos < queue.len() {
            assert(q1[pos] == queue[pos]);
        }
    }
    if queue.len() >= q {
        assert(q1[queue.len() as int]@ == s@);
    }
}

proof fn lemma_push_names_done(
    tv: Seq<Test>,
    deps: Seq<Seq<char>>,
    j: int,
    edges: EdgeList,
    t: usize,
    resolved: Seq<bool>,
    queue: Seq<String>,
    q: int,
    s: String,
)
    requires
        0 <= q,
        names_done(tv, deps, j, edges, t, resolved, queue, q),
    ensures
        names_done(tv, deps, j, edges, t, resolved, queue.push(s), q),
{
    reveal(names_done);
    assert forall|k: int| 0 <= k < j implies loaded(tv, #[trigger] deps[k]) && connected(
        edges,
        t,
        test_index(tv, deps[k]) as usize,
    ) && (resolved[test_index(tv, deps[k])] || queued_after(queue.push(s), q, deps[k])) by {
        if !resolved[test_index(tv, deps[k])] {
            lemma_queued_push(queue, q, deps[k], s);
        }
    }
}

/// Moving past a queued name whose test is resolved keeps what is pending.
proof fn lemma_advance_preds(
    tv: Seq<Test>,
    nv: Seq<Seq<char>>,
    edges: EdgeList,
    resolved: Seq<bool>,
    queue: Seq<String>,
    q: int,
    t: int,
)
    requires
        ids_unique(tv),
        0 <= q < queue.len(),
        0 <= t < tv.len(),
        tv[t]@.id == queue[q]@,
        resolved[t],
        listed_pending(tv, nv, resolved, queue, q),
        deps_done(tv, resolved, queue, q, edges, -1),
    ensures
        listed_pending(tv, nv, resolved, queue, q + 1),
        deps_done(tv, resolved, queue, q + 1, edges, -1),
{
    reveal(listed_pending);
    reveal(deps_done);
    assert forall|a: int| 0 <= a < tv.len() && nv.contains(#[trigger] tv[a]@.id) implies resolved[a]
        || queued_after(queue, q + 1, tv[a]@.id) by {
        if !resolved[a] {
            let pos = choose|pos: int| q <= pos < queue.len() && (#[trigger] queue[pos])@ == tv[a]@.id;
            if pos == q {
                lemma_test_index(tv, queue[q]@, t);
                lemma_test_index(tv, queue[q]@, a);
            }
        }
    }
    assert forall|a: int, b: int|
        0 <= a < tv.len() && resolved[a] && a != -1 && 0 <= b < tv.len() && #[trigger] is_dep(
            tv[a]@,
            tv[b]@.id,
        ) implies connected(edges, a as usize, b as usize) && (resolved[b] || queued_after(
        queue,
        q + 1,
        tv[b]@.id,
    )) by {
        if !resolved[b] {
            let pos = choose|pos: int| q <= pos < queue.len() && (#[trigger] queue[pos])@ == tv[b]@.id;
            if pos == q {
                lemma_test_index(tv, queue[q]@, t);
                lemma_test_index(tv, queue[q]@, b);
            }
        }
    }
}

/// Resolving the test `t`, named at position `q` of the queue: it is in
/// the scenario and connected to the first test, and what held of the
/// resolved tests holds with it added (its own dependencies to come).
proof fn lemma_resolve_preds(
    tv: Seq<Test>,
    nv: Seq<Seq<char>>,
    edges: EdgeList,
    f: usize,
    resolved: Seq<bool>,
    queue: Seq<String>,
    q: int,
    t: int,
)
    requires
        ids_unique(tv),
        resolved.len() == tv.len(),
        0 <= q < queue.len(),
        0 <= t < tv.len(),
        !resolved[t],
        tv[t]@.id == queue[q]@,
        in_scenario(tv, nv, f as int),
        f < tv.len(),
        tv[f as int]@.id == nv[0],
        listed_connected(tv, nv, edges, f),
        listed_pending(tv, nv, resolved, queue, q),
        resolved_ok(tv, nv, resolved, edges, f),
        deps_done(tv, resolved, queue, q, edges, -1),
        queue_sources(tv, nv, resolved, queue),
    ensures
        in_scenario(tv, nv, t),
        connected(edges, f, t as usize),
        listed_pending(tv, nv, resolved.update(t, true), queue, q + 1),
        resolved_ok(tv, nv, resolved.update(t, true), edges, f),
        deps_done(tv, resolved.update(t, true), queue, q + 1, edges, t),
        queue_sources(tv, nv, resolved.update(t, true), queue),
{
    reveal(listed_connected);
    reveal(listed_pending);
    reveal(resolved_ok);
    reveal(deps_done);
    reveal(queue_sources);
    let r1 = resolved.update(t, true);
    assert(nv.contains(queue[q]@) || exists|r: int|
        0 <= r < tv.len() && resolved[r] && #[trigger] is_dep(tv[r]@, queue[q]@));
    if nv.contains(queue[q]@) {
        assert(nv.contains(tv[t]@.id));
        lemma_chain_start(tv, nv, t);
    } else {
        let r = choose|r: int| 0 <= r < tv.len() && resolved[r] && #[trigger] is_dep(tv[r]@, queue[q]@);
        assert(is_dep(tv[r]@, tv[t]@.id));
        lemma_chain_extend(tv, nv, r, t);
        crate::graph::lemma_connected_trans(edges, f, r as usize, t as usize);
    }
    assert forall|a: int| 0 <= a < tv.len() && nv.contains(#[trigger] tv[a]@.id) implies r1[a]
        || queued_after(queue, q + 1, tv[a]@.id) by {
        if !resolved[a] && a != t {
            let pos = choose|pos: int| q <= pos < queue.len() && (#[trigger] queue[pos])@ == tv[a]@.id;
            if pos == q {
                lemma_test_index(tv, queue[q]@, t);
                lemma_test_index(tv, queue[q]@, a);
            }
        }
    }
    assert forall|a: int| 0 <= a < tv.len() && #[trigger] r1[a] implies in_scenario(tv, nv, a) && connected(
        edges,
        f,
        a as usize,
    ) by {
        if a != t {
            assert(resolved[a]);
        }
    }
    assert forall|a: int, b: int|
        0 <= a < tv.len() && r1[a] && a != t && 0 <= b < tv.len() && #[trigger] is_dep(
            tv[a]@,
            tv[b]@.id,
        ) implies connected(edges, a as usize, b as usize) && (r1[b] || queued_after(
        queue,
        q + 1,
        tv[b]@.id,
    )) by {
        assert(resolved[a]);
        if !resolved[b] && b != t {
            let pos = choose|pos: int| q <= pos < queue.len() && (#[trigger] queue[pos])@ == tv[b]@.id;
            if pos == q {
                lemma_test_index(tv, queue[q]@, t);
                lemma_test_index(tv, queue[q]@, b);
            }
        }
    }
    assert forall|pos: int| 0 <= pos < queue.len() implies nv.contains(#[trigger] queue[pos]@) || exists|r: int|
        0 <= r < tv.len() && r1[r] && #[trigger] is_dep(tv[r]@, queue[pos]@) by {
        if !nv.contains(queue[pos]@) {
            let r = choose|r: int| 0 <= r < tv.len() && resolved[r] && #[trigger] is_dep(tv[r]@, queue[pos]@);
            assert(r1[r]);
        }
    }
}

/// Once every dependency of `t` is done, nothing is skipped any more.
proof fn lemma_finish_resolve(
    tv: Seq<Test>,
    edges: EdgeList,
    t: usize,
    resolved: Seq<bool>,
    queue: Seq<String>,
    q: int,
    reqs: Seq<Seq<char>>,
    sugs: Seq<Seq<char>>,
)
    requires
        ids_unique(tv),
        t < tv.len(),
        reqs == tv[t as int]@.required,
        sugs == tv[t as int]@.suggests,
        deps_done(tv, resolved, queue, q, edges, t as int),
        names_done(tv, reqs, reqs.len() as int, edges, t, resolved, queue, q),
        names_done(tv, sugs, sugs.len() as int, edges, t, resolved, queue, q),
    ensures
        deps_done(tv, resolved, queue, q, edges, -1),
{
    reveal(deps_done);
    reveal(names_done);
    assert forall|a: int, b: int|
        0 <= a < tv.len() && resolved[a] && a != -1 && 0 <= b < tv.len() && #[trigger] is_dep(
            tv[a]@,
            tv[b]@.id,
        ) implies connected(edges, a as usize, b as usize) && (resolved[b] || queued_after(
        queue,
        q,
        tv[b]@.id,
    )) by {
        if a == t {
            if reqs.contains(tv[b]@.id) {
                let k = choose|k: int| 0 <= k < reqs.len() && reqs[k] == tv[b]@.id;
                assert(loaded(tv, reqs[k]));
                lemma_test_index(tv, tv[b]@.id, b);
            } else {
                let k = choose|k: int| 0 <= k < sugs.len() && sugs[k] == tv[b]@.id;
                assert(loaded(tv, sugs[k]));
                lemma_test_index(tv, tv[b]@.id, b);
            }
        }
    }
}

/// A newly handled dependency name `deps[j]` (test `e`) of `t`.
proof fn lemma_names_step(
    tv: Seq<Test>,
    deps: Seq<Seq<char>>,
    j: int,
    edges: EdgeList,
    t: usize,
    e: usize,
    resolved: Seq<bool>,
    queue: Seq<String>,
    q: int,
)
    requires
        ids_unique(tv),
        0 <= j < deps.len(),
        e < tv.len(),
        tv[e as int]@.id == deps[j],
        connected(edges, t, e),
        queued_after(queue, q, deps[j]),
        names_done(tv, deps, j, edges, t, resolved, queue, q),
    ensures
        names_done(tv, deps, j + 1, edges, t, resolved, queue, q),
{
    reveal(names_done);
    lemma_test_index(tv, deps[j], e as int);
    assert(test_ids(tv)[e as int] == deps[j]);
}

/// Places the tests of a scenario in the order they run (see
/// `scenario_order`): the listed tests in turn, then every other test of the
/// scenario (those `resolved` marks), each after what it depends on.
fn place_tests(graph: &TestGraph, names: &Vec<String>, tests: &Vec<Test>, resolved: &Vec<bool>, f: usize) -> (order: Vec<usize>)
    requires
        names.len() >= 1,
        graph_of(*graph, tests.len() as nat),
        ids_unique(tests@),
        edges_in_scenario(tests@, strings_view(names@), dag_contents(*graph).1),
        forall|j: int| 0 <= j < names.len() ==> loaded(tests@, #[trigger] strings_view(names@)[j]),
        resolved.len() == tests.len(),
        forall|j: int| 0 <= j < tests.len() ==> (resolved@[j] <==> in_scenario(tests@, strings_view(names@), j)),
        f < tests.len(),
        f as int == test_index(tests@, strings_view(names@)[0]),
    ensures
        order@ == scenario_order(dag_contents(*graph).1, tests@, strings_view(names@), resolved@),
        order_wf(order@, tests.len() as nat),
        exists|i: int| 0 <= i < order.len() && tests@[#[trigger] order@[i] as int]@.id == names@[0]@,
        forall|j: int| 0 <= j < tests.len() ==> (order@.contains(j as usize) <==> in_scenario(
            tests@,
            strings_view(names@),
            j,
        )),
{
    let n = tests.len();
    let ghost tv = tests@;
    let ghost nv = strings_view(names@);
    let ghost edges = dag_contents(*graph).1;
    let mut seen = new_flags(n);
    let mut order: Vec<usize> = Vec::new();
    proof {
        assert(seen@ =~= no_flags(n as nat));
    }
    // The listed tests, in the order listed.
    let mut k: usize = 0;
    while k < names.len()
        invariant
            n == tests.len(),
            tv == tests@,
            ids_unique(tv),
            nv == strings_view(names@),
            graph_of(*graph, n as nat),
            edges == dag_contents(*graph).1,
            edges_in_scenario(tv, nv, edges),
            forall|j: int| 0 <= j < nv.len() ==> loaded(tv, #[trigger] nv[j]),
            k <= names.len(),
            seen.len() == n,
            order_wf(order@, n as nat),
            forall|j: int| 0 <= j < order.len() ==> seen@[#[trigger] order@[j] as int],
            forall|j: int| 0 <= j < order.len() ==> in_scenario(tv, nv, #[trigger] order@[j] as int),
            forall|v: usize| v < n && #[trigger] seen@[v as int] ==> order@.contains(v),
            seen@ == visit_listed(edges, no_flags(n as nat), tv, nv, k as int, n as nat).0,
            f < n,
            f as int == test_index(tv, nv[0]),
            k > 0 ==> seen@[f as int],
            order@ == visit_listed(edges, no_flags(n as nat), tv, nv, k as int, n as nat).1,
        decreases names.len() - k,
    {
        assert(nv[k as int] == names@[k as int]@);
        let t = match find_test(tests, names[k].as_str()) {
            Some(t) => t,
            None => {
                assert(loaded(tv, nv[k as int]));
                assert(false);
                0
            },
        };
        proof {
            lemma_test_index(tv, nv[k as int], t as int);
            lemma_count_false_le_len(seen@);
            assert(test_ids(tv)[t as int] == nv[k as int]);
            assert(nv.contains(tv[t as int]@.id));
            lemma_chain_start(tv, nv, t as int);
        }
        let ghost order_b = order@;
        let ghost seen_b = seen@;
        visit_node(graph, n, t, &mut seen, &mut order, Ghost(n as nat));
        proof {
            reveal(edges_in_scenario);
            if k > 0 {
                assert(seen_b[f as int]);
            }
            assert forall|j: int| 0 <= j < order.len() implies in_scenario(tv, nv, #[trigger] order@[j] as int) by {
                if j < order_b.len() {
                    assert(order@[j] == order_b[j]);
                } else if order@[j] != t {
                    let e = choose|e: int| 0 <= e < edges.len() && #[trigger] edges[e].0 == order@[j];
                    assert(in_scenario(tv, nv, edges[e].0 as int));
                }
            }
            assert forall|v: usize| v < n && #[trigger] seen@[v as int] implies order@.contains(v) by {
                if seen_b[v as int] {
                    let m = choose|m: int| 0 <= m < order_b.len() && order_b[m] == v;
                    assert(order@[m] == order_b[m]);
                }
            }
            assert(order@ =~= visit_listed(edges, no_flags(n as nat), tv, nv, k + 1, n as nat).1);
        }
        k = k + 1;
    }
    let ghost listed = visit_listed(edges, no_flags(n as nat), tv, nv, nv.len() as int, n as nat);
    assert(seen@[f as int]);
    // Then every other test of the scenario, in the order of its index.
    let mut j: usize = 0;
    assert(order@ =~= listed.1 + visit_flagged(edges, listed.0, resolved@, 0, n as nat).1);
    while j < n
        invariant
            n == tests.len(),
            tv == tests@,
            graph_of(*graph, n as nat),
            edges == dag_contents(*graph).1,
            edges_in_scenario(tv, nv, edges),
            resolved.len() == n,
            forall|i: int| 0 <= i < n ==> (resolved@[i] <==> in_scenario(tv, nv, i)),
            j <= n,
            f < n,
            seen@[f as int],
            seen.len() == n,
            order_wf(order@, n as nat),
            forall|i: int| 0 <= i < order.len() ==> seen@[#[trigger] order@[i] as int],
            forall|i: int| 0 <= i < order.len() ==> in_scenario(tv, nv, #[trigger] order@[i] as int),
            forall|v: usize| v < n && #[trigger] seen@[v as int] ==> order@.contains(v),
            forall|i: int| 0 <= i < j && resolved@[i] ==> #[trigger] seen@[i],
            seen@ == visit_flagged(edges, listed.0, resolved@, j as int, n as nat).0,
            order@ == listed.1 + visit_flagged(edges, listed.0, resolved@, j as int, n as nat).1,
        decreases n - j,
    {
        if resolved[j] {
            proof {
                lemma_count_false_le_len(seen@);
            }
            let ghost order_b = order@;
            let ghost seen_b = seen@;
            visit_node(graph, n, j, &mut seen, &mut order, Ghost(n as nat));
            proof {
                reveal(edges_in_scenario);
                assert forall|i: int| 0 <= i < order.len() implies in_scenario(tv, nv, #[trigger] order@[i] as int) by {
                    if i < order_b.len() {
                        assert(order@[i] == order_b[i]);
                    } else if order@[i] != j {
                        let e = choose|e: int| 0 <= e < edges.len() && #[trigger] edges[e].0 == order@[i];
                        assert(in_scenario(tv, nv, edges[e].0 as int));
                    }
                }
                assert forall|v: usize| v < n && #[trigger] seen@[v as int] implies order@.contains(v) by {
                    if seen_b[v as int] {
                        let m = choose|m: int| 0 <= m < order_b.len() && order_b[m] == v;
                        assert(order@[m] == order_b[m]);
                    }
                }
                assert(order@ =~= listed.1 + visit_flagged(edges, listed.0, resolved@, j + 1, n as nat).1);
            }
        }
        j = j + 1;
    }
    proof {
        assert(order@ =~= scenario_order(edges, tv, nv, resolved@));
        assert(order@.contains(f));
        let i = choose|i: int| 0 <= i < order@.len() && #[trigger] order@[i] == f;
        assert(tests@[order@[i] as int]@.id == names@[0]@) by {
            lemma_test_index(tv, nv[0], f as int);
            assert(nv[0] == names@[0]@);
        }
        assert forall|i: int| 0 <= i < n implies (order@.contains(i as usize) <==> in_scenario(tv, nv, i)) by {
            if order@.contains(i as usize) {
                let m = choose|m: int| 0 <= m < order@.len() && order@[m] == i as usize;
                assert(in_scenario(tv, nv, order@[m] as int));
            }
            if in_scenario(tv, nv, i) {
                assert(resolved@[i]);
                assert(seen@[i]);
            }
        }
    }
    order
}

/// Orders the tests of a scenario.  Every loaded test is a node of the
/// graph; each listed test follows the one listed before it; every test
/// reached from the list is resolved once, its Requires and Suggests becoming
/// edges (a Suggests that would close a cycle is left out).  The tests are
/// then placed as `scenario_order` says: each after the tests it depends on
/// and after the listed test before it.  The order holds exactly the tests
/// of the scenario (see `in_scenario`), each once.
#[verifier::spinoff_prover]
#[verifier::rlimit(60)]
pub fn order_tests(names: &Vec<String>, tests: &Vec<Test>) -> (r: Result<TestOrder, ScenarioError>)
    requires
        names.len() >= 1,
        tests.len() < u32::MAX,
        names.len() + total_deps(tests@) + 2 < u32::MAX,
        ids_unique(tests@),
    ensures
        r matches Ok(o) ==> graph_of(o.graph, tests.len() as nat) && order_wf(
            o.order@,
            tests.len() as nat,
        ) && (exists|i: int|
            0 <= i < o.order.len() && tests@[#[trigger] o.order@[i] as int]@.id
                == names@[0]@) && (forall|j: int|
            0 <= j < tests.len() ==> (o.order@.contains(j as usize) <==> in_scenario(
                tests@,
                strings_view(names@),
                j,
            ))),
        r matches Err(e) ==> ordering_error_ok(e, strings_view(names@), tests@),
        r matches Ok(o) ==> acyclic(dag_contents(o.graph).1),
        match r {
            Ok(o) => order_result(tests@, strings_view(names@)) == Ok::<(EdgeList, Seq<usize>), ScenarioErrorView>((dag_contents(o.graph).1, o.order@)),
            Err(e) => order_result(tests@, strings_view(names@)) == Err::<(EdgeList, Seq<usize>), ScenarioErrorView>(e@),
        },
{
    let n = tests.len();
    let mut graph = dag_new();
    let mut k: usize = 0;
    while k < n
        invariant
            k <= n,
            n == tests.len(),
            n < u32::MAX,
            dag_contents(graph).0.len() == k,
            dag_contents(graph).1.len() == 0,
        decreases n - k,
    {
        dag_add_node(&mut graph, k);
        k = k + 1;
    }
    let ghost nv = strings_view(names@);
    let ghost tv = tests@;
    proof {
        reveal(edges_in_scenario);
    }
    // Each listed test follows the one listed before it.
    let mut i: usize = 1;
    assert(dag_contents(graph).1 =~= Seq::<(usize, usize, u8)>::empty());
    while i < names.len()
        invariant
            1 <= i <= names.len(),
            n == tests.len(),
            tv == tests@,
            ids_unique(tv),
            nv == strings_view(names@),
            names.len() + total_deps(tests@) + 2 < u32::MAX,
            graph_of(graph, n as nat),
            dag_contents(graph).1.len() <= i - 1,
            i >= 2 ==> loaded(tv, nv[0]),
            forall|k: int|
                1 <= k < i ==> loaded(tv, #[trigger] nv[k]) && connected(
                    dag_contents(graph).1,
                    test_index(tv, nv[0]) as usize,
                    test_index(tv, nv[k]) as usize,
                ),
            edges_in_scenario(tv, nv, dag_contents(graph).1),
            acyclic(dag_contents(graph).1),
            chain_edges(tv, nv, i as int) == Ok::<EdgeList, ScenarioErrorView>(dag_contents(graph).1),
        decreases names.len() - i,
    {
        assert(nv[i as int] == names@[i as int]@ && nv[i - 1] == names@[i - 1]@);
        let ghost ce = chain_edges(tv, nv, i + 1);
        let prev = match find_test(tests, names[i - 1].as_str()) {
            Some(p) => p,
            None => {
                proof {
                    lemma_chain_err(tv, nv, i + 1, nv.len() as int);
                }
                return Err(ScenarioError::MissingDependency(names[i].clone(), names[i - 1].clone()));
            },
        };
        let this = match find_test(tests, names[i].as_str()) {
            Some(t) => t,
            None => {
                proof {
                    lemma_chain_err(tv, nv, i + 1, nv.len() as int);
                }
                return Err(ScenarioError::MissingDependency(names[i].clone(), names[i - 1].clone()));
            },
        };
        let ghost edges0 = dag_contents(graph).1;
        proof {
            lemma_test_index(tv, nv[i - 1], prev as int);
            lemma_test_index(tv, nv[i as int], this as int);
            assert(test_ids(tv)[prev as int] == nv[i - 1]);
            assert(test_ids(tv)[this as int] == nv[i as int]);
        }
        let added = dag_add_edge(&mut graph, prev, this, edge_weight_of(TestEdge::Follows));
        proof {
            if added && has_edge(edges0, prev, this) {
                lemma_acyclic_edge(edges0, prev, this);
            }
        }
        if !added {
            proof {
                lemma_chain_err(tv, nv, i + 1, nv.len() as int);
            }
            return Err(ScenarioError::CircularDependency(names[i - 1].clone(), names[i].clone()));
        }
        proof {
            lemma_acyclic_push(edges0, (prev, this, 2u8));
            let edges1 = dag_contents(graph).1;
            lemma_test_index(tv, nv[i - 1], prev as int);
            lemma_test_index(tv, nv[i as int], this as int);
            assert(test_ids(tv)[prev as int] == nv[i - 1]);
            assert(test_ids(tv)[this as int] == nv[i as int]);
            assert(nv.contains(tv[prev as int]@.id));
            assert(nv.contains(tv[this as int]@.id));
            lemma_chain_start(tv, nv, prev as int);
            lemma_chain_start(tv, nv, this as int);
            lemma_connected_grow_all(edges0, (prev, this, 2u8));
            assert(edges1 == edges0.push((prev, this, 2u8)));
            assert(edges1[edges0.len() as int] == (prev, this, 2u8));
            assert(edges1[edges0.len() as int].0 == prev && edges1[edges0.len() as int].1 == this);
            assert(has_edge(edges1, prev, this));
            let f = test_index(tv, nv[0]) as usize;
            if i == 1 {
                lemma_connected_refl(edges1, prev);
                lemma_connected_step(edges1, prev, prev, this);
            } else {
                assert(loaded(tv, nv[i - 1]));
                assert(connected(edges0, f, prev));
                lemma_connected_step(edges1, f, prev, this);
            }
            reveal(edges_in_scenario);
            assert forall|j: int|
                0 <= j < edges1.len() implies in_scenario(
                    tv,
                    nv,
                    (#[trigger] edges1[j]).0 as int,
                ) && in_scenario(tv, nv, edges1[j].1 as int) by {
                if j < edges0.len() {
                    assert(edges1[j] == edges0[j]);
                }
            }
        }
        i = i + 1;
    }
    let ghost e1 = dag_contents(graph).1;
    assert(chain_edges(tv, nv, nv.len() as int) == Ok::<EdgeList, ScenarioErrorView>(e1));
    let f = match find_test(tests, names[0].as_str()) {
        Some(f) => f,
        None => {
            assert(nv[0] == names@[0]@);
            return Err(ScenarioError::TestNotFound(names[0].clone()));
        },
    };
    // Resolve every test reached from the list.
    let mut queue: Vec<String> = Vec::new();
    let mut q: usize = 0;
    while q < names.len()
        invariant
            q <= names.len(),
            queue.len() == q,
            forall|j: int| 0 <= j < q ==> queue@[j]@ == names@[j]@,
        decreases names.len() - q,
    {
        queue.push(names[q].clone());
        q = q + 1;
    }
    let mut resolved = new_flags(n);
    proof {
        lemma_no_flags(tests@, resolved@);
        assert(nv[0] == names@[0]@);
        lemma_test_index(tv, nv[0], f as int);
        assert(test_ids(tv)[f as int] == nv[0]);
        assert(nv.contains(tv[f as int]@.id));
        lemma_chain_start(tv, nv, f as int);
        let edges = dag_contents(graph).1;
        reveal(listed_connected);
        reveal(listed_pending);
        reveal(resolved_ok);
        reveal(deps_done);
        reveal(queue_sources);
        assert forall|j: int|
            0 <= j < n && nv.contains(#[trigger] tv[j]@.id) implies resolved@[j] || queued_after(
            queue@,
            0,
            tv[j]@.id,
        ) by {
            let k = choose|k: int| 0 <= k < nv.len() && nv[k] == tv[j]@.id;
            assert(queue@[k]@ == names@[k]@);
        }
        assert forall|j: int| 0 <= j < n && nv.contains(#[trigger] tv[j]@.id) implies connected(
            edges,
            f,
            j as usize,
        ) by {
            let k = choose|k: int| 0 <= k < nv.len() && nv[k] == tv[j]@.id;
            lemma_test_index(tv, nv[k], j);
            if k == 0 {
                lemma_connected_refl(edges, f);
            } else {
                assert(loaded(tv, nv[k]));
            }
        }
        assert forall|pos: int| 0 <= pos < queue.len() implies nv.contains(#[trigger] queue@[pos]@) by {
            assert(nv[pos] == names@[pos]@);
        }
    }
    let ghost all_res = resolve(tv, nv, 0, no_flags(n as nat), e1);
    assert(test_ids(tv)[f as int] == nv[0]);
    assert forall|j: int| 0 <= j < nv.len() implies loaded(tv, #[trigger] nv[j]) by {
        if j == 0 {
            assert(test_ids(tv)[f as int] == nv[0]);
        }
    }
    assert(strings_view(queue@) =~= nv) by {
        assert forall|j: int| 0 <= j < nv.len() implies strings_view(queue@)[j] == nv[j] by {
            assert(queue@[j]@ == names@[j]@);
        }
    }
    assert(resolved@ =~= no_flags(n as nat));
    let mut q: usize = 0;
    while q < queue.len()
        invariant
            n == tests.len(),
            tv == tests@,
            ids_unique(tv),
            nv == strings_view(names@),
            names.len() + total_deps(tests@) + 2 < u32::MAX,
            graph_of(graph, n as nat),
            acyclic(dag_contents(graph).1),
            all_res == resolve(tv, strings_view(queue@), q as int, resolved@, dag_contents(graph).1),
            chain_edges(tv, nv, nv.len() as int) == Ok::<EdgeList, ScenarioErrorView>(e1),
            all_res == resolve(tv, nv, 0, no_flags(n as nat), e1),
            loaded(tv, nv[0]),
            resolved.len() == n,
            dag_contents(graph).1.len() <= names.len() + flagged_deps(tests@, resolved@),
            q <= queue.len(),
            f < n,
            tv[f as int]@.id == nv[0],
            in_scenario(tv, nv, f as int),
            edges_in_scenario(tv, nv, dag_contents(graph).1),
            listed_connected(tv, nv, dag_contents(graph).1, f),
            listed_pending(tv, nv, resolved@, queue@, q as int),
            resolved_ok(tv, nv, resolved@, dag_contents(graph).1, f),
            deps_done(tv, resolved@, queue@, q as int, dag_contents(graph).1, -1),
            queue_sources(tv, nv, resolved@, queue@),
        decreases count_false(resolved@), queue.len() - q,
    {
        let name = queue[q].clone();
        let ghost q0 = q as int;
        let ghost qv0 = strings_view(queue@);
        let ghost res0 = resolved@;
        let ghost ed0 = dag_contents(graph).1;
        assert(qv0[q0] == name@);
        q = q + 1;
        let t = match find_test(tests, name.as_str()) {
            Some(t) => t,
            None => {
                assert(all_res == Err::<(EdgeList, Seq<bool>), ScenarioErrorView>(ScenarioErrorView::TestNotFound(name@)));
                return Err(ScenarioError::TestNotFound(name));
            },
        };
        proof {
            lemma_test_index(tv, name@, t as int);
            assert(test_ids(tv)[t as int] == name@);
        }
        if resolved[t] {
            proof {
                lemma_advance_preds(tv, nv, dag_contents(graph).1, resolved@, queue@, q0, t as int);
            }
            continue ;
        }
        proof {
            lemma_resolve_preds(tv, nv, dag_contents(graph).1, f, resolved@, queue@, q0, t as int);
            lemma_count_false_set(resolved@, t as int);
            lemma_flag_set(tests@, resolved@, t as int);
            lemma_flagged_le_total(tests@, resolved@.update(t as int, true));
        }
        resolved.set(t, true);
        let ghost base = dag_contents(graph).1.len();
        let reqs = tests[t].requirements();
        proof {
            reveal(names_done);
            assert(tv[t as int]@.required.take(0) =~= Seq::<Seq<char>>::empty());
            assert(strings_view(queue@) =~= qv0 + tv[t as int]@.required.take(0));
        }
        let mut j: usize = 0;
        while j < reqs.len()
            invariant
                n == tests.len(),
                tv == tests@,
                ids_unique(tv),
                nv == strings_view(names@),
                t < n,
                graph_of(graph, n as nat),
                strings_view(reqs@) == tests@[t as int]@.required,
                tests@[t as int]@.id == name@,
                j <= reqs.len(),
                dag_contents(graph).1.len() <= base + j,
                base + deps_of(tests@[t as int]) + 2 < u32::MAX,
                queue.len() >= q,
                q >= 1,
                resolved.len() == n,
                resolved@[t as int],
                f < n,
                in_scenario(tv, nv, t as int),
                edges_in_scenario(tv, nv, dag_contents(graph).1),
                listed_connected(tv, nv, dag_contents(graph).1, f),
                listed_pending(tv, nv, resolved@, queue@, q as int),
                resolved_ok(tv, nv, resolved@, dag_contents(graph).1, f),
                deps_done(tv, resolved@, queue@, q as int, dag_contents(graph).1, t as int),
                queue_sources(tv, nv, resolved@, queue@),
                names_done(tv, strings_view(reqs@), j as int, dag_contents(graph).1, t, resolved@, queue@, q as int),
                acyclic(dag_contents(graph).1),
                dep_edges(tv, t as int, tv[t as int]@.required, j as int, ed0, true) == Ok::<EdgeList, ScenarioErrorView>(
                    dag_contents(graph).1,
                ),
                strings_view(queue@) == qv0 + tv[t as int]@.required.take(j as int),
                all_res == resolve(tv, qv0, q0, res0, ed0),
                resolved@ == res0.update(t as int, true),
                !res0[t as int],
                q == q0 + 1,
                0 <= q0 < qv0.len(),
                qv0[q0] == name@,
                res0.len() == n,
                test_index(tv, name@) == t,
                loaded(tv, name@),
                chain_edges(tv, nv, nv.len() as int) == Ok::<EdgeList, ScenarioErrorView>(e1),
                all_res == resolve(tv, nv, 0, no_flags(n as nat), e1),
                loaded(tv, nv[0]),
            decreases reqs.len() - j,
        {
            let r = &reqs[j];
            assert(strings_view(reqs@)[j as int] == r@);
            let ghost queue0 = queue@;
            proof {
                assert(tv[t as int]@.required.contains(r@));
                assert(is_dep(tv[t as int]@, r@));
            }
            queue.push(r.clone());
            proof {
                assert(queue@ == queue0.push(queue@.last()));
                lemma_push_preds(tv, nv, dag_contents(graph).1, resolved@, queue0, q as int, t as int, queue@.last());
                lemma_push_names_done(tv, strings_view(reqs@), j as int, dag_contents(graph).1, t, resolved@, queue0, q as int, queue@.last());
                assert(queue@.last()@ == r@);
                assert(strings_view(queue@) =~= strings_view(queue0).push(r@));
                assert(tv[t as int]@.required[j as int] == r@);
                assert(tv[t as int]@.required.take(j + 1) =~= tv[t as int]@.required.take(j as int).push(r@));
                assert(strings_view(queue@) =~= qv0 + tv[t as int]@.required.take(j + 1));
            }
            let e = match find_test(tests, r.as_str()) {
                Some(e) => e,
                None => {
                    proof {
                        assert(tv[t as int]@.required[j as int] == r@);
                        assert(dep_edges(tv, t as int, tv[t as int]@.required, j + 1, ed0, true)
                            == Err::<EdgeList, ScenarioErrorView>(ScenarioErrorView::TestDependencyNotFound(name@, r@)));
                        lemma_dep_err(tv, t as int, tv[t as int]@.required, j + 1, tv[t as int]@.required.len() as int, ed0, true);
                        assert(all_res == Err::<(EdgeList, Seq<bool>), ScenarioErrorView>(ScenarioErrorView::TestDependencyNotFound(name@, r@)));
                    }
                    return Err(ScenarioError::TestDependencyNotFound(name, r.clone()));
                },
            };
            let ghost edges0 = dag_contents(graph).1;
            proof {
                lemma_test_index(tv, r@, e as int);
            }
            let added = dag_add_edge(&mut graph, e, t, edge_weight_of(TestEdge::Requires));
            proof {
                if added && has_edge(edges0, e, t) {
                    lemma_acyclic_edge(edges0, e, t);
                }
            }
            if !added {
                proof {
                    assert(tv[t as int]@.required[j as int] == r@);
                    assert(dep_edges(tv, t as int, tv[t as int]@.required, j + 1, ed0, true)
                        == Err::<EdgeList, ScenarioErrorView>(ScenarioErrorView::CircularDependency(name@, r@)));
                    lemma_dep_err(tv, t as int, tv[t as int]@.required, j + 1, tv[t as int]@.required.len() as int, ed0, true);
                    assert(all_res == Err::<(EdgeList, Seq<bool>), ScenarioErrorView>(ScenarioErrorView::CircularDependency(name@, r@)));
                }
                return Err(ScenarioError::CircularDependency(name, r.clone()));
            }
            proof {
                lemma_acyclic_push(edges0, (e, t, 0u8));
                let edges1 = dag_contents(graph).1;
                assert(is_dep(tv[t as int]@, tv[e as int]@.id));
                lemma_chain_extend(tv, nv, t as int, e as int);
                assert(edges1 == edges0.push((e, t, 0u8)));
                lemma_grow_preds(tv, nv, edges0, (e, t, 0u8), f, resolved@, queue@, q as int, t as int);
                lemma_grow_names_done(tv, strings_view(reqs@), j as int, edges0, (e, t, 0u8), t, resolved@, queue@, q as int);
                assert(edges1[edges0.len() as int] == (e, t, 0u8));
                assert(edges1[edges0.len() as int].0 == e && edges1[edges0.len() as int].1 == t);
                assert(has_edge(edges1, e, t));
                lemma_connected_refl(edges1, t);
                lemma_connected_step(edges1, t, t, e);
                lemma_names_step(tv, strings_view(reqs@), j as int, edges1, t, e, resolved@, queue@, q as int);
            }
            j = j + 1;
        }
        let sugs = tests[t].suggestions();
        let mut j: usize = 0;
        let ghost ed1 = dag_contents(graph).1;
        assert(tv[t as int]@.required.take(tv[t as int]@.required.len() as int) =~= tv[t as int]@.required);
        assert(tv[t as int]@.suggests.take(0) =~= Seq::<Seq<char>>::empty());
        assert(strings_view(queue@) =~= qv0 + tv[t as int]@.required + tv[t as int]@.suggests.take(0));
        while j < sugs.len()
            invariant
                n == tests.len(),
                tv == tests@,
                ids_unique(tv),
                nv == strings_view(names@),
                t < n,
                graph_of(graph, n as nat),
                strings_view(sugs@) == tests@[t as int]@.suggests,
                strings_view(reqs@) == tests@[t as int]@.required,
                tests@[t as int]@.id == name@,
                j <= sugs.len(),
                dag_contents(graph).1.len() <= base + reqs.len() + j,
                base + deps_of(tests@[t as int]) + 2 < u32::MAX,
                queue.len() >= q,
                q >= 1,
                resolved.len() == n,
                resolved@[t as int],
                f < n,
                in_scenario(tv, nv, t as int),
                edges_in_scenario(tv, nv, dag_contents(graph).1),
                listed_connected(tv, nv, dag_contents(graph).1, f),
                listed_pending(tv, nv, resolved@, queue@, q as int),
                resolved_ok(tv, nv, resolved@, dag_contents(graph).1, f),
                deps_done(tv, resolved@, queue@, q as int, dag_contents(graph).1, t as int),
                queue_sources(tv, nv, resolved@, queue@),
                names_done(tv, strings_view(reqs@), reqs.len() as int, dag_contents(graph).1, t, resolved@, queue@, q as int),
                names_done(tv, strings_view(sugs@), j as int, dag_contents(graph).1, t, resolved@, queue@, q as int),
                acyclic(dag_contents(graph).1),
                dep_edges(tv, t as int, tv[t as int]@.required, tv[t as int]@.required.len() as int, ed0, true)
                    == Ok::<EdgeList, ScenarioErrorView>(ed1),
                dep_edges(tv, t as int, tv[t as int]@.suggests, j as int, ed1, false) == Ok::<EdgeList, ScenarioErrorView>(
                    dag_contents(graph).1,
                ),
                strings_view(queue@) == qv0 + tv[t as int]@.required + tv[t as int]@.suggests.take(j as int),
                all_res == resolve(tv, qv0, q0, res0, ed0),
                resolved@ == res0.update(t as int, true),
                !res0[t as int],
                q == q0 + 1,
                0 <= q0 < qv0.len(),
                qv0[q0] == name@,
                res0.len() == n,
                test_index(tv, name@) == t,
                loaded(tv, name@),
                chain_edges(tv, nv, nv.len() as int) == Ok::<EdgeList, ScenarioErrorView>(e1),
                all_res == resolve(tv, nv, 0, no_flags(n as nat), e1),
                loaded(tv, nv[0]),
            decreases sugs.len() - j,
        {
            let s = &sugs[j];
            assert(strings_view(sugs@)[j as int] == s@);
            let ghost queue0 = queue@;
            proof {
                assert(tv[t as int]@.suggests.contains(s@));
                assert(is_dep(tv[t as int]@, s@));
            }
            queue.push(s.clone());
            proof {
                assert(queue@ == queue0.push(queue@.last()));
                lemma_push_preds(tv, nv, dag_contents(graph).1, resolved@, queue0, q as int, t as int, queue@.last());
                lemma_push_names_done(tv, strings_view(reqs@), reqs.len() as int, dag_contents(graph).1, t, resolved@, queue0, q as int, queue@.last());
                lemma_push_names_done(tv, strings_view(sugs@), j as int, dag_contents(graph).1, t, resolved@, queue0, q as int, queue@.last());
                assert(queue@.last()@ == s@);
                assert(strings_view(queue@) =~= strings_view(queue0).push(s@));
                assert(tv[t as int]@.suggests[j as int] == s@);
                assert(tv[t as int]@.suggests.take(j + 1) =~= tv[t as int]@.suggests.take(j as int).push(s@));
                assert(strings_view(queue@) =~= qv0 + tv[t as int]@.required + tv[t as int]@.suggests.take(j + 1));
            }
            let e = match find_test(tests, s.as_str()) {
                Some(e) => e,
                None => {
                    proof {
                        assert(tv[t as int]@.suggests[j as int] == s@);
                        assert(dep_edges(tv, t as int, tv[t as int]@.suggests, j + 1, ed1, false)
                            == Err::<EdgeList, ScenarioErrorView>(ScenarioErrorView::TestDependencyNotFound(name@, s@)));
                        lemma_dep_err(tv, t as int, tv[t as int]@.suggests, j + 1, tv[t as int]@.suggests.len() as int, ed1, false);
                        assert(all_res == Err::<(EdgeList, Seq<bool>), ScenarioErrorView>(ScenarioErrorView::TestDependencyNotFound(name@, s@)));
                    }
                    return Err(ScenarioError::TestDependencyNotFound(name, s.clone()));
                },
            };
            let ghost edges0 = dag_contents(graph).1;
            proof {
                lemma_test_index(tv, s@, e as int);
            }
            // A suggestion that would close a cycle is left out.
            let added = dag_add_edge(&mut graph, e, t, edge_weight_of(TestEdge::Suggests));
            proof {
                if added && has_edge(edges0, e, t) {
                    lemma_acyclic_edge(edges0, e, t);
                }
                if added {
                    lemma_acyclic_push(edges0, (e, t, 1u8));
                }
            }
            proof {
                let edges1 = dag_contents(graph).1;
                assert(is_dep(tv[t as int]@, tv[e as int]@.id));
                lemma_chain_extend(tv, nv, t as int, e as int);
                if added {
                    assert(edges1 == edges0.push((e, t, 1u8)));
                    lemma_grow_preds(tv, nv, edges0, (e, t, 1u8), f, resolved@, queue@, q as int, t as int);
                    lemma_grow_names_done(tv, strings_view(reqs@), reqs.len() as int, edges0, (e, t, 1u8), t, resolved@, queue@, q as int);
                    lemma_grow_names_done(tv, strings_view(sugs@), j as int, edges0, (e, t, 1u8), t, resolved@, queue@, q as int);
                    assert(edges1[edges0.len() as int] == (e, t, 1u8));
                    assert(edges1[edges0.len() as int].0 == e && edges1[edges0.len() as int].1 == t);
                    assert(has_edge(edges1, e, t));
                    lemma_connected_refl(edges1, t);
                    lemma_connected_step(edges1, t, t, e);
                } else {
                    crate::graph::lemma_reach_connected(edges0, t, e);
                }
                lemma_names_step(tv, strings_view(sugs@), j as int, edges1, t, e, resolved@, queue@, q as int);
            }
            j = j + 1;
        }
        proof {
            lemma_finish_resolve(
                tv,
                dag_contents(graph).1,
                t,
                resolved@,
                queue@,
                q as int,
                strings_view(reqs@),
                strings_view(sugs@),
            );
            assert(tv[t as int]@.suggests.take(tv[t as int]@.suggests.len() as int) =~= tv[t as int]@.suggests);
            assert(resolve(tv, qv0, q0, res0, ed0) == resolve(
                tv,
                qv0 + tv[t as int]@.required + tv[t as int]@.suggests,
                q0 + 1,
                res0.update(t as int, true),
                dag_contents(graph).1,
            ));
        }
    }
    // Every test of the scenario was resolved, so it is connected to the
    // first listed test.
    proof {
        reveal(listed_pending);
        reveal(deps_done);
        reveal(resolved_ok);
        reveal(edges_in_scenario);
        assert forall|j: int| 0 <= j < n && nv.contains(#[trigger] tv[j]@.id) implies resolved@[j] by {
            if !resolved@[j] {
                let pos = choose|pos: int| q <= pos < queue.len() && (#[trigger] queue@[pos])@ == tv[j]@.id;
            }
        }
        assert forall|a: int, b: int|
            0 <= a < n && resolved@[a] && 0 <= b < n && #[trigger] is_dep(tv[a]@, tv[b]@.id) implies resolved@[b] by {
            if !resolved@[b] {
                assert(a != -1);
                let pos = choose|pos: int| q <= pos < queue.len() && (#[trigger] queue@[pos])@ == tv[b]@.id;
            }
        }
    }
    let ghost edges = dag_contents(graph).1;
    proof {
        reveal(resolved_ok);
        reveal(edges_in_scenario);
        assert forall|j: int| 0 <= j < n implies (resolved@[j] <==> in_scenario(tv, nv, j)) by {
            if in_scenario(tv, nv, j) {
                let p = choose|p: Seq<int>| #[trigger] dep_chain(tv, nv, p) && p.last() == j;
                lemma_chain_closed(tv, nv, resolved@, p);
            }
        }
        assert(all_res == Ok::<(EdgeList, Seq<bool>), ScenarioErrorView>((edges, resolved@)));
    }
    let order = place_tests(&graph, names, tests, &resolved, f);
    Ok(TestOrder { graph, order })
}

} // verus!
