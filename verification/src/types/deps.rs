use vstd::prelude::*;

use crate::graph::{
    dag_contents, dag_edge_weight, dag_parents, edges_within, incoming, lemma_incoming,
    lemma_incoming_complete, walk_view, EdgeList, TestGraph,
};
use crate::types::test::{Test, TestStateView};

verus! {

/// The kinds of dependency between tests.
#[derive(Copy, Clone, Debug, PartialEq, Eq, Structural)]
pub enum TestEdge {
    /// Test B Requires test A, and a failure of A prevents B from running
    Requires,
    /// Test B Suggests test A, and a failure of A doesn't prevent B from running
    Suggests,
    /// Test B follows test A in the .scenario file
    Follows,
}

/// The weight that stands for a kind of dependency in the graph.
pub open spec fn edge_code(e: TestEdge) -> u8 {
    match e {
        TestEdge::Requires => 0,
        TestEdge::Suggests => 1,
        TestEdge::Follows => 2,
    }
}

pub fn edge_weight_of(e: TestEdge) -> (r: u8)
    ensures
        r == edge_code(e),
{
    match e {
        TestEdge::Requires => 0,
        TestEdge::Suggests => 1,
        TestEdge::Follows => 2,
    }
}

/// There is a Requires edge from `x` to `y`: `y` requires `x`.
pub open spec fn req_edge(edges: EdgeList, x: usize, y: usize) -> bool {
    exists|j: int| 0 <= j < edges.len() && #[trigger] edges[j] == (x, y, 0u8)
}

/// `p` is a chain of Requires edges, of at least one edge.
pub open spec fn req_path(edges: EdgeList, p: Seq<usize>) -> bool {
    &&& p.len() >= 2
    &&& forall|i: int| 0 <= i < p.len() - 1 ==> req_edge(edges, #[trigger] p[i], p[i + 1])
}

/// `n` depends on `a`, directly or through other tests, by Requires edges.
pub open spec fn req_ancestor(edges: EdgeList, a: usize, n: usize) -> bool {
    exists|p: Seq<usize>| #[trigger] req_path(edges, p) && p[0] == a && p.last() == n
}

/// A required test is satisfied while it runs (a daemon) or once it passed.
pub open spec fn state_ok(s: TestStateView) -> bool {
    s is Pass || s is Running
}

/// The states of the tests, in order.
pub open spec fn states_of(tests: Seq<Test>) -> Seq<TestStateView> {
    tests.map_values(|t: Test| t@.state)
}

/// Every test that `n` requires, directly or not, passed or is running.
pub open spec fn deps_ok(edges: EdgeList, states: Seq<TestStateView>, n: usize) -> bool {
    forall|a: usize| #[trigger] req_ancestor(edges, a, n) ==> a < states.len() && state_ok(states[a as int])
}

proof fn lemma_extend(edges: EdgeList, a: usize, x: usize, n: usize)
    requires
        req_edge(edges, a, x),
        x == n || req_ancestor(edges, x, n),
    ensures
        req_ancestor(edges, a, n),
{
    if x == n {
        let p = seq![a, x];
        assert(req_edge(edges, p[0], p[1]));
        assert(req_path(edges, p));
    } else {
        let q = choose|q: Seq<usize>| #[trigger] req_path(edges, q) && q[0] == x && q.last() == n;
        let p = seq![a] + q;
        assert forall|i: int| 0 <= i < p.len() - 1 implies req_edge(edges, #[trigger] p[i], p[i + 1]) by {
            if i == 0 {
                assert(p[1] == q[0]);
            } else {
                assert(p[i] == q[i - 1]);
                assert(p[i + 1] == q[i]);
            }
        }
        assert(req_path(edges, p));
    }
}

/// Every Requires edge into a visited node that is no longer waiting on the
/// stack comes from a visited, satisfied node.
pub open spec fn closed(edges: EdgeList, states: Seq<TestStateView>, visited: Seq<bool>, v: usize) -> bool {
    forall|j: int|
        0 <= j < edges.len() && (#[trigger] edges[j]).1 == v && edges[j].2 == 0u8 ==> edges[j].0
            < visited.len() && visited[edges[j].0 as int] && state_ok(states[edges[j].0 as int])
}

proof fn lemma_closed_path(
    edges: EdgeList,
    states: Seq<TestStateView>,
    visited: Seq<bool>,
    p: Seq<usize>,
    i: int,
)
    requires
        req_path(edges, p),
        0 <= i < p.len(),
        p.last() < visited.len(),
        visited[p.last() as int],
        forall|v: usize| v < visited.len() && visited[v as int] ==> closed(edges, states, visited, v),
    ensures
        p[i] < visited.len(),
        visited[p[i] as int],
        i < p.len() - 1 ==> state_ok(states[p[i] as int]),
    decreases p.len() - i,
{
    if i < p.len() - 1 {
        lemma_closed_path(edges, states, visited, p, i + 1);
        assert(req_edge(edges, p[i], p[i + 1]));
        let j = choose|j: int| 0 <= j < edges.len() && #[trigger] edges[j] == (p[i], p[i + 1], 0u8);
        assert(closed(edges, states, visited, p[i + 1]));
        assert(edges[j].1 == p[i + 1]);
    }
}

pub open spec fn count_false(s: Seq<bool>) -> nat
    decreases s.len(),
{
    if s.len() == 0 {
        0
    } else {
        count_false(s.drop_last()) + if s.last() {
            0nat
        } else {
            1nat
        }
    }
}

pub proof fn lemma_count_false_set(s: Seq<bool>, i: int)
    requires
        0 <= i < s.len(),
        !s[i],
    ensures
        count_false(s.update(i, true)) + 1 == count_false(s),
    decreases s.len(),
{
    if i < s.len() - 1 {
        lemma_count_false_set(s.drop_last(), i);
        assert(s.update(i, true).drop_last() =~= s.drop_last().update(i, true));
    } else {
        assert(s.update(i, true).drop_last() =~= s.drop_last());
    }
}

/// Whether every test that test `n` requires (directly or through other
/// tests, following Requires edges only) passed or is still running.
#[verifier::spinoff_prover]
#[verifier::rlimit(40)]
pub fn dependencies_succeeded(graph: &TestGraph, tests: &Vec<Test>, n: usize) -> (r: bool)
    requires
        n < dag_contents(*graph).0.len(),
        dag_contents(*graph).0.len() <= tests.len(),
        edges_within(dag_contents(*graph).1, dag_contents(*graph).0.len()),
    ensures
        r == deps_ok(dag_contents(*graph).1, states_of(tests@), n),
{
    let ghost edges = dag_contents(*graph).1;
    let ghost states = states_of(tests@);
    let mut visited: Vec<bool> = Vec::new();
    let mut k: usize = 0;
    while k < tests.len()
        invariant
            k <= tests.len(),
            visited.len() == k,
            forall|i: int| 0 <= i < k ==> !visited@[i],
        decreases tests.len() - k,
    {
        visited.push(false);
        k = k + 1;
    }
    proof {
        lemma_count_false_set(visited@, n as int);
    }
    visited.set(n, true);
    let mut stack: Vec<usize> = Vec::new();
    stack.push(n);
    assert(stack@.contains(n)) by {
        assert(stack@[0] == n);
    }
    assert forall|v: usize| v < tests.len() && visited@[v as int] implies v == n by {}
    while stack.len() > 0
        invariant
            visited.len() == tests.len(),
            edges == dag_contents(*graph).1,
            states == states_of(tests@),
            dag_contents(*graph).0.len() <= tests.len(),
            edges_within(edges, dag_contents(*graph).0.len()),
            n < dag_contents(*graph).0.len(),
            visited@[n as int],
            forall|i: int| 0 <= i < stack.len() ==> #[trigger] stack@[i] < dag_contents(*graph).0.len() && visited@[stack@[i] as int],
            forall|i: int, j: int| 0 <= i < j < stack.len() ==> stack@[i] != stack@[j],
            forall|v: usize| v < tests.len() && visited@[v as int] ==> v == n || req_ancestor(edges, v, n),
            forall|v: usize|
                v < tests.len() && visited@[v as int] && !stack@.contains(v) ==> closed(
                    edges,
                    states,
                    visited@,
                    v,
                ),
        decreases count_false(visited@), stack.len(),
    {
        let ghost stack0 = stack@;
        let x = stack.pop().unwrap();
        let ghost len0 = stack.len();
        let ghost count0 = count_false(visited@);
        assert(stack0 == stack@.push(x));
        assert(!stack@.contains(x)) by {
            if stack@.contains(x) {
                let i = choose|i: int| 0 <= i < stack@.len() && stack@[i] == x;
                assert(stack0[i] == stack0[stack0.len() - 1]);
            }
        }
        assert forall|v: usize| v < tests.len() && visited@[v as int] && !stack@.contains(v) && v
            != x implies closed(edges, states, visited@, v) by {
            if stack0.contains(v) {
                let i = choose|i: int| 0 <= i < stack0.len() && stack0[i] == v;
                if i < stack@.len() {
                    assert(stack@[i] == v);
                }
            }
        }
        let parents = dag_parents(graph, x);
        let ghost inc = incoming(edges, x);
        assert(walk_view(parents@).len() == parents.len());
        assert forall|k: int| 0 <= k < inc.len() implies 0 <= #[trigger] inc[k].0 < edges.len()
            && edges[inc[k].0].1 == x && edges[inc[k].0].0 == inc[k].1 && inc[k].1 < dag_contents(*graph).0.len() by {
            lemma_incoming(edges, x, k);
        }
        let mut i: usize = 0;
        while i < parents.len()
            invariant
                visited.len() == tests.len(),
                edges == dag_contents(*graph).1,
                states == states_of(tests@),
                dag_contents(*graph).0.len() <= tests.len(),
                edges_within(edges, dag_contents(*graph).0.len()),
                n < dag_contents(*graph).0.len(),
                x < dag_contents(*graph).0.len(),
                visited@[x as int],
                visited@[n as int],
                x == n || req_ancestor(edges, x, n),
                walk_view(parents@) == inc,
                inc == incoming(edges, x),
                i <= parents.len(),
                count_false(visited@) <= count0,
                !stack@.contains(x),
                count_false(visited@) < count0 || stack.len() == len0,
                forall|k: int| 0 <= k < inc.len() ==> 0 <= #[trigger] inc[k].0 < edges.len()
                    && edges[inc[k].0].1 == x && edges[inc[k].0].0 == inc[k].1 && inc[k].1 < dag_contents(*graph).0.len(),
                forall|i: int| 0 <= i < stack.len() ==> #[trigger] stack@[i] < dag_contents(*graph).0.len() && visited@[stack@[i] as int],
                forall|i: int, j: int| 0 <= i < j < stack.len() ==> stack@[i] != stack@[j],
                forall|v: usize| v < tests.len() && visited@[v as int] ==> v == n || req_ancestor(edges, v, n),
                forall|v: usize|
                    v < tests.len() && visited@[v as int] && !stack@.contains(v) && v != x ==> closed(
                        edges,
                        states,
                        visited@,
                        v,
                    ),
                forall|k: int|
                    0 <= k < i && edges[inc[k].0].2 == 0u8 ==> #[trigger] visited@[inc[k].1 as int]
                        && state_ok(states[inc[k].1 as int]),
            decreases parents.len() - i,
        {
            let ghost vis_before = visited@;
            let (e, p) = parents[i];
            proof {
                lemma_incoming(edges, x, i as int);
                assert(inc[i as int] == (e as int, p));
            }
            let w = dag_edge_weight(graph, e);
            if w == 0 {
                assert(edges[e as int] == (p, x, 0u8));
                assert(req_edge(edges, p, x));
                proof {
                    lemma_extend(edges, p, x, n);
                }
                match tests[p].state() {
                    crate::types::test::TestState::Pass => {},
                    crate::types::test::TestState::Running => {},
                    _ => {
                        assert(tests@[p as int]@.state == states[p as int]);
                        return false;
                    },
                }
                assert(tests@[p as int]@.state == states[p as int]);
                if !visited[p] {
                    proof {
                        lemma_count_false_set(visited@, p as int);
                    }
                    let ghost vis0 = visited@;
                    let ghost st0 = stack@;
                    visited.set(p, true);
                    stack.push(p);
                    assert(stack@.contains(p)) by {
                        assert(stack@[stack@.len() - 1] == p);
                    }
                    assert forall|v: usize|
                        v < tests.len() && visited@[v as int] && !stack@.contains(v) && v
                            != x implies closed(edges, states, visited@, v) by {
                        assert(v != p);
                        assert(!st0.contains(v)) by {
                            if st0.contains(v) {
                                let j = choose|j: int| 0 <= j < st0.len() && st0[j] == v;
                                assert(stack@[j] == v);
                            }
                        }
                        assert(closed(edges, states, vis0, v));
                    }
                    assert forall|i: int, j: int| 0 <= i < j < stack.len() implies stack@[i]
                        != stack@[j] by {
                        if j == stack.len() - 1 {
                            assert(vis0[st0[i] as int]);
                        }
                    }
                }
            }
            assert forall|j: int| 0 <= j < vis_before.len() && vis_before[j] implies visited@[j] by {}
            let ghost i0 = i;
            i = i + 1;
            assert forall|k: int|
                0 <= k < i && edges[inc[k].0].2 == 0u8 implies #[trigger] visited@[inc[k].1 as int]
                && state_ok(states[inc[k].1 as int]) by {
                if k < i0 {
                    assert(vis_before[inc[k].1 as int]);
                } else {
                    assert(k == i0);
                    assert(inc[k] == (e as int, p));
                    assert(edges[e as int].2 == w);
                    assert(w == 0u8);
                    assert(visited@[p as int]);
                    assert(state_ok(states[p as int]));
                }
            }
            assert(forall|k: int|
                    0 <= k < i && edges[inc[k].0].2 == 0u8 ==> #[trigger] visited@[inc[k].1 as int]
                        && state_ok(states[inc[k].1 as int]));
            assert(count_false(visited@) <= count0);
            assert(count_false(visited@) < count0 || stack.len() == len0);
            assert(forall|v: usize|
                    v < tests.len() && visited@[v as int] && !stack@.contains(v) && v != x ==> closed(
                        edges,
                        states,
                        visited@,
                        v,
                    ));
        }
        proof {
            assert forall|j: int|
                0 <= j < edges.len() && (#[trigger] edges[j]).1 == x && edges[j].2
                    == 0u8 implies edges[j].0 < visited.len() && visited@[edges[j].0 as int]
                && state_ok(states[edges[j].0 as int]) by {
                lemma_incoming_complete(edges, x, j);
                let k = choose|k: int| 0 <= k < inc.len() && (#[trigger] inc[k]).0 == j;
                lemma_incoming(edges, x, k);
            }
        }
    }
    proof {
        assert forall|a: usize| #[trigger] req_ancestor(edges, a, n) implies a < states.len()
            && state_ok(states[a as int]) by {
            let p = choose|p: Seq<usize>| #[trigger] req_path(edges, p) && p[0] == a && p.last() == n;
            lemma_closed_path(edges, states, visited@, p, 0);
        }
    }
    true
}

} // verus!
