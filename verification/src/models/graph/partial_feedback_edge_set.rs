//! Partial Feedback Edge Set.
//!
//! Given a graph, a budget `K` and a cycle length `L`, decide whether removing
//! at most `K` edges leaves no cycle of length at most `L` (and at least 3).
//! A configuration marks the removed edges with 1.
use crate::reach::{adjacency_of, is_walk, kept_adjacency, link_step};
use crate::topology::{GraphView, SimpleGraph};
use crate::types::Or;
use crate::util::{count_of, count_value};
use vstd::prelude::*;

verus! {

/// `c` lists distinct vertices.
pub open spec fn distinct_vertices(c: Seq<usize>) -> bool {
    forall|i: int, j: int| 0 <= i < j < c.len() ==> c[i] != c[j]
}

/// `c` is a cycle of the step relation, through between 3 and `max_len`
/// distinct vertices of `0..n`.
pub open spec fn is_short_cycle(step: spec_fn(usize, usize) -> bool, c: Seq<usize>, n: nat, max_len: nat) -> bool {
    &&& 3 <= c.len() <= max_len
    &&& forall|i: int| 0 <= i < c.len() ==> (#[trigger] c[i]) < n
    &&& distinct_vertices(c)
    &&& is_walk(step, c)
    &&& step(c.last(), c[0])
}

/// The graph keeps a cycle of length between 3 and `max_len` through the
/// edges whose `keep` flag is set.
pub open spec fn has_short_cycle(g: GraphView, keep: Seq<bool>, max_len: nat) -> bool {
    exists|c: Seq<usize>| #[trigger] is_short_cycle(link_step(g.edges, keep), c, g.num_vertices, max_len)
}

/// `q` is a short cycle starting with `path` whose first vertex is its least.
pub open spec fn closes_from(step: spec_fn(usize, usize) -> bool, path: Seq<usize>, q: Seq<usize>, n: nat, max_len: nat) -> bool {
    &&& path.len() <= q.len()
    &&& q.take(path.len() as int) == path
    &&& is_short_cycle(step, q, n, max_len)
    &&& forall|i: int| 1 <= i < q.len() ==> #[trigger] q[i] > q[0]
}

/// Some short cycle whose least vertex comes first starts with `path`.
pub open spec fn closes_somehow(step: spec_fn(usize, usize) -> bool, path: Seq<usize>, n: nat, max_len: nat) -> bool {
    exists|q: Seq<usize>| #[trigger] closes_from(step, path, q, n, max_len)
}

/// Index of a least entry among the first `k` entries.
pub open spec fn least_index(c: Seq<usize>, k: int) -> int
    decreases k,
{
    if k <= 1 {
        0
    } else {
        let i = least_index(c, k - 1);
        if c[k - 1] < c[i] {
            k - 1
        } else {
            i
        }
    }
}

proof fn lemma_least_index(c: Seq<usize>, k: int)
    requires
        1 <= k <= c.len(),
    ensures
        0 <= least_index(c, k) < k,
        forall|j: int| 0 <= j < k ==> c[least_index(c, k)] <= #[trigger] c[j],
    decreases k,
{
    if k > 1 {
        lemma_least_index(c, k - 1);
    }
}

/// Position `i` of a cycle of length `len` rotated to start at `k`.
pub open spec fn rot_index(i: int, k: int, len: int) -> int {
    if i + k < len {
        i + k
    } else {
        i + k - len
    }
}

/// Rotating a short cycle to start at its least vertex.
proof fn lemma_rotate_to_least(step: spec_fn(usize, usize) -> bool, c: Seq<usize>, n: nat, max_len: nat)
    requires
        is_short_cycle(step, c, n, max_len),
    ensures
        closes_somehow(step, seq![c[least_index(c, c.len() as int)]], n, max_len),
{
    let len = c.len() as int;
    lemma_least_index(c, len);
    let k = least_index(c, len);
    let r = c.subrange(k, len) + c.subrange(0, k);
    assert(r.len() == len);
    assert forall|i: int| 0 <= i < len implies #[trigger] r[i] == c[rot_index(i, k, len)] by {
        if i < len - k {
            assert(r[i] == c[i + k]);
        } else {
            assert(r[i] == c[i - (len - k)]);
        }
    }
    assert forall|i: int| 0 <= i < r.len() implies (#[trigger] r[i]) < n by {
        assert(r[i] == c[rot_index(i, k, len)]);
    }
    assert forall|i: int, j: int| 0 <= i < j < r.len() implies r[i] != r[j] by {
        assert(r[i] == c[rot_index(i, k, len)] && r[j] == c[rot_index(j, k, len)]);
        let a = rot_index(i, k, len);
        let b = rot_index(j, k, len);
        if a < b {
            assert(c[a] != c[b]);
        } else if b < a {
            assert(c[b] != c[a]);
        }
    }
    assert forall|i: int| 0 <= i < r.len() - 1 implies #[trigger] step(r[i], r[i + 1]) by {
        assert(r[i] == c[rot_index(i, k, len)] && r[i + 1] == c[rot_index(i + 1, k, len)]);
        if i + k < len - 1 {
            assert(step(c[i + k], c[i + k + 1]));
        } else if i + k == len - 1 {
            assert(c[rot_index(i, k, len)] == c.last());
            assert(c[rot_index(i + 1, k, len)] == c[0]);
        } else {
            let a = i + k - len;
            assert(step(c[a], c[a + 1]));
        }
    }
    assert(r.last() == c[rot_index(len - 1, k, len)]);
    if k == 0 {
        assert(r.last() == c.last() && r[0] == c[0]);
    } else {
        assert(rot_index(len - 1, k, len) == k - 1);
        assert(step(c[k - 1], c[(k - 1) + 1]));
    }
    assert(is_walk(step, r));
    assert forall|i: int| 1 <= i < r.len() implies #[trigger] r[i] > r[0] by {
        assert(r[0] == c[k]);
        let a = rot_index(i, k, len);
        assert(r[i] == c[a]);
        assert(a != k);
        if a < k {
            assert(c[a] != c[k]);
        } else {
            assert(c[k] != c[a]);
        }
    }
    assert(r.take(1) =~= seq![c[k]]);
    assert(closes_from(step, seq![c[k]], r, n, max_len));
}

/// Depth-first search for a short cycle extending `path` (which starts at
/// `start`, ends at `current`, and is marked in `visited`) through vertices
/// above `start`.
fn dfs_short_cycle(
    adj: &Vec<Vec<usize>>,
    start: usize,
    current: usize,
    path_length: usize,
    max_cycle_length: usize,
    visited: &mut Vec<bool>,
    Ghost(step): Ghost<spec_fn(usize, usize) -> bool>,
    Ghost(path): Ghost<Seq<usize>>,
) -> (found: bool)
    requires
        adjacency_of(adj@.map_values(|l: Vec<usize>| l@), step),
        old(visited)@.len() == adj@.len(),
        path.len() == path_length + 1,
        path_length < max_cycle_length,
        path[0] == start,
        path.last() == current,
        is_walk(step, path),
        distinct_vertices(path),
        forall|i: int| 0 <= i < path.len() ==> (#[trigger] path[i]) < adj@.len(),
        forall|i: int| 1 <= i < path.len() ==> #[trigger] path[i] > start,
        forall|v: int| 0 <= v < adj@.len() ==> (old(visited)@[v] <==> path.contains(v as usize)),
    ensures
        found == closes_somehow(step, path, adj@.len() as nat, max_cycle_length as nat),
        final(visited)@.len() == old(visited)@.len(),
        !found ==> final(visited)@ == old(visited)@,
    decreases max_cycle_length - path_length,
{
    let ghost n = adj@.len() as nat;
    let adj_len = adj.len();
    assert(n == adj_len);
    let ghost adjs = adj@.map_values(|l: Vec<usize>| l@);
    let ghost start_visited = visited@;
    let neighbors = &adj[current];
    assert(adjs[current as int] == neighbors@);
    for k in 0..neighbors.len()
        invariant
            adjs == adj@.map_values(|l: Vec<usize>| l@),
            adjacency_of(adjs, step),
            n == adj@.len(),
            neighbors@ == adjs[current as int],
            current < n,
            n <= usize::MAX,
            visited@ == start_visited,
            visited@.len() == n,
            path.len() == path_length + 1,
            path_length < max_cycle_length,
            path[0] == start,
            path.last() == current,
            is_walk(step, path),
            distinct_vertices(path),
            forall|i: int| 0 <= i < path.len() ==> (#[trigger] path[i]) < n,
            forall|i: int| 1 <= i < path.len() ==> #[trigger] path[i] > start,
            forall|v: int| 0 <= v < n ==> (visited@[v] <==> path.contains(v as usize)),
            forall|j: int|
                0 <= j < k ==> !(#[trigger] neighbors@[j] == start && 3 <= path_length + 1 <= max_cycle_length),
            forall|j: int|
                0 <= j < k && neighbors@[j] != start && neighbors@[j] > start && !path.contains(neighbors@[j])
                    && path_length + 1 < max_cycle_length ==> !closes_somehow(
                    step,
                    path.push(#[trigger] neighbors@[j]),
                    n,
                    max_cycle_length as nat,
                ),
    {
        let neighbor = neighbors[k];
        assert(neighbor < n);
        assert(step(current, neighbor));
        if neighbor == start {
            let cycle_length = path_length + 1;
            if cycle_length >= 3 && cycle_length <= max_cycle_length {
                proof {
                    assert(path.take(path.len() as int) =~= path);
                    assert(is_short_cycle(step, path, n, max_cycle_length as nat));
                    assert(closes_from(step, path, path, n, max_cycle_length as nat));
                }
                return true;
            }
        } else if !(visited[neighbor] || neighbor <= start || path_length + 1 >= max_cycle_length) {
            let ghost next = path.push(neighbor);
            proof {
                assert(!path.contains(neighbor));
                assert forall|i: int| 0 <= i < next.len() - 1 implies #[trigger] step(next[i], next[i + 1]) by {
                    if i < path.len() - 1 {
                        assert(next[i] == path[i] && next[i + 1] == path[i + 1]);
                        assert(step(path[i], path[i + 1]));
                    }
                }
                assert forall|i: int, j: int| 0 <= i < j < next.len() implies next[i] != next[j] by {
                    if j == path.len() {
                        assert(next[i] == path[i]);
                        assert(path.contains(path[i]));
                    } else {
                        assert(next[i] == path[i] && next[j] == path[j]);
                    }
                }
                assert forall|i: int| 0 <= i < next.len() implies (#[trigger] next[i]) < n by {
                    if i < path.len() {
                        assert(next[i] == path[i]);
                    }
                }
                assert forall|i: int| 1 <= i < next.len() implies #[trigger] next[i] > start by {
                    if i < path.len() {
                        assert(next[i] == path[i]);
                    }
                }
            }
            visited.set(neighbor, true);
            proof {
                assert forall|v: int| 0 <= v < n implies (visited@[v] <==> next.contains(v as usize)) by {
                    assert(next[path.len() as int] == neighbor);
                    if next.contains(v as usize) && v != neighbor as int {
                        let i = choose|i: int| 0 <= i < next.len() && next[i] == v as usize;
                        assert(i < path.len());
                        assert(path[i] == v as usize);
                    }
                    if path.contains(v as usize) {
                        let i = choose|i: int| 0 <= i < path.len() && path[i] == v as usize;
                        assert(next[i] == v as usize);
                    }
                    if v == neighbor as int {
                        assert(next[path.len() as int] == neighbor);
                    }
                }
            }
            let found = dfs_short_cycle(
                adj,
                start,
                neighbor,
                path_length + 1,
                max_cycle_length,
                visited,
                Ghost(step),
                Ghost(next),
            );
            if found {
                proof {
                    let q = choose|q: Seq<usize>| #[trigger] closes_from(step, next, q, n, max_cycle_length as nat);
                    assert(q.take(path.len() as int) =~= next.take(path.len() as int));
                    assert(next.take(path.len() as int) =~= path);
                    assert(closes_from(step, path, q, n, max_cycle_length as nat));
                }
                return true;
            }
            visited.set(neighbor, false);
            assert(visited@ =~= start_visited);
        }
    }
    proof {
        if closes_somehow(step, path, n, max_cycle_length as nat) {
            let q = choose|q: Seq<usize>| #[trigger] closes_from(step, path, q, n, max_cycle_length as nat);
            if q.len() == path.len() {
                assert(q =~= path) by {
                    assert(q.take(path.len() as int) == path);
                }
                assert(step(path.last(), path[0]));
                assert(adjs[current as int].contains(start));
                let j = choose|j: int| 0 <= j < neighbors@.len() && neighbors@[j] == start;
                assert(neighbors@[j] == start);
            } else {
                let nb = q[path.len() as int];
                assert(path[path.len() - 1] == q[path.len() - 1]);
                assert(step(q[path.len() - 1], q[path.len() as int]));
                assert(adjs[current as int].contains(nb));
                let j = choose|j: int| 0 <= j < neighbors@.len() && neighbors@[j] == nb;
                assert(nb > start) by {
                    assert(q[0] == start);
                }
                assert(!path.contains(nb)) by {
                    if path.contains(nb) {
                        let i = choose|i: int| 0 <= i < path.len() && path[i] == nb;
                        assert(q[i] == path[i]);
                    }
                }
                assert(nb != start);
                assert(q.take(path.len() as int + 1) =~= path.push(nb));
                assert(closes_from(step, path.push(nb), q, n, max_cycle_length as nat));
                assert(neighbors@[j] == nb);
            }
        }
    }
    false
}

/// Whether the kept edges hold a cycle of length between 3 and `max_cycle_length`.
fn has_cycle_with_length_at_most(graph: &SimpleGraph, kept_edges: &[bool], max_cycle_length: usize) -> (r: bool)
    ensures
        r == (kept_edges@.len() == graph@.edges.len() && has_short_cycle(graph@, kept_edges@, max_cycle_length as nat)),
{
    proof {
        use_type_invariant(graph);
    }
    let n = graph.num_vertices();
    let edges = graph.edge_slice();
    let ghost step = link_step(graph@.edges, kept_edges@);
    if kept_edges.len() != edges.len() || max_cycle_length < 3 || n < 3 {
        proof {
            if kept_edges@.len() == graph@.edges.len() && has_short_cycle(graph@, kept_edges@, max_cycle_length as nat) {
                let c = choose|c: Seq<usize>| #[trigger] is_short_cycle(step, c, n as nat, max_cycle_length as nat);
                assert(c[0] < n && c[1] < n && c[2] < n);
                assert(c[0] != c[1] && c[0] != c[2] && c[1] != c[2]);
            }
        }
        return false;
    }
    let adj = kept_adjacency(n, edges, kept_edges);
    let mut visited = vec![false; n];
    for start in 0..n
        invariant
            n == graph@.num_vertices,
            adj@.len() == n,
            step == link_step(graph@.edges, kept_edges@),
            adjacency_of(adj@.map_values(|l: Vec<usize>| l@), step),
            max_cycle_length >= 3,
            visited@.len() == n,
            forall|v: int| 0 <= v < n ==> !visited@[v],
            forall|s: int| 0 <= s < start ==> !#[trigger] closes_somehow(step, seq![s as usize], n as nat, max_cycle_length as nat),
    {
        visited.set(start, true);
        let ghost path = seq![start];
        proof {
            assert(is_walk(step, path));
            assert forall|v: int| 0 <= v < n implies (visited@[v] <==> path.contains(v as usize)) by {
                if v == start as int {
                    assert(path[0] == start);
                }
            }
        }
        let found = dfs_short_cycle(&adj, start, start, 0, max_cycle_length, &mut visited, Ghost(step), Ghost(path));
        if found {
            proof {
                let q = choose|q: Seq<usize>| #[trigger] closes_from(step, path, q, n as nat, max_cycle_length as nat);
                assert(is_short_cycle(link_step(graph@.edges, kept_edges@), q, graph@.num_vertices, max_cycle_length as nat));
            }
            return true;
        }
        visited.set(start, false);
        assert(visited@ =~= Seq::new(n as nat, |i: int| false));
    }
    proof {
        if has_short_cycle(graph@, kept_edges@, max_cycle_length as nat) {
            let c = choose|c: Seq<usize>| #[trigger] is_short_cycle(step, c, n as nat, max_cycle_length as nat);
            lemma_rotate_to_least(step, c, n as nat, max_cycle_length as nat);
            lemma_least_index(c, c.len() as int);
            let s = c[least_index(c, c.len() as int)];
            assert(s < n);
            assert(!closes_somehow(step, seq![(s as int) as usize], n as nat, max_cycle_length as nat));
        }
    }
    false
}

/// Mathematical model of a [`PartialFeedbackEdgeSet`] instance.
pub struct FeedbackView {
    pub graph: GraphView,
    pub budget: nat,
    pub max_cycle_length: nat,
}

/// The flags of the edges a configuration keeps (value 0).
pub open spec fn kept_of(config: Seq<usize>) -> Seq<bool> {
    Seq::new(config.len(), |i: int| config[i] == 0)
}

/// At most `budget` edges are removed (value 1), every value is 0 or 1, and
/// the kept edges hold no cycle of length between 3 and `max_cycle_length`.
pub open spec fn breaks_short_cycles(m: FeedbackView, config: Seq<usize>) -> bool {
    &&& config.len() == m.graph.edges.len()
    &&& forall|i: int| 0 <= i < config.len() ==> #[trigger] config[i] <= 1
    &&& count_of(config, 1) <= m.budget
    &&& !has_short_cycle(m.graph, kept_of(config), m.max_cycle_length)
}

/// The Partial Feedback Edge Set problem.
#[derive(Debug)]
pub struct PartialFeedbackEdgeSet {
    graph: SimpleGraph,
    budget: usize,
    max_cycle_length: usize,
}

impl View for PartialFeedbackEdgeSet {
    type V = FeedbackView;

    closed spec fn view(&self) -> FeedbackView {
        FeedbackView { graph: self.graph@, budget: self.budget as nat, max_cycle_length: self.max_cycle_length as nat }
    }
}

impl PartialFeedbackEdgeSet {
    /// Create a new instance.
    pub fn new(graph: SimpleGraph, budget: usize, max_cycle_length: usize) -> (r: Self)
        ensures
            r@ == (FeedbackView { graph: graph@, budget: budget as nat, max_cycle_length: max_cycle_length as nat }),
    {
        PartialFeedbackEdgeSet { graph, budget, max_cycle_length }
    }

    /// Get the graph.
    pub fn graph(&self) -> (r: &SimpleGraph)
        ensures
            r@ == self@.graph,
    {
        &self.graph
    }

    /// Get the budget of removed edges.
    pub fn budget(&self) -> (r: usize)
        ensures
            r == self@.budget,
    {
        self.budget
    }

    /// Get the longest cycle length that must be broken.
    pub fn max_cycle_length(&self) -> (r: usize)
        ensures
            r == self@.max_cycle_length,
    {
        self.max_cycle_length
    }

    /// Get the number of vertices.
    pub fn num_vertices(&self) -> (r: usize)
        ensures
            r == self@.graph.num_vertices,
    {
        self.graph.num_vertices()
    }

    /// Get the number of edges.
    pub fn num_edges(&self) -> (r: usize)
        ensures
            r == self@.graph.edges.len(),
    {
        self.graph.num_edges()
    }

    /// Whether the removed edges fit the budget and break every short cycle.
    pub fn is_valid_solution(&self, config: &[usize]) -> (r: bool)
        ensures
            r == breaks_short_cycles(self@, config@),
    {
        if config.len() != self.graph.num_edges() {
            return false;
        }
        for i in 0..config.len()
            invariant
                forall|k: int| 0 <= k < i ==> #[trigger] config@[k] <= 1,
        {
            if config[i] > 1 {
                assert(!(config@[i as int] <= 1));
                return false;
            }
        }
        if count_value(config, 1) > self.budget {
            return false;
        }
        let mut kept: Vec<bool> = Vec::new();
        for i in 0..config.len()
            invariant
                kept@ =~= kept_of(config@.take(i as int)),
        {
            kept.push(config[i] == 0);
        }
        assert(config@.take(config@.len() as int) =~= config@);
        !has_cycle_with_length_at_most(&self.graph, kept.as_slice(), self.max_cycle_length)
    }

    /// Each edge is removed or kept.
    pub fn dims(&self) -> (r: Vec<usize>)
        ensures
            r@ == Seq::new(self@.graph.edges.len(), |i: int| 2usize),
    {
        crate::util::repeat_usize(2, self.graph.num_edges())
    }

    /// Whether the configuration is a valid partial feedback edge set.
    pub fn evaluate(&self, config: &[usize]) -> (r: Or)
        ensures
            r.0 == breaks_short_cycles(self@, config@),
    {
        Or(self.is_valid_solution(config))
    }
}

} // verus!
