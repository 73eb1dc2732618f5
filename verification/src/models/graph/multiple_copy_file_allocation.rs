//! Multiple Copy File Allocation.
//!
//! Given a graph with a usage value and a storage cost per vertex and a bound
//! `K`, decide whether copies of a file can be placed on a set of vertices so
//! that the storage cost of the copies plus, for every vertex, its usage times
//! its distance to the nearest copy is at most `K`.
use crate::topology::{GraphView, SimpleGraph};
use crate::types::Or;
use crate::util::{
    all_below, check_all_below, copy_bools, count_of, count_value, ints_i64, ones_flags, ones_of, selected_sum,
};
use vstd::prelude::*;

verus! {

/// Mathematical model of a [`MultipleCopyFileAllocation`] instance.
pub struct FileAllocationView {
    pub graph: GraphView,
    pub usage: Seq<i64>,
    pub storage: Seq<i64>,
    pub bound: i64,
}

impl FileAllocationView {
    /// The instance is well formed: one usage value and one storage cost per
    /// vertex.
    pub open spec fn wf(self) -> bool {
        &&& self.graph.wf()
        &&& self.usage.len() == self.graph.num_vertices
        &&& self.storage.len() == self.graph.num_vertices
    }
}

/// Vertex `v` is within `k` edges of some source vertex.
pub open spec fn within(edges: Seq<(usize, usize)>, sources: Seq<bool>, v: usize, k: nat) -> bool
    decreases k,
{
    if k == 0 {
        sources[v as int]
    } else {
        within(edges, sources, v, (k - 1) as nat) || exists|i: int|
            0 <= i < edges.len() && ((#[trigger] edges[i]).0 == v && within(edges, sources, edges[i].1, (k - 1) as nat)
                || edges[i].1 == v && within(edges, sources, edges[i].0, (k - 1) as nat))
    }
}

/// The least `d` in `k..=limit` such that `v` is within `d` edges of a source.
pub open spec fn first_within(edges: Seq<(usize, usize)>, sources: Seq<bool>, v: usize, k: nat, limit: nat) -> Option<nat>
    decreases limit + 1 - k,
{
    if k > limit {
        None
    } else if within(edges, sources, v, k) {
        Some(k)
    } else {
        first_within(edges, sources, v, k + 1, limit)
    }
}

/// Distance from `v` to the nearest source (looking up to `n` edges away).
pub open spec fn distance_to_sources(g: GraphView, sources: Seq<bool>, v: usize) -> Option<nat> {
    first_within(g.edges, sources, v, 0, g.num_vertices)
}

/// The distance of every vertex to the nearest copy, when `config` is a
/// binary vector of the right length that places at least one copy and every
/// vertex can reach a copy; `None` otherwise.
pub open spec fn copy_distances(m: FileAllocationView, config: Seq<usize>) -> Option<Seq<nat>> {
    let n = m.graph.num_vertices;
    let sources = ones_of(config);
    if config.len() != n || !all_below(config, 2) || count_of(config, 1) == 0 {
        None
    } else if forall|v: usize| v < n ==> (#[trigger] distance_to_sources(m.graph, sources, v)) is Some {
        Some(Seq::new(n, |v: int| distance_to_sources(m.graph, sources, v as usize).unwrap()))
    } else {
        None
    }
}

/// Sum of `usage[v] * dist[v]` over the first `j` vertices.
pub open spec fn access_sum(usage: Seq<i64>, dist: Seq<nat>, j: int) -> int
    decreases j,
{
    if j <= 0 {
        0
    } else {
        access_sum(usage, dist, j - 1) + usage[j - 1] * dist[j - 1]
    }
}

/// Storage cost of the copies plus access cost of every vertex, `None` when
/// no valid placement is described.
pub open spec fn allocation_cost(m: FileAllocationView, config: Seq<usize>) -> Option<int> {
    match copy_distances(m, config) {
        Some(dist) => Some(
            selected_sum(ints_i64(m.storage), config) + access_sum(m.usage, dist, m.graph.num_vertices as int),
        ),
        None => None,
    }
}

/// A value fits in `i64`.
pub open spec fn fits_i64(x: int) -> bool {
    i64::MIN <= x <= i64::MAX
}

/// Distances fit in `i64`, and every partial sum and product of the cost
/// computation fits in `i64`.
pub open spec fn cost_fits(m: FileAllocationView, config: Seq<usize>) -> bool {
    let n = m.graph.num_vertices as int;
    &&& n <= i64::MAX
    &&& match copy_distances(m, config) {
        Some(dist) => {
            &&& forall|j: int| 0 <= j <= n ==> fits_i64(#[trigger] selected_sum(ints_i64(m.storage), config.take(j)))
            &&& forall|v: int| 0 <= v < n ==> fits_i64(#[trigger] (m.usage[v] * dist[v]))
            &&& forall|j: int| 0 <= j <= n ==> fits_i64(#[trigger] access_sum(m.usage, dist, j))
            &&& fits_i64(selected_sum(ints_i64(m.storage), config) + access_sum(m.usage, dist, n))
        },
        None => true,
    }
}

/// Being within `k` edges implies being within any larger number of edges.
proof fn lemma_within_mono(edges: Seq<(usize, usize)>, sources: Seq<bool>, v: usize, k: nat, l: nat)
    requires
        k <= l,
        within(edges, sources, v, k),
    ensures
        within(edges, sources, v, l),
    decreases l - k,
{
    if k < l {
        lemma_within_mono(edges, sources, v, k, (l - 1) as nat);
    }
}

/// The search from `k` finds exactly the least distance.
proof fn lemma_first_within(edges: Seq<(usize, usize)>, sources: Seq<bool>, v: usize, k: nat, d: nat, limit: nat)
    requires
        k <= d <= limit,
        within(edges, sources, v, d),
        d == 0 || !within(edges, sources, v, (d - 1) as nat),
    ensures
        first_within(edges, sources, v, k, limit) == Some(d),
    decreases d - k,
{
    if k < d {
        if within(edges, sources, v, k) {
            lemma_within_mono(edges, sources, v, k, (d - 1) as nat);
        }
        lemma_first_within(edges, sources, v, k + 1, d, limit);
    }
}

/// Never within `limit` edges means no distance up to `limit`.
proof fn lemma_first_within_none(edges: Seq<(usize, usize)>, sources: Seq<bool>, v: usize, k: nat, limit: nat)
    requires
        !within(edges, sources, v, limit),
    ensures
        first_within(edges, sources, v, k, limit) is None,
    decreases limit + 1 - k,
{
    if k <= limit {
        if within(edges, sources, v, k) {
            lemma_within_mono(edges, sources, v, k, limit);
        }
        lemma_first_within_none(edges, sources, v, k + 1, limit);
    }
}

/// Multiple Copy File Allocation.
#[derive(Debug)]
pub struct MultipleCopyFileAllocation {
    graph: SimpleGraph,
    usage: Vec<i64>,
    storage: Vec<i64>,
    bound: i64,
}

impl View for MultipleCopyFileAllocation {
    type V = FileAllocationView;

    closed spec fn view(&self) -> FileAllocationView {
        FileAllocationView { graph: self.graph@, usage: self.usage@, storage: self.storage@, bound: self.bound }
    }
}

impl MultipleCopyFileAllocation {
    /// The stored instance is well formed.
    #[verifier::type_invariant]
    pub closed spec fn inv(self) -> bool {
        self@.wf()
    }

    /// Create a new instance.
    pub fn new(graph: SimpleGraph, usage: Vec<i64>, storage: Vec<i64>, bound: i64) -> (r: Self)
        requires
            usage@.len() == graph@.num_vertices,
            storage@.len() == graph@.num_vertices,
        ensures
            r@ == (FileAllocationView { graph: graph@, usage: usage@, storage: storage@, bound }),
    {
        proof {
            use_type_invariant(&graph);
        }
        MultipleCopyFileAllocation { graph, usage, storage, bound }
    }

    /// Get a reference to the underlying graph.
    pub fn graph(&self) -> (r: &SimpleGraph)
        ensures
            r@ == self@.graph,
    {
        &self.graph
    }

    /// Get the usage values.
    pub fn usage(&self) -> (r: &[i64])
        ensures
            r@ == self@.usage,
    {
        self.usage.as_slice()
    }

    /// Get the storage costs.
    pub fn storage(&self) -> (r: &[i64])
        ensures
            r@ == self@.storage,
    {
        self.storage.as_slice()
    }

    /// Get the bound K.
    pub fn bound(&self) -> (r: i64)
        ensures
            r == self@.bound,
    {
        self.bound
    }

    /// Get the number of vertices.
    pub fn num_vertices(&self) -> (r: usize)
        ensures
            r == self@.graph.num_vertices,
    {
        self.graph.num_vertices()
    }

    /// Get the number of edges.
    pub fn num_edges(&self) -> (r: usize)
        ensures
            r == self@.graph.edges.len(),
    {
        self.graph.num_edges()
    }

    /// Distance of every vertex to the nearest source, `None` if some vertex
    /// reaches no source.
    fn shortest_distances(&self, sources: &[bool]) -> (r: Option<Vec<usize>>)
        requires
            sources@.len() == self@.graph.num_vertices,
        ensures
            match r {
                Some(d) => d@.len() == sources@.len() && forall|v: usize|
                    v < sources@.len() ==> distance_to_sources(self@.graph, sources@, v) == Some(
                        #[trigger] d@[v as int] as nat,
                    ) && d@[v as int] <= sources@.len(),
                None => exists|v: usize|
                    v < sources@.len() && (#[trigger] distance_to_sources(self@.graph, sources@, v)) is None,
            },
    {
        let n = self.graph.num_vertices();
        let edges = self.graph.edge_slice();
        let ghost src = sources@;
        let mut visited = copy_bools(sources);
        let mut dist = vec![0usize; n];
        for k in 0..n
            invariant
                n == self@.graph.num_vertices,
                edges@ == self@.graph.edges,
                self@.graph.wf(),
                src == sources@,
                src.len() == n,
                visited@.len() == n,
                dist@.len() == n,
                forall|v: usize| v < n ==> (#[trigger] visited@[v as int] <==> within(edges@, src, v, k as nat)),
                forall|v: usize|
                    v < n && #[trigger] visited@[v as int] ==> dist@[v as int] <= k && within(
                        edges@,
                        src,
                        v,
                        dist@[v as int] as nat,
                    ) && (dist@[v as int] == 0 || !within(edges@, src, v, (dist@[v as int] - 1) as nat)),
        {
            let snapshot = copy_bools(visited.as_slice());
            for i in 0..edges.len()
                invariant
                    n == self@.graph.num_vertices,
                    edges@ == self@.graph.edges,
                    self@.graph.wf(),
                    src.len() == n,
                    k < n,
                    visited@.len() == n,
                    dist@.len() == n,
                    snapshot@.len() == n,
                    forall|v: usize| v < n ==> (#[trigger] snapshot@[v as int] <==> within(edges@, src, v, k as nat)),
                    forall|v: usize|
                        v < n ==> (#[trigger] visited@[v as int] <==> (within(edges@, src, v, k as nat) || exists|j: int|
                            0 <= j < i && ((#[trigger] edges@[j]).0 == v && within(edges@, src, edges@[j].1, k as nat)
                                || edges@[j].1 == v && within(edges@, src, edges@[j].0, k as nat)))),
                    forall|v: usize|
                        v < n && #[trigger] visited@[v as int] ==> dist@[v as int] <= k + 1 && within(
                            edges@,
                            src,
                            v,
                            dist@[v as int] as nat,
                        ) && (dist@[v as int] == 0 || !within(edges@, src, v, (dist@[v as int] - 1) as nat)),
            {
                let (a, b) = edges[i];
                assert(edges@[i as int] == (a, b));
                let ghost before = visited@;
                if snapshot[a] && !visited[b] {
                    assert(within(edges@, src, b, (k + 1) as nat));
                    visited.set(b, true);
                    dist.set(b, k + 1);
                }
                if snapshot[b] && !visited[a] {
                    assert(within(edges@, src, a, (k + 1) as nat));
                    visited.set(a, true);
                    dist.set(a, k + 1);
                }
                assert forall|v: usize| v < n implies (#[trigger] visited@[v as int] <==> (within(
                    edges@,
                    src,
                    v,
                    k as nat,
                ) || exists|j: int|
                    0 <= j < i + 1 && ((#[trigger] edges@[j]).0 == v && within(edges@, src, edges@[j].1, k as nat)
                        || edges@[j].1 == v && within(edges@, src, edges@[j].0, k as nat)))) by {
                    if exists|j: int|
                        0 <= j < i + 1 && ((#[trigger] edges@[j]).0 == v && within(edges@, src, edges@[j].1, k as nat)
                            || edges@[j].1 == v && within(edges@, src, edges@[j].0, k as nat)) {
                        let j = choose|j: int|
                            0 <= j < i + 1 && ((#[trigger] edges@[j]).0 == v && within(edges@, src, edges@[j].1, k as nat)
                                || edges@[j].1 == v && within(edges@, src, edges@[j].0, k as nat));
                        if j < i {
                            assert(before[v as int]);
                        }
                    }
                }
            }
            assert forall|v: usize| v < n implies (#[trigger] visited@[v as int] <==> within(
                edges@,
                src,
                v,
                (k + 1) as nat,
            )) by {
                assert(within(edges@, src, v, (k + 1) as nat) == (within(edges@, src, v, k as nat) || exists|j: int|
                    0 <= j < edges@.len() && ((#[trigger] edges@[j]).0 == v && within(edges@, src, edges@[j].1, k as nat)
                        || edges@[j].1 == v && within(edges@, src, edges@[j].0, k as nat))));
            }
        }
        let mut v: usize = 0;
        while v < n
            invariant
                n == self@.graph.num_vertices,
                src.len() == n,
                visited@.len() == n,
                dist@.len() == n,
                forall|w: usize| w < n ==> (#[trigger] visited@[w as int] <==> within(self@.graph.edges, src, w, n as nat)),
                forall|w: usize|
                    w < n && #[trigger] visited@[w as int] ==> dist@[w as int] <= n && within(
                        self@.graph.edges,
                        src,
                        w,
                        dist@[w as int] as nat,
                    ) && (dist@[w as int] == 0 || !within(self@.graph.edges, src, w, (dist@[w as int] - 1) as nat)),
                forall|w: usize|
                    w < v ==> distance_to_sources(self@.graph, src, w) == Some(#[trigger] dist@[w as int] as nat)
                        && dist@[w as int] <= n,
            decreases n - v,
        {
            if !visited[v] {
                proof {
                    lemma_first_within_none(self@.graph.edges, src, v, 0, n as nat);
                }
                return None;
            }
            proof {
                lemma_first_within(self@.graph.edges, src, v, 0, dist@[v as int] as nat, n as nat);
            }
            v = v + 1;
        }
        Some(dist)
    }

    /// Total storage plus access cost of a valid placement, `None` when the
    /// configuration is not binary, has the wrong length, places no copy or
    /// leaves some vertex unreachable from every copy.
    pub fn total_cost(&self, config: &[usize]) -> (r: Option<i64>)
        requires
            cost_fits(self@, config@),
        ensures
            r matches Some(c) ==> allocation_cost(self@, config@) == Some(c as int),
            r is None ==> allocation_cost(self@, config@) is None,
    {
        proof {
            use_type_invariant(self);
        }
        let n = self.graph.num_vertices();
        if config.len() != n || !check_all_below(config, 2) || count_value(config, 1) == 0 {
            return None;
        }
        let sources = ones_flags(config);
        let distances = match self.shortest_distances(sources.as_slice()) {
            Some(d) => d,
            None => {
                return None;
            },
        };
        let ghost dist = Seq::new(n as nat, |v: int| distance_to_sources(self@.graph, ones_of(config@), v as usize).unwrap());
        assert forall|v: usize| v < n implies (#[trigger] distance_to_sources(self@.graph, ones_of(config@), v)) is Some by {
            assert(distance_to_sources(self@.graph, sources@, v) == Some(distances@[v as int] as nat));
        }
        assert(copy_distances(self@, config@) == Some(dist));
        let mut storage_cost: i64 = 0;
        for v in 0..n
            invariant
                n == self@.graph.num_vertices,
                self@.wf(),
                config@.len() == n,
                cost_fits(self@, config@),
                copy_distances(self@, config@) == Some(dist),
                storage_cost == selected_sum(ints_i64(self@.storage), config@.take(v as int)),
        {
            assert(config@.take(v + 1).drop_last() =~= config@.take(v as int));
            assert(fits_i64(selected_sum(ints_i64(self@.storage), config@.take(v + 1))));
            if config[v] == 1 {
                storage_cost = storage_cost + self.storage[v];
            }
        }
        assert(config@.take(n as int) =~= config@);
        let mut access_cost: i64 = 0;
        for v in 0..n
            invariant
                n == self@.graph.num_vertices,
                self@.wf(),
                distances@.len() == n,
                forall|w: usize| w < n ==> distance_to_sources(self@.graph, ones_of(config@), w) == Some(
                    #[trigger] distances@[w as int] as nat,
                ) && distances@[w as int] <= n,
                cost_fits(self@, config@),
                copy_distances(self@, config@) == Some(dist),
                access_cost == access_sum(self@.usage, dist, v as int),
        {
            assert(distance_to_sources(self@.graph, ones_of(config@), v) == Some(distances@[v as int] as nat));
            assert(dist[v as int] == distances@[v as int]);
            assert(fits_i64(self@.usage[v as int] * dist[v as int]));
            assert(fits_i64(access_sum(self@.usage, dist, v + 1)));
            assert(distances@[v as int] <= n);
            let term = self.usage[v] * (distances[v] as i64);
            access_cost = access_cost + term;
        }
        Some(storage_cost + access_cost)
    }

    /// Whether the configuration is a valid placement within the bound.
    pub fn is_valid_solution(&self, config: &[usize]) -> (r: bool)
        requires
            cost_fits(self@, config@),
        ensures
            r == (allocation_cost(self@, config@) matches Some(c) && c <= self@.bound),
    {
        match self.total_cost(config) {
            Some(cost) => cost <= self.bound,
            None => false,
        }
    }

    /// One binary variable per vertex.
    pub fn dims(&self) -> (r: Vec<usize>)
        ensures
            r@ == Seq::new(self@.graph.num_vertices, |i: int| 2usize),
    {
        crate::util::repeat_usize(2, self.graph.num_vertices())
    }

    /// Whether the configuration is a valid placement within the bound.
    pub fn evaluate(&self, config: &[usize]) -> (r: Or)
        requires
            cost_fits(self@, config@),
        ensures
            r == Or(allocation_cost(self@, config@) matches Some(c) && c <= self@.bound),
    {
        Or(self.is_valid_solution(config))
    }
}

} // verus!
