//! Optimal Linear Arrangement.
//!
//! Find a bijection f: V -> {0, ..., |V|-1} minimizing the total edge length
//! sum over edges {u, v} of |f(u) - f(v)|.
use crate::topology::{GraphView, SimpleGraph};
use crate::types::Min;
use crate::util::{check_permutation, is_permutation};
use vstd::prelude::*;

verus! {

/// Mathematical model of an [`OptimalLinearArrangement`] instance.
pub struct OptimalLinearArrangementView {
    pub graph: GraphView,
}

/// `|a - b|`.
pub open spec fn abs_diff(a: int, b: int) -> int {
    if a >= b {
        a - b
    } else {
        b - a
    }
}

/// Sum over the edges of the distance between their endpoints' positions.
pub open spec fn arrangement_length(edges: Seq<(usize, usize)>, pos: Seq<usize>) -> int
    decreases edges.len(),
{
    if edges.len() == 0 {
        0
    } else {
        let e = edges.last();
        arrangement_length(edges.drop_last(), pos) + abs_diff(
            pos[e.0 as int] as int,
            pos[e.1 as int] as int,
        )
    }
}

/// Total edge length of the arrangement, if `config` is a permutation.
pub open spec fn total_edge_length_of(m: OptimalLinearArrangementView, config: Seq<usize>) -> Option<int> {
    if is_permutation(config, m.graph.num_vertices) {
        Some(arrangement_length(m.graph.edges, config))
    } else {
        None
    }
}

/// The Optimal Linear Arrangement problem.
#[derive(Debug, Clone)]
pub struct OptimalLinearArrangement {
    graph: SimpleGraph,
}

impl View for OptimalLinearArrangement {
    type V = OptimalLinearArrangementView;

    closed spec fn view(&self) -> OptimalLinearArrangementView {
        OptimalLinearArrangementView { graph: self.graph@ }
    }
}

impl OptimalLinearArrangement {
    /// Create a new Optimal Linear Arrangement problem.
    pub fn new(graph: SimpleGraph) -> (r: Self)
        ensures
            r@ == (OptimalLinearArrangementView { graph: graph@ }),
    {
        OptimalLinearArrangement { graph }
    }

    /// Get a reference to the underlying graph.
    pub fn graph(&self) -> (r: &SimpleGraph)
        ensures
            r@ == self@.graph,
    {
        &self.graph
    }

    /// Get the number of vertices in the underlying graph.
    pub fn num_vertices(&self) -> (r: usize)
        ensures
            r == self@.graph.num_vertices,
    {
        self.graph.num_vertices()
    }

    /// Get the number of edges in the underlying graph.
    pub fn num_edges(&self) -> (r: usize)
        ensures
            r == self@.graph.edges.len(),
    {
        self.graph.num_edges()
    }

    /// Check if a configuration is a valid permutation.
    pub fn is_valid_solution(&self, config: &[usize]) -> (r: bool)
        requires
            is_permutation(config@, self@.graph.num_vertices) ==> arrangement_length(
                self@.graph.edges,
                config@,
            ) <= usize::MAX,
        ensures
            r == is_permutation(config@, self@.graph.num_vertices),
    {
        self.total_edge_length(config).is_some()
    }

    /// Check if a configuration forms a valid permutation of {0, ..., n-1}.
    fn is_valid_permutation(&self, config: &[usize]) -> (r: bool)
        ensures
            r == is_permutation(config@, self@.graph.num_vertices),
    {
        check_permutation(config, self.graph.num_vertices())
    }

    /// Compute the total edge length for a given arrangement.
    ///
    /// Returns `None` if the configuration is not a valid permutation.
    pub fn total_edge_length(&self, config: &[usize]) -> (r: Option<usize>)
        requires
            is_permutation(config@, self@.graph.num_vertices) ==> arrangement_length(
                self@.graph.edges,
                config@,
            ) <= usize::MAX,
        ensures
            r matches Some(t) ==> total_edge_length_of(self@, config@) == Some(t as int),
            r is None ==> total_edge_length_of(self@, config@) is None,
    {
        if !self.is_valid_permutation(config) {
            return None;
        }
        let edges = self.graph.edge_slice();
        let mut total: usize = 0;
        for i in 0..edges.len()
            invariant
                edges@ == self@.graph.edges,
                self@.graph.wf(),
                is_permutation(config@, self@.graph.num_vertices),
                arrangement_length(edges@, config@) <= usize::MAX,
                total == arrangement_length(edges@.take(i as int), config@),
        {
            proof {
                lemma_arrangement_length_prefix_mono(edges@, config@, i as int + 1);
                assert(edges@.take(i + 1).drop_last() =~= edges@.take(i as int));
            }
            let (u, v) = edges[i];
            let fu = config[u];
            let fv = config[v];
            let d = if fu >= fv { fu - fv } else { fv - fu };
            total = total + d;
        }
        assert(edges@.take(edges@.len() as int) =~= edges@);
        Some(total)
    }

    /// Each vertex chooses one of the n positions.
    pub fn dims(&self) -> (r: Vec<usize>)
        ensures
            r@ == Seq::new(self@.graph.num_vertices, |i: int| self@.graph.num_vertices as usize),
    {
        let n = self.graph.num_vertices();
        crate::util::repeat_usize(n, n)
    }

    /// The total edge length of a permutation; `Min(None)` otherwise.
    pub fn evaluate(&self, config: &[usize]) -> (r: Min<usize>)
        requires
            is_permutation(config@, self@.graph.num_vertices) ==> arrangement_length(
                self@.graph.edges,
                config@,
            ) <= usize::MAX,
        ensures
            r.0 matches Some(t) ==> total_edge_length_of(self@, config@) == Some(t as int),
            r.0 is None ==> total_edge_length_of(self@, config@) is None,
    {
        match self.total_edge_length(config) {
            Some(cost) => Min(Some(cost)),
            None => Min(None),
        }
    }
}

/// Prefix sums of edge lengths never exceed the full sum.
proof fn lemma_arrangement_length_prefix_mono(edges: Seq<(usize, usize)>, pos: Seq<usize>, k: int)
    requires
        0 <= k <= edges.len(),
    ensures
        arrangement_length(edges.take(k), pos) <= arrangement_length(edges, pos),
    decreases edges.len() - k,
{
    if k < edges.len() {
        lemma_arrangement_length_prefix_mono(edges, pos, k + 1);
        assert(edges.take(k + 1).drop_last() =~= edges.take(k));
    } else {
        assert(edges.take(k) =~= edges);
    }
}

} // verus!
