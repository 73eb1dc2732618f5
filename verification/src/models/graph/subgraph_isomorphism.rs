//! Subgraph Isomorphism.
//!
//! Is there an injective map f: V(H) -> V(G) such that every edge {u, v} of
//! the pattern graph H maps to an edge {f(u), f(v)} of the host graph G?
use crate::topology::{GraphView, SimpleGraph};
use crate::util::all_below;
use vstd::prelude::*;

verus! {

/// Mathematical model of a [`SubgraphIsomorphism`] instance.
pub struct SubgraphIsomorphismView {
    pub host_graph: GraphView,
    pub pattern_graph: GraphView,
}

/// `config` is an injective map from pattern vertices to host vertices that
/// sends every pattern edge onto a host edge.
pub open spec fn is_subgraph_embedding(m: SubgraphIsomorphismView, config: Seq<usize>) -> bool {
    &&& m.pattern_graph.num_vertices <= m.host_graph.num_vertices
    &&& config.len() == m.pattern_graph.num_vertices
    &&& all_below(config, m.host_graph.num_vertices as int)
    &&& forall|i: int, j: int| 0 <= i < j < config.len() ==> config[i] != config[j]
    &&& forall|e: int|
        0 <= e < m.pattern_graph.edges.len() ==> m.host_graph.has_edge(
            config[(#[trigger] m.pattern_graph.edges[e]).0 as int] as int,
            config[m.pattern_graph.edges[e].1 as int] as int,
        )
}

/// The Subgraph Isomorphism problem.
#[derive(Debug, Clone)]
pub struct SubgraphIsomorphism {
    host_graph: SimpleGraph,
    pattern_graph: SimpleGraph,
}

impl View for SubgraphIsomorphism {
    type V = SubgraphIsomorphismView;

    closed spec fn view(&self) -> SubgraphIsomorphismView {
        SubgraphIsomorphismView { host_graph: self.host_graph@, pattern_graph: self.pattern_graph@ }
    }
}

impl SubgraphIsomorphism {
    /// Create a new SubgraphIsomorphism problem.
    pub fn new(host_graph: SimpleGraph, pattern_graph: SimpleGraph) -> (r: Self)
        ensures
            r@ == (SubgraphIsomorphismView { host_graph: host_graph@, pattern_graph: pattern_graph@ }),
    {
        SubgraphIsomorphism { host_graph, pattern_graph }
    }

    /// Get a reference to the host graph.
    pub fn host_graph(&self) -> (r: &SimpleGraph)
        ensures
            r@ == self@.host_graph,
    {
        &self.host_graph
    }

    /// Get a reference to the pattern graph.
    pub fn pattern_graph(&self) -> (r: &SimpleGraph)
        ensures
            r@ == self@.pattern_graph,
    {
        &self.pattern_graph
    }

    /// Get the number of vertices in the host graph.
    pub fn num_host_vertices(&self) -> (r: usize)
        ensures
            r == self@.host_graph.num_vertices,
    {
        self.host_graph.num_vertices()
    }

    /// Get the number of edges in the host graph.
    pub fn num_host_edges(&self) -> (r: usize)
        ensures
            r == self@.host_graph.edges.len(),
    {
        self.host_graph.num_edges()
    }

    /// Get the number of vertices in the pattern graph.
    pub fn num_pattern_vertices(&self) -> (r: usize)
        ensures
            r == self@.pattern_graph.num_vertices,
    {
        self.pattern_graph.num_vertices()
    }

    /// Get the number of edges in the pattern graph.
    pub fn num_pattern_edges(&self) -> (r: usize)
        ensures
            r == self@.pattern_graph.edges.len(),
    {
        self.pattern_graph.num_edges()
    }

    /// Check if a configuration represents a valid subgraph isomorphism.
    pub fn is_valid_solution(&self, config: &[usize]) -> (r: bool)
        ensures
            r == is_subgraph_embedding(self@, config@),
    {
        self.evaluate(config)
    }

    /// Each pattern vertex picks a host vertex; the domain is empty when the
    /// pattern is larger than the host.
    pub fn dims(&self) -> (r: Vec<usize>)
        ensures
            r@ == Seq::new(
                self@.pattern_graph.num_vertices,
                |i: int|
                    if self@.pattern_graph.num_vertices > self@.host_graph.num_vertices {
                        0usize
                    } else {
                        self@.host_graph.num_vertices as usize
                    },
            ),
    {
        let n_host = self.host_graph.num_vertices();
        let n_pattern = self.pattern_graph.num_vertices();
        if n_pattern > n_host {
            crate::util::repeat_usize(0, n_pattern)
        } else {
            crate::util::repeat_usize(n_host, n_pattern)
        }
    }

    /// Whether `config` is an injective, edge-preserving map.
    pub fn evaluate(&self, config: &[usize]) -> (r: bool)
        ensures
            r == is_subgraph_embedding(self@, config@),
    {
        let n_pattern = self.pattern_graph.num_vertices();
        let n_host = self.host_graph.num_vertices();
        if n_pattern > n_host {
            return false;
        }
        if config.len() != n_pattern {
            return false;
        }
        for i in 0..config.len()
            invariant
                forall|k: int| 0 <= k < i ==> (#[trigger] config@[k]) < n_host,
        {
            if config[i] >= n_host {
                assert(!(config@[i as int] < n_host));
                return false;
            }
        }
        for i in 0..n_pattern
            invariant
                n_pattern == config@.len(),
                forall|a: int, b: int| 0 <= a < i && a < b < n_pattern ==> config@[a] != config@[b],
        {
            for j in (i + 1)..n_pattern
                invariant
                    n_pattern == config@.len(),
                    i < n_pattern,
                    forall|a: int, b: int| 0 <= a < i && a < b < n_pattern ==> config@[a] != config@[b],
                    forall|b: int| i < b < j ==> config@[i as int] != config@[b],
            {
                if config[i] == config[j] {
                    return false;
                }
            }
        }
        let edges = self.pattern_graph.edge_slice();
        for e in 0..edges.len()
            invariant
                edges@ == self@.pattern_graph.edges,
                self@.pattern_graph.wf(),
                config@.len() == self@.pattern_graph.num_vertices,
                forall|k: int|
                    0 <= k < e ==> self@.host_graph.has_edge(
                        config@[(#[trigger] edges@[k]).0 as int] as int,
                        config@[edges@[k].1 as int] as int,
                    ),
        {
            let (u, v) = edges[e];
            assert(edges@[e as int] == (u, v));
            if !self.host_graph.has_edge(config[u], config[v]) {
                return false;
            }
        }
        true
    }
}

} // verus!
