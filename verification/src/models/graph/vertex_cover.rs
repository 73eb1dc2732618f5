//! Vertex Cover (decision version).
//!
//! Given a graph G = (V, E) and a positive integer k, determine whether there
//! exists a vertex cover of size at most k.
use crate::topology::{GraphView, SimpleGraph};
use crate::types::Or;
use crate::util::{count_of, count_value};
use vstd::prelude::*;

verus! {

/// Mathematical model of a [`VertexCover`] instance.
pub struct VertexCoverView {
    pub graph: GraphView,
    pub k: nat,
}

/// Every edge has an endpoint selected (value 1) by `config`.
pub open spec fn covers_all_edges(graph: GraphView, config: Seq<usize>) -> bool {
    forall|i: int|
        0 <= i < graph.edges.len() ==> config[(#[trigger] graph.edges[i]).0 as int] == 1
            || config[graph.edges[i].1 as int] == 1
}

/// `config` selects (value 1) a vertex cover with at most `k` vertices.
pub open spec fn is_small_vertex_cover(m: VertexCoverView, config: Seq<usize>) -> bool {
    &&& config.len() == m.graph.num_vertices
    &&& count_of(config, 1) <= m.k
    &&& covers_all_edges(m.graph, config)
}

/// Vertex Cover (decision version): is there a vertex cover of size at most k?
#[derive(Debug, Clone)]
pub struct VertexCover {
    graph: SimpleGraph,
    k: usize,
}

impl View for VertexCover {
    type V = VertexCoverView;

    closed spec fn view(&self) -> VertexCoverView {
        VertexCoverView { graph: self.graph@, k: self.k as nat }
    }
}

impl VertexCover {
    /// Create a new VertexCover problem.
    pub fn new(graph: SimpleGraph, k: usize) -> (r: Self)
        requires
            k > 0,
            k <= graph@.num_vertices,
        ensures
            r@ == (VertexCoverView { graph: graph@, k: k as nat }),
    {
        VertexCover { graph, k }
    }

    /// Get a reference to the graph.
    pub fn graph(&self) -> (r: &SimpleGraph)
        ensures
            r@ == self@.graph,
    {
        &self.graph
    }

    /// Get the cover size threshold.
    pub fn k(&self) -> (r: usize)
        ensures
            r == self@.k,
    {
        self.k
    }

    /// Get the number of vertices.
    pub fn num_vertices(&self) -> (r: usize)
        ensures
            r == self@.graph.num_vertices,
    {
        self.graph.num_vertices()
    }

    /// Get the number of edges.
    pub fn num_edges(&self) -> (r: usize)
        ensures
            r == self@.graph.edges.len(),
    {
        self.graph.num_edges()
    }

    /// Check if a configuration is a valid vertex cover of size at most k.
    pub fn is_valid_solution(&self, config: &[usize]) -> (r: bool)
        ensures
            r == is_small_vertex_cover(self@, config@),
    {
        if config.len() != self.graph.num_vertices() {
            return false;
        }
        let count = count_value(config, 1);
        if count > self.k {
            return false;
        }
        let edges = self.graph.edge_slice();
        for i in 0..edges.len()
            invariant
                edges@ == self@.graph.edges,
                self@.graph.wf(),
                config@.len() == self@.graph.num_vertices,
                forall|j: int|
                    0 <= j < i ==> config@[(#[trigger] edges@[j]).0 as int] == 1
                        || config@[edges@[j].1 as int] == 1,
        {
            let (u, v) = edges[i];
            assert(edges@[i as int] == (u, v));
            if config[u] != 1 && config[v] != 1 {
                return false;
            }
        }
        true
    }

    /// One binary variable per vertex.
    pub fn dims(&self) -> (r: Vec<usize>)
        ensures
            r@ == Seq::new(self@.graph.num_vertices, |i: int| 2usize),
    {
        crate::util::repeat_usize(2, self.graph.num_vertices())
    }

    /// Whether the configuration is a vertex cover of size at most k.
    pub fn evaluate(&self, config: &[usize]) -> (r: Or)
        ensures
            r == Or(is_small_vertex_cover(self@, config@)),
    {
        Or(self.is_valid_solution(config))
    }
}

} // verus!
