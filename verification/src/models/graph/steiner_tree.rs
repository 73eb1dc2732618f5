//! Steiner Tree.
//!
//! Given a weighted graph and a set of terminal vertices, find a
//! minimum-weight tree that connects all terminals.
use crate::reach::{
    link_step, reach_by_kept_edges, reaches, touched_flags, touched_vertices,
};
use crate::topology::{GraphView, SimpleGraph};
use crate::types::Min;
use crate::util::{
    count_of, count_true, count_true_flags, count_value, ints_i32, ones_flags, ones_of,
    selected_sum, selected_weight_i32,
};
use vstd::prelude::*;

verus! {

/// Mathematical model of a [`SteinerTree`] instance.
pub struct SteinerTreeView {
    pub graph: GraphView,
    pub edge_weights: Seq<i32>,
    pub terminals: Seq<usize>,
}

impl SteinerTreeView {
    /// The instance is well formed: one weight per edge, at least two
    /// distinct terminals, all inside the graph.
    pub open spec fn wf(self) -> bool {
        &&& self.graph.wf()
        &&& self.edge_weights.len() == self.graph.edges.len()
        &&& self.terminals.len() >= 2
        &&& forall|k: int| 0 <= k < self.terminals.len() ==> (#[trigger] self.terminals[k]) < self.graph.num_vertices
        &&& forall|a: int, b: int| 0 <= a < b < self.terminals.len() ==> self.terminals[a] != self.terminals[b]
    }
}

/// The edges selected (value 1) by `config` form a tree that contains every
/// terminal: they are connected through the first terminal and there is one
/// more touched vertex than selected edges.
pub open spec fn is_valid_steiner_tree(graph: GraphView, terminals: Seq<usize>, config: Seq<usize>) -> bool {
    let sel = ones_of(config);
    let step = link_step(graph.edges, sel);
    &&& config.len() == graph.edges.len()
    &&& count_of(config, 1) > 0
    &&& forall|k: int| 0 <= k < terminals.len() ==> reaches(step, terminals[0], #[trigger] terminals[k])
    &&& forall|v: usize|
        v < graph.num_vertices && #[trigger] touched_flags(graph.num_vertices, graph.edges, sel)[v as int]
            ==> reaches(step, terminals[0], v)
    &&& count_of(config, 1) + 1 == count_true(touched_flags(graph.num_vertices, graph.edges, sel))
}

/// Total weight of the selected edges of a valid Steiner tree.
pub open spec fn steiner_tree_weight(m: SteinerTreeView, config: Seq<usize>) -> Option<int> {
    if is_valid_steiner_tree(m.graph, m.terminals, config) {
        Some(selected_sum(ints_i32(m.edge_weights), config))
    } else {
        None
    }
}

/// The Steiner Tree problem.
#[derive(Debug)]
pub struct SteinerTree {
    graph: SimpleGraph,
    edge_weights: Vec<i32>,
    terminals: Vec<usize>,
}

impl View for SteinerTree {
    type V = SteinerTreeView;

    closed spec fn view(&self) -> SteinerTreeView {
        SteinerTreeView { graph: self.graph@, edge_weights: self.edge_weights@, terminals: self.terminals@ }
    }
}

/// Check that a configuration forms a valid Steiner tree.
fn check_steiner_tree(graph: &SimpleGraph, terminals: &[usize], config: &[usize]) -> (r: bool)
    requires
        terminals@.len() >= 1,
        forall|k: int| 0 <= k < terminals@.len() ==> (#[trigger] terminals@[k]) < graph@.num_vertices,
    ensures
        r == is_valid_steiner_tree(graph@, terminals@, config@),
{
    let n = graph.num_vertices();
    let edges = graph.edge_slice();
    if config.len() != edges.len() {
        return false;
    }
    let selected = ones_flags(config);
    let selected_count = count_value(config, 1);
    if selected_count == 0 {
        return false;
    }
    let involved = touched_vertices(n, edges, &selected);
    let start = terminals[0];
    let visited = reach_by_kept_edges(n, edges, &selected, start);
    for k in 0..terminals.len()
        invariant
            forall|j: int|
                0 <= j < k ==> reaches(link_step(edges@, selected@), start, #[trigger] terminals@[j]),
    {
        let t = terminals[k];
        assert(visited@[t as int] <==> reaches(link_step(edges@, selected@), start, t));
        if !visited[t] {
            return false;
        }
    }
    for v in 0..n
        invariant
            forall|w: usize|
                w < v && #[trigger] involved@[w as int] ==> reaches(link_step(edges@, selected@), start, w),
    {
        assert(visited@[v as int] <==> reaches(link_step(edges@, selected@), start, v));
        if involved[v] && !visited[v] {
            return false;
        }
    }
    let involved_count = count_true_flags(&involved);
    involved_count > 0 && selected_count == involved_count - 1
}

impl SteinerTree {
    /// The stored instance is well formed.
    #[verifier::type_invariant]
    pub closed spec fn inv(self) -> bool {
        self@.wf()
    }

    /// Create a SteinerTree problem from a graph, edge weights, and terminals.
    pub fn new(graph: SimpleGraph, edge_weights: Vec<i32>, terminals: Vec<usize>) -> (r: Self)
        requires
            edge_weights@.len() == graph@.edges.len(),
            forall|a: int, b: int| 0 <= a < b < terminals@.len() ==> terminals@[a] != terminals@[b],
            forall|k: int| 0 <= k < terminals@.len() ==> (#[trigger] terminals@[k]) < graph@.num_vertices,
            terminals@.len() >= 2,
        ensures
            r@ == (SteinerTreeView { graph: graph@, edge_weights: edge_weights@, terminals: terminals@ }),
    {
        proof {
            use_type_invariant(&graph);
        }
        SteinerTree { graph, edge_weights, terminals }
    }

    /// Create a SteinerTree problem with unit edge weights.
    pub fn unit_weights(graph: SimpleGraph, terminals: Vec<usize>) -> (r: Self)
        requires
            forall|a: int, b: int| 0 <= a < b < terminals@.len() ==> terminals@[a] != terminals@[b],
            forall|k: int| 0 <= k < terminals@.len() ==> (#[trigger] terminals@[k]) < graph@.num_vertices,
            terminals@.len() >= 2,
        ensures
            r@ == (SteinerTreeView {
                graph: graph@,
                edge_weights: Seq::new(graph@.edges.len(), |i: int| 1i32),
                terminals: terminals@,
            }),
    {
        let edge_weights = vec![1i32; graph.num_edges()];
        assert(edge_weights@ =~= Seq::new(graph@.edges.len(), |i: int| 1i32));
        Self::new(graph, edge_weights, terminals)
    }

    /// Get a reference to the underlying graph.
    pub fn graph(&self) -> (r: &SimpleGraph)
        ensures
            r@ == self@.graph,
    {
        &self.graph
    }

    /// Get a reference to the edge weights.
    pub fn edge_weights(&self) -> (r: &[i32])
        ensures
            r@ == self@.edge_weights,
    {
        self.edge_weights.as_slice()
    }

    /// Set new edge weights.
    pub fn set_weights(&mut self, weights: Vec<i32>)
        requires
            weights@.len() == old(self)@.graph.edges.len(),
        ensures
            final(self)@ == (SteinerTreeView { edge_weights: weights@, ..old(self)@ }),
    {
        proof {
            use_type_invariant(&*self);
        }
        self.edge_weights = weights;
    }

    /// Get the edge weights as a Vec.
    pub fn weights(&self) -> (r: Vec<i32>)
        ensures
            r@ == self@.edge_weights,
    {
        let mut r: Vec<i32> = Vec::new();
        for i in 0..self.edge_weights.len()
            invariant
                r@ =~= self.edge_weights@.take(i as int),
        {
            r.push(self.edge_weights[i]);
        }
        assert(r@ =~= self.edge_weights@);
        r
    }

    /// Get the terminal vertices.
    pub fn terminals(&self) -> (r: &[usize])
        ensures
            r@ == self@.terminals,
    {
        self.terminals.as_slice()
    }

    /// Whether the weight type carries non-unit weights (always, for `i32`).
    pub fn is_weighted(&self) -> (r: bool)
        ensures
            r,
    {
        true
    }

    /// Check if a configuration is a valid Steiner tree.
    pub fn is_valid_solution(&self, config: &[usize]) -> (r: bool)
        ensures
            r == is_valid_steiner_tree(self@.graph, self@.terminals, config@),
    {
        proof {
            use_type_invariant(self);
        }
        check_steiner_tree(&self.graph, &self.terminals, config)
    }

    /// Get the number of vertices in the underlying graph.
    pub fn num_vertices(&self) -> (r: usize)
        ensures
            r == self@.graph.num_vertices,
    {
        self.graph.num_vertices()
    }

    /// Get the number of edges in the underlying graph.
    pub fn num_edges(&self) -> (r: usize)
        ensures
            r == self@.graph.edges.len(),
    {
        self.graph.num_edges()
    }

    /// Get the number of terminal vertices.
    pub fn num_terminals(&self) -> (r: usize)
        ensures
            r == self@.terminals.len(),
    {
        self.terminals.len()
    }

    /// One binary variable per edge.
    pub fn dims(&self) -> (r: Vec<usize>)
        ensures
            r@ == Seq::new(self@.graph.edges.len(), |i: int| 2usize),
    {
        crate::util::repeat_usize(2, self.graph.num_edges())
    }

    /// Total weight of a valid Steiner tree; `Min(None)` otherwise.
    pub fn evaluate(&self, config: &[usize]) -> (r: Min<i64>)
        requires
            is_valid_steiner_tree(self@.graph, self@.terminals, config@) ==> i64::MIN <= selected_sum(
                ints_i32(self@.edge_weights),
                config@,
            ) <= i64::MAX,
        ensures
            r.0 matches Some(t) ==> steiner_tree_weight(self@, config@) == Some(t as int),
            r.0 is None ==> steiner_tree_weight(self@, config@) is None,
    {
        if !self.is_valid_solution(config) {
            return Min(None);
        }
        let total = selected_weight_i32(&self.edge_weights, config);
        Min(Some(total as i64))
    }
}

} // verus!
