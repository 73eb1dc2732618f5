//! Steiner Tree in Graphs.
//!
//! Find a minimum-weight subgraph of a graph whose selected edges connect all
//! terminal vertices.
use crate::reach::{link_step, reach_by_kept_edges, reaches};
use crate::topology::{GraphView, SimpleGraph};
use crate::types::SolutionSize;
use crate::util::{ints_i32, ones_flags, ones_of, selected_sum, selected_weight_i32};
use vstd::prelude::*;

verus! {

/// Mathematical model of a [`SteinerTreeInGraphs`] instance.
pub struct SteinerTreeInGraphsView {
    pub graph: GraphView,
    pub terminals: Seq<usize>,
    pub edge_weights: Seq<i32>,
}

impl SteinerTreeInGraphsView {
    /// One weight per edge, terminals inside the graph.
    pub open spec fn wf(self) -> bool {
        &&& self.graph.wf()
        &&& self.edge_weights.len() == self.graph.edges.len()
        &&& forall|k: int| 0 <= k < self.terminals.len() ==> (#[trigger] self.terminals[k]) < self.graph.num_vertices
    }
}

/// The selected edges connect all terminals: with fewer than two terminals
/// any selection qualifies; otherwise at least one edge is selected and every
/// terminal is reachable from the first one through selected edges.
pub open spec fn connects_terminals(graph: GraphView, terminals: Seq<usize>, selected: Seq<bool>) -> bool {
    if terminals.len() <= 1 {
        true
    } else {
        &&& exists|i: int| 0 <= i < selected.len() && #[trigger] selected[i]
        &&& forall|k: int|
            0 <= k < terminals.len() ==> reaches(
                link_step(graph.edges, selected),
                terminals[0],
                #[trigger] terminals[k],
            )
    }
}

/// The value of a configuration: the selected weight of a valid selection.
pub open spec fn steiner_value(m: SteinerTreeInGraphsView, config: Seq<usize>) -> Option<int> {
    if config.len() == m.graph.edges.len() && connects_terminals(m.graph, m.terminals, ones_of(config)) {
        Some(selected_sum(ints_i32(m.edge_weights), config))
    } else {
        None
    }
}

/// Check if a selection of edges connects all terminals.
pub fn is_steiner_tree(graph: &SimpleGraph, terminals: &[usize], selected: &[bool]) -> (r: bool)
    requires
        selected@.len() == graph@.edges.len(),
        forall|k: int| 0 <= k < terminals@.len() ==> (#[trigger] terminals@[k]) < graph@.num_vertices,
    ensures
        r == connects_terminals(graph@, terminals@, selected@),
{
    if terminals.len() <= 1 {
        return true;
    }
    let n = graph.num_vertices();
    let edges = graph.edge_slice();
    let mut has_any_edge = false;
    for i in 0..selected.len()
        invariant
            has_any_edge == exists|j: int| 0 <= j < i && #[trigger] selected@[j],
    {
        if selected[i] {
            has_any_edge = true;
        }
    }
    if !has_any_edge {
        return false;
    }
    let start = terminals[0];
    let visited = reach_by_kept_edges(n, edges, selected, start);
    for k in 0..terminals.len()
        invariant
            forall|j: int|
                0 <= j < k ==> reaches(link_step(edges@, selected@), start, #[trigger] terminals@[j]),
    {
        let t = terminals[k];
        assert(visited@[t as int] <==> reaches(link_step(edges@, selected@), start, t));
        if !visited[t] {
            return false;
        }
    }
    true
}

/// The Steiner Tree in Graphs problem.
#[derive(Debug)]
pub struct SteinerTreeInGraphs {
    graph: SimpleGraph,
    terminals: Vec<usize>,
    edge_weights: Vec<i32>,
}

impl View for SteinerTreeInGraphs {
    type V = SteinerTreeInGraphsView;

    closed spec fn view(&self) -> SteinerTreeInGraphsView {
        SteinerTreeInGraphsView { graph: self.graph@, terminals: self.terminals@, edge_weights: self.edge_weights@ }
    }
}

impl SteinerTreeInGraphs {
    /// The stored instance is well formed.
    #[verifier::type_invariant]
    pub closed spec fn inv(self) -> bool {
        self@.wf()
    }

    /// Create a SteinerTreeInGraphs problem from a graph, terminals, and edge weights.
    pub fn new(graph: SimpleGraph, terminals: Vec<usize>, edge_weights: Vec<i32>) -> (r: Self)
        requires
            edge_weights@.len() == graph@.edges.len(),
            forall|k: int| 0 <= k < terminals@.len() ==> (#[trigger] terminals@[k]) < graph@.num_vertices,
        ensures
            r@ == (SteinerTreeInGraphsView { graph: graph@, terminals: terminals@, edge_weights: edge_weights@ }),
    {
        proof {
            use_type_invariant(&graph);
        }
        SteinerTreeInGraphs { graph, terminals, edge_weights }
    }

    /// Get a reference to the underlying graph.
    pub fn graph(&self) -> (r: &SimpleGraph)
        ensures
            r@ == self@.graph,
    {
        &self.graph
    }

    /// Get the terminal vertices.
    pub fn terminals(&self) -> (r: &[usize])
        ensures
            r@ == self@.terminals,
    {
        self.terminals.as_slice()
    }

    /// Get all edges with their weights.
    pub fn edges(&self) -> (r: Vec<(usize, usize, i32)>)
        ensures
            r@.len() == self@.graph.edges.len(),
            forall|i: int|
                0 <= i < r@.len() ==> #[trigger] r@[i] == (
                    self@.graph.edges[i].0,
                    self@.graph.edges[i].1,
                    self@.edge_weights[i],
                ),
    {
        proof {
            use_type_invariant(self);
        }
        let edges = self.graph.edge_slice();
        let mut r: Vec<(usize, usize, i32)> = Vec::new();
        for i in 0..edges.len()
            invariant
                edges@ == self@.graph.edges,
                self@.wf(),
                r@.len() == i,
                forall|k: int|
                    0 <= k < i ==> #[trigger] r@[k] == (edges@[k].0, edges@[k].1, self@.edge_weights[k]),
        {
            let (u, v) = edges[i];
            r.push((u, v, self.edge_weights[i]));
        }
        r
    }

    /// Set new weights for the problem.
    pub fn set_weights(&mut self, weights: Vec<i32>)
        requires
            weights@.len() == old(self)@.graph.edges.len(),
        ensures
            final(self)@ == (SteinerTreeInGraphsView { edge_weights: weights@, ..old(self)@ }),
    {
        proof {
            use_type_invariant(&*self);
        }
        self.edge_weights = weights;
    }

    /// Get the weights for the problem.
    pub fn weights(&self) -> (r: Vec<i32>)
        ensures
            r@ == self@.edge_weights,
    {
        let mut r: Vec<i32> = Vec::new();
        for i in 0..self.edge_weights.len()
            invariant
                r@ =~= self.edge_weights@.take(i as int),
        {
            r.push(self.edge_weights[i]);
        }
        assert(r@ =~= self.edge_weights@);
        r
    }

    /// Whether the weight type carries non-unit weights (always, for `i32`).
    pub fn is_weighted(&self) -> (r: bool)
        ensures
            r,
    {
        true
    }

    /// Check if a configuration is a valid Steiner tree.
    pub fn is_valid_solution(&self, config: &[usize]) -> (r: bool)
        ensures
            r == (config@.len() == self@.graph.edges.len() && connects_terminals(
                self@.graph,
                self@.terminals,
                ones_of(config@),
            )),
    {
        proof {
            use_type_invariant(self);
        }
        if config.len() != self.graph.num_edges() {
            return false;
        }
        let selected = ones_flags(config);
        assert(self@.wf());
        assert(self.terminals@ == self@.terminals);
        is_steiner_tree(&self.graph, self.terminals.as_slice(), &selected)
    }

    /// Get the number of vertices in the underlying graph.
    pub fn num_vertices(&self) -> (r: usize)
        ensures
            r == self@.graph.num_vertices,
    {
        self.graph.num_vertices()
    }

    /// Get the number of edges in the underlying graph.
    pub fn num_edges(&self) -> (r: usize)
        ensures
            r == self@.graph.edges.len(),
    {
        self.graph.num_edges()
    }

    /// Get the number of terminal vertices.
    pub fn num_terminals(&self) -> (r: usize)
        ensures
            r == self@.terminals.len(),
    {
        self.terminals.len()
    }

    /// One binary variable per edge.
    pub fn dims(&self) -> (r: Vec<usize>)
        ensures
            r@ == Seq::new(self@.graph.edges.len(), |i: int| 2usize),
    {
        crate::util::repeat_usize(2, self.graph.num_edges())
    }

    /// Selected weight of a valid selection; `Invalid` otherwise.
    pub fn evaluate(&self, config: &[usize]) -> (r: SolutionSize<i64>)
        requires
            steiner_value(self@, config@) matches Some(t) ==> i64::MIN <= t <= i64::MAX,
        ensures
            r matches SolutionSize::Valid(t) ==> steiner_value(self@, config@) == Some(t as int),
            r is Invalid ==> steiner_value(self@, config@) is None,
    {
        if !self.is_valid_solution(config) {
            return SolutionSize::Invalid;
        }
        let total = selected_weight_i32(&self.edge_weights, config);
        SolutionSize::Valid(total as i64)
    }

    /// This is a minimization problem.
    pub fn direction(&self) -> (r: crate::types::Direction)
        ensures
            r == crate::types::Direction::Minimize,
    {
        crate::types::Direction::Minimize
    }
}

} // verus!
