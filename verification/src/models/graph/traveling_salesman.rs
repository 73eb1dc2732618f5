//! Traveling Salesman.
//!
//! Find a minimum-weight cycle that visits every vertex exactly once.
use crate::reach::{
    first_true, kept_degree, kept_degrees, lemma_first_true, link_step, reach_by_kept_edges, reaches,
};
use crate::topology::{GraphView, SimpleGraph};
use crate::types::Min;
use crate::util::{
    all_true, count_true, count_true_flags, ints_i32, ones_flags, ones_of, selected_sum,
    selected_weight_i32,
};
use vstd::prelude::*;

verus! {

/// Mathematical model of a [`TravelingSalesman`] instance.
pub struct TravelingSalesmanView {
    pub graph: GraphView,
    pub edge_weights: Seq<i32>,
}

/// The selected edges form a Hamiltonian cycle: exactly |V| edges, every
/// vertex has degree 2, and every vertex is reachable from the first endpoint
/// of the first selected edge.
pub open spec fn is_hamiltonian_selection(graph: GraphView, selected: Seq<bool>) -> bool {
    let n = graph.num_vertices;
    let first = first_true(selected);
    &&& count_true(selected) == n
    &&& forall|v: usize| v < n ==> #[trigger] kept_degree(graph.edges, selected, v) == 2
    &&& first < selected.len()
    &&& forall|v: usize| v < n ==> #[trigger] reaches(link_step(graph.edges, selected), graph.edges[first].0, v)
}

/// A configuration (one binary value per edge) selects a Hamiltonian cycle.
pub open spec fn is_tour(graph: GraphView, config: Seq<usize>) -> bool {
    config.len() == graph.edges.len() && is_hamiltonian_selection(graph, ones_of(config))
}

/// Tour weight of a valid configuration.
pub open spec fn tour_weight(m: TravelingSalesmanView, config: Seq<usize>) -> Option<int> {
    if is_tour(m.graph, config) {
        Some(selected_sum(ints_i32(m.edge_weights), config))
    } else {
        None
    }
}

/// Check if a selection of edges forms a valid Hamiltonian cycle.
pub fn is_hamiltonian_cycle(graph: &SimpleGraph, selected: &[bool]) -> (r: bool)
    requires
        selected@.len() == graph@.edges.len(),
    ensures
        r == is_hamiltonian_selection(graph@, selected@),
{
    let n = graph.num_vertices();
    let edges = graph.edge_slice();
    let selected_count = count_true_flags(selected);
    if selected_count != n {
        return false;
    }
    let degree = kept_degrees(n, edges, selected);
    for v in 0..n
        invariant
            forall|w: usize| w < v ==> #[trigger] kept_degree(edges@, selected@, w) == 2,
    {
        assert(degree@[v as int] == kept_degree(edges@, selected@, v));
        if degree[v] != 2 {
            return false;
        }
    }
    let mut first_index = selected.len();
    for i in 0..selected.len()
        invariant
            first_index == selected@.len() ==> forall|j: int| 0 <= j < i ==> !selected@[j],
            first_index < selected@.len() ==> first_index == first_true(selected@),
            first_index <= selected@.len(),
    {
        if first_index == selected.len() && selected[i] {
            proof {
                lemma_first_true(selected@);
                if first_true(selected@) < i {
                    assert(!selected@[first_true(selected@)]);
                }
                if first_true(selected@) > i {
                    assert(!selected@[i as int]);
                }
            }
            first_index = i;
        }
    }
    proof {
        lemma_first_true(selected@);
        if first_index == selected@.len() && first_true(selected@) < selected@.len() {
            assert(selected@[first_true(selected@)]);
        }
    }
    if first_index == selected.len() {
        return false;
    }
    let first = edges[first_index].0;
    let visited = reach_by_kept_edges(n, edges, selected, first);
    let r = all_true(&visited);
    proof {
        if r {
            assert forall|v: usize| v < n implies #[trigger] reaches(link_step(edges@, selected@), first, v) by {
                assert(visited@[v as int]);
            }
        } else {
            let k = choose|k: int| 0 <= k < visited@.len() && !visited@[k];
            assert(!reaches(link_step(edges@, selected@), first, k as usize));
        }
    }
    r
}

/// The Traveling Salesman problem.
#[derive(Debug)]
pub struct TravelingSalesman {
    graph: SimpleGraph,
    edge_weights: Vec<i32>,
}

impl View for TravelingSalesman {
    type V = TravelingSalesmanView;

    closed spec fn view(&self) -> TravelingSalesmanView {
        TravelingSalesmanView { graph: self.graph@, edge_weights: self.edge_weights@ }
    }
}

impl TravelingSalesman {
    /// One weight per edge.
    #[verifier::type_invariant]
    pub closed spec fn inv(self) -> bool {
        self.edge_weights@.len() == self.graph@.edges.len()
    }

    /// Create a TravelingSalesman problem from a graph with given edge weights.
    pub fn new(graph: SimpleGraph, edge_weights: Vec<i32>) -> (r: Self)
        requires
            edge_weights@.len() == graph@.edges.len(),
        ensures
            r@ == (TravelingSalesmanView { graph: graph@, edge_weights: edge_weights@ }),
    {
        TravelingSalesman { graph, edge_weights }
    }

    /// Create a TravelingSalesman problem with unit weights.
    pub fn unit_weights(graph: SimpleGraph) -> (r: Self)
        ensures
            r@ == (TravelingSalesmanView {
                graph: graph@,
                edge_weights: Seq::new(graph@.edges.len(), |i: int| 1i32),
            }),
    {
        let edge_weights = vec![1i32; graph.num_edges()];
        assert(edge_weights@ =~= Seq::new(graph@.edges.len(), |i: int| 1i32));
        TravelingSalesman { graph, edge_weights }
    }

    /// Get a reference to the underlying graph.
    pub fn graph(&self) -> (r: &SimpleGraph)
        ensures
            r@ == self@.graph,
    {
        &self.graph
    }

    /// Get all edges with their weights.
    pub fn edges(&self) -> (r: Vec<(usize, usize, i32)>)
        ensures
            r@.len() == self@.graph.edges.len(),
            forall|i: int|
                0 <= i < r@.len() ==> #[trigger] r@[i] == (
                    self@.graph.edges[i].0,
                    self@.graph.edges[i].1,
                    self@.edge_weights[i],
                ),
    {
        proof {
            use_type_invariant(self);
        }
        let edges = self.graph.edge_slice();
        let mut r: Vec<(usize, usize, i32)> = Vec::new();
        for i in 0..edges.len()
            invariant
                edges@ == self@.graph.edges,
                self@.edge_weights.len() == edges@.len(),
                r@.len() == i,
                forall|k: int|
                    0 <= k < i ==> #[trigger] r@[k] == (edges@[k].0, edges@[k].1, self@.edge_weights[k]),
        {
            let (u, v) = edges[i];
            r.push((u, v, self.edge_weights[i]));
        }
        r
    }

    /// Set new weights for the problem.
    pub fn set_weights(&mut self, weights: Vec<i32>)
        requires
            weights@.len() == old(self)@.graph.edges.len(),
        ensures
            final(self)@ == (TravelingSalesmanView { edge_weights: weights@, ..old(self)@ }),
    {
        self.edge_weights = weights;
    }

    /// Get the weights for the problem.
    pub fn weights(&self) -> (r: Vec<i32>)
        ensures
            r@ == self@.edge_weights,
    {
        let mut r: Vec<i32> = Vec::new();
        for i in 0..self.edge_weights.len()
            invariant
                r@ =~= self.edge_weights@.take(i as int),
        {
            r.push(self.edge_weights[i]);
        }
        assert(r@ =~= self.edge_weights@);
        r
    }

    /// Whether the weight type carries non-unit weights (always, for `i32`).
    pub fn is_weighted(&self) -> (r: bool)
        ensures
            r,
    {
        true
    }

    /// Check if a configuration is a valid Hamiltonian cycle.
    pub fn is_valid_solution(&self, config: &[usize]) -> (r: bool)
        ensures
            r == is_tour(self@.graph, config@),
    {
        self.is_valid_hamiltonian_cycle(config)
    }

    /// Check if a configuration forms a valid Hamiltonian cycle.
    fn is_valid_hamiltonian_cycle(&self, config: &[usize]) -> (r: bool)
        ensures
            r == is_tour(self@.graph, config@),
    {
        if config.len() != self.graph.num_edges() {
            return false;
        }
        let selected = ones_flags(config);
        is_hamiltonian_cycle(&self.graph, &selected)
    }

    /// Get the number of vertices in the underlying graph.
    pub fn num_vertices(&self) -> (r: usize)
        ensures
            r == self@.graph.num_vertices,
    {
        self.graph.num_vertices()
    }

    /// Get the number of edges in the underlying graph.
    pub fn num_edges(&self) -> (r: usize)
        ensures
            r == self@.graph.edges.len(),
    {
        self.graph.num_edges()
    }

    /// One binary variable per edge.
    pub fn dims(&self) -> (r: Vec<usize>)
        ensures
            r@ == Seq::new(self@.graph.edges.len(), |i: int| 2usize),
    {
        crate::util::repeat_usize(2, self.graph.num_edges())
    }

    /// Tour weight of a Hamiltonian cycle; `Min(None)` otherwise.
    pub fn evaluate(&self, config: &[usize]) -> (r: Min<i64>)
        requires
            tour_weight(self@, config@) matches Some(t) ==> i64::MIN <= t <= i64::MAX,
        ensures
            r.0 matches Some(t) ==> tour_weight(self@, config@) == Some(t as int),
            r.0 is None ==> tour_weight(self@, config@) is None,
    {
        if !self.is_valid_hamiltonian_cycle(config) {
            return Min(None);
        }
        let total = selected_weight_i32(&self.edge_weights, config);
        Min(Some(total as i64))
    }
}

} // verus!
