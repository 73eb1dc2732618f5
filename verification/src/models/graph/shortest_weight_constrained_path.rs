//! Shortest Weight-Constrained Path.
//!
//! The Shortest Weight-Constrained Path problem finds a simple path from a
//! source vertex to a target vertex that minimizes total length while keeping
//! the total weight within a prescribed bound.
use crate::reach::{kept_degree, kept_degrees, link_step, reach_by_kept_edges, reaches};
use crate::topology::{GraphView, SimpleGraph};
use crate::types::Min;
use crate::util::{
    all_below, all_positive_i32, check_all_below, count_of,
    count_true, count_true_flags, count_value, ints_i32, ones_flags, ones_of, selected_sum,
    selected_weight_i32,
};
use vstd::prelude::*;

verus! {

/// Mathematical model of a [`ShortestWeightConstrainedPath`] instance.
pub struct ShortestWeightConstrainedPathView {
    pub graph: GraphView,
    pub edge_lengths: Seq<i32>,
    pub edge_weights: Seq<i32>,
    pub source_vertex: usize,
    pub target_vertex: usize,
    pub weight_bound: i32,
}

impl ShortestWeightConstrainedPathView {
    /// The instance is well formed: one positive length and weight per edge,
    /// both endpoints inside the graph and a positive weight bound.
    pub open spec fn wf(self) -> bool {
        &&& self.graph.wf()
        &&& self.edge_lengths.len() == self.graph.edges.len()
        &&& self.edge_weights.len() == self.graph.edges.len()
        &&& all_positive_i32(self.edge_lengths)
        &&& all_positive_i32(self.edge_weights)
        &&& self.source_vertex < self.graph.num_vertices
        &&& self.target_vertex < self.graph.num_vertices
        &&& self.weight_bound > 0
    }
}

/// Flags the vertices `0..n` that some selected edge touches.
pub open spec fn used_vertices(graph: GraphView, sel: Seq<bool>) -> Seq<bool> {
    Seq::new(graph.num_vertices, |v: int| kept_degree(graph.edges, sel, v as usize) > 0)
}

/// For distinct endpoints: the edges selected (value 1) by `config` form one
/// simple path from the source to the target whose total weight is within the
/// bound.
pub open spec fn is_constrained_st_path(m: ShortestWeightConstrainedPathView, config: Seq<usize>) -> bool {
    let sel = ones_of(config);
    let step = link_step(m.graph.edges, sel);
    let s = m.source_vertex;
    let t = m.target_vertex;
    &&& count_of(config, 1) > 0
    &&& selected_sum(ints_i32(m.edge_weights), config) <= m.weight_bound
    &&& kept_degree(m.graph.edges, sel, s) == 1
    &&& kept_degree(m.graph.edges, sel, t) == 1
    &&& forall|v: usize|
        v < m.graph.num_vertices && v != s && v != t ==> #[trigger] kept_degree(m.graph.edges, sel, v) == 0
            || kept_degree(m.graph.edges, sel, v) == 2
    &&& reaches(step, s, t)
    &&& forall|v: usize|
        v < m.graph.num_vertices && #[trigger] kept_degree(m.graph.edges, sel, v) > 0 ==> reaches(step, s, v)
    &&& count_true(used_vertices(m.graph, sel)) == count_of(config, 1) + 1
}

/// Total length of the selected path when `config` is a binary edge selection
/// forming a weight-feasible simple source-target path (the empty selection
/// when source and target coincide), `None` otherwise.
pub open spec fn constrained_path_length(m: ShortestWeightConstrainedPathView, config: Seq<usize>) -> Option<int> {
    if config.len() != m.graph.edges.len() || !all_below(config, 2) {
        None
    } else if m.source_vertex == m.target_vertex {
        if count_of(config, 1) == 0 {
            Some(0)
        } else {
            None
        }
    } else if is_constrained_st_path(m, config) {
        Some(selected_sum(ints_i32(m.edge_lengths), config))
    } else {
        None
    }
}

/// Summing values between 1 and `i32::MAX` over the selected positions gives
/// at least the number of selected positions and at most `i32::MAX` times it.
proof fn lemma_selected_sum_between(vals: Seq<int>, sel: Seq<usize>)
    requires
        sel.len() <= vals.len(),
        forall|i: int| 0 <= i < vals.len() ==> 1 <= #[trigger] vals[i] <= 0x7fff_ffff,
    ensures
        count_of(sel, 1) <= selected_sum(vals, sel) <= count_of(sel, 1) * 0x7fff_ffff,
    decreases sel.len(),
{
    if sel.len() > 0 {
        lemma_selected_sum_between(vals, sel.drop_last());
        assert(1 <= vals[sel.len() - 1] <= 0x7fff_ffff);
    }
}

/// A valid configuration has a path length that fits in `i64`: the path
/// has at most as many edges as the weight bound allows, each of length at
/// most `i32::MAX`.
proof fn lemma_path_length_fits(m: ShortestWeightConstrainedPathView, config: Seq<usize>)
    requires
        m.wf(),
    ensures
        constrained_path_length(m, config) matches Some(x) ==> 0 <= x <= 0x3fff_ffff_0000_0001,
{
    if config.len() == m.graph.edges.len() && all_below(config, 2) && m.source_vertex != m.target_vertex
        && is_constrained_st_path(m, config) {
        let lengths = ints_i32(m.edge_lengths);
        let weights = ints_i32(m.edge_weights);
        assert forall|i: int| 0 <= i < lengths.len() implies 1 <= #[trigger] lengths[i] <= 0x7fff_ffff by {
            assert(m.edge_lengths[i] > 0);
        }
        assert forall|i: int| 0 <= i < weights.len() implies 1 <= #[trigger] weights[i] <= 0x7fff_ffff by {
            assert(m.edge_weights[i] > 0);
        }
        lemma_selected_sum_between(lengths, config);
        lemma_selected_sum_between(weights, config);
        let c = count_of(config, 1);
        assert(c <= 0x7fff_ffff);
        assert(c * 0x7fff_ffff <= 0x7fff_ffff * 0x7fff_ffff);
    }
}

/// The Shortest Weight-Constrained Path problem.
#[derive(Debug)]
pub struct ShortestWeightConstrainedPath {
    graph: SimpleGraph,
    edge_lengths: Vec<i32>,
    edge_weights: Vec<i32>,
    source_vertex: usize,
    target_vertex: usize,
    weight_bound: i32,
}

impl View for ShortestWeightConstrainedPath {
    type V = ShortestWeightConstrainedPathView;

    closed spec fn view(&self) -> ShortestWeightConstrainedPathView {
        ShortestWeightConstrainedPathView {
            graph: self.graph@,
            edge_lengths: self.edge_lengths@,
            edge_weights: self.edge_weights@,
            source_vertex: self.source_vertex,
            target_vertex: self.target_vertex,
            weight_bound: self.weight_bound,
        }
    }
}

impl ShortestWeightConstrainedPath {
    /// The stored instance is well formed.
    #[verifier::type_invariant]
    pub closed spec fn inv(self) -> bool {
        self@.wf()
    }

    /// Create a new instance; lengths and weights are given in edge order.
    pub fn new(
        graph: SimpleGraph,
        edge_lengths: Vec<i32>,
        edge_weights: Vec<i32>,
        source_vertex: usize,
        target_vertex: usize,
        weight_bound: i32,
    ) -> (r: Self)
        requires
            edge_lengths@.len() == graph@.edges.len(),
            edge_weights@.len() == graph@.edges.len(),
            all_positive_i32(edge_lengths@),
            all_positive_i32(edge_weights@),
            source_vertex < graph@.num_vertices,
            target_vertex < graph@.num_vertices,
            weight_bound > 0,
        ensures
            r@ == (ShortestWeightConstrainedPathView {
                graph: graph@,
                edge_lengths: edge_lengths@,
                edge_weights: edge_weights@,
                source_vertex,
                target_vertex,
                weight_bound,
            }),
    {
        proof {
            use_type_invariant(&graph);
        }
        ShortestWeightConstrainedPath {
            graph,
            edge_lengths,
            edge_weights,
            source_vertex,
            target_vertex,
            weight_bound,
        }
    }

    /// Get a reference to the underlying graph.
    pub fn graph(&self) -> (r: &SimpleGraph)
        ensures
            r@ == self@.graph,
    {
        &self.graph
    }

    /// Get the edge lengths.
    pub fn edge_lengths(&self) -> (r: &[i32])
        ensures
            r@ == self@.edge_lengths,
    {
        self.edge_lengths.as_slice()
    }

    /// Get the edge weights.
    pub fn edge_weights(&self) -> (r: &[i32])
        ensures
            r@ == self@.edge_weights,
    {
        self.edge_weights.as_slice()
    }

    /// Set new edge lengths.
    pub fn set_lengths(&mut self, edge_lengths: Vec<i32>)
        requires
            edge_lengths@.len() == old(self)@.graph.edges.len(),
            all_positive_i32(edge_lengths@),
        ensures
            final(self)@ == (ShortestWeightConstrainedPathView { edge_lengths: edge_lengths@, ..old(self)@ }),
    {
        proof {
            use_type_invariant(&*self);
        }
        self.edge_lengths = edge_lengths;
    }

    /// Set new edge weights.
    pub fn set_weights(&mut self, edge_weights: Vec<i32>)
        requires
            edge_weights@.len() == old(self)@.graph.edges.len(),
            all_positive_i32(edge_weights@),
        ensures
            final(self)@ == (ShortestWeightConstrainedPathView { edge_weights: edge_weights@, ..old(self)@ }),
    {
        proof {
            use_type_invariant(&*self);
        }
        self.edge_weights = edge_weights;
    }

    /// Get the source vertex.
    pub fn source_vertex(&self) -> (r: usize)
        ensures
            r == self@.source_vertex,
    {
        self.source_vertex
    }

    /// Get the target vertex.
    pub fn target_vertex(&self) -> (r: usize)
        ensures
            r == self@.target_vertex,
    {
        self.target_vertex
    }

    /// Get the weight bound.
    pub fn weight_bound(&self) -> (r: i32)
        ensures
            r == self@.weight_bound,
    {
        self.weight_bound
    }

    /// Whether the length/weight type carries non-unit values (always, for `i32`).
    pub fn is_weighted(&self) -> (r: bool)
        ensures
            r,
    {
        true
    }

    /// Get the number of vertices in the graph.
    pub fn num_vertices(&self) -> (r: usize)
        ensures
            r == self@.graph.num_vertices,
    {
        self.graph.num_vertices()
    }

    /// Get the number of edges in the graph.
    pub fn num_edges(&self) -> (r: usize)
        ensures
            r == self@.graph.edges.len(),
    {
        self.graph.num_edges()
    }

    /// Total length of a valid weight-constrained source-target path, `None`
    /// for any other configuration.
    pub fn is_valid_solution(&self, config: &[usize]) -> (r: Option<i64>)
        ensures
            r matches Some(x) ==> constrained_path_length(self@, config@) == Some(x as int),
            r is None ==> constrained_path_length(self@, config@) is None,
    {
        proof {
            use_type_invariant(self);
            lemma_path_length_fits(self@, config@);
        }
        let edges = self.graph.edge_slice();
        if config.len() != edges.len() || !check_all_below(config, 2) {
            return None;
        }
        let selected_count = count_value(config, 1);
        if self.source_vertex == self.target_vertex {
            if selected_count > 0 {
                return None;
            }
            return Some(0);
        }
        let n = self.graph.num_vertices();
        let s = self.source_vertex;
        let t = self.target_vertex;
        let selected = ones_flags(config);
        let ghost sel = ones_of(config@);
        let degree = kept_degrees(n, edges, &selected);
        if selected_count == 0 {
            return None;
        }
        let total_weight = selected_weight_i32(&self.edge_weights, config);
        if total_weight > self.weight_bound as i128 {
            return None;
        }
        if degree[s] != 1 || degree[t] != 1 {
            return None;
        }
        for v in 0..n
            invariant
                degree@.len() == n,
                forall|w: int| 0 <= w < n ==> #[trigger] degree@[w] == kept_degree(edges@, sel, w as usize),
                forall|w: usize|
                    w < v && w != s && w != t ==> #[trigger] kept_degree(edges@, sel, w) == 0
                        || kept_degree(edges@, sel, w) == 2,
        {
            assert(degree@[v as int] == kept_degree(edges@, sel, v));
            if v != s && v != t && degree[v] != 0 && degree[v] != 2 {
                return None;
            }
        }
        let visited = reach_by_kept_edges(n, edges, &selected, s);
        assert(visited@[t as int] <==> reaches(link_step(edges@, sel), s, t));
        if !visited[t] {
            return None;
        }
        let mut used: Vec<bool> = Vec::new();
        for v in 0..n
            invariant
                degree@.len() == n,
                visited@.len() == n,
                forall|w: int| 0 <= w < n ==> #[trigger] degree@[w] == kept_degree(edges@, sel, w as usize),
                forall|w: int| 0 <= w < n ==> (#[trigger] visited@[w] <==> reaches(link_step(edges@, sel), s, w as usize)),
                used@ =~= used_vertices(self@.graph, sel).take(v as int),
                forall|w: usize|
                    w < v && #[trigger] kept_degree(edges@, sel, w) > 0 ==> reaches(link_step(edges@, sel), s, w),
        {
            assert(degree@[v as int] == kept_degree(edges@, sel, v));
            assert(visited@[v as int] <==> reaches(link_step(edges@, sel), s, v));
            if degree[v] > 0 && !visited[v] {
                return None;
            }
            used.push(degree[v] > 0);
        }
        assert(used@ =~= used_vertices(self@.graph, sel));
        let used_count = count_true_flags(&used);
        if used_count > 0 && used_count - 1 == selected_count {
            let total = selected_weight_i32(&self.edge_lengths, config);
            Some(total as i64)
        } else {
            None
        }
    }

    /// One binary variable per edge.
    pub fn dims(&self) -> (r: Vec<usize>)
        ensures
            r@ == Seq::new(self@.graph.edges.len(), |i: int| 2usize),
    {
        crate::util::repeat_usize(2, self.graph.num_edges())
    }

    /// Path length of a valid configuration; `Min(None)` otherwise.
    pub fn evaluate(&self, config: &[usize]) -> (r: Min<i64>)
        ensures
            r.0 matches Some(x) ==> constrained_path_length(self@, config@) == Some(x as int),
            r.0 is None ==> constrained_path_length(self@, config@) is None,
    {
        Min(self.is_valid_solution(config))
    }
}

} // verus!
