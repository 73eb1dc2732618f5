//! Strong Connectivity Augmentation.
//!
//! Given a directed graph, weighted candidate arcs and a bound, decide whether
//! some candidate arcs of total weight at most the bound can be added so that
//! the graph becomes strongly connected. A configuration has one binary
//! variable per candidate arc.
use crate::reach::{is_strongly_connected, strongly_connected};
use crate::topology::{DigraphView, DirectedGraph};
use crate::types::Or;
use crate::util::{all_below, selected_sum};
use vstd::prelude::*;

verus! {

/// Mathematical model of a [`StrongConnectivityAugmentation`] instance.
pub struct AugmentationView {
    pub graph: DigraphView,
    pub candidate_arcs: Seq<(usize, usize, i32)>,
    pub bound: i32,
}

/// Message of the error for a negative bound.
pub open spec fn negative_bound_message() -> Seq<char> {
    "bound must be nonnegative"@
}

/// Message of the error for a candidate arc outside the graph.
pub open spec fn arc_range_message() -> Seq<char> {
    "candidate arc references a vertex outside the graph"@
}

/// Message of the error for a candidate arc without positive weight.
pub open spec fn arc_weight_message() -> Seq<char> {
    "candidate arc weight must be positive"@
}

/// Message of the error for a candidate arc already in the graph.
pub open spec fn arc_exists_message() -> Seq<char> {
    "candidate arc already exists in the base graph"@
}

/// Message of the error for a repeated candidate arc.
pub open spec fn arc_duplicate_message() -> Seq<char> {
    "duplicate candidate arc"@
}

/// Candidate `i` repeats the endpoints of an earlier candidate.
pub open spec fn repeats_earlier(cands: Seq<(usize, usize, i32)>, i: int) -> bool {
    exists|j: int| 0 <= j < i && (#[trigger] cands[j]).0 == cands[i].0 && cands[j].1 == cands[i].1
}

/// The first problem among the candidate arcs from index `i` on, in the
/// order the arcs are listed and, per arc, in the order: vertex range,
/// weight, existing arc, repetition.
pub open spec fn first_arc_error(graph: DigraphView, cands: Seq<(usize, usize, i32)>, i: int) -> Option<Seq<char>>
    decreases cands.len() - i,
{
    if i < 0 || i >= cands.len() {
        None
    } else {
        let (u, v, w) = cands[i];
        if u >= graph.num_vertices || v >= graph.num_vertices {
            Some(arc_range_message())
        } else if w <= 0 {
            Some(arc_weight_message())
        } else if graph.has_arc(u as int, v as int) {
            Some(arc_exists_message())
        } else if repeats_earlier(cands, i) {
            Some(arc_duplicate_message())
        } else {
            first_arc_error(graph, cands, i + 1)
        }
    }
}

/// The reason the instance is rejected, if any.
pub open spec fn augmentation_error(graph: DigraphView, cands: Seq<(usize, usize, i32)>, bound: i32) -> Option<Seq<char>> {
    if bound < 0 {
        Some(negative_bound_message())
    } else {
        first_arc_error(graph, cands, 0)
    }
}

impl AugmentationView {
    /// The instance is well formed: the bound is nonnegative and candidate
    /// arcs join vertices of the graph and have positive weights.
    pub open spec fn wf(self) -> bool {
        &&& self.graph.wf()
        &&& self.bound >= 0
        &&& forall|i: int|
            0 <= i < self.candidate_arcs.len() ==> (#[trigger] self.candidate_arcs[i]).0 < self.graph.num_vertices
                && self.candidate_arcs[i].1 < self.graph.num_vertices && self.candidate_arcs[i].2 > 0
    }
}

/// Weights of the candidate arcs, as integers.
pub open spec fn candidate_weights(cands: Seq<(usize, usize, i32)>) -> Seq<int> {
    cands.map_values(|c: (usize, usize, i32)| c.2 as int)
}

/// The base arcs followed by the selected candidate arcs, in order.
pub open spec fn augmented_arcs(base: Seq<(usize, usize)>, cands: Seq<(usize, usize, i32)>, config: Seq<usize>) -> Seq<(usize, usize)>
    decreases config.len(),
{
    if config.len() == 0 {
        base
    } else {
        let i = config.len() - 1;
        augmented_arcs(base, cands, config.drop_last()) + (if config[i] == 1 {
            seq![(cands[i].0, cands[i].1)]
        } else {
            Seq::empty()
        })
    }
}

/// The selected candidate arcs weigh at most the bound and make the graph
/// strongly connected.
pub open spec fn is_valid_augmentation(m: AugmentationView, config: Seq<usize>) -> bool {
    &&& config.len() == m.candidate_arcs.len()
    &&& all_below(config, 2)
    &&& selected_sum(candidate_weights(m.candidate_arcs), config) <= m.bound
    &&& strongly_connected(m.graph.num_vertices, augmented_arcs(m.graph.arcs, m.candidate_arcs, config))
}

/// With positive weights, a prefix of the selection weighs no more than the
/// whole selection.
proof fn lemma_prefix_weight(w: Seq<int>, config: Seq<usize>, j: int)
    requires
        0 <= j <= config.len(),
        forall|i: int| 0 <= i < w.len() ==> #[trigger] w[i] > 0,
    ensures
        selected_sum(w, config.take(j)) <= selected_sum(w, config),
    decreases config.len() - j,
{
    if j < config.len() {
        lemma_prefix_weight(w, config, j + 1);
        assert(config.take(j + 1).drop_last() =~= config.take(j));
    } else {
        assert(config.take(j) =~= config);
    }
}

/// Strong Connectivity Augmentation.
#[derive(Debug)]
pub struct StrongConnectivityAugmentation {
    graph: DirectedGraph,
    candidate_arcs: Vec<(usize, usize, i32)>,
    bound: i32,
}

impl View for StrongConnectivityAugmentation {
    type V = AugmentationView;

    closed spec fn view(&self) -> AugmentationView {
        AugmentationView { graph: self.graph@, candidate_arcs: self.candidate_arcs@, bound: self.bound }
    }
}

impl StrongConnectivityAugmentation {
    /// The stored instance is well formed.
    #[verifier::type_invariant]
    pub closed spec fn inv(self) -> bool {
        self@.wf()
    }

    /// Create an instance, or report the first problem found with the bound
    /// or the candidate arcs.
    pub fn try_new(graph: DirectedGraph, candidate_arcs: Vec<(usize, usize, i32)>, bound: i32) -> (r: Result<
        Self,
        String,
    >)
        ensures
            match r {
                Ok(p) => augmentation_error(graph@, candidate_arcs@, bound) is None && p@ == (AugmentationView {
                    graph: graph@,
                    candidate_arcs: candidate_arcs@,
                    bound,
                }),
                Err(e) => augmentation_error(graph@, candidate_arcs@, bound) == Some(e@),
            },
    {
        proof {
            use_type_invariant(&graph);
        }
        if bound < 0 {
            return Err("bound must be nonnegative".to_owned());
        }
        let n = graph.num_vertices();
        let ghost cands = candidate_arcs@;
        for i in 0..candidate_arcs.len()
            invariant
                cands == candidate_arcs@,
                n == graph@.num_vertices,
                bound >= 0,
                first_arc_error(graph@, cands, 0) == first_arc_error(graph@, cands, i as int),
                forall|k: int|
                    0 <= k < i ==> (#[trigger] cands[k]).0 < n && cands[k].1 < n && cands[k].2 > 0,
        {
            let (u, v, w) = candidate_arcs[i];
            assert(cands[i as int] == (u, v, w));
            if u >= n || v >= n {
                return Err("candidate arc references a vertex outside the graph".to_owned());
            }
            if w <= 0 {
                return Err("candidate arc weight must be positive".to_owned());
            }
            if graph.has_arc(u, v) {
                return Err("candidate arc already exists in the base graph".to_owned());
            }
            for j in 0..i
                invariant
                    cands == candidate_arcs@,
                    i < cands.len(),
                    cands[i as int] == (u, v, w),
                    forall|k: int| 0 <= k < j ==> !((#[trigger] cands[k]).0 == u && cands[k].1 == v),
            {
                let (a, b, _) = candidate_arcs[j];
                assert(cands[j as int].0 == a && cands[j as int].1 == b);
                if a == u && b == v {
                    assert(repeats_earlier(cands, i as int));
                    return Err("duplicate candidate arc".to_owned());
                }
            }
        }
        Ok(StrongConnectivityAugmentation { graph, candidate_arcs, bound })
    }

    /// Create an instance whose bound and candidate arcs are valid.
    pub fn new(graph: DirectedGraph, candidate_arcs: Vec<(usize, usize, i32)>, bound: i32) -> (r: Self)
        requires
            augmentation_error(graph@, candidate_arcs@, bound) is None,
        ensures
            r@ == (AugmentationView { graph: graph@, candidate_arcs: candidate_arcs@, bound }),
    {
        match Self::try_new(graph, candidate_arcs, bound) {
            Ok(p) => p,
            Err(_) => vstd::pervasive::unreached(),
        }
    }

    /// Get the base directed graph.
    pub fn graph(&self) -> (r: &DirectedGraph)
        ensures
            r@ == self@.graph,
    {
        &self.graph
    }

    /// Get the candidate augmenting arcs.
    pub fn candidate_arcs(&self) -> (r: &[(usize, usize, i32)])
        ensures
            r@ == self@.candidate_arcs,
    {
        self.candidate_arcs.as_slice()
    }

    /// Get the upper bound on the total added weight.
    pub fn bound(&self) -> (r: i32)
        ensures
            r == self@.bound,
    {
        self.bound
    }

    /// Get the number of vertices in the base graph.
    pub fn num_vertices(&self) -> (r: usize)
        ensures
            r == self@.graph.num_vertices,
    {
        self.graph.num_vertices()
    }

    /// Get the number of arcs in the base graph.
    pub fn num_arcs(&self) -> (r: usize)
        ensures
            r == self@.graph.arcs.len(),
    {
        self.graph.num_arcs()
    }

    /// Get the number of potential augmenting arcs.
    pub fn num_potential_arcs(&self) -> (r: usize)
        ensures
            r == self@.candidate_arcs.len(),
    {
        self.candidate_arcs.len()
    }

    /// Whether the weight type carries non-unit weights (always, for `i32`).
    pub fn is_weighted(&self) -> (r: bool)
        ensures
            r,
    {
        true
    }

    /// Whether the selected candidate arcs form a valid augmentation.
    pub fn is_valid_solution(&self, config: &[usize]) -> (r: bool)
        ensures
            r == is_valid_augmentation(self@, config@),
    {
        self.evaluate_config(config)
    }

    fn evaluate_config(&self, config: &[usize]) -> (r: bool)
        ensures
            r == is_valid_augmentation(self@, config@),
    {
        proof {
            use_type_invariant(self);
        }
        if config.len() != self.candidate_arcs.len() {
            return false;
        }
        let ghost w = candidate_weights(self@.candidate_arcs);
        let mut total: i128 = 0;
        let mut augmented = self.graph.arcs();
        let n = self.graph.num_vertices();
        for i in 0..config.len()
            invariant
                config@.len() == self@.candidate_arcs.len(),
                w == candidate_weights(self@.candidate_arcs),
                self@.wf(),
                n == self@.graph.num_vertices,
                all_below(config@.take(i as int), 2),
                total == selected_sum(w, config@.take(i as int)),
                total <= self@.bound,
                augmented@ == augmented_arcs(self@.graph.arcs, self@.candidate_arcs, config@.take(i as int)),
                forall|k: int| 0 <= k < augmented@.len() ==> (#[trigger] augmented@[k]).0 < n && augmented@[k].1 < n,
        {
            let selected = config[i];
            assert(config@.take(i + 1).drop_last() =~= config@.take(i as int));
            if selected > 1 {
                assert(!all_below(config@, 2)) by {
                    assert(!(config@[i as int] < 2));
                }
                return false;
            }
            assert(all_below(config@.take(i + 1), 2));
            if selected == 1 {
                let (u, v, weight) = self.candidate_arcs[i];
                assert(self@.candidate_arcs[i as int] == (u, v, weight));
                total = total + weight as i128;
                if total > self.bound as i128 {
                    proof {
                        assert forall|k: int| 0 <= k < w.len() implies #[trigger] w[k] > 0 by {
                            assert(self@.candidate_arcs[k].2 > 0);
                        }
                        lemma_prefix_weight(w, config@, i + 1);
                    }
                    return false;
                }
                augmented.push((u, v));
            }
            assert(augmented@ =~= augmented_arcs(self@.graph.arcs, self@.candidate_arcs, config@.take(i + 1)));
        }
        assert(config@.take(config@.len() as int) =~= config@);
        is_strongly_connected(n, augmented.as_slice())
    }

    /// One binary variable per candidate arc.
    pub fn dims(&self) -> (r: Vec<usize>)
        ensures
            r@ == Seq::new(self@.candidate_arcs.len(), |i: int| 2usize),
    {
        crate::util::repeat_usize(2, self.candidate_arcs.len())
    }

    /// Whether the selected candidate arcs form a valid augmentation.
    pub fn evaluate(&self, config: &[usize]) -> (r: Or)
        ensures
            r == Or(is_valid_augmentation(self@, config@)),
    {
        Or(self.evaluate_config(config))
    }
}

} // verus!
