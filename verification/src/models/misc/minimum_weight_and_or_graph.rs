//! Minimum Weight AND/OR Graph.
//!
//! In a directed graph every vertex is an AND gate, an OR gate or a leaf. A
//! solution is a set of arcs such that, starting from the source gate, every
//! solved AND gate has all its outgoing arcs selected and every solved OR
//! gate at least one, where a vertex is solved when it is the source or the
//! head of a selected arc leaving a solved gate; no selected arc may leave an
//! unsolved vertex. Minimize the total weight of the selected arcs. A
//! configuration has one binary variable per arc.
use crate::reach::{arc_step_fn, reach_by_kept_arcs, reaches};
use crate::types::Min;
use crate::util::{all_below, check_all_below, ints_i32, selected_sum, selected_weight_i32};
use vstd::prelude::*;

verus! {

/// Mathematical model of a [`MinimumWeightAndOrGraph`] instance.
pub struct AndOrGraphView {
    pub num_vertices: nat,
    pub arcs: Seq<(usize, usize)>,
    pub source: usize,
    pub gate_types: Seq<Option<bool>>,
    pub arc_weights: Seq<i32>,
}

impl AndOrGraphView {
    /// The instance is well formed: the source is a gate, one gate type per
    /// vertex, one weight per arc, arcs inside the graph.
    pub open spec fn wf(self) -> bool {
        &&& self.source < self.num_vertices
        &&& self.gate_types.len() == self.num_vertices
        &&& self.arc_weights.len() == self.arcs.len()
        &&& forall|i: int|
            0 <= i < self.arcs.len() ==> (#[trigger] self.arcs[i]).0 < self.num_vertices && self.arcs[i].1
                < self.num_vertices
        &&& self.gate_types[self.source as int] is Some
    }
}

/// The selected arcs that leave a gate: the arcs along which solving spreads.
pub open spec fn spreading_arcs(m: AndOrGraphView, config: Seq<usize>) -> Seq<bool> {
    Seq::new(m.arcs.len(), |i: int| config[i] == 1 && m.gate_types[m.arcs[i].0 as int] is Some)
}

/// `v` is solved: reached from the source along spreading arcs.
pub open spec fn solved(m: AndOrGraphView, config: Seq<usize>, v: usize) -> bool {
    reaches(arc_step_fn(m.arcs, spreading_arcs(m, config), true), m.source, v)
}

/// The condition at vertex `v`: an AND vertex has every outgoing arc
/// selected, an OR vertex at least one; leaves impose nothing.
pub open spec fn gate_satisfied(m: AndOrGraphView, config: Seq<usize>, v: usize) -> bool {
    match m.gate_types[v as int] {
        None => true,
        Some(is_and) => if is_and {
            forall|i: int| 0 <= i < m.arcs.len() && (#[trigger] m.arcs[i]).0 == v ==> config[i] == 1
        } else {
            exists|i: int| 0 <= i < m.arcs.len() && (#[trigger] m.arcs[i]).0 == v && config[i] == 1
        },
    }
}

/// Total weight of a valid solution graph, `None` otherwise.
pub open spec fn solution_weight(m: AndOrGraphView, config: Seq<usize>) -> Option<int> {
    if config.len() != m.arcs.len() || !all_below(config, 2) {
        None
    } else if exists|v: usize| v < m.num_vertices && #[trigger] solved(m, config, v) && !gate_satisfied(m, config, v) {
        None
    } else if exists|i: int| 0 <= i < m.arcs.len() && config[i] == 1 && !solved(m, config, (#[trigger] m.arcs[i]).0) {
        None
    } else {
        Some(selected_sum(ints_i32(m.arc_weights), config))
    }
}

/// The Minimum Weight AND/OR Graph problem.
#[derive(Debug)]
pub struct MinimumWeightAndOrGraph {
    num_vertices: usize,
    arcs: Vec<(usize, usize)>,
    source: usize,
    gate_types: Vec<Option<bool>>,
    arc_weights: Vec<i32>,
}

impl View for MinimumWeightAndOrGraph {
    type V = AndOrGraphView;

    closed spec fn view(&self) -> AndOrGraphView {
        AndOrGraphView {
            num_vertices: self.num_vertices as nat,
            arcs: self.arcs@,
            source: self.source,
            gate_types: self.gate_types@,
            arc_weights: self.arc_weights@,
        }
    }
}

impl MinimumWeightAndOrGraph {
    /// The stored instance is well formed.
    #[verifier::type_invariant]
    pub closed spec fn inv(self) -> bool {
        self@.wf()
    }

    /// Create a new instance.
    pub fn new(
        num_vertices: usize,
        arcs: Vec<(usize, usize)>,
        source: usize,
        gate_types: Vec<Option<bool>>,
        arc_weights: Vec<i32>,
    ) -> (r: Self)
        requires
            (AndOrGraphView {
                num_vertices: num_vertices as nat,
                arcs: arcs@,
                source,
                gate_types: gate_types@,
                arc_weights: arc_weights@,
            }).wf(),
        ensures
            r@ == (AndOrGraphView {
                num_vertices: num_vertices as nat,
                arcs: arcs@,
                source,
                gate_types: gate_types@,
                arc_weights: arc_weights@,
            }),
    {
        MinimumWeightAndOrGraph { num_vertices, arcs, source, gate_types, arc_weights }
    }

    /// Get the number of vertices.
    pub fn num_vertices(&self) -> (r: usize)
        ensures
            r == self@.num_vertices,
    {
        self.num_vertices
    }

    /// Get the number of arcs.
    pub fn num_arcs(&self) -> (r: usize)
        ensures
            r == self@.arcs.len(),
    {
        self.arcs.len()
    }

    /// Get the arcs.
    pub fn arcs(&self) -> (r: &[(usize, usize)])
        ensures
            r@ == self@.arcs,
    {
        self.arcs.as_slice()
    }

    /// Get the source vertex.
    pub fn source(&self) -> (r: usize)
        ensures
            r == self@.source,
    {
        self.source
    }

    /// Get the vertex kinds (`Some(true)` AND, `Some(false)` OR, `None` leaf).
    pub fn gate_types(&self) -> (r: &[Option<bool>])
        ensures
            r@ == self@.gate_types,
    {
        self.gate_types.as_slice()
    }

    /// Get the arc weights.
    pub fn arc_weights(&self) -> (r: &[i32])
        ensures
            r@ == self@.arc_weights,
    {
        self.arc_weights.as_slice()
    }

    /// Whether the condition at vertex `v` holds.
    fn check_gate(&self, config: &[usize], v: usize) -> (r: bool)
        requires
            self@.wf(),
            v < self@.num_vertices,
            config@.len() == self@.arcs.len(),
        ensures
            r == gate_satisfied(self@, config@, v),
    {
        match self.gate_types[v] {
            None => true,
            Some(is_and) => {
                let mut all = true;
                let mut any = false;
                for i in 0..self.arcs.len()
                    invariant
                        config@.len() == self@.arcs.len(),
                        all == forall|j: int| 0 <= j < i && (#[trigger] self@.arcs[j]).0 == v ==> config@[j] == 1,
                        any == exists|j: int| 0 <= j < i && (#[trigger] self@.arcs[j]).0 == v && config@[j] == 1,
                {
                    let (u, _) = self.arcs[i];
                    assert(self@.arcs[i as int].0 == u);
                    if u == v {
                        if config[i] == 1 {
                            any = true;
                        } else {
                            all = false;
                        }
                    }
                }
                if is_and { all } else { any }
            },
        }
    }

    /// One binary variable per arc.
    pub fn dims(&self) -> (r: Vec<usize>)
        ensures
            r@ == Seq::new(self@.arcs.len(), |i: int| 2usize),
    {
        crate::util::repeat_usize(2, self.arcs.len())
    }

    /// Total weight of a valid solution graph; `Min(None)` otherwise.
    pub fn evaluate(&self, config: &[usize]) -> (r: Min<i32>)
        requires
            solution_weight(self@, config@) matches Some(w) ==> i32::MIN <= w <= i32::MAX,
        ensures
            r.0 matches Some(w) ==> solution_weight(self@, config@) == Some(w as int),
            r.0 is None ==> solution_weight(self@, config@) is None,
    {
        proof {
            use_type_invariant(self);
        }
        let m = self.arcs.len();
        if config.len() != m || !check_all_below(config, 2) {
            return Min(None);
        }
        let mut keep: Vec<bool> = Vec::new();
        for i in 0..m
            invariant
                self@.wf(),
                m == self@.arcs.len(),
                config@.len() == m,
                keep@ =~= spreading_arcs(self@, config@).take(i as int),
        {
            let (u, _) = self.arcs[i];
            assert(self@.arcs[i as int].0 == u);
            keep.push(config[i] == 1 && self.gate_types[u].is_some());
        }
        assert(keep@ =~= spreading_arcs(self@, config@));
        let n = self.num_vertices;
        let solved_flags = reach_by_kept_arcs(n, self.arcs.as_slice(), keep.as_slice(), true, self.source);
        for v in 0..n
            invariant
                self@.wf(),
                n == self@.num_vertices,
                config@.len() == m,
                m == self@.arcs.len(),
                solved_flags@.len() == n,
                forall|w: int| 0 <= w < n ==> (#[trigger] solved_flags@[w] <==> solved(self@, config@, w as usize)),
                forall|w: usize| w < v && #[trigger] solved(self@, config@, w) ==> gate_satisfied(self@, config@, w),
        {
            assert(solved_flags@[v as int] <==> solved(self@, config@, v));
            if solved_flags[v] && !self.check_gate(config, v) {
                return Min(None);
            }
        }
        for i in 0..m
            invariant
                self@.wf(),
                n == self@.num_vertices,
                config@.len() == m,
                m == self@.arcs.len(),
                solved_flags@.len() == n,
                forall|w: int| 0 <= w < n ==> (#[trigger] solved_flags@[w] <==> solved(self@, config@, w as usize)),
                forall|j: int| 0 <= j < i && config@[j] == 1 ==> solved(self@, config@, (#[trigger] self@.arcs[j]).0),
        {
            let (u, _) = self.arcs[i];
            assert(self@.arcs[i as int].0 == u);
            assert(solved_flags@[u as int] <==> solved(self@, config@, u));
            if config[i] == 1 && !solved_flags[u] {
                return Min(None);
            }
        }
        let total = selected_weight_i32(self.arc_weights.as_slice(), config);
        Min(Some(total as i32))
    }
}

} // verus!
