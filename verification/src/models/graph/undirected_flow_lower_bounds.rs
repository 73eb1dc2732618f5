//! Undirected Flow with Lower Bounds.
//!
//! Given an undirected graph with a lower and an upper capacity on each edge,
//! a source, a sink and a requirement, decide whether the edges can be
//! oriented and given a flow within their bounds, conserved at every other
//! vertex, that brings at least the requirement into the sink.
//!
//! A configuration holds one orientation choice per edge, in edge order: `0`
//! orients the stored edge `(u, v)` as `u -> v`, `1` as `v -> u`. For a fixed
//! orientation the question is whether a circulation with lower bounds
//! exists once an arc from the sink back to the source is added.
use crate::circulation::{
    has_circulation, has_feasible_circulation, is_circulation, lemma_net_total_zero, lemma_sums_prefix,
    lemma_total_add, lemma_total_single,
};
use crate::flow::{arcs_within, in_sum, ints_u128, net_out, out_sum};
use crate::topology::{GraphView, SimpleGraph};
use crate::types::Or;
use crate::util::{ints_u64, sum_u64, sum_u64s};
use vstd::prelude::*;

verus! {

/// Mathematical model of an [`UndirectedFlowLowerBounds`] instance.
pub struct FlowLowerBoundsView {
    pub graph: GraphView,
    pub capacities: Seq<u64>,
    pub lower_bounds: Seq<u64>,
    pub source: usize,
    pub sink: usize,
    pub requirement: u64,
}

impl FlowLowerBoundsView {
    /// The instance is well formed: one capacity and one lower bound per
    /// edge, each lower bound at most its capacity, two distinct terminals in
    /// the graph and a positive requirement.
    pub open spec fn wf(self) -> bool {
        &&& self.graph.wf()
        &&& self.capacities.len() == self.graph.edges.len()
        &&& self.lower_bounds.len() == self.graph.edges.len()
        &&& forall|e: int| 0 <= e < self.capacities.len() ==> #[trigger] self.lower_bounds[e] <= self.capacities[e]
        &&& self.source < self.graph.num_vertices
        &&& self.sink < self.graph.num_vertices
        &&& self.source != self.sink
        &&& self.requirement >= 1
    }
}

/// The edges oriented by `config`: `0` keeps `(u, v)`, anything else reverses it.
pub open spec fn oriented_edges(edges: Seq<(usize, usize)>, config: Seq<usize>) -> Seq<(usize, usize)> {
    Seq::new(edges.len(), |e: int| if config[e] == 0 { edges[e] } else { (edges[e].1, edges[e].0) })
}

/// `f` gives each oriented edge a value between its lower bound and its
/// capacity, is conserved at every vertex but the source and the sink, and
/// brings at least the requirement into the sink.
pub open spec fn is_lower_bounded_flow(m: FlowLowerBoundsView, config: Seq<usize>, f: Seq<int>) -> bool {
    let arcs = oriented_edges(m.graph.edges, config);
    &&& f.len() == m.graph.edges.len()
    &&& forall|e: int|
        0 <= e < f.len() ==> m.lower_bounds[e] as int <= #[trigger] f[e] <= m.capacities[e] as int
    &&& forall|v: int|
        0 <= v < m.graph.num_vertices && v != m.source && v != m.sink ==> #[trigger] net_out(arcs, f, v) == 0
    &&& -net_out(arcs, f, m.sink as int) >= m.requirement
}

/// `config` is an orientation of every edge under which a lower-bounded
/// flow meeting the requirement exists.
pub open spec fn is_feasible_orientation(m: FlowLowerBoundsView, config: Seq<usize>) -> bool {
    &&& config.len() == m.graph.edges.len()
    &&& forall|e: int| 0 <= e < config.len() ==> #[trigger] config[e] <= 1
    &&& exists|f: Seq<int>| is_lower_bounded_flow(m, config, f)
}

/// The oriented edges followed by a return arc from the sink to the source.
pub open spec fn return_arcs(m: FlowLowerBoundsView, config: Seq<usize>) -> Seq<(usize, usize)> {
    oriented_edges(m.graph.edges, config).push((m.sink, m.source))
}

/// Lower bounds of [`return_arcs`]: the return arc carries at least the requirement.
pub open spec fn return_lower(m: FlowLowerBoundsView) -> Seq<int> {
    ints_u64(m.lower_bounds).push(m.requirement as int)
}

/// Upper bounds of [`return_arcs`]: the return arc carries at most the total capacity.
pub open spec fn return_upper(m: FlowLowerBoundsView) -> Seq<int> {
    ints_u64(m.capacities).push(sum_u64(m.capacities))
}

proof fn lemma_sums_within(arcs: Seq<(usize, usize)>, f: Seq<int>, caps: Seq<u64>, v: int, k: int)
    requires
        0 <= k <= caps.len(),
        forall|e: int| 0 <= e < k ==> 0 <= #[trigger] f[e] <= caps[e],
    ensures
        0 <= out_sum(arcs, f, v, k),
        in_sum(arcs, f, v, k) <= sum_u64(caps.take(k)),
    decreases k,
{
    if k > 0 {
        lemma_sums_within(arcs, f, caps, v, k - 1);
        assert(caps.take(k).drop_last() =~= caps.take(k - 1));
        assert(0 <= f[k - 1] <= caps[k - 1]);
    }
}

/// What a lower-bounded flow brings into the sink is at most the total capacity.
proof fn lemma_inflow_bounded(m: FlowLowerBoundsView, config: Seq<usize>, f: Seq<int>)
    requires
        m.wf(),
        is_lower_bounded_flow(m, config, f),
    ensures
        -net_out(oriented_edges(m.graph.edges, config), f, m.sink as int) <= sum_u64(m.capacities),
{
    let k = m.graph.edges.len() as int;
    assert forall|e: int| 0 <= e < k implies 0 <= #[trigger] f[e] <= m.capacities[e] by {
        assert(m.lower_bounds[e] as int <= f[e] <= m.capacities[e] as int);
    }
    lemma_sums_within(oriented_edges(m.graph.edges, config), f, m.capacities, m.sink as int, k);
    assert(m.capacities.take(k) =~= m.capacities);
}

/// The sums along the return arcs are those along the oriented edges, plus
/// the return arc's value at its two ends.
proof fn lemma_return_sums(m: FlowLowerBoundsView, config: Seq<usize>, g: Seq<int>, f: Seq<int>, v: int)
    requires
        g.len() == m.graph.edges.len(),
        f.len() == g.len() + 1,
        forall|e: int| 0 <= e < g.len() ==> #[trigger] f[e] == g[e],
    ensures
        net_out(return_arcs(m, config), f, v) == net_out(oriented_edges(m.graph.edges, config), g, v) + (if v
            == m.sink {
            f[g.len() as int]
        } else {
            0
        }) - (if v == m.source {
            f[g.len() as int]
        } else {
            0
        }),
{
    let k = g.len() as int;
    let arcs = oriented_edges(m.graph.edges, config);
    let ret = return_arcs(m, config);
    assert forall|a: int| 0 <= a < k implies #[trigger] ret[a] == arcs[a] && f[a] == g[a] by {
    }
    lemma_sums_prefix(ret, arcs, f, g, v, k);
    assert(ret[k] == (m.sink, m.source));
    assert(out_sum(ret, f, v, k + 1) == out_sum(ret, f, v, k) + (if ret[k].0 as int == v { f[k] } else { 0 }));
    assert(in_sum(ret, f, v, k + 1) == in_sum(ret, f, v, k) + (if ret[k].1 as int == v { f[k] } else { 0 }));
}

/// The oriented edges stay inside the graph.
proof fn lemma_oriented_within(m: FlowLowerBoundsView, config: Seq<usize>)
    requires
        m.wf(),
    ensures
        arcs_within(oriented_edges(m.graph.edges, config), m.graph.num_vertices),
        arcs_within(return_arcs(m, config), m.graph.num_vertices),
{
    let arcs = oriented_edges(m.graph.edges, config);
    assert forall|a: int| 0 <= a < arcs.len() implies (#[trigger] arcs[a]).0 < m.graph.num_vertices
        && arcs[a].1 < m.graph.num_vertices by {
        assert(m.graph.edges[a].0 < m.graph.num_vertices && m.graph.edges[a].1 < m.graph.num_vertices);
    }
    let ret = return_arcs(m, config);
    assert forall|a: int| 0 <= a < ret.len() implies (#[trigger] ret[a]).0 < m.graph.num_vertices
        && ret[a].1 < m.graph.num_vertices by {
        if a < arcs.len() {
            assert(ret[a] == arcs[a]);
        }
    }
}

/// A lower-bounded flow meeting the requirement, closed by a return arc
/// that carries what enters the sink, is a circulation within the bounds.
proof fn lemma_flow_gives_circulation(m: FlowLowerBoundsView, config: Seq<usize>, g: Seq<int>)
    requires
        m.wf(),
        is_lower_bounded_flow(m, config, g),
    ensures
        has_circulation(return_arcs(m, config), return_lower(m), return_upper(m), m.graph.num_vertices),
{
    let arcs = oriented_edges(m.graph.edges, config);
    let n = m.graph.num_vertices;
    let s = m.source as int;
    let t = m.sink as int;
    let inflow = -net_out(arcs, g, t);
    let f = g.push(inflow);
    lemma_inflow_bounded(m, config, g);
    lemma_oriented_within(m, config);
    lemma_net_total_zero(arcs, g, n);
    let g_net = |v: int| net_out(arcs, g, v);
    let g_s = |v: int| if v == s { net_out(arcs, g, s) } else { 0 };
    let g_t = |v: int| if v == t { net_out(arcs, g, t) } else { 0 };
    lemma_total_add(g_net, g_s, g_t, n as int);
    lemma_total_single(g_s, s, n as int);
    lemma_total_single(g_t, t, n as int);
    assert(net_out(arcs, g, s) == inflow);
    assert forall|a: int| 0 <= a < f.len() implies return_lower(m)[a] <= #[trigger] f[a] <= return_upper(m)[a] by {
        if a < g.len() {
            assert(m.lower_bounds[a] as int <= g[a] <= m.capacities[a] as int);
        }
    }
    assert forall|v: int| 0 <= v < n implies #[trigger] net_out(return_arcs(m, config), f, v) == 0 by {
        lemma_return_sums(m, config, g, f, v);
    }
    assert(is_circulation(return_arcs(m, config), return_lower(m), return_upper(m), f, n));
}

/// A circulation within the bounds, less its return arc, is a lower-bounded
/// flow meeting the requirement.
proof fn lemma_circulation_gives_flow(m: FlowLowerBoundsView, config: Seq<usize>, f: Seq<int>)
    requires
        m.wf(),
        is_circulation(return_arcs(m, config), return_lower(m), return_upper(m), f, m.graph.num_vertices),
    ensures
        is_lower_bounded_flow(m, config, f.take(m.graph.edges.len() as int)),
{
    let k = m.graph.edges.len() as int;
    let g = f.take(k);
    assert forall|e: int| 0 <= e < g.len() implies m.lower_bounds[e] as int <= #[trigger] g[e]
        <= m.capacities[e] as int by {
        assert(return_lower(m)[e] <= f[e] <= return_upper(m)[e]);
    }
    assert forall|v: int|
        0 <= v < m.graph.num_vertices && v != m.source && v != m.sink implies #[trigger] net_out(
        oriented_edges(m.graph.edges, config),
        g,
        v,
    ) == 0 by {
        lemma_return_sums(m, config, g, f, v);
    }
    lemma_return_sums(m, config, g, f, m.sink as int);
    assert(return_lower(m)[k] <= f[k]);
}

/// For a fixed orientation, a flow within the edge bounds that brings at
/// least the requirement into the sink exists exactly when the oriented
/// edges, closed by a return arc from the sink to the source carrying
/// between the requirement and the total capacity, admit a circulation.
pub proof fn lemma_orientation_reduces_to_circulation(m: FlowLowerBoundsView, config: Seq<usize>)
    requires
        m.wf(),
    ensures
        (exists|f: Seq<int>| is_lower_bounded_flow(m, config, f)) <==> has_circulation(
            return_arcs(m, config),
            return_lower(m),
            return_upper(m),
            m.graph.num_vertices,
        ),
{
    if exists|f: Seq<int>| is_lower_bounded_flow(m, config, f) {
        let f = choose|f: Seq<int>| is_lower_bounded_flow(m, config, f);
        lemma_flow_gives_circulation(m, config, f);
    }
    if has_circulation(return_arcs(m, config), return_lower(m), return_upper(m), m.graph.num_vertices) {
        let f = choose|f: Seq<int>|
            is_circulation(return_arcs(m, config), return_lower(m), return_upper(m), f, m.graph.num_vertices);
        lemma_circulation_gives_flow(m, config, f);
    }
}

/// Undirected Flow with Lower Bounds.
#[derive(Debug)]
pub struct UndirectedFlowLowerBounds {
    graph: SimpleGraph,
    capacities: Vec<u64>,
    lower_bounds: Vec<u64>,
    source: usize,
    sink: usize,
    requirement: u64,
}

impl View for UndirectedFlowLowerBounds {
    type V = FlowLowerBoundsView;

    closed spec fn view(&self) -> FlowLowerBoundsView {
        FlowLowerBoundsView {
            graph: self.graph@,
            capacities: self.capacities@,
            lower_bounds: self.lower_bounds@,
            source: self.source,
            sink: self.sink,
            requirement: self.requirement,
        }
    }
}

impl UndirectedFlowLowerBounds {
    /// The stored instance is well formed.
    #[verifier::type_invariant]
    pub closed spec fn inv(self) -> bool {
        self@.wf()
    }

    /// Create a new instance.
    pub fn new(
        graph: SimpleGraph,
        capacities: Vec<u64>,
        lower_bounds: Vec<u64>,
        source: usize,
        sink: usize,
        requirement: u64,
    ) -> (r: Self)
        requires
            capacities@.len() == graph@.edges.len(),
            lower_bounds@.len() == graph@.edges.len(),
            source < graph@.num_vertices,
            sink < graph@.num_vertices,
            source != sink,
            requirement >= 1,
            forall|e: int| 0 <= e < capacities@.len() ==> #[trigger] lower_bounds@[e] <= capacities@[e],
        ensures
            r@ == (FlowLowerBoundsView {
                graph: graph@,
                capacities: capacities@,
                lower_bounds: lower_bounds@,
                source,
                sink,
                requirement,
            }),
    {
        proof {
            use_type_invariant(&graph);
        }
        UndirectedFlowLowerBounds { graph, capacities, lower_bounds, source, sink, requirement }
    }

    /// Get a reference to the graph.
    pub fn graph(&self) -> (r: &SimpleGraph)
        ensures
            r@ == self@.graph,
    {
        &self.graph
    }

    /// Get the edge capacities.
    pub fn capacities(&self) -> (r: &[u64])
        ensures
            r@ == self@.capacities,
    {
        self.capacities.as_slice()
    }

    /// Get the edge lower bounds.
    pub fn lower_bounds(&self) -> (r: &[u64])
        ensures
            r@ == self@.lower_bounds,
    {
        self.lower_bounds.as_slice()
    }

    /// Get the source vertex.
    pub fn source(&self) -> (r: usize)
        ensures
            r == self@.source,
    {
        self.source
    }

    /// Get the sink vertex.
    pub fn sink(&self) -> (r: usize)
        ensures
            r == self@.sink,
    {
        self.sink
    }

    /// Get the required net inflow at the sink.
    pub fn requirement(&self) -> (r: u64)
        ensures
            r == self@.requirement,
    {
        self.requirement
    }

    /// Get the number of vertices.
    pub fn num_vertices(&self) -> (r: usize)
        ensures
            r == self@.graph.num_vertices,
    {
        self.graph.num_vertices()
    }

    /// Get the number of edges.
    pub fn num_edges(&self) -> (r: usize)
        ensures
            r == self@.graph.edges.len(),
    {
        self.graph.num_edges()
    }

    /// One binary orientation choice per edge.
    pub fn dims(&self) -> (r: Vec<usize>)
        ensures
            r@ == Seq::new(self@.graph.edges.len(), |i: int| 2usize),
    {
        crate::util::repeat_usize(2, self.graph.num_edges())
    }

    /// Whether the configuration orients the edges so that a feasible flow exists.
    pub fn is_valid_solution(&self, config: &[usize]) -> (r: bool)
        requires
            self@.graph.num_vertices + 2 <= usize::MAX,
        ensures
            r == is_feasible_orientation(self@, config@),
    {
        self.evaluate(config).0
    }

    /// Whether the configuration orients the edges so that a flow within the
    /// bounds brings at least the requirement into the sink.
    pub fn evaluate(&self, config: &[usize]) -> (r: Or)
        requires
            self@.graph.num_vertices + 2 <= usize::MAX,
        ensures
            r.0 == is_feasible_orientation(self@, config@),
    {
        proof {
            use_type_invariant(self);
        }
        let ghost m = self@;
        let num_edges = self.graph.num_edges();
        if config.len() != num_edges {
            return Or(false);
        }
        let total_capacity = sum_u64s(self.capacities.as_slice());
        let requirement = self.requirement as u128;
        if requirement > total_capacity {
            proof {
                if exists|f: Seq<int>| is_lower_bounded_flow(m, config@, f) {
                    let f = choose|f: Seq<int>| is_lower_bounded_flow(m, config@, f);
                    lemma_inflow_bounded(m, config@, f);
                }
            }
            return Or(false);
        }
        let edges = self.graph.edge_slice();
        let mut arcs: Vec<(usize, usize)> = Vec::new();
        let mut lower: Vec<u64> = Vec::new();
        let mut upper: Vec<u128> = Vec::new();
        for e in 0..num_edges
            invariant
                m == self@,
                m.wf(),
                edges@ == m.graph.edges,
                num_edges == m.graph.edges.len(),
                config@.len() == num_edges,
                forall|i: int| 0 <= i < e ==> #[trigger] config@[i] <= 1,
                arcs@ == oriented_edges(m.graph.edges, config@).take(e as int),
                lower@ == m.lower_bounds.take(e as int),
                upper@ == ints_u128_of_u64(m.capacities.take(e as int)),
        {
            let (u, v) = edges[e];
            let c = config[e];
            if c == 0 {
                arcs.push((u, v));
            } else if c == 1 {
                arcs.push((v, u));
            } else {
                return Or(false);
            }
            lower.push(self.lower_bounds[e]);
            upper.push(self.capacities[e] as u128);
            assert(arcs@ =~= oriented_edges(m.graph.edges, config@).take(e + 1));
            assert(lower@ =~= m.lower_bounds.take(e + 1));
            assert(upper@ =~= ints_u128_of_u64(m.capacities.take(e + 1)));
        }
        arcs.push((self.sink, self.source));
        lower.push(self.requirement);
        upper.push(total_capacity);
        let n = self.graph.num_vertices();
        proof {
            assert(arcs@ =~= return_arcs(m, config@));
            assert(ints_u64(lower@) =~= return_lower(m));
            assert(ints_u128(upper@) =~= return_upper(m));
            lemma_oriented_within(m, config@);
            assert forall|a: int| 0 <= a < arcs@.len() implies lower@[a] <= #[trigger] upper@[a] by {
                if a < num_edges {
                    assert(m.lower_bounds[a] <= m.capacities[a]);
                }
            }
        }
        let r = has_feasible_circulation(n, arcs.as_slice(), lower.as_slice(), upper.as_slice());
        proof {
            lemma_orientation_reduces_to_circulation(m, config@);
        }
        Or(r)
    }
}

/// `u64` values widened to `u128`.
pub open spec fn ints_u128_of_u64(s: Seq<u64>) -> Seq<u128> {
    s.map_values(|x: u64| x as u128)
}

} // verus!
