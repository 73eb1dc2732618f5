//! Undirected Two-Commodity Integral Flow.
//!
//! Given an undirected graph with edge capacities, two source/sink pairs and
//! two requirements, decide whether two integral flows can be routed so that
//! each edge carries each commodity in one direction only, the two
//! commodities together respect the capacity, flow is conserved at every
//! non-terminal vertex, and each sink receives at least its requirement.
//!
//! A configuration holds four values per edge `(u, v)`, in edge order:
//! commodity 1 from `u` to `v`, commodity 1 from `v` to `u`, then the same
//! two for commodity 2.
use crate::topology::{GraphView, SimpleGraph};
use crate::types::Or;
use crate::util::{count_true, count_true_flags};
use vstd::prelude::*;

verus! {

/// Mathematical model of an [`UndirectedTwoCommodityIntegralFlow`] instance.
pub struct TwoCommodityFlowView {
    pub graph: GraphView,
    pub capacities: Seq<u64>,
    pub source_1: usize,
    pub sink_1: usize,
    pub source_2: usize,
    pub sink_2: usize,
    pub requirement_1: u64,
    pub requirement_2: u64,
}

impl TwoCommodityFlowView {
    /// The instance is well formed: one capacity per edge, each one below
    /// `usize::MAX` (so that `capacity + 1` values fit), terminals inside the
    /// graph.
    pub open spec fn wf(self) -> bool {
        &&& self.graph.wf()
        &&& self.capacities.len() == self.graph.edges.len()
        &&& forall|e: int| 0 <= e < self.capacities.len() ==> (#[trigger] self.capacities[e]) < usize::MAX
        &&& self.source_1 < self.graph.num_vertices
        &&& self.sink_1 < self.graph.num_vertices
        &&& self.source_2 < self.graph.num_vertices
        &&& self.sink_2 < self.graph.num_vertices
    }

    /// `v` is one of the four terminals.
    pub open spec fn is_terminal(self, v: usize) -> bool {
        v == self.source_1 || v == self.sink_1 || v == self.source_2 || v == self.sink_2
    }
}

/// Larger of two values.
pub open spec fn max_of(a: usize, b: usize) -> int {
    if a >= b { a as int } else { b as int }
}

/// The four flow values of edge `e` respect its capacity: each value is at
/// most the capacity, each commodity uses one direction only, and the two
/// commodities together fit.
pub open spec fn edge_flow_ok(capacities: Seq<u64>, config: Seq<usize>, e: int) -> bool {
    let cap = capacities[e] as int;
    let f0 = config[4 * e];
    let f1 = config[4 * e + 1];
    let f2 = config[4 * e + 2];
    let f3 = config[4 * e + 3];
    &&& f0 <= cap && f1 <= cap && f2 <= cap && f3 <= cap
    &&& !(f0 > 0 && f1 > 0)
    &&& !(f2 > 0 && f3 > 0)
    &&& max_of(f0, f1) + max_of(f2, f3) <= cap
}

/// Net inflow at `vertex` of the commodity whose values sit at offset `off`
/// (0 for commodity 1, 2 for commodity 2) in each edge's group of four.
/// A loop edge counts as leaving its vertex.
pub open spec fn commodity_balance(edges: Seq<(usize, usize)>, config: Seq<usize>, off: int, vertex: usize) -> int
    decreases edges.len(),
{
    if edges.len() == 0 {
        0
    } else {
        let i = edges.len() - 1;
        let e = edges[i];
        let fwd = config[4 * i + off] as int;
        let bwd = config[4 * i + off + 1] as int;
        commodity_balance(edges.drop_last(), config, off, vertex) + (if vertex == e.0 {
            bwd - fwd
        } else if vertex == e.1 {
            fwd - bwd
        } else {
            0
        })
    }
}

/// Both commodities are conserved at `v`.
pub open spec fn conserved_at(m: TwoCommodityFlowView, config: Seq<usize>, v: usize) -> bool {
    commodity_balance(m.graph.edges, config, 0, v) == 0 && commodity_balance(m.graph.edges, config, 2, v) == 0
}

/// `config` is a feasible pair of integral flows meeting both requirements.
pub open spec fn is_two_commodity_flow(m: TwoCommodityFlowView, config: Seq<usize>) -> bool {
    let edges = m.graph.edges;
    &&& config.len() == 4 * edges.len()
    &&& forall|e: int| 0 <= e < edges.len() ==> #[trigger] edge_flow_ok(m.capacities, config, e)
    &&& forall|v: usize| v < m.graph.num_vertices && !m.is_terminal(v) ==> #[trigger] conserved_at(m, config, v)
    &&& m.requirement_1 <= commodity_balance(edges, config, 0, m.sink_1) <= u64::MAX
    &&& m.requirement_2 <= commodity_balance(edges, config, 2, m.sink_2) <= u64::MAX
}

/// Flags the non-terminal vertices.
pub open spec fn nonterminal_flags(m: TwoCommodityFlowView) -> Seq<bool> {
    Seq::new(m.graph.num_vertices, |v: int| !m.is_terminal(v as usize))
}

/// Undirected Two-Commodity Integral Flow.
#[derive(Debug)]
pub struct UndirectedTwoCommodityIntegralFlow {
    graph: SimpleGraph,
    capacities: Vec<u64>,
    source_1: usize,
    sink_1: usize,
    source_2: usize,
    sink_2: usize,
    requirement_1: u64,
    requirement_2: u64,
}

impl View for UndirectedTwoCommodityIntegralFlow {
    type V = TwoCommodityFlowView;

    closed spec fn view(&self) -> TwoCommodityFlowView {
        TwoCommodityFlowView {
            graph: self.graph@,
            capacities: self.capacities@,
            source_1: self.source_1,
            sink_1: self.sink_1,
            source_2: self.source_2,
            sink_2: self.sink_2,
            requirement_1: self.requirement_1,
            requirement_2: self.requirement_2,
        }
    }
}

impl UndirectedTwoCommodityIntegralFlow {
    /// The stored instance is well formed.
    #[verifier::type_invariant]
    pub closed spec fn inv(self) -> bool {
        self@.wf()
    }

    /// Create a new instance.
    #[allow(clippy::too_many_arguments)]
    pub fn new(
        graph: SimpleGraph,
        capacities: Vec<u64>,
        source_1: usize,
        sink_1: usize,
        source_2: usize,
        sink_2: usize,
        requirement_1: u64,
        requirement_2: u64,
    ) -> (r: Self)
        requires
            capacities@.len() == graph@.edges.len(),
            source_1 < graph@.num_vertices,
            sink_1 < graph@.num_vertices,
            source_2 < graph@.num_vertices,
            sink_2 < graph@.num_vertices,
            forall|e: int| 0 <= e < capacities@.len() ==> (#[trigger] capacities@[e]) < usize::MAX,
        ensures
            r@ == (TwoCommodityFlowView {
                graph: graph@,
                capacities: capacities@,
                source_1,
                sink_1,
                source_2,
                sink_2,
                requirement_1,
                requirement_2,
            }),
    {
        proof {
            use_type_invariant(&graph);
        }
        UndirectedTwoCommodityIntegralFlow {
            graph,
            capacities,
            source_1,
            sink_1,
            source_2,
            sink_2,
            requirement_1,
            requirement_2,
        }
    }

    /// Get a reference to the graph.
    pub fn graph(&self) -> (r: &SimpleGraph)
        ensures
            r@ == self@.graph,
    {
        &self.graph
    }

    /// Get the edge capacities.
    pub fn capacities(&self) -> (r: &[u64])
        ensures
            r@ == self@.capacities,
    {
        self.capacities.as_slice()
    }

    /// Get the source of commodity 1.
    pub fn source_1(&self) -> (r: usize)
        ensures
            r == self@.source_1,
    {
        self.source_1
    }

    /// Get the sink of commodity 1.
    pub fn sink_1(&self) -> (r: usize)
        ensures
            r == self@.sink_1,
    {
        self.sink_1
    }

    /// Get the source of commodity 2.
    pub fn source_2(&self) -> (r: usize)
        ensures
            r == self@.source_2,
    {
        self.source_2
    }

    /// Get the sink of commodity 2.
    pub fn sink_2(&self) -> (r: usize)
        ensures
            r == self@.sink_2,
    {
        self.sink_2
    }

    /// Get the requirement of commodity 1.
    pub fn requirement_1(&self) -> (r: u64)
        ensures
            r == self@.requirement_1,
    {
        self.requirement_1
    }

    /// Get the requirement of commodity 2.
    pub fn requirement_2(&self) -> (r: u64)
        ensures
            r == self@.requirement_2,
    {
        self.requirement_2
    }

    /// Get the number of vertices.
    pub fn num_vertices(&self) -> (r: usize)
        ensures
            r == self@.graph.num_vertices,
    {
        self.graph.num_vertices()
    }

    /// Get the number of edges.
    pub fn num_edges(&self) -> (r: usize)
        ensures
            r == self@.graph.edges.len(),
    {
        self.graph.num_edges()
    }

    /// Whether `vertex` is one of the four terminals.
    fn is_terminal(&self, vertex: usize) -> (r: bool)
        ensures
            r == self@.is_terminal(vertex),
    {
        vertex == self.source_1 || vertex == self.sink_1 || vertex == self.source_2 || vertex == self.sink_2
    }

    /// Number of vertices that are not terminals.
    pub fn num_nonterminal_vertices(&self) -> (r: usize)
        ensures
            r == count_true(nonterminal_flags(self@)),
    {
        let n = self.graph.num_vertices();
        let mut flags: Vec<bool> = Vec::new();
        for v in 0..n
            invariant
                n == self@.graph.num_vertices,
                flags@ =~= nonterminal_flags(self@).take(v as int),
        {
            flags.push(!self.is_terminal(v));
        }
        assert(flags@ =~= nonterminal_flags(self@));
        count_true_flags(&flags)
    }

    /// Whether the configuration is a feasible pair of flows.
    pub fn is_valid_solution(&self, config: &[usize]) -> (r: bool)
        ensures
            r == is_two_commodity_flow(self@, config@),
    {
        self.evaluate(config).0
    }

    /// Net inflow of one commodity (offset 0 or 2) at `vertex`.
    fn commodity_balance(&self, config: &[usize], off: usize, vertex: usize) -> (r: i128)
        requires
            config@.len() == 4 * self@.graph.edges.len(),
            off == 0 || off == 2,
        ensures
            r == commodity_balance(self@.graph.edges, config@, off as int, vertex),
    {
        let edges = self.graph.edge_slice();
        let mut balance: i128 = 0;
        for i in 0..edges.len()
            invariant
                edges@ == self@.graph.edges,
                config@.len() == 4 * edges@.len(),
                off == 0 || off == 2,
                balance == commodity_balance(edges@.take(i as int), config@, off as int, vertex),
                -(i as int) * 0x2_0000_0000_0000_0000 <= balance <= (i as int) * 0x2_0000_0000_0000_0000,
        {
            let (u, v) = edges[i];
            assert(edges@[i as int] == (u, v));
            assert(edges@.take(i + 1).drop_last() =~= edges@.take(i as int));
            assert(edges@.take(i + 1)[i as int] == (u, v));
            let clen = config.len();
            assert(4 * i + 3 < clen);
            let fwd = config[4 * i + off] as i128;
            let bwd = config[4 * i + off + 1] as i128;
            if vertex == u {
                balance = balance - fwd + bwd;
            } else if vertex == v {
                balance = balance + fwd - bwd;
            }
        }
        assert(edges@.take(edges@.len() as int) =~= edges@);
        balance
    }

    /// One variable per edge and commodity direction, ranging over
    /// `0..=capacity`.
    pub fn dims(&self) -> (r: Vec<usize>)
        ensures
            r@.len() == 4 * self@.capacities.len(),
            forall|i: int| 0 <= i < r@.len() ==> #[trigger] r@[i] == self@.capacities[i / 4] + 1,
    {
        proof {
            use_type_invariant(self);
        }
        let mut r: Vec<usize> = Vec::new();
        for e in 0..self.capacities.len()
            invariant
                self@.wf(),
                r@.len() == 4 * e,
                forall|i: int| 0 <= i < r@.len() ==> #[trigger] r@[i] == self@.capacities[i / 4] + 1,
        {
            let domain = self.capacities[e] as usize + 1;
            r.push(domain);
            r.push(domain);
            r.push(domain);
            r.push(domain);
        }
        r
    }

    /// Whether the configuration is a feasible pair of flows meeting both
    /// requirements.
    pub fn evaluate(&self, config: &[usize]) -> (r: Or)
        ensures
            r == Or(is_two_commodity_flow(self@, config@)),
    {
        proof {
            use_type_invariant(self);
        }
        let m = self.capacities.len();
        if config.len() / 4 != m || config.len() % 4 != 0 {
            return Or(false);
        }
        for e in 0..m
            invariant
                m == self@.capacities.len(),
                config@.len() == 4 * m,
                forall|k: int| 0 <= k < e ==> #[trigger] edge_flow_ok(self@.capacities, config@, k),
        {
            let cap = self.capacities[e];
            let f0 = config[4 * e];
            let f1 = config[4 * e + 1];
            let f2 = config[4 * e + 2];
            let f3 = config[4 * e + 3];
            if f0 as u128 > cap as u128 || f1 as u128 > cap as u128 || f2 as u128 > cap as u128
                || f3 as u128 > cap as u128 {
                assert(!edge_flow_ok(self@.capacities, config@, e as int));
                return Or(false);
            }
            if f0 > 0 && f1 > 0 {
                assert(!edge_flow_ok(self@.capacities, config@, e as int));
                return Or(false);
            }
            if f2 > 0 && f3 > 0 {
                assert(!edge_flow_ok(self@.capacities, config@, e as int));
                return Or(false);
            }
            let c1 = if f0 >= f1 { f0 } else { f1 };
            let c2 = if f2 >= f3 { f2 } else { f3 };
            if c1 as u128 + c2 as u128 > cap as u128 {
                assert(!edge_flow_ok(self@.capacities, config@, e as int));
                return Or(false);
            }
        }
        let n = self.graph.num_vertices();
        for v in 0..n
            invariant
                n == self@.graph.num_vertices,
                config@.len() == 4 * self@.graph.edges.len(),
                forall|w: usize| w < v && !self@.is_terminal(w) ==> #[trigger] conserved_at(self@, config@, w),
        {
            if !self.is_terminal(v) {
                let b1 = self.commodity_balance(config, 0, v);
                let b2 = self.commodity_balance(config, 2, v);
                assert(b1 == commodity_balance(self@.graph.edges, config@, 0, v));
                assert(b2 == commodity_balance(self@.graph.edges, config@, 2, v));
                if b1 != 0 || b2 != 0 {
                    assert(!conserved_at(self@, config@, v));
                    return Or(false);
                }
            }

        }
        let into_1 = self.commodity_balance(config, 0, self.sink_1);
        let into_2 = self.commodity_balance(config, 2, self.sink_2);
        assert(into_1 == commodity_balance(self@.graph.edges, config@, 0, self@.sink_1));
        assert(into_2 == commodity_balance(self@.graph.edges, config@, 2, self@.sink_2));
        Or(self.requirement_1 as i128 <= into_1 && into_1 <= u64::MAX as i128
            && self.requirement_2 as i128 <= into_2 && into_2 <= u64::MAX as i128)
    }
}

} // verus!
