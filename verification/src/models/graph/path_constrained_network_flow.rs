//! Path-Constrained Network Flow.
//!
//! Given a directed graph with arc capacities, a source and a sink, a
//! collection of prescribed simple source-sink paths and a requirement,
//! decide whether flow values can be assigned to the paths so that every arc
//! carries at most its capacity and the total flow meets the requirement.
//! A configuration holds one flow value per prescribed path.
use crate::topology::{DigraphView, DirectedGraph};
use crate::types::Or;
use crate::util::{count_of, lemma_count_of_push, rows_of, sum_usize};
use vstd::prelude::*;

verus! {

/// Mathematical model of a [`PathConstrainedNetworkFlow`] instance.
pub struct PathFlowView {
    pub graph: DigraphView,
    pub capacities: Seq<u64>,
    pub source: usize,
    pub sink: usize,
    pub paths: Seq<Seq<usize>>,
    pub requirement: u64,
}

/// The vertices a path of arc indices visits, starting at `source`.
pub open spec fn path_vertices(arcs: Seq<(usize, usize)>, path: Seq<usize>, source: usize) -> Seq<usize> {
    seq![source] + path.map_values(|a: usize| arcs[a as int].1)
}

/// `path` lists arcs that form a non-empty simple directed path from
/// `source` to `sink`.
pub open spec fn is_simple_st_path(arcs: Seq<(usize, usize)>, path: Seq<usize>, source: usize, sink: usize) -> bool {
    let pv = path_vertices(arcs, path, source);
    &&& path.len() > 0
    &&& forall|k: int| 0 <= k < path.len() ==> (#[trigger] path[k]) < arcs.len()
    &&& forall|k: int| 0 <= k < path.len() ==> arcs[#[trigger] path[k] as int].0 == pv[k]
    &&& forall|i: int, j: int| 0 <= i < j < pv.len() ==> pv[i] != pv[j]
    &&& pv[path.len() as int] == sink
}

impl PathFlowView {
    /// The instance is well formed: one capacity per arc, distinct endpoints
    /// inside the graph, every prescribed path a simple source-sink path.
    pub open spec fn wf(self) -> bool {
        &&& self.graph.wf()
        &&& self.capacities.len() == self.graph.arcs.len()
        &&& self.source < self.graph.num_vertices
        &&& self.sink < self.graph.num_vertices
        &&& self.source != self.sink
        &&& forall|p: int|
            0 <= p < self.paths.len() ==> is_simple_st_path(self.graph.arcs, #[trigger] self.paths[p], self.source, self.sink)
    }
}

/// Smallest capacity among the first `k` arcs of a path (`u64::MAX` for none).
pub open spec fn min_capacity(capacities: Seq<u64>, path: Seq<usize>, k: int) -> u64
    decreases k,
{
    if k <= 0 {
        u64::MAX
    } else {
        let c = capacities[path[k - 1] as int];
        let m = min_capacity(capacities, path, k - 1);
        if c < m { c } else { m }
    }
}

/// Smallest capacity along a path, 0 for an empty path.
pub open spec fn bottleneck(capacities: Seq<u64>, path: Seq<usize>) -> u64 {
    if path.len() == 0 {
        0
    } else {
        min_capacity(capacities, path, path.len() as int)
    }
}

/// Flow on arc `e` from the first `p` paths.
pub open spec fn arc_load(paths: Seq<Seq<usize>>, config: Seq<usize>, e: usize, p: int) -> nat
    decreases p,
{
    if p <= 0 {
        0
    } else {
        arc_load(paths, config, e, p - 1) + config[p - 1] as nat * count_of(paths[p - 1], e)
    }
}

/// Each path carries at most its bottleneck, each arc at most its capacity,
/// and the total flow meets the requirement.
pub open spec fn is_feasible_path_flow(m: PathFlowView, config: Seq<usize>) -> bool {
    &&& config.len() == m.paths.len()
    &&& forall|p: int| 0 <= p < m.paths.len() ==> config[p] <= #[trigger] bottleneck(m.capacities, m.paths[p])
    &&& forall|e: usize|
        e < m.capacities.len() ==> #[trigger] arc_load(m.paths, config, e, config.len() as int)
            <= m.capacities[e as int]
    &&& sum_usize(config) >= m.requirement
}

/// Largest capacity (0 when there are none).
pub open spec fn max_of_capacities(capacities: Seq<u64>) -> u64
    decreases capacities.len(),
{
    if capacities.len() == 0 {
        0
    } else {
        let m = max_of_capacities(capacities.drop_last());
        if capacities.last() > m { capacities.last() } else { m }
    }
}

/// Arc loads only grow as paths are added.
proof fn lemma_arc_load_mono(paths: Seq<Seq<usize>>, config: Seq<usize>, e: usize, p: int, q: int)
    requires
        0 <= p <= q,
    ensures
        arc_load(paths, config, e, p) <= arc_load(paths, config, e, q),
    decreases q - p,
{
    if p < q {
        lemma_arc_load_mono(paths, config, e, p, q - 1);
    }
}

/// Counting in a prefix never exceeds counting in the whole sequence.
proof fn lemma_count_prefix(s: Seq<usize>, x: usize, k: int)
    requires
        0 <= k <= s.len(),
    ensures
        count_of(s.take(k), x) <= count_of(s, x),
    decreases s.len() - k,
{
    if k < s.len() {
        lemma_count_prefix(s, x, k + 1);
        assert(s.take(k + 1) =~= s.take(k).push(s[k]));
        lemma_count_of_push(s.take(k), s[k], x);
    } else {
        assert(s.take(k) =~= s);
    }
}

/// Path-Constrained Network Flow.
#[derive(Debug)]
pub struct PathConstrainedNetworkFlow {
    graph: DirectedGraph,
    capacities: Vec<u64>,
    source: usize,
    sink: usize,
    paths: Vec<Vec<usize>>,
    requirement: u64,
}

impl View for PathConstrainedNetworkFlow {
    type V = PathFlowView;

    closed spec fn view(&self) -> PathFlowView {
        PathFlowView {
            graph: self.graph@,
            capacities: self.capacities@,
            source: self.source,
            sink: self.sink,
            paths: rows_of(self.paths@),
            requirement: self.requirement,
        }
    }
}

impl PathConstrainedNetworkFlow {
    /// The stored instance is well formed.
    #[verifier::type_invariant]
    pub closed spec fn inv(self) -> bool {
        self@.wf()
    }

    /// Create a new instance.
    pub fn new(
        graph: DirectedGraph,
        capacities: Vec<u64>,
        source: usize,
        sink: usize,
        paths: Vec<Vec<usize>>,
        requirement: u64,
    ) -> (r: Self)
        requires
            capacities@.len() == graph@.arcs.len(),
            source < graph@.num_vertices,
            sink < graph@.num_vertices,
            source != sink,
            forall|p: int|
                0 <= p < paths@.len() ==> is_simple_st_path(graph@.arcs, #[trigger] paths@[p]@, source, sink),
        ensures
            r@ == (PathFlowView {
                graph: graph@,
                capacities: capacities@,
                source,
                sink,
                paths: rows_of(paths@),
                requirement,
            }),
    {
        proof {
            use_type_invariant(&graph);
            assert forall|p: int| 0 <= p < paths@.len() implies is_simple_st_path(
                graph@.arcs,
                #[trigger] rows_of(paths@)[p],
                source,
                sink,
            ) by {
                assert(rows_of(paths@)[p] == paths@[p]@);
            }
        }
        PathConstrainedNetworkFlow { graph, capacities, source, sink, paths, requirement }
    }

    /// Smallest capacity along a path of the instance.
    fn path_bottleneck(&self, path: &Vec<usize>) -> (r: u64)
        requires
            forall|k: int| 0 <= k < path@.len() ==> #[trigger] path@[k] < self@.capacities.len(),
        ensures
            r == bottleneck(self@.capacities, path@),
    {
        if path.len() == 0 {
            return 0;
        }
        let mut m = u64::MAX;
        for k in 0..path.len()
            invariant
                forall|k: int| 0 <= k < path@.len() ==> #[trigger] path@[k] < self@.capacities.len(),
                m == min_capacity(self@.capacities, path@, k as int),
        {
            let c = self.capacities[path[k]];
            if c < m {
                m = c;
            }
        }
        m
    }

    /// Get a reference to the underlying graph.
    pub fn graph(&self) -> (r: &DirectedGraph)
        ensures
            r@ == self@.graph,
    {
        &self.graph
    }

    /// Get the arc capacities.
    pub fn capacities(&self) -> (r: &[u64])
        ensures
            r@ == self@.capacities,
    {
        self.capacities.as_slice()
    }

    /// Get the prescribed path collection.
    pub fn paths(&self) -> (r: &[Vec<usize>])
        ensures
            rows_of(r@) == self@.paths,
    {
        self.paths.as_slice()
    }

    /// Get the source vertex.
    pub fn source(&self) -> (r: usize)
        ensures
            r == self@.source,
    {
        self.source
    }

    /// Get the sink vertex.
    pub fn sink(&self) -> (r: usize)
        ensures
            r == self@.sink,
    {
        self.sink
    }

    /// Get the required total flow.
    pub fn requirement(&self) -> (r: u64)
        ensures
            r == self@.requirement,
    {
        self.requirement
    }

    /// Update the required total flow.
    pub fn set_requirement(&mut self, requirement: u64)
        ensures
            final(self)@ == (PathFlowView { requirement, ..old(self)@ }),
    {
        proof {
            use_type_invariant(&*self);
        }
        self.requirement = requirement;
    }

    /// Get the number of vertices.
    pub fn num_vertices(&self) -> (r: usize)
        ensures
            r == self@.graph.num_vertices,
    {
        self.graph.num_vertices()
    }

    /// Get the number of arcs.
    pub fn num_arcs(&self) -> (r: usize)
        ensures
            r == self@.graph.arcs.len(),
    {
        self.graph.num_arcs()
    }

    /// Get the number of prescribed paths.
    pub fn num_paths(&self) -> (r: usize)
        ensures
            r == self@.paths.len(),
    {
        self.paths.len()
    }

    /// Get the maximum arc capacity (0 when there are no arcs).
    pub fn max_capacity(&self) -> (r: u64)
        ensures
            r == max_of_capacities(self@.capacities),
    {
        let mut m: u64 = 0;
        for i in 0..self.capacities.len()
            invariant
                m == max_of_capacities(self@.capacities.take(i as int)),
        {
            assert(self@.capacities.take(i + 1).drop_last() =~= self@.capacities.take(i as int));
            if self.capacities[i] > m {
                m = self.capacities[i];
            }
        }
        assert(self@.capacities.take(self@.capacities.len() as int) =~= self@.capacities);
        m
    }

    /// Whether a path-flow assignment is feasible.
    #[verifier::rlimit(40)]
    pub fn is_feasible(&self, config: &[usize]) -> (r: bool)
        ensures
            r == is_feasible_path_flow(self@, config@),
    {
        proof {
            use_type_invariant(self);
        }
        if config.len() != self.paths.len() {
            return false;
        }
        let ghost paths = self@.paths;
        let m = self.capacities.len();
        let mut loads = vec![0u128; m];
        let mut total_flow: u128 = 0;
        for p in 0..config.len()
            invariant
                self@.wf(),
                paths == self@.paths,
                m == self@.capacities.len(),
                config@.len() == paths.len(),
                loads@.len() == m,
                forall|e: int| 0 <= e < m ==> #[trigger] loads@[e] == arc_load(paths, config@, e as usize, p as int),
                forall|e: int| 0 <= e < m ==> #[trigger] loads@[e] <= self@.capacities[e],
                forall|q: int| 0 <= q < p ==> config@[q] <= #[trigger] bottleneck(self@.capacities, paths[q]),
                total_flow == sum_usize(config@.take(p as int)),
                total_flow <= p * 0x1_0000_0000_0000_0000,
        {
            let path = &self.paths[p];
            assert(paths[p as int] == path@);
            assert(is_simple_st_path(self@.graph.arcs, paths[p as int], self@.source, self@.sink));
            let f = config[p];
            let limit = self.path_bottleneck(path);
            if f as u128 > limit as u128 {
                return false;
            }
            assert(config@.take(p + 1).drop_last() =~= config@.take(p as int));
            total_flow = total_flow + f as u128;
            let ghost before = loads@;
            for k in 0..path.len()
                invariant
                    self@.wf(),
                    paths == self@.paths,
                    paths[p as int] == path@,
                    m == self@.capacities.len(),
                    0 <= p < config@.len(),
                    config@.len() == paths.len(),
                    f == config@[p as int],
                    f <= 0xffff_ffff_ffff_ffff,
                    forall|j: int| 0 <= j < path@.len() ==> #[trigger] path@[j] < m,
                    loads@.len() == m,
                    forall|e: int| 0 <= e < m ==> #[trigger] before[e] == arc_load(paths, config@, e as usize, p as int),
                    forall|e: int|
                        0 <= e < m ==> #[trigger] loads@[e] == before[e] + f * count_of(path@.take(k as int), e as usize),
                    forall|e: int| 0 <= e < m ==> #[trigger] loads@[e] <= self@.capacities[e],
            {
                let a = path[k];
                proof {
                    assert(path@.take(k + 1) =~= path@.take(k as int).push(a));
                    assert forall|e: int| 0 <= e < m implies #[trigger] count_of(path@.take(k + 1), e as usize) == count_of(
                        path@.take(k as int),
                        e as usize,
                    ) + (if a == e as usize { 1nat } else { 0nat }) by {
                        lemma_count_of_push(path@.take(k as int), a, e as usize);
                    }
                }
                let new_load = loads[a] + f as u128;
                assert(new_load == before[a as int] + f * count_of(path@.take(k + 1), a)) by (nonlinear_arith)
                    requires
                        new_load == loads@[a as int] + f,
                        loads@[a as int] == before[a as int] + f * count_of(path@.take(k as int), a),
                        count_of(path@.take(k + 1), a) == count_of(path@.take(k as int), a) + 1,
                ;
                if new_load > self.capacities[a] as u128 {
                    proof {
                        let cnt_k = count_of(path@.take(k + 1), a);
                        let cnt = count_of(path@, a);
                        lemma_count_prefix(path@, a, k + 1);
                        assert(f * cnt_k <= f * cnt) by (nonlinear_arith)
                            requires
                                cnt_k <= cnt,
                                f >= 0,
                        ;
                        assert(arc_load(paths, config@, a, p + 1) == before[a as int] + f * cnt);
                        lemma_arc_load_mono(paths, config@, a, p + 1, config@.len() as int);
                    }
                    return false;
                }
                loads.set(a, new_load);
                assert forall|e: int| 0 <= e < m implies #[trigger] loads@[e] == before[e] + f * count_of(
                    path@.take(k + 1),
                    e as usize,
                ) by {
                    if e != a as int {
                        assert(count_of(path@.take(k + 1), e as usize) == count_of(path@.take(k as int), e as usize));
                    }
                }
            }
            assert(path@.take(path@.len() as int) =~= path@);
            assert forall|e: int| 0 <= e < m implies #[trigger] loads@[e] == arc_load(paths, config@, e as usize, p + 1) by {
                assert(arc_load(paths, config@, e as usize, p + 1) == arc_load(paths, config@, e as usize, p as int)
                    + config@[p as int] as nat * count_of(paths[p as int], e as usize));
            }
        }
        assert(config@.take(config@.len() as int) =~= config@);
        assert forall|e: usize| e < m implies #[trigger] arc_load(paths, config@, e, config@.len() as int)
            <= self@.capacities[e as int] by {
            assert(loads@[e as int] <= self@.capacities[e as int]);
        }
        total_flow >= self.requirement as u128
    }

    /// One variable per path, ranging over `0..=bottleneck`.
    pub fn dims(&self) -> (r: Vec<usize>)
        requires
            forall|p: int| 0 <= p < self@.paths.len() ==> #[trigger] bottleneck(self@.capacities, self@.paths[p]) < usize::MAX,
        ensures
            r@.len() == self@.paths.len(),
            forall|p: int| 0 <= p < r@.len() ==> #[trigger] r@[p] == bottleneck(self@.capacities, self@.paths[p]) + 1,
    {
        proof {
            use_type_invariant(self);
        }
        let mut r: Vec<usize> = Vec::new();
        for p in 0..self.paths.len()
            invariant
                self@.wf(),
                forall|q: int| 0 <= q < self@.paths.len() ==> #[trigger] bottleneck(self@.capacities, self@.paths[q]) < usize::MAX,
                r@.len() == p,
                forall|q: int| 0 <= q < p ==> #[trigger] r@[q] == bottleneck(self@.capacities, self@.paths[q]) + 1,
        {
            let path = &self.paths[p];
            assert(self@.paths[p as int] == path@);
            assert(is_simple_st_path(self@.graph.arcs, self@.paths[p as int], self@.source, self@.sink));
            let b = self.path_bottleneck(path);
            r.push(b as usize + 1);
        }
        r
    }

    /// Whether a path-flow assignment is feasible.
    pub fn evaluate(&self, config: &[usize]) -> (r: Or)
        ensures
            r == Or(is_feasible_path_flow(self@, config@)),
    {
        Or(self.is_feasible(config))
    }
}

} // verus!
