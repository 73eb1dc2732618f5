//! Partition into Paths of Length 2.
//!
//! Given a graph G = (V, E) with |V| = 3q, determine whether V can be
//! partitioned into q disjoint sets of three vertices each, such that each set
//! induces at least two edges (a path of length 2 or a triangle).
use crate::topology::{GraphView, SimpleGraph};
use crate::types::Or;
use crate::util::{all_below, count_of, value_counts};
use vstd::prelude::*;

verus! {

/// Mathematical model of a [`PartitionIntoPathsOfLength2`] instance.
pub struct PartitionIntoPathsOfLength2View {
    pub graph: GraphView,
}

/// Number of edges among `edges` whose two endpoints are both assigned to group `g`.
pub open spec fn group_edge_count(edges: Seq<(usize, usize)>, config: Seq<usize>, g: usize) -> nat
    decreases edges.len(),
{
    if edges.len() == 0 {
        0
    } else {
        let e = edges.last();
        group_edge_count(edges.drop_last(), config, g) + (if config[e.0 as int] == g
            && config[e.1 as int] == g {
            1nat
        } else {
            0nat
        })
    }
}

/// `config` assigns every vertex to one of `n / 3` groups so that every group
/// has exactly three vertices and induces at least two edges.
pub open spec fn is_path_partition(m: PartitionIntoPathsOfLength2View, config: Seq<usize>) -> bool {
    let n = m.graph.num_vertices;
    let q = n / 3;
    &&& config.len() == n
    &&& all_below(config, q as int)
    &&& forall|g: usize| g < q ==> #[trigger] count_of(config, g) == 3
    &&& forall|g: usize| g < q ==> #[trigger] group_edge_count(m.graph.edges, config, g) >= 2
}

/// Partition into Paths of Length 2 problem.
#[derive(Debug, Clone)]
pub struct PartitionIntoPathsOfLength2 {
    graph: SimpleGraph,
}

impl View for PartitionIntoPathsOfLength2 {
    type V = PartitionIntoPathsOfLength2View;

    closed spec fn view(&self) -> PartitionIntoPathsOfLength2View {
        PartitionIntoPathsOfLength2View { graph: self.graph@ }
    }
}

impl PartitionIntoPathsOfLength2 {
    /// Create a new PartitionIntoPathsOfLength2 problem from a graph.
    pub fn new(graph: SimpleGraph) -> (r: Self)
        requires
            graph@.num_vertices % 3 == 0,
        ensures
            r@ == (PartitionIntoPathsOfLength2View { graph: graph@ }),
    {
        PartitionIntoPathsOfLength2 { graph }
    }

    /// Get a reference to the underlying graph.
    pub fn graph(&self) -> (r: &SimpleGraph)
        ensures
            r@ == self@.graph,
    {
        &self.graph
    }

    /// Get the number of vertices in the graph.
    pub fn num_vertices(&self) -> (r: usize)
        ensures
            r == self@.graph.num_vertices,
    {
        self.graph.num_vertices()
    }

    /// Get the number of edges in the graph.
    pub fn num_edges(&self) -> (r: usize)
        ensures
            r == self@.graph.edges.len(),
    {
        self.graph.num_edges()
    }

    /// Get q = |V| / 3, the number of groups in the partition.
    pub fn num_groups(&self) -> (r: usize)
        ensures
            r == self@.graph.num_vertices / 3,
    {
        self.graph.num_vertices() / 3
    }

    /// Check if a configuration represents a valid partition.
    pub fn is_valid_partition(&self, config: &[usize]) -> (r: bool)
        ensures
            r == is_path_partition(self@, config@),
    {
        let n = self.graph.num_vertices();
        let q = self.num_groups();
        if config.len() != n {
            return false;
        }
        for i in 0..config.len()
            invariant
                forall|k: int| 0 <= k < i ==> (#[trigger] config@[k]) < q,
        {
            if config[i] >= q {
                assert(!(config@[i as int] < q));
                return false;
            }
        }
        let group_sizes = value_counts(config, q);
        for g in 0..q
            invariant
                forall|h: usize| h < g ==> #[trigger] count_of(config@, h) == 3,
        {
            assert(group_sizes@[g as int] == count_of(config@, g));
            if group_sizes[g] != 3 {
                return false;
            }
        }
        let edges = self.graph.edge_slice();
        let mut group_edge_counts = vec![0usize; q];
        for i in 0..edges.len()
            invariant
                edges@ == self@.graph.edges,
                self@.graph.wf(),
                group_edge_counts@.len() == q,
                forall|g: int|
                    0 <= g < q ==> #[trigger] group_edge_counts@[g] == group_edge_count(
                        edges@.take(i as int),
                        config@,
                        g as usize,
                    ),
                forall|g: int| 0 <= g < q ==> #[trigger] group_edge_counts@[g] <= i,
        {
            let (u, v) = edges[i];
            assert(edges@[i as int] == (u, v));
            assert(edges@.take(i + 1).drop_last() =~= edges@.take(i as int));
            if config[u] == config[v] {
                let g = config[u];
                assert(config@[u as int] < q);
                group_edge_counts.set(g, group_edge_counts[g] + 1);
            }
        }
        assert(edges@.take(edges@.len() as int) =~= edges@);
        for g in 0..q
            invariant
                forall|h: usize|
                    h < g ==> #[trigger] group_edge_count(self@.graph.edges, config@, h) >= 2,
        {
            assert(group_edge_counts@[g as int] == group_edge_count(edges@, config@, g));
            if group_edge_counts[g] < 2 {
                return false;
            }
        }
        true
    }

    /// Each vertex chooses one of the q groups.
    pub fn dims(&self) -> (r: Vec<usize>)
        ensures
            r@ == Seq::new(self@.graph.num_vertices, |i: int| (self@.graph.num_vertices / 3) as usize),
    {
        let q = self.num_groups();
        crate::util::repeat_usize(q, self.graph.num_vertices())
    }

    /// Whether the configuration is a valid partition into paths of length 2.
    pub fn evaluate(&self, config: &[usize]) -> (r: Or)
        ensures
            r == Or(is_path_partition(self@, config@)),
    {
        Or(self.is_valid_partition(config))
    }
}

} // verus!
