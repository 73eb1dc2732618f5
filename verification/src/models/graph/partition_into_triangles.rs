//! Partition Into Triangles.
//!
//! Given a graph G = (V, E) where |V| = 3q, determine whether V can be
//! partitioned into q triples, each forming a triangle (K3) in G.
use crate::topology::{GraphView, SimpleGraph};
use crate::util::{all_below, count_of, value_counts};
use vstd::prelude::*;

verus! {

/// Mathematical model of a [`PartitionIntoTriangles`] instance.
pub struct PartitionIntoTrianglesView {
    pub graph: GraphView,
}

/// `config` assigns the vertices to `n / 3` groups of exactly three vertices,
/// and any two distinct vertices of the same group are adjacent.
pub open spec fn is_triangle_partition(m: PartitionIntoTrianglesView, config: Seq<usize>) -> bool {
    let n = m.graph.num_vertices;
    let q = n / 3;
    &&& config.len() == n
    &&& all_below(config, q as int)
    &&& forall|g: usize| g < q ==> #[trigger] count_of(config, g) == 3
    &&& forall|u: int, v: int|
        0 <= u < v < n && config[u] == config[v] ==> m.graph.has_edge(u, v)
}

/// The Partition Into Triangles problem.
#[derive(Debug, Clone)]
pub struct PartitionIntoTriangles {
    graph: SimpleGraph,
}

impl View for PartitionIntoTriangles {
    type V = PartitionIntoTrianglesView;

    closed spec fn view(&self) -> PartitionIntoTrianglesView {
        PartitionIntoTrianglesView { graph: self.graph@ }
    }
}

impl PartitionIntoTriangles {
    /// Create a new Partition Into Triangles problem from a graph.
    pub fn new(graph: SimpleGraph) -> (r: Self)
        requires
            graph@.num_vertices % 3 == 0,
        ensures
            r@ == (PartitionIntoTrianglesView { graph: graph@ }),
    {
        PartitionIntoTriangles { graph }
    }

    /// Get a reference to the underlying graph.
    pub fn graph(&self) -> (r: &SimpleGraph)
        ensures
            r@ == self@.graph,
    {
        &self.graph
    }

    /// Get the number of vertices in the underlying graph.
    pub fn num_vertices(&self) -> (r: usize)
        ensures
            r == self@.graph.num_vertices,
    {
        self.graph.num_vertices()
    }

    /// Get the number of edges in the underlying graph.
    pub fn num_edges(&self) -> (r: usize)
        ensures
            r == self@.graph.edges.len(),
    {
        self.graph.num_edges()
    }

    /// Each vertex chooses one of the q = n / 3 groups.
    pub fn dims(&self) -> (r: Vec<usize>)
        ensures
            r@ == Seq::new(self@.graph.num_vertices, |i: int| (self@.graph.num_vertices / 3) as usize),
    {
        let q = self.graph.num_vertices() / 3;
        crate::util::repeat_usize(q, self.graph.num_vertices())
    }

    /// Whether the configuration partitions the vertices into triangles.
    pub fn evaluate(&self, config: &[usize]) -> (r: bool)
        ensures
            r == is_triangle_partition(self@, config@),
    {
        let n = self.graph.num_vertices();
        let q = n / 3;
        if config.len() != n {
            return false;
        }
        for i in 0..config.len()
            invariant
                forall|k: int| 0 <= k < i ==> (#[trigger] config@[k]) < q,
        {
            if config[i] >= q {
                assert(!(config@[i as int] < q));
                return false;
            }
        }
        let counts = value_counts(config, q);
        for g in 0..q
            invariant
                forall|h: usize| h < g ==> #[trigger] count_of(config@, h) == 3,
        {
            assert(counts@[g as int] == count_of(config@, g));
            if counts[g] != 3 {
                return false;
            }
        }
        for u in 0..n
            invariant
                forall|a: int, b: int|
                    0 <= a < u && a < b < n && config@[a] == config@[b] ==> self@.graph.has_edge(a, b),
        {
            for v in (u + 1)..n
                invariant
                    u < n,
                    forall|a: int, b: int|
                        0 <= a < u && a < b < n && config@[a] == config@[b] ==> self@.graph.has_edge(a, b),
                    forall|b: int|
                        u < b < v && config@[u as int] == config@[b] ==> self@.graph.has_edge(u as int, b),
            {
                if config[u] == config[v] && !self.graph.has_edge(u, v) {
                    return false;
                }
            }
        }
        true
    }
}

} // verus!
