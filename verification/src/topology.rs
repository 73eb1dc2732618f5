//! Graph types used by the problem models.
use crate::util::copy_pairs;
use vstd::prelude::*;

verus! {

/// Mathematical model of an undirected graph: a vertex count and the list of
/// edges in insertion order.
pub struct GraphView {
    pub num_vertices: nat,
    pub edges: Seq<(usize, usize)>,
}

impl GraphView {
    /// Every edge joins two vertices of the graph.
    pub open spec fn wf(self) -> bool {
        forall|i: int|
            0 <= i < self.edges.len() ==> (#[trigger] self.edges[i]).0 < self.num_vertices
                && self.edges[i].1 < self.num_vertices
    }

    /// `{u, v}` is an edge of the graph (in either stored orientation).
    pub open spec fn has_edge(self, u: int, v: int) -> bool {
        exists|i: int|
            0 <= i < self.edges.len() && ((#[trigger] self.edges[i]).0 == u && self.edges[i].1
                == v || self.edges[i].0 == v && self.edges[i].1 == u)
    }
}

/// A simple undirected graph with `num_vertices` vertices and an edge list.
#[derive(Debug)]
pub struct SimpleGraph {
    num_vertices: usize,
    edges: Vec<(usize, usize)>,
}

impl View for SimpleGraph {
    type V = GraphView;

    closed spec fn view(&self) -> GraphView {
        GraphView { num_vertices: self.num_vertices as nat, edges: self.edges@ }
    }
}

impl SimpleGraph {
    /// The stored edges only mention vertices of the graph.
    #[verifier::type_invariant]
    pub open spec fn inv(self) -> bool {
        self@.wf()
    }

    /// Create a graph on `num_vertices` vertices with the given edges.
    pub fn new(num_vertices: usize, edges: Vec<(usize, usize)>) -> (g: Self)
        requires
            (GraphView { num_vertices: num_vertices as nat, edges: edges@ }).wf(),
        ensures
            g@ == (GraphView { num_vertices: num_vertices as nat, edges: edges@ }),
    {
        SimpleGraph { num_vertices, edges }
    }

    pub fn num_vertices(&self) -> (r: usize)
        ensures
            r == self@.num_vertices,
    {
        self.num_vertices
    }

    pub fn num_edges(&self) -> (r: usize)
        ensures
            r == self@.edges.len(),
    {
        self.edges.len()
    }

    /// The edge list, in insertion order.
    pub fn edges(&self) -> (r: Vec<(usize, usize)>)
        ensures
            r@ == self@.edges,
            self@.wf(),
    {
        proof {
            use_type_invariant(self);
        }
        copy_pairs(&self.edges)
    }

    /// The edge list as a slice, in insertion order.
    pub fn edge_slice(&self) -> (r: &[(usize, usize)])
        ensures
            r@ == self@.edges,
            self@.wf(),
    {
        proof {
            use_type_invariant(self);
        }
        self.edges.as_slice()
    }

    /// Whether `{u, v}` is an edge.
    pub fn has_edge(&self, u: usize, v: usize) -> (r: bool)
        ensures
            r == self@.has_edge(u as int, v as int),
    {
        let n = self.edges.len();
        for i in 0..n
            invariant
                n == self.edges@.len(),
                forall|k: int|
                    0 <= k < i ==> !((#[trigger] self.edges@[k]).0 == u && self.edges@[k].1 == v
                        || self.edges@[k].0 == v && self.edges@[k].1 == u),
        {
            let (a, b) = self.edges[i];
            if (a == u && b == v) || (a == v && b == u) {
                assert(self@.edges[i as int] == self.edges@[i as int]);
                return true;
            }
        }
        false
    }
}

impl Clone for SimpleGraph {
    fn clone(&self) -> (r: Self)
        ensures
            r@ == self@,
    {
        proof {
            use_type_invariant(self);
        }
        SimpleGraph { num_vertices: self.num_vertices, edges: copy_pairs(&self.edges) }
    }
}

/// Mathematical model of a directed graph: a vertex count and its arcs.
pub struct DigraphView {
    pub num_vertices: nat,
    pub arcs: Seq<(usize, usize)>,
}

impl DigraphView {
    /// Every arc joins two vertices of the graph.
    pub open spec fn wf(self) -> bool {
        forall|i: int|
            0 <= i < self.arcs.len() ==> (#[trigger] self.arcs[i]).0 < self.num_vertices
                && self.arcs[i].1 < self.num_vertices
    }

    /// `(u, v)` is an arc of the graph.
    pub open spec fn has_arc(self, u: int, v: int) -> bool {
        exists|i: int|
            0 <= i < self.arcs.len() && (#[trigger] self.arcs[i]).0 == u && self.arcs[i].1 == v
    }
}

/// A directed graph with `num_vertices` vertices and an arc list.
#[derive(Debug)]
pub struct DirectedGraph {
    num_vertices: usize,
    arcs: Vec<(usize, usize)>,
}

impl View for DirectedGraph {
    type V = DigraphView;

    closed spec fn view(&self) -> DigraphView {
        DigraphView { num_vertices: self.num_vertices as nat, arcs: self.arcs@ }
    }
}

impl DirectedGraph {
    /// The stored arcs only mention vertices of the graph.
    #[verifier::type_invariant]
    pub open spec fn inv(self) -> bool {
        self@.wf()
    }

    /// Create a directed graph on `num_vertices` vertices with the given arcs.
    pub fn new(num_vertices: usize, arcs: Vec<(usize, usize)>) -> (g: Self)
        requires
            (DigraphView { num_vertices: num_vertices as nat, arcs: arcs@ }).wf(),
        ensures
            g@ == (DigraphView { num_vertices: num_vertices as nat, arcs: arcs@ }),
    {
        DirectedGraph { num_vertices, arcs }
    }

    pub fn num_vertices(&self) -> (r: usize)
        ensures
            r == self@.num_vertices,
    {
        self.num_vertices
    }

    pub fn num_arcs(&self) -> (r: usize)
        ensures
            r == self@.arcs.len(),
    {
        self.arcs.len()
    }

    /// The arc list, in insertion order.
    pub fn arcs(&self) -> (r: Vec<(usize, usize)>)
        ensures
            r@ == self@.arcs,
            self@.wf(),
    {
        proof {
            use_type_invariant(self);
        }
        copy_pairs(&self.arcs)
    }

    /// Whether `(u, v)` is an arc.
    pub fn has_arc(&self, u: usize, v: usize) -> (r: bool)
        ensures
            r == self@.has_arc(u as int, v as int),
    {
        let n = self.arcs.len();
        for i in 0..n
            invariant
                n == self.arcs@.len(),
                forall|k: int|
                    0 <= k < i ==> !((#[trigger] self.arcs@[k]).0 == u && self.arcs@[k].1 == v),
        {
            let (a, b) = self.arcs[i];
            if a == u && b == v {
                assert(self@.arcs[i as int] == self.arcs@[i as int]);
                return true;
            }
        }
        false
    }
}

impl Clone for DirectedGraph {
    fn clone(&self) -> (r: Self)
        ensures
            r@ == self@,
    {
        proof {
            use_type_invariant(self);
        }
        DirectedGraph { num_vertices: self.num_vertices, arcs: copy_pairs(&self.arcs) }
    }
}

} // verus!
