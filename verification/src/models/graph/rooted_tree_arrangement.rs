//! Rooted Tree Arrangement.
//!
//! The Rooted Tree Arrangement problem asks whether a graph can be embedded
//! into the nodes of a rooted tree so that every graph edge lies on a single
//! root-to-leaf path and the total tree stretch is bounded.
//!
//! A configuration has `2n` entries: the first `n` are a parent array of the
//! tree (the root is its own parent), the last `n` map each graph vertex to a
//! tree node.
use crate::reach::{first_true, lemma_first_true};
use crate::topology::{GraphView, SimpleGraph};
use crate::types::Or;
use crate::util::{all_below, check_all_below, check_permutation, count_true, count_true_flags, is_permutation};
use vstd::prelude::*;

verus! {

/// Mathematical model of a [`RootedTreeArrangement`] instance.
pub struct RootedTreeArrangementView {
    pub graph: GraphView,
    pub bound: nat,
}

/// Number of parent steps from `v` up to `root`, if `root` is met within
/// `fuel` steps.
pub open spec fn climb(parent: Seq<usize>, root: usize, v: usize, fuel: nat) -> Option<nat>
    decreases fuel,
{
    if v == root {
        Some(0)
    } else if fuel == 0 || v >= parent.len() {
        None
    } else {
        match climb(parent, root, parent[v as int], (fuel - 1) as nat) {
            Some(d) => Some(d + 1),
            None => None,
        }
    }
}

/// Flags the nodes that are their own parent.
pub open spec fn root_flags(parent: Seq<usize>) -> Seq<bool> {
    Seq::new(parent.len(), |v: int| parent[v] == v as usize)
}

/// The unique self-parented node of a parent array that has exactly one.
pub open spec fn root_of(parent: Seq<usize>) -> usize {
    first_true(root_flags(parent)) as usize
}

/// The depth of every node when `parent` describes a rooted tree: every
/// entry is a node, exactly one node is its own parent, and every node reaches
/// that root within `n` parent steps. `None` when `parent` is no such tree.
pub open spec fn tree_depths(parent: Seq<usize>) -> Option<Seq<nat>> {
    let n = parent.len();
    let root = root_of(parent);
    if n == 0 {
        Some(Seq::empty())
    } else if !all_below(parent, n as int) || count_true(root_flags(parent)) != 1 {
        None
    } else if forall|v: usize| v < n ==> #[trigger] climb(parent, root, v, n) is Some {
        Some(Seq::new(n, |v: int| climb(parent, root, v as usize, n).unwrap()))
    } else {
        None
    }
}

/// `a` lies on the parent chain from `d` (inclusive), looking at most `fuel`
/// steps up and stopping at a self-parented node.
pub open spec fn on_parent_chain(parent: Seq<usize>, a: usize, d: usize, fuel: nat) -> bool
    decreases fuel,
{
    if d == a {
        true
    } else if fuel == 0 || d >= parent.len() || parent[d as int] == d {
        false
    } else {
        on_parent_chain(parent, a, parent[d as int], (fuel - 1) as nat)
    }
}

/// One of `u`, `v` is an ancestor of the other in the tree.
pub open spec fn ancestor_comparable(parent: Seq<usize>, u: usize, v: usize) -> bool {
    on_parent_chain(parent, u, v, parent.len()) || on_parent_chain(parent, v, u, parent.len())
}

/// Absolute difference of two naturals.
pub open spec fn abs_diff(a: nat, b: nat) -> nat {
    if a >= b { (a - b) as nat } else { (b - a) as nat }
}

/// Sum over `edges` of the depth difference of the images of the endpoints.
pub open spec fn stretch_sum(edges: Seq<(usize, usize)>, mapping: Seq<usize>, depth: Seq<nat>) -> nat
    decreases edges.len(),
{
    if edges.len() == 0 {
        0
    } else {
        let e = edges.last();
        stretch_sum(edges.drop_last(), mapping, depth) + abs_diff(
            depth[mapping[e.0 as int] as int],
            depth[mapping[e.1 as int] as int],
        )
    }
}

/// Every edge maps to a pair of ancestor-comparable tree nodes.
pub open spec fn edges_comparable(edges: Seq<(usize, usize)>, parent: Seq<usize>, mapping: Seq<usize>) -> bool {
    forall|i: int|
        0 <= i < edges.len() ==> ancestor_comparable(
            parent,
            mapping[(#[trigger] edges[i]).0 as int],
            mapping[edges[i].1 as int],
        )
}

/// The total stretch of the embedding described by `config`, `None` when
/// `config` is not a tree plus a bijective embedding that keeps every edge on
/// a root-to-leaf path.
pub open spec fn total_stretch(graph: GraphView, config: Seq<usize>) -> Option<nat> {
    let n = graph.num_vertices;
    let parent = config.take(n as int);
    let mapping = config.skip(n as int);
    if n == 0 {
        if config.len() == 0 { Some(0) } else { None }
    } else if config.len() != 2 * n {
        None
    } else {
        match tree_depths(parent) {
            None => None,
            Some(depth) => if !is_permutation(mapping, n) || !edges_comparable(graph.edges, parent, mapping) {
                None
            } else {
                Some(stretch_sum(graph.edges, mapping, depth))
            },
        }
    }
}

/// The embedding is valid and its total stretch is within the bound.
pub open spec fn is_bounded_arrangement(m: RootedTreeArrangementView, config: Seq<usize>) -> bool {
    match total_stretch(m.graph, config) {
        Some(s) => s <= m.bound,
        None => false,
    }
}

/// Climbing from a non-root node is one step plus climbing from its parent.
proof fn lemma_climb_step(parent: Seq<usize>, root: usize, v: usize, fuel: nat)
    requires
        v != root,
        fuel > 0,
        v < parent.len(),
    ensures
        climb(parent, root, v, fuel) == (match climb(parent, root, parent[v as int], (fuel - 1) as nat) {
            Some(d) => Some(d + 1),
            None => None::<nat>,
        }),
{
}

/// Check that `parent` is a rooted tree and compute the depth of every node.
pub fn analyze_parent_array(parent: &[usize]) -> (r: Option<Vec<usize>>)
    ensures
        match r {
            Some(d) => tree_depths(parent@) matches Some(depth) && d@.len() == parent@.len()
                && forall|v: int| 0 <= v < parent@.len() ==> d@[v] == #[trigger] depth[v] && d@[v] <= parent@.len(),
            None => tree_depths(parent@) is None,
        },
{
    let n = parent.len();
    if n == 0 {
        return Some(Vec::new());
    }
    if !check_all_below(parent, n) {
        return None;
    }
    let mut flags: Vec<bool> = Vec::new();
    for v in 0..n
        invariant
            n == parent@.len(),
            flags@ =~= root_flags(parent@).take(v as int),
    {
        flags.push(parent[v] == v);
    }
    assert(flags@ =~= root_flags(parent@));
    if count_true_flags(&flags) != 1 {
        return None;
    }
    let ghost pv = parent@;
    let mut root: usize = 0;
    while root < n && !flags[root]
        invariant
            root <= n,
            flags@ == root_flags(pv),
            forall|j: int| 0 <= j < root ==> !flags@[j],
        decreases n - root,
    {
        root = root + 1;
    }
    proof {
        lemma_first_true(root_flags(pv));
        if root < n {
            assert(first_true(root_flags(pv)) == root);
        } else {
            crate::reach::lemma_count_true_zero(root_flags(pv));
        }
    }
    assert(root < n);
    assert(root == root_of(pv));
    let mut depth: Vec<usize> = Vec::new();
    for v in 0..n
        invariant
            n == pv.len(),
            pv == parent@,
            n > 0,
            all_below(pv, n as int),
            root == root_of(pv),
            depth@.len() == v,
            forall|w: usize| w < v ==> (#[trigger] climb(pv, root, w, n as nat)) is Some,
            forall|w: int| 0 <= w < v ==> depth@[w] == climb(pv, root, w as usize, n as nat).unwrap(),
            forall|w: int| 0 <= w < v ==> depth@[w] <= n,
    {
        let mut cur = v;
        let mut steps: usize = 0;
        while cur != root
            invariant
                n == pv.len(),
                pv == parent@,
                all_below(pv, n as int),
                cur < n,
                steps <= n,
                climb(pv, root, v, n as nat) == (match climb(pv, root, cur, (n - steps) as nat) {
                    Some(d) => Some((d + steps) as nat),
                    None => None::<nat>,
                }),
            decreases n - steps,
        {
            if steps == n {
                assert(climb(pv, root, v, n as nat) is None);
                return None;
            }
            proof {
                lemma_climb_step(pv, root, cur, (n - steps) as nat);
            }
            cur = parent[cur];
            steps = steps + 1;
        }
        depth.push(steps);
    }
    proof {
        let depths = tree_depths(pv);
        assert(depths == Some(Seq::new(n as nat, |v: int| climb(pv, root, v as usize, n as nat).unwrap())));
    }
    Some(depth)
}

/// Whether `ancestor` lies on the parent chain from `descendant`.
fn is_ancestor(parent: &[usize], ancestor: usize, descendant: usize) -> (r: bool)
    requires
        all_below(parent@, parent@.len() as int),
        descendant < parent@.len(),
    ensures
        r == on_parent_chain(parent@, ancestor, descendant, parent@.len() as nat),
{
    let n = parent.len();
    let mut current = descendant;
    let mut fuel = n;
    loop
        invariant
            n == parent@.len(),
            all_below(parent@, n as int),
            current < n,
            fuel <= n,
            on_parent_chain(parent@, ancestor, descendant, n as nat) == on_parent_chain(
                parent@,
                ancestor,
                current,
                fuel as nat,
            ),
        decreases fuel,
    {
        if current == ancestor {
            return true;
        }
        let next = parent[current];
        if fuel == 0 || next == current {
            return false;
        }
        current = next;
        fuel = fuel - 1;
    }
}

/// One of `u`, `v` is an ancestor of the other.
fn are_ancestor_comparable(parent: &[usize], u: usize, v: usize) -> (r: bool)
    requires
        all_below(parent@, parent@.len() as int),
        u < parent@.len(),
        v < parent@.len(),
    ensures
        r == ancestor_comparable(parent@, u, v),
{
    is_ancestor(parent, u, v) || is_ancestor(parent, v, u)
}

/// Rooted Tree Arrangement: embed a graph into a rooted tree with bounded
/// total stretch.
#[derive(Debug, Clone)]
pub struct RootedTreeArrangement {
    graph: SimpleGraph,
    bound: usize,
}

impl View for RootedTreeArrangement {
    type V = RootedTreeArrangementView;

    closed spec fn view(&self) -> RootedTreeArrangementView {
        RootedTreeArrangementView { graph: self.graph@, bound: self.bound as nat }
    }
}

impl RootedTreeArrangement {
    /// Create a new instance from a graph and a stretch bound.
    pub fn new(graph: SimpleGraph, bound: usize) -> (r: Self)
        ensures
            r@ == (RootedTreeArrangementView { graph: graph@, bound: bound as nat }),
    {
        RootedTreeArrangement { graph, bound }
    }

    /// Get a reference to the graph.
    pub fn graph(&self) -> (r: &SimpleGraph)
        ensures
            r@ == self@.graph,
    {
        &self.graph
    }

    /// Get the stretch bound.
    pub fn bound(&self) -> (r: usize)
        ensures
            r == self@.bound,
    {
        self.bound
    }

    /// Get the number of vertices.
    pub fn num_vertices(&self) -> (r: usize)
        ensures
            r == self@.graph.num_vertices,
    {
        self.graph.num_vertices()
    }

    /// Get the number of edges.
    pub fn num_edges(&self) -> (r: usize)
        ensures
            r == self@.graph.edges.len(),
    {
        self.graph.num_edges()
    }

    /// Whether the configuration is a valid embedding with total stretch
    /// within the bound.
    pub fn is_valid_solution(&self, config: &[usize]) -> (r: bool)
        requires
            total_stretch(self@.graph, config@) matches Some(s) ==> s <= usize::MAX,
        ensures
            r == is_bounded_arrangement(self@, config@),
    {
        match self.total_edge_stretch(config) {
            Some(stretch) => stretch <= self.bound,
            None => false,
        }
    }

    /// Total tree stretch of a valid embedding, `None` otherwise.
    pub fn total_edge_stretch(&self, config: &[usize]) -> (r: Option<usize>)
        requires
            total_stretch(self@.graph, config@) matches Some(s) ==> s <= usize::MAX,
        ensures
            r matches Some(s) ==> total_stretch(self@.graph, config@) == Some(s as nat),
            r is None ==> total_stretch(self@.graph, config@) is None,
    {
        let n = self.graph.num_vertices();
        if n == 0 {
            if config.len() == 0 {
                return Some(0);
            }
            return None;
        }
        if config.len() / 2 != n || config.len() % 2 != 0 {
            return None;
        }
        let parent = vstd::slice::slice_subrange(config, 0, n);
        let mapping = vstd::slice::slice_subrange(config, n, config.len());
        assert(parent@ =~= config@.take(n as int));
        assert(mapping@ =~= config@.skip(n as int));
        let depth = match analyze_parent_array(parent) {
            Some(d) => d,
            None => {
                return None;
            },
        };
        if !check_permutation(mapping, n) {
            return None;
        }
        let ghost depths = tree_depths(parent@).unwrap();
        assert forall|v: int| 0 <= v < n implies #[trigger] depth@[v] == depths[v] && depth@[v] <= n by {
            assert(depth@[v] == depths[v]);
        }
        let edges = self.graph.edge_slice();
        let mut total: u128 = 0;
        for i in 0..edges.len()
            invariant
                n == self@.graph.num_vertices,
                n > 0,
                parent@.len() == n,
                all_below(parent@, n as int),
                is_permutation(mapping@, n as nat),
                edges@ == self@.graph.edges,
                self@.graph.wf(),
                depth@.len() == n,
                forall|v: int| 0 <= v < n ==> #[trigger] depth@[v] == depths[v] && depth@[v] <= n,
                edges_comparable(edges@.take(i as int), parent@, mapping@),
                total == stretch_sum(edges@.take(i as int), mapping@, depths),
                total <= i * n,
        {
            let (u, v) = edges[i];
            assert(edges@[i as int] == (u, v));
            let tu = mapping[u];
            let tv = mapping[v];
            assert(edges@.take(i + 1).drop_last() =~= edges@.take(i as int));
            if !are_ancestor_comparable(parent, tu, tv) {
                assert(edges@.take(i + 1)[i as int] == (u, v));
                assert(!edges_comparable(edges@.take(i + 1), parent@, mapping@));
                assert(!edges_comparable(edges@, parent@, mapping@)) by {
                    assert(edges@[i as int] == (u, v));
                }
                return None;
            }
            let du = depth[tu];
            let dv = depth[tv];
            let diff = if du >= dv { du - dv } else { dv - du };
            assert(diff <= n);
            assert(total + diff <= (i + 1) * n) by (nonlinear_arith)
                requires
                    total <= i * n,
                    diff <= n,
            ;
            assert((i + 1) * n <= 0xffff_ffff_ffff_ffff_ffff_ffff_ffff_ffffu128) by (nonlinear_arith)
                requires
                    i + 1 <= usize::MAX,
                    n <= usize::MAX,
                    usize::MAX <= 0xffff_ffff_ffff_ffffu64,
            ;
            total = total + diff as u128;
            assert(edges_comparable(edges@.take(i + 1), parent@, mapping@)) by {
                assert forall|k: int| 0 <= k < i + 1 implies ancestor_comparable(
                    parent@,
                    mapping@[(#[trigger] edges@.take(i + 1)[k]).0 as int],
                    mapping@[edges@.take(i + 1)[k].1 as int],
                ) by {
                    if k < i {
                        assert(edges@.take(i + 1)[k] == edges@.take(i as int)[k]);
                    }
                }
            }
        }
        assert(edges@.take(edges@.len() as int) =~= edges@);
        if total > usize::MAX as u128 {
            return None;
        }
        Some(total as usize)
    }

    /// Each of the `2n` variables ranges over `0..n`.
    pub fn dims(&self) -> (r: Vec<usize>)
        requires
            2 * self@.graph.num_vertices <= usize::MAX,
        ensures
            r@ == Seq::new(2 * self@.graph.num_vertices, |i: int| self@.graph.num_vertices as usize),
    {
        let n = self.graph.num_vertices();
        crate::util::repeat_usize(n, 2 * n)
    }

    /// Whether the configuration is a valid embedding within the bound.
    pub fn evaluate(&self, config: &[usize]) -> (r: Or)
        requires
            total_stretch(self@.graph, config@) matches Some(s) ==> s <= usize::MAX,
        ensures
            r == Or(is_bounded_arrangement(self@, config@)),
    {
        Or(self.is_valid_solution(config))
    }
}

} // verus!
