//! Optimum Communication Spanning Tree.
//!
//! Given edge weights and communication requirements between every pair of
//! vertices of a complete graph, find a spanning tree minimizing the sum over
//! pairs of requirement times tree-path weight. A configuration selects the
//! tree's edges among the `n(n-1)/2` edges `(i, j)`, `i < j`, in
//! lexicographic order.
use crate::reach::{is_walk, kept_link, lemma_reaches_closed, lemma_reaches_refl, lemma_reaches_trans, link_step, reaches};
use crate::types::Min;
use crate::util::{count_of, count_true, count_value, lemma_count_true_bound, lemma_count_true_update, ones_flags, ones_of};
use vstd::prelude::*;

verus! {

/// The rows of an `i32` matrix, each viewed as a sequence.
pub open spec fn rows_i32(rows: Seq<Vec<i32>>) -> Seq<Seq<i32>> {
    rows.map_values(|row: Vec<i32>| row@)
}

/// An `n x n` matrix with a zero diagonal, symmetric and nonnegative.
pub open spec fn is_cost_matrix(m: Seq<Seq<i32>>, n: nat) -> bool {
    &&& m.len() == n
    &&& forall|i: int| 0 <= i < n ==> (#[trigger] m[i]).len() == n && m[i][i] == 0
    &&& forall|i: int, j: int| 0 <= i < n && 0 <= j < n ==> #[trigger] m[i][j] == m[j][i] && m[i][j] >= 0
}

/// Mathematical model of an [`OptimumCommunicationSpanningTree`] instance.
pub struct CommunicationView {
    pub num_vertices: nat,
    pub edge_weights: Seq<Seq<i32>>,
    pub requirements: Seq<Seq<i32>>,
}

impl CommunicationView {
    /// At least two vertices; both matrices are cost matrices.
    pub open spec fn wf(self) -> bool {
        &&& self.num_vertices >= 2
        &&& is_cost_matrix(self.edge_weights, self.num_vertices)
        &&& is_cost_matrix(self.requirements, self.num_vertices)
    }
}

/// The edges `(i, i + 1), ..., (i, n - 1)`.
pub open spec fn edge_row(n: nat, i: int) -> Seq<(usize, usize)> {
    Seq::new(if i + 1 < n { (n - 1 - i) as nat } else { 0 }, |k: int| (i as usize, (i + 1 + k) as usize))
}

/// The edges of rows `0..i`, in lexicographic order.
pub open spec fn edges_upto(n: nat, i: int) -> Seq<(usize, usize)>
    decreases i,
{
    if i <= 0 {
        Seq::empty()
    } else {
        edges_upto(n, i - 1) + edge_row(n, i - 1)
    }
}

/// All edges `(i, j)`, `i < j < n`, in lexicographic order.
pub open spec fn complete_edges(n: nat) -> Seq<(usize, usize)> {
    edges_upto(n, n as int)
}

/// `p` lists distinct vertices.
pub open spec fn no_repeats(p: Seq<usize>) -> bool {
    forall|i: int, j: int| 0 <= i < j < p.len() ==> p[i] != p[j]
}

/// Sum of the weights of the consecutive pairs of `p` (the first `k` of them).
pub open spec fn path_weight(w: Seq<Seq<i32>>, p: Seq<usize>, k: int) -> int
    decreases k,
{
    if k <= 0 {
        0
    } else {
        path_weight(w, p, k - 1) + w[p[k - 1] as int][p[k] as int]
    }
}

/// `p` is a path from `s` to `t` along the selected edges, without repeated
/// vertices, of weight `d`.
pub open spec fn tree_path(m: CommunicationView, keep: Seq<bool>, p: Seq<usize>, s: int, t: int, d: int) -> bool {
    &&& is_walk(link_step(complete_edges(m.num_vertices), keep), p)
    &&& p[0] as int == s
    &&& p.last() as int == t
    &&& no_repeats(p)
    &&& path_weight(m.edge_weights, p, p.len() - 1) == d
}

/// Some repetition-free path from `s` to `t` along the selected edges has
/// weight `d`.
pub open spec fn has_tree_path(m: CommunicationView, keep: Seq<bool>, s: int, t: int, d: int) -> bool {
    exists|p: Seq<usize>| #[trigger] tree_path(m, keep, p, s, t, d)
}

/// `dist[s][t]` is the weight of a repetition-free path from `s` to `t`
/// along the selected edges (in a tree there is exactly one such path).
pub open spec fn is_path_distances(m: CommunicationView, keep: Seq<bool>, dist: Seq<Seq<int>>) -> bool {
    &&& dist.len() == m.num_vertices
    &&& forall|s: int| 0 <= s < m.num_vertices ==> (#[trigger] dist[s]).len() == m.num_vertices
    &&& forall|s: int, t: int|
        0 <= s < m.num_vertices && 0 <= t < m.num_vertices ==> #[trigger] has_tree_path(m, keep, s, t, dist[s][t])
}

/// Sum over `s < t` of `requirements[s][t] * dist[s][t]`, for the sources
/// below `s` and, for source `s`, the targets below `t`.
pub open spec fn pair_cost(r: Seq<Seq<i32>>, dist: Seq<Seq<int>>, s: int, t: int) -> int
    decreases s, t,
{
    if s <= 0 {
        0
    } else if t <= s - 1 + 1 {
        pair_cost(r, dist, s - 1, r.len() as int)
    } else {
        pair_cost(r, dist, s, t - 1) + r[s - 1][t - 1] * dist[s - 1][t - 1]
    }
}

/// The total communication cost for a distance matrix.
pub open spec fn communication_total(m: CommunicationView, dist: Seq<Seq<int>>) -> int {
    pair_cost(m.requirements, dist, m.num_vertices as int, m.num_vertices as int)
}

/// The selection is a spanning tree: `n - 1` edges, 0/1 entries, and every
/// vertex reached from vertex 0.
pub open spec fn is_spanning_tree(m: CommunicationView, config: Seq<usize>) -> bool {
    let edges = complete_edges(m.num_vertices);
    &&& config.len() == edges.len()
    &&& forall|i: int| 0 <= i < config.len() ==> #[trigger] config[i] <= 1
    &&& count_of(config, 1) == m.num_vertices - 1
    &&& forall|v: usize| v < m.num_vertices ==> #[trigger] reaches(link_step(edges, ones_of(config)), 0, v)
}

/// Every entry of `complete_edges(n)` names two vertices, the first smaller.
proof fn lemma_edges_in_range(n: nat, i: int)
    requires
        0 <= i <= n,
        n <= usize::MAX,
    ensures
        forall|k: int|
            0 <= k < edges_upto(n, i).len() ==> (#[trigger] edges_upto(n, i)[k]).0 < edges_upto(n, i)[k].1
                && edges_upto(n, i)[k].1 < n,
    decreases i,
{
    if i > 0 {
        lemma_edges_in_range(n, i - 1);
        let prev = edges_upto(n, i - 1);
        let row = edge_row(n, i - 1);
        assert forall|k: int| 0 <= k < edges_upto(n, i).len() implies (#[trigger] edges_upto(n, i)[k]).0 < edges_upto(
            n,
            i,
        )[k].1 && edges_upto(n, i)[k].1 < n by {
            if k < prev.len() {
                assert(edges_upto(n, i)[k] == prev[k]);
            } else {
                let kk = k - prev.len();
                assert(edges_upto(n, i)[k] == row[kk]);
                assert(row[kk] == ((i - 1) as usize, (i + kk) as usize));
            }
        }
    }
}

/// Row `i` of the edge list starts after `i * n - i * (i + 1) / 2` edges.
proof fn lemma_edges_upto_len(n: nat, i: int)
    requires
        0 <= i <= n,
    ensures
        2 * edges_upto(n, i).len() == 2 * i * n - i * (i + 1),
    decreases i,
{
    if i > 0 {
        lemma_edges_upto_len(n, i - 1);
        assert(edge_row(n, i - 1).len() == n - i);
        let a = edges_upto(n, i - 1).len() as int;
        let b = edges_upto(n, i).len() as int;
        assert(b == a + (n - i));
        assert(2 * b == 2 * i * n - i * (i + 1)) by (nonlinear_arith)
            requires
                b == a + (n - i),
                2 * a == 2 * (i - 1) * n - (i - 1) * ((i - 1) + 1),
        ;
    } else {
        assert(2 * i * n - i * (i + 1) == 0) by (nonlinear_arith)
            requires
                i == 0,
        ;
    }
}

/// Longer edge lists extend shorter ones.
proof fn lemma_edges_upto_prefix(n: nat, i: int, k: int, p: int)
    requires
        0 <= i <= k <= n,
        0 <= p < edges_upto(n, i).len(),
    ensures
        p < edges_upto(n, k).len(),
        edges_upto(n, k)[p] == edges_upto(n, i)[p],
    decreases k - i,
{
    if i < k {
        lemma_edges_upto_prefix(n, i, k - 1, p);
        assert(edges_upto(n, k)[p] == edges_upto(n, k - 1)[p]);
    }
}

/// `edge_index(i, j, n)` is the position of edge `(i, j)` in the
/// lexicographic list of all edges of the complete graph on `n` vertices.
pub proof fn lemma_edge_index_position(i: int, j: int, n: nat)
    requires
        0 <= i < j < n,
    ensures
        0 <= i * n - i * (i + 1) / 2 + (j - i - 1) < complete_edges(n).len(),
        complete_edges(n)[i * n - i * (i + 1) / 2 + (j - i - 1)] == (i as usize, j as usize),
{
    lemma_edges_upto_len(n, i);
    lemma_edges_upto_len(n, i + 1);
    let start = edges_upto(n, i).len() as int;
    assert(i * (i + 1) % 2 == 0) by (nonlinear_arith)
        requires
            i >= 0,
    {
        assert(i * (i + 1) == 2 * (i * (i + 1) / 2) + i * (i + 1) % 2);
        if i % 2 == 0 {
            assert(i * (i + 1) == 2 * ((i / 2) * (i + 1)));
        } else {
            assert(i * (i + 1) == 2 * (i * ((i + 1) / 2)));
        }
    }
    let t = i * (i + 1);
    assert(start == i * n - t / 2) by (nonlinear_arith)
        requires
            2 * start == 2 * i * n - i * (i + 1),
            t == i * (i + 1),
            t % 2 == 0,
    ;
    let p = start + (j - i - 1);
    let next = edges_upto(n, i + 1);
    assert(next == edges_upto(n, i) + edge_row(n, i));
    assert(next[p] == edge_row(n, i)[j - i - 1]);
    lemma_edges_upto_prefix(n, i + 1, n as int, p);
}

/// The selected links are symmetric, so reaching is symmetric.
proof fn lemma_reaches_symmetric(edges: Seq<(usize, usize)>, keep: Seq<bool>, s: usize, t: usize)
    requires
        reaches(link_step(edges, keep), s, t),
    ensures
        reaches(link_step(edges, keep), t, s),
{
    let step = link_step(edges, keep);
    let closed = |y: usize| reaches(step, y, s);
    lemma_reaches_refl(step, s);
    assert forall|x: usize, y: usize| #[trigger] step(x, y) && closed(x) implies closed(y) by {
        let i = choose|i: int|
            0 <= i < edges.len() && i < keep.len() && keep[i] && ((#[trigger] edges[i]).0 == x && edges[i].1 == y
                || edges[i].0 == y && edges[i].1 == x);
        assert(step(y, x));
        let p = choose|p: Seq<usize>| #[trigger] is_walk(step, p) && p[0] == x && p.last() == s;
        let q = seq![y] + p;
        assert forall|k: int| 0 <= k < q.len() - 1 implies #[trigger] step(q[k], q[k + 1]) by {
            if k > 0 {
                assert(q[k] == p[k - 1] && q[k + 1] == p[k]);
                assert(step(p[k - 1], p[(k - 1) + 1]));
            }
        }
        assert(is_walk(step, q));
    }
    lemma_reaches_closed(step, closed, s, t);
}

proof fn lemma_pair_cost_mono(r: Seq<Seq<i32>>, dist: Seq<Seq<int>>, n: int, s: int, t: int, s2: int, t2: int)
    requires
        r.len() == n,
        forall|a: int, b: int| 0 <= a < n && 0 <= b < n ==> #[trigger] r[a][b] >= 0 && dist[a][b] >= 0,
        forall|a: int| 0 <= a < n ==> (#[trigger] r[a]).len() == n && dist[a].len() == n,
        0 <= s <= s2 <= n,
        0 <= t <= n,
        0 <= t2 <= n,
        s == s2 ==> t <= t2,
    ensures
        pair_cost(r, dist, s, t) <= pair_cost(r, dist, s2, t2),
    decreases s2, t2,
{
    if s2 == 0 {
    } else if t2 <= s2 {
        if s == s2 {
            assert(pair_cost(r, dist, s, t) == pair_cost(r, dist, s - 1, n));
            lemma_pair_cost_mono(r, dist, n, s - 1, n, s2 - 1, n);
        } else {
            lemma_pair_cost_mono(r, dist, n, s, t, s2 - 1, n);
        }
    } else {
        if s == s2 && t == t2 {
        } else {
            lemma_pair_cost_mono(r, dist, n, s, t, s2, t2 - 1);
            assert(r[s2 - 1][t2 - 1] * dist[s2 - 1][t2 - 1] >= 0) by (nonlinear_arith)
                requires
                    r[s2 - 1][t2 - 1] >= 0,
                    dist[s2 - 1][t2 - 1] >= 0,
            ;
        }
    }
}

/// The Optimum Communication Spanning Tree problem.
#[derive(Debug)]
pub struct OptimumCommunicationSpanningTree {
    num_vertices: usize,
    edge_weights: Vec<Vec<i32>>,
    requirements: Vec<Vec<i32>>,
}

impl View for OptimumCommunicationSpanningTree {
    type V = CommunicationView;

    closed spec fn view(&self) -> CommunicationView {
        CommunicationView {
            num_vertices: self.num_vertices as nat,
            edge_weights: rows_i32(self.edge_weights@),
            requirements: rows_i32(self.requirements@),
        }
    }
}

impl OptimumCommunicationSpanningTree {
    /// The stored instance is well formed.
    #[verifier::type_invariant]
    pub closed spec fn inv(self) -> bool {
        self@.wf()
    }

    /// Create a new instance from square, symmetric, nonnegative matrices
    /// with zero diagonals.
    pub fn new(edge_weights: Vec<Vec<i32>>, requirements: Vec<Vec<i32>>) -> (r: Self)
        requires
            (CommunicationView {
                num_vertices: edge_weights@.len(),
                edge_weights: rows_i32(edge_weights@),
                requirements: rows_i32(requirements@),
            }).wf(),
        ensures
            r@ == (CommunicationView {
                num_vertices: edge_weights@.len(),
                edge_weights: rows_i32(edge_weights@),
                requirements: rows_i32(requirements@),
            }),
    {
        let n = edge_weights.len();
        OptimumCommunicationSpanningTree { num_vertices: n, edge_weights, requirements }
    }

    /// Get the number of vertices.
    pub fn num_vertices(&self) -> (r: usize)
        ensures
            r == self@.num_vertices,
    {
        self.num_vertices
    }

    /// Get the number of edges of the complete graph.
    pub fn num_edges(&self) -> (r: usize)
        requires
            self@.num_vertices * (self@.num_vertices - 1) <= usize::MAX,
        ensures
            r == self@.num_vertices * (self@.num_vertices - 1) / 2,
    {
        proof {
            use_type_invariant(self);
        }
        self.num_vertices * (self.num_vertices - 1) / 2
    }

    /// Get the edge weights.
    pub fn edge_weights(&self) -> (r: &Vec<Vec<i32>>)
        ensures
            rows_i32(r@) == self@.edge_weights,
    {
        &self.edge_weights
    }

    /// Get the requirements.
    pub fn requirements(&self) -> (r: &Vec<Vec<i32>>)
        ensures
            rows_i32(r@) == self@.requirements,
    {
        &self.requirements
    }

    /// All edges `(i, j)`, `i < j`, in lexicographic order.
    pub fn edges(&self) -> (r: Vec<(usize, usize)>)
        ensures
            r@ == complete_edges(self@.num_vertices),
    {
        let n = self.num_vertices;
        let mut edges: Vec<(usize, usize)> = Vec::new();
        for i in 0..n
            invariant
                n == self@.num_vertices,
                edges@ == edges_upto(n as nat, i as int),
        {
            let ghost before = edges@;
            let ghost row = edge_row(n as nat, i as int);
            for j in i + 1..n
                invariant
                    i < n,
                    row == edge_row(n as nat, i as int),
                    edges@ =~= before + row.take(j - i - 1),
            {
                edges.push((i, j));
                assert(row.take(j - i) =~= row.take(j - i - 1).push(row[j - i - 1]));
            }
            assert(row.take(row.len() as int) =~= row);
        }
        edges
    }

    /// Position of edge `(i, j)`, `i < j < n`, in the lexicographic edge list.
    pub fn edge_index(i: usize, j: usize, n: usize) -> (r: usize)
        requires
            i < j < n,
            i * n <= usize::MAX,
            i * n - i * (i + 1) / 2 + (j - i - 1) <= usize::MAX,
        ensures
            r == i * n - i * (i + 1) / 2 + (j - i - 1),
    {
        proof {
            assert(i * (i + 1) <= i * n) by (nonlinear_arith)
                requires
                    i < n,
            ;
            assert(i * (i + 1) / 2 <= i * (i + 1)) by (nonlinear_arith)
                requires
                    i * (i + 1) >= 0,
            ;
            assert(i * n - i * (i + 1) / 2 + (j - i - 1) <= i * n + n) by (nonlinear_arith)
                requires
                    i * (i + 1) / 2 >= 0,
                    j < n,
            ;
        }
        let a = i * n;
        let b = i * (i + 1) / 2;
        a - b + (j - i - 1)
    }

    /// Each edge is selected or not.
    pub fn dims(&self) -> (r: Vec<usize>)
        ensures
            r@ == Seq::new(complete_edges(self@.num_vertices).len(), |i: int| 2usize),
    {
        let edges = self.edges();
        crate::util::repeat_usize(2, edges.len())
    }

    /// Whether the selection is a spanning tree.
    fn is_valid_spanning_tree(&self, edges: &Vec<(usize, usize)>, config: &[usize]) -> (b: bool)
        requires
            edges@ == complete_edges(self@.num_vertices),
        ensures
            b == is_spanning_tree(self@, config@),
    {
        proof {
            use_type_invariant(self);
            lemma_edges_in_range(self@.num_vertices, self@.num_vertices as int);
        }
        let n = self.num_vertices;
        if config.len() != edges.len() {
            return false;
        }
        for i in 0..config.len()
            invariant
                forall|k: int| 0 <= k < i ==> #[trigger] config@[k] <= 1,
        {
            if config[i] > 1 {
                assert(!(config@[i as int] <= 1));
                return false;
            }
        }
        if count_value(config, 1) != n - 1 {
            return false;
        }
        let keep = ones_flags(config);
        let visited = crate::reach::reach_by_kept_edges(n, edges.as_slice(), keep.as_slice(), 0);
        for v in 0..n
            invariant
                visited@.len() == n,
                keep@ == ones_of(config@),
                edges@ == complete_edges(n as nat),
                forall|u: int| 0 <= u < n ==> (#[trigger] visited@[u] <==> reaches(link_step(edges@, keep@), 0, u as usize)),
                forall|u: usize| u < v ==> #[trigger] reaches(link_step(edges@, keep@), 0, u),
        {
            if !visited[v] {
                assert(!reaches(link_step(edges@, keep@), 0, v));
                return false;
            }
            assert(visited@[v as int]);
        }
        true
    }

    /// Distances from `src` along the selected edges of a spanning tree.
    fn distances_from(&self, edges: &Vec<(usize, usize)>, keep: &Vec<bool>, src: usize) -> (r: (
        Vec<i128>,
        Ghost<Seq<Seq<usize>>>,
    ))
        requires
            self@.wf(),
            edges@ == complete_edges(self@.num_vertices),
            keep@.len() == edges@.len(),
            src < self@.num_vertices,
            forall|v: usize| v < self@.num_vertices ==> #[trigger] reaches(link_step(edges@, keep@), src, v),
        ensures
            r.0@.len() == self@.num_vertices,
            forall|t: int| 0 <= t < self@.num_vertices ==> #[trigger] r.0@[t] >= 0 && tree_path(self@, keep@, r.1@[t], src as int, t, r.0@[t] as int),
    {
        let ghost m = self@;
        let n = self.num_vertices;
        let mut known = vec![false; n];
        let mut dist = vec![0i128; n];
        let ghost mut paths: Seq<Seq<usize>> = Seq::new(n as nat, |i: int| seq![src]);
        let ghost step = link_step(edges@, keep@);
        proof {
            lemma_edges_in_range(n as nat, n as int);
            crate::reach::lemma_count_true_zero(known@);
            lemma_count_true_update(known@, src as int);
        }
        known.set(src, true);
        proof {
            assert(is_walk(step, seq![src]));
            assert(path_weight(m.edge_weights, seq![src], 0) == 0);
        }
        loop
            invariant
                m == self@,
                m.wf(),
                n == m.num_vertices,
                step == link_step(edges@, keep@),
                edges@ == complete_edges(n as nat),
                keep@.len() == edges@.len(),
                forall|k: int| 0 <= k < edges@.len() ==> (#[trigger] edges@[k]).0 < edges@[k].1 && edges@[k].1 < n,
                src < n,
                known@.len() == n,
                dist@.len() == n,
                paths.len() == n,
                known@[src as int],
                1 <= count_true(known@) <= n,
                forall|t: int|
                    0 <= t < n && #[trigger] known@[t] ==> tree_path(m, keep@, paths[t], src as int, t, dist@[t] as int)
                        && 0 <= dist@[t] <= count_true(known@) * 0x7fff_ffff
                        && forall|i: int| 0 <= i < paths[t].len() ==> (#[trigger] paths[t][i]) < n && known@[paths[t][i] as int],
            decreases n - count_true(known@),
        {
            let mut changed = false;
            let ghost before = count_true(known@);
            for k in 0..edges.len()
                invariant
                    m == self@,
                    m.wf(),
                    n == m.num_vertices,
                    step == link_step(edges@, keep@),
                    edges@ == complete_edges(n as nat),
                    keep@.len() == edges@.len(),
                    forall|q: int| 0 <= q < edges@.len() ==> (#[trigger] edges@[q]).0 < edges@[q].1 && edges@[q].1 < n,
                    src < n,
                    known@.len() == n,
                    dist@.len() == n,
                    paths.len() == n,
                    known@[src as int],
                    1 <= count_true(known@) <= n,
                    count_true(known@) >= before,
                    changed ==> count_true(known@) > before,
                    !changed ==> count_true(known@) == before,
                    forall|t: int|
                        0 <= t < n && #[trigger] known@[t] ==> tree_path(m, keep@, paths[t], src as int, t, dist@[t] as int)
                            && 0 <= dist@[t] <= count_true(known@) * 0x7fff_ffff
                            && forall|i: int| 0 <= i < paths[t].len() ==> (#[trigger] paths[t][i]) < n && known@[paths[t][i] as int],
                    !changed ==> forall|q: int|
                        0 <= q < k && keep@[q] ==> (known@[(#[trigger] edges@[q]).0 as int] == known@[edges@[q].1 as int]),
            {
                if keep[k] {
                    let (u, v) = edges[k];
                    assert(edges@[k as int] == (u, v));
                    let (from, to) = if known[u] && !known[v] {
                        (u, v)
                    } else if known[v] && !known[u] {
                        (v, u)
                    } else {
                        (n, n)
                    };
                    if from < n {
                        proof {
                            assert(m.edge_weights[from as int] == self.edge_weights@[from as int]@);
                            assert(m.edge_weights[from as int].len() == n);
                        }
                        let w = self.edge_weights[from][to];
                        proof {
                            assert(m.edge_weights[from as int][to as int] == w);
                            assert(step(from, to)) by {
                                assert(kept_link(edges@, keep@, from, to));
                            }
                            lemma_count_true_bound(known@);
                            if count_true(known@) == n {
                                lemma_all_set(known@, to as int);
                            }
                        }
                        let nd = dist[from] + w as i128;
                        let ghost old_known = known@;
                        let ghost old_paths = paths;
                        proof {
                            lemma_count_true_update(known@, to as int);
                            let p = paths[from as int];
                            let q = p.push(to);
                            assert forall|i: int| 0 <= i < q.len() - 1 implies #[trigger] step(q[i], q[i + 1]) by {
                                if i < p.len() - 1 {
                                    assert(q[i] == p[i] && q[i + 1] == p[i + 1]);
                                    assert(step(p[i], p[i + 1]));
                                } else {
                                    assert(q[i] == from && q[i + 1] == to);
                                }
                            }
                            assert forall|i: int, j: int| 0 <= i < j < q.len() implies q[i] != q[j] by {
                                if j == p.len() {
                                    assert(known@[p[i] as int]);
                                } else {
                                    assert(q[i] == p[i] && q[j] == p[j]);
                                }
                            }
                            assert(path_weight(m.edge_weights, q, p.len() - 1) == path_weight(m.edge_weights, p, p.len() - 1))
                                by {
                                lemma_path_weight_prefix(m.edge_weights, p, q, p.len() - 1);
                            }
                            paths = paths.update(to as int, q);
                        }
                        known.set(to, true);
                        dist.set(to, nd);
                        changed = true;
                        proof {
                            assert forall|t: int|
                                0 <= t < n && #[trigger] known@[t] implies tree_path(
                                m,
                                keep@,
                                paths[t],
                                src as int,
                                t,
                                dist@[t] as int,
                            ) && 0 <= dist@[t] <= count_true(known@) * 0x7fff_ffff && forall|i: int|
                                0 <= i < paths[t].len() ==> (#[trigger] paths[t][i]) < n && known@[paths[t][i] as int] by {
                                if t != to as int {
                                    assert(old_known[t]);
                                    assert(paths[t] == old_paths[t]);
                                    assert forall|i: int| 0 <= i < paths[t].len() implies (#[trigger] paths[t][i]) < n && known@[paths[t][i] as int] by {
                                        assert(old_known[old_paths[t][i] as int]);
                                    }
                                } else {
                                    assert(old_known[from as int]);
                                    let p = old_paths[from as int];
                                    assert(paths[t] == p.push(to));
                                    assert forall|i: int| 0 <= i < paths[t].len() implies (#[trigger] paths[t][i]) < n && known@[paths[t][i] as int] by {
                                        if i < p.len() {
                                            assert(paths[t][i] == p[i]);
                                            assert(old_known[p[i] as int]);
                                        }
                                    }
                                }
                            }
                        }
                    }
                }
            }
            if !changed {
                proof {
                    let closed = |y: usize| y < n && known@[y as int];
                    assert forall|x: usize, y: usize| #[trigger] step(x, y) && closed(x) implies closed(y) by {
                        let q = choose|q: int|
                            0 <= q < edges@.len() && q < keep@.len() && keep@[q] && ((#[trigger] edges@[q]).0 == x
                                && edges@[q].1 == y || edges@[q].0 == y && edges@[q].1 == x);
                        assert(known@[edges@[q].0 as int] == known@[edges@[q].1 as int]);
                    }
                    assert forall|t: int| 0 <= t < n implies #[trigger] known@[t] by {
                        assert(reaches(step, src, t as usize));
                        lemma_reaches_closed(step, closed, src, t as usize);
                    }
                }
                break;
            }
        }
        proof {
            assert forall|t: int| 0 <= t < n implies #[trigger] dist@[t] >= 0 && tree_path(
                m,
                keep@,
                paths[t],
                src as int,
                t,
                dist@[t] as int,
            ) by {
                assert(known@[t]);
            }
        }
        (dist, Ghost(paths))
    }

    /// Total communication cost of a spanning tree.
    fn communication_cost(&self, edges: &Vec<(usize, usize)>, config: &[usize]) -> (r: i64)
        requires
            self@.wf(),
            edges@ == complete_edges(self@.num_vertices),
            is_spanning_tree(self@, config@),
            forall|d: Seq<Seq<int>>| #[trigger]
                is_path_distances(self@, ones_of(config@), d) ==> communication_total(self@, d) <= i64::MAX,
        ensures
            exists|d: Seq<Seq<int>>|
                #[trigger] is_path_distances(self@, ones_of(config@), d) && communication_total(self@, d) == r,
    {
        let ghost m = self@;
        let n = self.num_vertices;
        let keep = ones_flags(config);
        let mut rows: Vec<Vec<i128>> = Vec::new();
        let ghost mut d: Seq<Seq<int>> = Seq::empty();
        for src in 0..n
            invariant
                m == self@,
                m.wf(),
                n == m.num_vertices,
                edges@ == complete_edges(n as nat),
                keep@ == ones_of(config@),
                keep@.len() == edges@.len(),
                is_spanning_tree(m, config@),
                rows@.len() == src,
                d.len() == src,
                forall|s: int| 0 <= s < src ==> (#[trigger] rows@[s])@.len() == n,
                forall|s: int| 0 <= s < src ==> (#[trigger] d[s]).len() == n,
                forall|s: int, t: int| 0 <= s < src && 0 <= t < n ==> #[trigger] d[s][t] == rows@[s]@[t] && d[s][t] >= 0,
                forall|s: int, t: int| 0 <= s < src && 0 <= t < n ==> #[trigger] has_tree_path(m, keep@, s, t, d[s][t]),
        {
            proof {
                assert forall|v: usize| v < n implies #[trigger] reaches(link_step(edges@, keep@), src, v) by {
                    assert(reaches(link_step(edges@, keep@), 0, src));
                    lemma_reaches_symmetric(edges@, keep@, 0, src);
                    assert(reaches(link_step(edges@, keep@), 0, v));
                    lemma_reaches_trans(link_step(edges@, keep@), src, 0, v);
                }
            }
            let (row, Ghost(paths)) = self.distances_from(edges, &keep, src);
            let ghost old_d = d;
            proof {
                d = d.push(row@.map_values(|x: i128| x as int));
                assert forall|s: int, t: int| 0 <= s < src + 1 && 0 <= t < n implies #[trigger] has_tree_path(
                    m,
                    keep@,
                    s,
                    t,
                    d[s][t],
                ) by {
                    if s == src {
                        assert(tree_path(m, keep@, paths[t], s, t, d[s][t]));
                    } else {
                        assert(d[s] == old_d[s]);
                    }
                }
            }
            rows.push(row);
            proof {
                assert forall|s: int, t: int| 0 <= s < src + 1 && 0 <= t < n implies #[trigger] d[s][t] == rows@[s]@[t]
                    && d[s][t] >= 0 by {
                    if s < src {
                        assert(d[s] == old_d[s]);
                    }
                }
            }
        }
        proof {
            assert(is_path_distances(m, ones_of(config@), d));
            lemma_pair_cost_mono(m.requirements, d, n as int, 0, 0, n as int, n as int);
        }
        let mut total: i128 = 0;
        for s in 0..n
            invariant
                m == self@,
                m.wf(),
                n == m.num_vertices,
                rows@.len() == n,
                d.len() == n,
                forall|a: int| 0 <= a < n ==> (#[trigger] rows@[a])@.len() == n,
                forall|a: int| 0 <= a < n ==> (#[trigger] d[a]).len() == n,
                forall|a: int, b: int| 0 <= a < n && 0 <= b < n ==> #[trigger] d[a][b] == rows@[a]@[b] && d[a][b] >= 0,
                communication_total(m, d) <= i64::MAX,
                total == pair_cost(m.requirements, d, s as int, n as int),
        {
            assert(pair_cost(m.requirements, d, s + 1, s + 1) == pair_cost(m.requirements, d, s as int, n as int));
            let row_r = &self.requirements[s];
            let row_d = &rows[s];
            assert(m.requirements[s as int] == row_r@);
            for t in s + 1..n
                invariant
                    m == self@,
                    m.wf(),
                    n == m.num_vertices,
                    s < n,
                    rows@.len() == n,
                    d.len() == n,
                    row_d == rows@[s as int],
                    m.requirements[s as int] == row_r@,
                    forall|a: int| 0 <= a < n ==> (#[trigger] rows@[a])@.len() == n,
                    forall|a: int| 0 <= a < n ==> (#[trigger] d[a]).len() == n,
                    forall|a: int, b: int| 0 <= a < n && 0 <= b < n ==> #[trigger] d[a][b] == rows@[a]@[b] && d[a][b] >= 0,
                    communication_total(m, d) <= i64::MAX,
                    total == pair_cost(m.requirements, d, s + 1, t as int),
            {
                proof {
                    assert(m.requirements[s as int][t as int] >= 0);
                    assert(d[s as int][t as int] >= 0);
                    lemma_pair_cost_mono(m.requirements, d, n as int, s + 1, t + 1, n as int, n as int);
                    lemma_pair_cost_mono(m.requirements, d, n as int, 0, 0, s + 1, t as int);
                    let rv = m.requirements[s as int][t as int];
                    let dv = d[s as int][t as int];
                    assert(rv * dv >= 0) by (nonlinear_arith)
                        requires
                            rv >= 0,
                            dv >= 0,
                    ;
                    assert(pair_cost(m.requirements, d, s + 1, t + 1) == total + rv * dv);
                    assert(rv * dv <= i64::MAX);
                }
                let term = (row_r[t] as i128) * row_d[t];
                total = total + term;
            }
        }
        assert(pair_cost(m.requirements, d, n as int, n as int) == total);
        total as i64
    }

    /// Total communication cost of a spanning tree; `Min(None)` when the
    /// selection is not one.
    pub fn evaluate(&self, config: &[usize]) -> (r: Min<i64>)
        requires
            forall|d: Seq<Seq<int>>| #[trigger]
                is_path_distances(self@, ones_of(config@), d) ==> communication_total(self@, d) <= i64::MAX,
        ensures
            match r.0 {
                Some(c) => is_spanning_tree(self@, config@) && exists|d: Seq<Seq<int>>|
                    #[trigger] is_path_distances(self@, ones_of(config@), d) && communication_total(self@, d) == c,
                None => !is_spanning_tree(self@, config@),
            },
    {
        proof {
            use_type_invariant(self);
        }
        let edges = self.edges();
        if !self.is_valid_spanning_tree(&edges, config) {
            return Min(None);
        }
        Min(Some(self.communication_cost(&edges, config)))
    }
}

/// Extending a sequence leaves the weight of its prefix pairs unchanged.
proof fn lemma_path_weight_prefix(w: Seq<Seq<i32>>, p: Seq<usize>, q: Seq<usize>, k: int)
    requires
        0 <= k < p.len(),
        p.len() <= q.len(),
        forall|i: int| 0 <= i < p.len() ==> q[i] == p[i],
    ensures
        path_weight(w, q, k) == path_weight(w, p, k),
    decreases k,
{
    if k > 0 {
        lemma_path_weight_prefix(w, p, q, k - 1);
    }
}

/// With every entry counted, every entry is set.
proof fn lemma_all_set(s: Seq<bool>, i: int)
    requires
        count_true(s) == s.len(),
        0 <= i < s.len(),
    ensures
        s[i],
    decreases s.len(),
{
    lemma_count_true_bound(s.drop_last());
    if i < s.len() - 1 {
        if !s.last() {
            assert(count_true(s) == count_true(s.drop_last()));
        }
        lemma_all_set(s.drop_last(), i);
        assert(s[i] == s.drop_last()[i]);
    } else if !s[i] {
        assert(count_true(s) == count_true(s.drop_last()));
    }
}

} // verus!
