//! Reachability: walks over a step relation, and a verified graph search that
//! computes exactly the set of vertices reachable from a start vertex.
use crate::util::{count_true, lemma_count_true_bound, lemma_count_true_update};
use vstd::prelude::*;

verus! {

/// `p` is a non-empty walk whose consecutive vertices are related by `step`.
pub open spec fn is_walk(step: spec_fn(usize, usize) -> bool, p: Seq<usize>) -> bool {
    &&& p.len() > 0
    &&& forall|i: int| 0 <= i < p.len() - 1 ==> #[trigger] step(p[i], p[i + 1])
}

/// Some walk along `step` leads from `s` to `t` (every vertex reaches itself).
pub open spec fn reaches(step: spec_fn(usize, usize) -> bool, s: usize, t: usize) -> bool {
    exists|p: Seq<usize>| #[trigger] is_walk(step, p) && p[0] == s && p.last() == t
}

/// Undirected link between `u` and `v` through an edge whose `keep` flag is set.
pub open spec fn kept_link(edges: Seq<(usize, usize)>, keep: Seq<bool>, u: usize, v: usize) -> bool {
    exists|i: int|
        0 <= i < edges.len() && i < keep.len() && keep[i] && ((#[trigger] edges[i]).0 == u
            && edges[i].1 == v || edges[i].0 == v && edges[i].1 == u)
}

/// The step relation of the kept undirected edges.
pub open spec fn link_step(edges: Seq<(usize, usize)>, keep: Seq<bool>) -> spec_fn(usize, usize) -> bool {
    |u: usize, v: usize| kept_link(edges, keep, u, v)
}

/// Directed link from `u` to `v` through an arc whose `keep` flag is set.
pub open spec fn kept_arc(arcs: Seq<(usize, usize)>, keep: Seq<bool>, u: usize, v: usize) -> bool {
    exists|i: int|
        0 <= i < arcs.len() && i < keep.len() && keep[i] && (#[trigger] arcs[i]).0 == u
            && arcs[i].1 == v
}

/// A kept arc leads from `u` to `v` (`forward`), or from `v` to `u`.
pub open spec fn arc_step(arcs: Seq<(usize, usize)>, keep: Seq<bool>, forward: bool, u: usize, v: usize) -> bool {
    if forward {
        kept_arc(arcs, keep, u, v)
    } else {
        kept_arc(arcs, keep, v, u)
    }
}

/// The step relation of the kept arcs, followed forwards or backwards.
pub open spec fn arc_step_fn(arcs: Seq<(usize, usize)>, keep: Seq<bool>, forward: bool) -> spec_fn(usize, usize) -> bool {
    |u: usize, v: usize| arc_step(arcs, keep, forward, u, v)
}

/// Adjacency lists `adj` describe exactly the relation `step` on `0..adj.len()`.
pub open spec fn adjacency_of(adj: Seq<Seq<usize>>, step: spec_fn(usize, usize) -> bool) -> bool {
    &&& forall|x: int, k: int|
        0 <= x < adj.len() && 0 <= k < adj[x].len() ==> (#[trigger] adj[x][k]) < adj.len()
    &&& forall|x: usize, y: usize| #[trigger]
        step(x, y) ==> x < adj.len() && y < adj.len() && adj[x as int].contains(y)
    &&& forall|x: int, k: int|
        0 <= x < adj.len() && 0 <= k < adj[x].len() ==> step(x as usize, #[trigger] adj[x][k])
}

pub proof fn lemma_reaches_refl(step: spec_fn(usize, usize) -> bool, s: usize)
    ensures
        reaches(step, s, s),
{
    let p = seq![s];
    assert(is_walk(step, p));
}

pub proof fn lemma_reaches_step(step: spec_fn(usize, usize) -> bool, s: usize, v: usize, u: usize)
    requires
        reaches(step, s, v),
        step(v, u),
    ensures
        reaches(step, s, u),
{
    let p = choose|p: Seq<usize>| #[trigger] is_walk(step, p) && p[0] == s && p.last() == v;
    let q = p.push(u);
    assert forall|i: int| 0 <= i < q.len() - 1 implies #[trigger] step(q[i], q[i + 1]) by {
        if i < p.len() - 1 {
            assert(q[i] == p[i] && q[i + 1] == p[i + 1]);
        }
    }
    assert(is_walk(step, q));
}

/// A set that contains `s` and is closed under `step` contains every vertex
/// that `s` reaches.
pub proof fn lemma_reaches_closed(
    step: spec_fn(usize, usize) -> bool,
    closed: spec_fn(usize) -> bool,
    s: usize,
    t: usize,
)
    requires
        closed(s),
        forall|x: usize, y: usize| #[trigger] step(x, y) && closed(x) ==> closed(y),
        reaches(step, s, t),
    ensures
        closed(t),
{
    let p = choose|p: Seq<usize>| #[trigger] is_walk(step, p) && p[0] == s && p.last() == t;
    lemma_walk_closed(step, closed, p, p.len() - 1);
}

proof fn lemma_walk_closed(
    step: spec_fn(usize, usize) -> bool,
    closed: spec_fn(usize) -> bool,
    p: Seq<usize>,
    i: int,
)
    requires
        is_walk(step, p),
        closed(p[0]),
        forall|x: usize, y: usize| #[trigger] step(x, y) && closed(x) ==> closed(y),
        0 <= i < p.len(),
    ensures
        closed(p[i]),
    decreases i,
{
    if i > 0 {
        lemma_walk_closed(step, closed, p, i - 1);
        let j = i - 1;
        assert(step(p[j], p[j + 1]));
    }
}

/// Reachability composes: `s` reaches `m` and `m` reaches `t`, so `s` reaches `t`.
pub proof fn lemma_reaches_trans(step: spec_fn(usize, usize) -> bool, s: usize, m: usize, t: usize)
    requires
        reaches(step, s, m),
        reaches(step, m, t),
    ensures
        reaches(step, s, t),
{
    let closed = |y: usize| reaches(step, s, y);
    assert forall|x: usize, y: usize| #[trigger] step(x, y) && closed(x) implies closed(y) by {
        lemma_reaches_step(step, s, x, y);
    }
    lemma_reaches_closed(step, closed, m, t);
}

/// Build adjacency lists for the undirected edges whose `keep` flag is set.
pub fn kept_adjacency(n: usize, edges: &[(usize, usize)], keep: &[bool]) -> (adj: Vec<Vec<usize>>)
    requires
        edges@.len() == keep@.len(),
        forall|i: int| 0 <= i < edges@.len() ==> (#[trigger] edges@[i]).0 < n && edges@[i].1 < n,
    ensures
        adj@.len() == n,
        adjacency_of(adj@.map_values(|l: Vec<usize>| l@), link_step(edges@, keep@)),
{
    let m = edges.len();
    let mut adj: Vec<Vec<usize>> = Vec::new();
    for x in 0..n
        invariant
            m == edges@.len(),
            edges@.len() == keep@.len(),
            forall|i: int| 0 <= i < edges@.len() ==> (#[trigger] edges@[i]).0 < n && edges@[i].1 < n,
            adj@.len() == x,
            forall|y: int, k: int|
                0 <= y < x && 0 <= k < adj@[y]@.len() ==> (#[trigger] adj@[y]@[k]) < n && kept_link(
                    edges@, keep@,
                    y as usize,
                    adj@[y]@[k],
                ),
            forall|y: usize, z: usize| #[trigger] kept_link(edges@, keep@, y, z) && y < x ==> adj@[y as int]@.contains(z),
    {
        let mut l: Vec<usize> = Vec::new();
        for j in 0..m
            invariant
                m == edges@.len(),
                edges@.len() == keep@.len(),
                x < n,
                forall|i: int| 0 <= i < edges@.len() ==> (#[trigger] edges@[i]).0 < n && edges@[i].1 < n,
                forall|k: int| 0 <= k < l@.len() ==> (#[trigger] l@[k]) < n && kept_link(edges@, keep@, x, l@[k]),
                forall|i: int|
                    0 <= i < j && keep@[i] ==> ((#[trigger] edges@[i]).0 == x ==> l@.contains(
                        edges@[i].1,
                    )) && (edges@[i].1 == x ==> l@.contains(edges@[i].0)),
        {
            if keep[j] {
                let (a, b) = edges[j];
                let ghost old_l = l@;
                if a == x {
                    l.push(b);
                    assert(l@[l@.len() - 1] == b);
                    assert(edges@[j as int] == (a, b));
                } else if b == x {
                    l.push(a);
                    assert(l@[l@.len() - 1] == a);
                    assert(edges@[j as int] == (a, b));
                }
                assert forall|i: int|
                    0 <= i < j + 1 && keep@[i] implies ((#[trigger] edges@[i]).0 == x ==> l@.contains(
                        edges@[i].1,
                    )) && (edges@[i].1 == x ==> l@.contains(edges@[i].0)) by {
                    if i < j {
                        if edges@[i].0 == x {
                            let t = choose|t: int| 0 <= t < old_l.len() && old_l[t] == edges@[i].1;
                            assert(l@[t] == edges@[i].1);
                        }
                        if edges@[i].1 == x {
                            let t = choose|t: int| 0 <= t < old_l.len() && old_l[t] == edges@[i].0;
                            assert(l@[t] == edges@[i].0);
                        }
                    }
                }
            }
        }
        adj.push(l);
        assert forall|y: usize, z: usize| #[trigger] kept_link(edges@, keep@, y, z) && y < x + 1 implies adj@[y as int]@.contains(z) by {
            if y == x {
                let i = choose|i: int|
                    0 <= i < edges@.len() && i < keep@.len() && keep@[i] && ((#[trigger] edges@[i]).0 == y
                        && edges@[i].1 == z || edges@[i].0 == z && edges@[i].1 == y);
                assert(edges@[i] == edges@[i]);
                assert(adj@[x as int]@ == l@);
            }
        }
    }
    adj
}

/// Build adjacency lists for the arcs whose `keep` flag is set, followed
/// forwards (`forward`) or against their direction.
pub fn arc_adjacency(n: usize, arcs: &[(usize, usize)], keep: &[bool], forward: bool) -> (adj: Vec<Vec<usize>>)
    requires
        arcs@.len() == keep@.len(),
        forall|i: int| 0 <= i < arcs@.len() ==> (#[trigger] arcs@[i]).0 < n && arcs@[i].1 < n,
    ensures
        adj@.len() == n,
        adjacency_of(adj@.map_values(|l: Vec<usize>| l@), arc_step_fn(arcs@, keep@, forward)),
{
    let m = arcs.len();
    let mut adj: Vec<Vec<usize>> = Vec::new();
    for x in 0..n
        invariant
            m == arcs@.len(),
            arcs@.len() == keep@.len(),
            forall|i: int| 0 <= i < arcs@.len() ==> (#[trigger] arcs@[i]).0 < n && arcs@[i].1 < n,
            adj@.len() == x,
            forall|y: int, k: int|
                0 <= y < x && 0 <= k < adj@[y]@.len() ==> (#[trigger] adj@[y]@[k]) < n && arc_step(
                    arcs@, keep@, forward,
                    y as usize,
                    adj@[y]@[k],
                ),
            forall|y: usize, z: usize| #[trigger] arc_step(arcs@, keep@, forward, y, z) && y < x ==> adj@[y as int]@.contains(z),
    {
        let mut l: Vec<usize> = Vec::new();
        for j in 0..m
            invariant
                m == arcs@.len(),
                arcs@.len() == keep@.len(),
                x < n,
                forall|i: int| 0 <= i < arcs@.len() ==> (#[trigger] arcs@[i]).0 < n && arcs@[i].1 < n,
                forall|k: int| 0 <= k < l@.len() ==> (#[trigger] l@[k]) < n && arc_step(arcs@, keep@, forward, x, l@[k]),
                forall|i: int|
                    0 <= i < j && keep@[i] ==> (forward && (#[trigger] arcs@[i]).0 == x ==> l@.contains(
                        arcs@[i].1,
                    )) && (!forward && arcs@[i].1 == x ==> l@.contains(arcs@[i].0)),
        {
            if keep[j] {
                let (a, b) = arcs[j];
                let ghost old_l = l@;
                if forward && a == x {
                    l.push(b);
                    assert(l@[l@.len() - 1] == b);
                    assert(arcs@[j as int] == (a, b));
                } else if !forward && b == x {
                    l.push(a);
                    assert(l@[l@.len() - 1] == a);
                    assert(arcs@[j as int] == (a, b));
                }
                assert forall|i: int|
                    0 <= i < j + 1 && keep@[i] implies (forward && (#[trigger] arcs@[i]).0 == x ==> l@.contains(
                        arcs@[i].1,
                    )) && (!forward && arcs@[i].1 == x ==> l@.contains(arcs@[i].0)) by {
                    if i < j {
                        if forward && arcs@[i].0 == x {
                            let t = choose|t: int| 0 <= t < old_l.len() && old_l[t] == arcs@[i].1;
                            assert(l@[t] == arcs@[i].1);
                        }
                        if !forward && arcs@[i].1 == x {
                            let t = choose|t: int| 0 <= t < old_l.len() && old_l[t] == arcs@[i].0;
                            assert(l@[t] == arcs@[i].0);
                        }
                    }
                }
            }
        }
        adj.push(l);
        assert forall|y: usize, z: usize| #[trigger] arc_step(arcs@, keep@, forward, y, z) && y < x + 1 implies adj@[y as int]@.contains(z) by {
            if y == x {
                assert(adj@[x as int]@ == l@);
                if forward {
                    let i = choose|i: int|
                        0 <= i < arcs@.len() && i < keep@.len() && keep@[i] && (#[trigger] arcs@[i]).0 == y
                            && arcs@[i].1 == z;
                    assert(arcs@[i] == arcs@[i]);
                } else {
                    let i = choose|i: int|
                        0 <= i < arcs@.len() && i < keep@.len() && keep@[i] && (#[trigger] arcs@[i]).0 == z
                            && arcs@[i].1 == y;
                    assert(arcs@[i] == arcs@[i]);
                }
            }
        }
    }
    adj
}

/// Search from `start` along adjacency lists; the result marks exactly the
/// vertices that `start` reaches.
pub fn reach_from(adj: &Vec<Vec<usize>>, start: usize, Ghost(step): Ghost<spec_fn(usize, usize) -> bool>) -> (visited: Vec<bool>)
    requires
        start < adj@.len(),
        adjacency_of(adj@.map_values(|l: Vec<usize>| l@), step),
    ensures
        visited@.len() == adj@.len(),
        forall|v: int| 0 <= v < adj@.len() ==> (#[trigger] visited@[v] <==> reaches(step, start, v as usize)),
{
    let ghost av = adj@.map_values(|l: Vec<usize>| l@);
    let n = adj.len();
    let mut visited = vec![false; n];
    let mut stack: Vec<usize> = Vec::new();
    proof {
        lemma_count_true_update(visited@, start as int);
        lemma_reaches_refl(step, start);
    }
    assert(forall|i: int| 0 <= i < n ==> !visited@[i]);
    let ghost before = visited@;
    visited.set(start, true);
    assert(count_true(before) == 0) by {
        lemma_count_true_zero(before);
    }
    stack.push(start);
    assert(stack@[0] == start);
    let mut count: usize = 1;
    while stack.len() > 0
        invariant
            n == adj@.len(),
            av == adj@.map_values(|l: Vec<usize>| l@),
            adjacency_of(av, step),
            visited@.len() == n,
            start < n,
            visited@[start as int],
            count == count_true(visited@),
            count <= n,
            forall|i: int| 0 <= i < stack@.len() ==> (#[trigger] stack@[i]) < n && visited@[stack@[i] as int],
            forall|v: int| 0 <= v < n && #[trigger] visited@[v] ==> reaches(step, start, v as usize),
            forall|v: int, k: int|
                0 <= v < n && visited@[v] && !stack@.contains(v as usize) && 0 <= k < av[v].len()
                    ==> visited@[#[trigger] av[v][k] as int],
        decreases n - count, stack@.len(),
    {
        let ghost old_stack = stack@;
        let v = stack.pop().unwrap();
        let ghost stack_before = stack@;
        let ghost count0 = count;
        assert(old_stack =~= stack_before.push(v));
        assert forall|w: int, j: int|
            0 <= w < n && w != v && visited@[w] && !stack@.contains(w as usize) && 0 <= j < av[w].len()
                implies visited@[#[trigger] av[w][j] as int] by {
            if old_stack.contains(w as usize) {
                let t = choose|t: int| 0 <= t < old_stack.len() && old_stack[t] == w as usize;
                assert(stack@[t] == w as usize);
            }
        }
        let m = adj[v].len();
        for k in 0..m
            invariant
                n == adj@.len(),
                av == adj@.map_values(|l: Vec<usize>| l@),
                adjacency_of(av, step),
                v < n,
                m == av[v as int].len(),
                visited@.len() == n,
                visited@[v as int],
                start < n,
                visited@[start as int],
                count == count_true(visited@),
                count <= n,
                forall|i: int| 0 <= i < stack_before.len() ==> stack@[i] == stack_before[i],
                stack@.len() == stack_before.len() + (count - count0),
                count >= count0,
                forall|i: int| 0 <= i < stack@.len() ==> (#[trigger] stack@[i]) < n && visited@[stack@[i] as int],
                forall|v: int| 0 <= v < n && #[trigger] visited@[v] ==> reaches(step, start, v as usize),
                forall|w: int, j: int|
                    0 <= w < n && w != v && visited@[w] && !stack@.contains(w as usize) && 0 <= j < av[w].len()
                        ==> visited@[#[trigger] av[w][j] as int],
                forall|j: int| 0 <= j < k ==> visited@[#[trigger] av[v as int][j] as int],
        {
            let u = adj[v][k];
            assert(av[v as int][k as int] == u);
            if !visited[u] {
                proof {
                    lemma_count_true_update(visited@, u as int);
                    lemma_count_true_bound(visited@.update(u as int, true));
                    assert(step(v, u));
                    lemma_reaches_step(step, start, v, u);
                }
                let ghost sb = stack@;
                visited.set(u, true);
                count = count + 1;
                stack.push(u);
                assert forall|w: int, j: int|
                    0 <= w < n && w != v && visited@[w] && !stack@.contains(w as usize) && 0 <= j < av[w].len()
                        implies visited@[#[trigger] av[w][j] as int] by {
                    if w != u {
                        if sb.contains(w as usize) {
                            let t = choose|t: int| 0 <= t < sb.len() && sb[t] == w as usize;
                            assert(stack@[t] == w as usize);
                        }
                    } else {
                        assert(stack@[stack@.len() - 1] == u);
                    }
                }
            }
        }
        assert forall|w: int, k: int|
            0 <= w < n && visited@[w] && !stack@.contains(w as usize) && 0 <= k < av[w].len()
                implies visited@[#[trigger] av[w][k] as int] by {
        }
    }
    let ghost closed = |y: usize| y < n && visited@[y as int];
    assert forall|x: usize, y: usize| #[trigger] step(x, y) && closed(x) implies closed(y) by {
        assert(av[x as int].contains(y));
        let k = choose|k: int| 0 <= k < av[x as int].len() && av[x as int][k] == y;
        assert(visited@[av[x as int][k] as int]);
    }
    assert forall|v: int| 0 <= v < n implies (#[trigger] visited@[v] <==> reaches(step, start, v as usize)) by {
        if reaches(step, start, v as usize) {
            lemma_reaches_closed(step, closed, start, v as usize);
        }
    }
    visited
}

/// Number of kept edge endpoints equal to `v` (a kept loop at `v` counts twice).
pub open spec fn kept_degree(edges: Seq<(usize, usize)>, keep: Seq<bool>, v: usize) -> nat
    decreases edges.len(),
{
    if edges.len() == 0 {
        0
    } else {
        let i = edges.len() - 1;
        let e = edges[i];
        kept_degree(edges.drop_last(), keep, v) + (if i < keep.len() && keep[i] && e.0 == v {
            1nat
        } else {
            0nat
        }) + (if i < keep.len() && keep[i] && e.1 == v {
            1nat
        } else {
            0nat
        })
    }
}

/// `v` is an endpoint of some kept edge.
pub open spec fn kept_touches(edges: Seq<(usize, usize)>, keep: Seq<bool>, v: usize) -> bool {
    exists|i: int|
        0 <= i < edges.len() && i < keep.len() && keep[i] && ((#[trigger] edges[i]).0 == v
            || edges[i].1 == v)
}

/// The vertices `0..n` flagged by whether a kept edge touches them.
pub open spec fn touched_flags(n: nat, edges: Seq<(usize, usize)>, keep: Seq<bool>) -> Seq<bool> {
    Seq::new(n, |v: int| kept_touches(edges, keep, v as usize))
}

/// Index of the first `true` flag, or the length if there is none.
pub open spec fn first_true(s: Seq<bool>) -> int
    decreases s.len(),
{
    if s.len() == 0 {
        0
    } else if s[0] {
        0
    } else {
        1 + first_true(s.drop_first())
    }
}

pub proof fn lemma_first_true(s: Seq<bool>)
    ensures
        0 <= first_true(s) <= s.len(),
        first_true(s) < s.len() ==> s[first_true(s)],
        forall|j: int| 0 <= j < first_true(s) ==> !s[j],
    decreases s.len(),
{
    if s.len() > 0 && !s[0] {
        lemma_first_true(s.drop_first());
        assert forall|j: int| 0 <= j < first_true(s) implies !s[j] by {
            if j > 0 {
                assert(s[j] == s.drop_first()[j - 1]);
            }
        }
    }
}

/// The kept degree of every vertex `0..n`.
pub fn kept_degrees(n: usize, edges: &[(usize, usize)], keep: &[bool]) -> (r: Vec<u128>)
    requires
        edges@.len() == keep@.len(),
        forall|i: int| 0 <= i < edges@.len() ==> (#[trigger] edges@[i]).0 < n && edges@[i].1 < n,
    ensures
        r@.len() == n,
        forall|v: int| 0 <= v < n ==> #[trigger] r@[v] == kept_degree(edges@, keep@, v as usize),
{
    let mut degree = vec![0u128; n];
    for i in 0..edges.len()
        invariant
            degree@.len() == n,
            edges@.len() == keep@.len(),
            forall|j: int| 0 <= j < edges@.len() ==> (#[trigger] edges@[j]).0 < n && edges@[j].1 < n,
            forall|v: int|
                0 <= v < n ==> #[trigger] degree@[v] == kept_degree(edges@.take(i as int), keep@, v as usize),
            forall|v: int| 0 <= v < n ==> #[trigger] degree@[v] <= 2 * i,
    {
        let ghost old_degree = degree@;
        assert(edges@.take(i + 1).drop_last() =~= edges@.take(i as int));
        if keep[i] {
            let (u, v) = edges[i];
            assert(edges@[i as int] == (u, v));
            assert(edges@.take(i + 1)[i as int] == (u, v));
            degree.set(u, degree[u] + 1);
            degree.set(v, degree[v] + 1);
        }
    }
    assert(edges@.take(edges@.len() as int) =~= edges@);
    degree
}

/// For every vertex `0..n`, whether a kept edge touches it.
pub fn touched_vertices(n: usize, edges: &[(usize, usize)], keep: &[bool]) -> (r: Vec<bool>)
    requires
        edges@.len() == keep@.len(),
        forall|i: int| 0 <= i < edges@.len() ==> (#[trigger] edges@[i]).0 < n && edges@[i].1 < n,
    ensures
        r@ == touched_flags(n as nat, edges@, keep@),
{
    let mut involved = vec![false; n];
    for i in 0..edges.len()
        invariant
            involved@.len() == n,
            edges@.len() == keep@.len(),
            forall|j: int| 0 <= j < edges@.len() ==> (#[trigger] edges@[j]).0 < n && edges@[j].1 < n,
            forall|v: int|
                0 <= v < n ==> (#[trigger] involved@[v] <==> kept_touches(edges@.take(i as int), keep@, v as usize)),
    {
        let ghost old_inv = involved@;
        if keep[i] {
            let (u, v) = edges[i];
            assert(edges@[i as int] == (u, v));
            involved.set(u, true);
            involved.set(v, true);
        }
        assert forall|w: int|
            0 <= w < n implies (#[trigger] involved@[w] <==> kept_touches(edges@.take(i + 1), keep@, w as usize)) by {
            let t = edges@.take(i + 1);
            if involved@[w] {
                if old_inv[w] {
                    let j = choose|j: int|
                        0 <= j < edges@.take(i as int).len() && j < keep@.len() && keep@[j] && ((#[trigger] edges@.take(i as int)[j]).0 == w as usize
                            || edges@.take(i as int)[j].1 == w as usize);
                    assert(t[j] == edges@[j]);
                } else {
                    assert(t[i as int] == edges@[i as int]);
                }
            }
            if kept_touches(t, keep@, w as usize) {
                let j = choose|j: int|
                    0 <= j < t.len() && j < keep@.len() && keep@[j] && ((#[trigger] t[j]).0 == w as usize
                        || t[j].1 == w as usize);
                if j < i {
                    assert(edges@.take(i as int)[j] == t[j]);
                }
            }
        }
    }
    assert(edges@.take(edges@.len() as int) =~= edges@);
    assert(involved@ =~= touched_flags(n as nat, edges@, keep@));
    involved
}

/// Which vertices `start` reaches through the kept undirected edges.
pub fn reach_by_kept_edges(n: usize, edges: &[(usize, usize)], keep: &[bool], start: usize) -> (visited: Vec<bool>)
    requires
        start < n,
        edges@.len() == keep@.len(),
        forall|i: int| 0 <= i < edges@.len() ==> (#[trigger] edges@[i]).0 < n && edges@[i].1 < n,
    ensures
        visited@.len() == n,
        forall|v: int| 0 <= v < n ==> (#[trigger] visited@[v] <==> reaches(link_step(edges@, keep@), start, v as usize)),
{
    let adj = kept_adjacency(n, edges, keep);
    reach_from(&adj, start, Ghost(link_step(edges@, keep@)))
}

/// Which vertices `start` reaches through the kept arcs, followed forwards
/// or backwards.
pub fn reach_by_kept_arcs(n: usize, arcs: &[(usize, usize)], keep: &[bool], forward: bool, start: usize) -> (visited: Vec<bool>)
    requires
        start < n,
        arcs@.len() == keep@.len(),
        forall|i: int| 0 <= i < arcs@.len() ==> (#[trigger] arcs@[i]).0 < n && arcs@[i].1 < n,
    ensures
        visited@.len() == n,
        forall|v: int| 0 <= v < n ==> (#[trigger] visited@[v] <==> reaches(arc_step_fn(arcs@, keep@, forward), start, v as usize)),
{
    let adj = arc_adjacency(n, arcs, keep, forward);
    reach_from(&adj, start, Ghost(arc_step_fn(arcs@, keep@, forward)))
}

pub proof fn lemma_count_true_zero(s: Seq<bool>)
    requires
        forall|i: int| 0 <= i < s.len() ==> !s[i],
    ensures
        count_true(s) == 0,
    decreases s.len(),
{
    if s.len() > 0 {
        lemma_count_true_zero(s.drop_last());
    }
}

/// Every flag set, for `len` arcs or edges.
pub open spec fn all_kept(len: nat) -> Seq<bool> {
    Seq::new(len, |i: int| true)
}

/// The step relation of a directed graph's arcs.
pub open spec fn digraph_step(arcs: Seq<(usize, usize)>) -> spec_fn(usize, usize) -> bool {
    arc_step_fn(arcs, all_kept(arcs.len()), true)
}

/// Every vertex of `0..n` reaches every other along the arcs.
pub open spec fn strongly_connected(n: nat, arcs: Seq<(usize, usize)>) -> bool {
    forall|u: usize, v: usize| u < n && v < n ==> #[trigger] reaches(digraph_step(arcs), u, v)
}

/// A step followed by a walk is a walk.
pub proof fn lemma_reaches_prepend(step: spec_fn(usize, usize) -> bool, y: usize, x: usize, s: usize)
    requires
        step(y, x),
        reaches(step, x, s),
    ensures
        reaches(step, y, s),
{
    let p = choose|p: Seq<usize>| #[trigger] is_walk(step, p) && p[0] == x && p.last() == s;
    let q = seq![y] + p;
    assert forall|i: int| 0 <= i < q.len() - 1 implies #[trigger] step(q[i], q[i + 1]) by {
        if i > 0 {
            assert(q[i] == p[i - 1] && q[i + 1] == p[i]);
            assert(step(p[i - 1], p[(i - 1) + 1]));
        } else {
            assert(q[0] == y && q[1] == p[0]);
        }
    }
    assert(is_walk(step, q));
}

/// Reaching `t` from `s` along the arcs means reaching `s` from `t` against
/// them.
pub proof fn lemma_reaches_reverse(arcs: Seq<(usize, usize)>, keep: Seq<bool>, forward: bool, s: usize, t: usize)
    requires
        reaches(arc_step_fn(arcs, keep, forward), s, t),
    ensures
        reaches(arc_step_fn(arcs, keep, !forward), t, s),
{
    let fwd = arc_step_fn(arcs, keep, forward);
    let back = arc_step_fn(arcs, keep, !forward);
    let closed = |y: usize| reaches(back, y, s);
    lemma_reaches_refl(back, s);
    assert forall|x: usize, y: usize| #[trigger] fwd(x, y) && closed(x) implies closed(y) by {
        assert(back(y, x));
        lemma_reaches_prepend(back, y, x, s);
    }
    lemma_reaches_closed(fwd, closed, s, t);
}

/// Whether every vertex reaches every other along the arcs.
pub fn is_strongly_connected(n: usize, arcs: &[(usize, usize)]) -> (r: bool)
    requires
        forall|i: int| 0 <= i < arcs@.len() ==> (#[trigger] arcs@[i]).0 < n && arcs@[i].1 < n,
    ensures
        r == strongly_connected(n as nat, arcs@),
{
    if n == 0 {
        return true;
    }
    let keep = vec![true; arcs.len()];
    assert(keep@ =~= all_kept(arcs@.len()));
    let fwd = reach_by_kept_arcs(n, arcs, keep.as_slice(), true, 0);
    let bwd = reach_by_kept_arcs(n, arcs, keep.as_slice(), false, 0);
    let ghost step = digraph_step(arcs@);
    for v in 0..n
        invariant
            fwd@.len() == n,
            bwd@.len() == n,
            keep@ == all_kept(arcs@.len()),
            forall|w: int| 0 <= w < n ==> (#[trigger] fwd@[w] <==> reaches(arc_step_fn(arcs@, keep@, true), 0, w as usize)),
            forall|w: int| 0 <= w < n ==> (#[trigger] bwd@[w] <==> reaches(arc_step_fn(arcs@, keep@, false), 0, w as usize)),
            forall|w: int| 0 <= w < v ==> fwd@[w] && bwd@[w],
    {
        assert(fwd@[v as int] <==> reaches(step, 0, v));
        if !fwd[v] {
            assert(!reaches(step, 0, v));
            return false;
        }
        if !bwd[v] {
            proof {
                if reaches(step, v, 0) {
                    lemma_reaches_reverse(arcs@, keep@, true, v, 0);
                }
            }
            assert(!reaches(step, v, 0));
            return false;
        }
    }
    assert forall|u: usize, v: usize| u < n && v < n implies #[trigger] reaches(step, u, v) by {
        assert(bwd@[u as int]);
        assert(fwd@[v as int]);
        lemma_reaches_reverse(arcs@, keep@, false, 0, u);
        lemma_reaches_trans(step, u, 0, v);
    }
    true
}

} // verus!
