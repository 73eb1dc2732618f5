//! Flows on a list of arcs: conservation, cuts, and a verified maximum-flow
//! search whose result comes with a saturated cut.
use vstd::prelude::*;

verus! {

/// Flow leaving `v` along the first `k` arcs.
pub open spec fn out_sum(arcs: Seq<(usize, usize)>, x: Seq<int>, v: int, k: int) -> int
    decreases k,
{
    if k <= 0 {
        0
    } else {
        out_sum(arcs, x, v, k - 1) + (if arcs[k - 1].0 as int == v { x[k - 1] } else { 0 })
    }
}

/// Flow entering `v` along the first `k` arcs.
pub open spec fn in_sum(arcs: Seq<(usize, usize)>, x: Seq<int>, v: int, k: int) -> int
    decreases k,
{
    if k <= 0 {
        0
    } else {
        in_sum(arcs, x, v, k - 1) + (if arcs[k - 1].1 as int == v { x[k - 1] } else { 0 })
    }
}

/// Net flow out of `v` over all arcs.
pub open spec fn net_out(arcs: Seq<(usize, usize)>, x: Seq<int>, v: int) -> int {
    out_sum(arcs, x, v, arcs.len() as int) - in_sum(arcs, x, v, arcs.len() as int)
}

/// Sum of the net outflows (first `k` arcs) of the vertices below `n` in `s`.
pub open spec fn set_net(arcs: Seq<(usize, usize)>, x: Seq<int>, s: Seq<bool>, n: int, k: int) -> int
    decreases n,
{
    if n <= 0 {
        0
    } else {
        set_net(arcs, x, s, n - 1, k) + (if s[n - 1] {
            out_sum(arcs, x, n - 1, k) - in_sum(arcs, x, n - 1, k)
        } else {
            0
        })
    }
}

/// Flow across the cut `s` over the first `k` arcs: leaving `s` counts
/// positively, entering `s` negatively.
pub open spec fn cut_flow(arcs: Seq<(usize, usize)>, x: Seq<int>, s: Seq<bool>, k: int) -> int
    decreases k,
{
    if k <= 0 {
        0
    } else {
        cut_flow(arcs, x, s, k - 1) + (if s[arcs[k - 1].0 as int] && !s[arcs[k - 1].1 as int] {
            x[k - 1]
        } else if !s[arcs[k - 1].0 as int] && s[arcs[k - 1].1 as int] {
            -x[k - 1]
        } else {
            0
        })
    }
}

/// Capacity of the arcs (among the first `k`) leaving `s`.
pub open spec fn cut_capacity(arcs: Seq<(usize, usize)>, cap: Seq<int>, s: Seq<bool>, k: int) -> int
    decreases k,
{
    if k <= 0 {
        0
    } else {
        cut_capacity(arcs, cap, s, k - 1) + (if s[arcs[k - 1].0 as int] && !s[arcs[k - 1].1 as int] {
            cap[k - 1]
        } else {
            0
        })
    }
}

/// Every arc joins two vertices below `n`.
pub open spec fn arcs_within(arcs: Seq<(usize, usize)>, n: nat) -> bool {
    forall|a: int| 0 <= a < arcs.len() ==> (#[trigger] arcs[a]).0 < n && arcs[a].1 < n
}

/// The arc-`a` terms of the vertex sum.
proof fn lemma_set_net_step(arcs: Seq<(usize, usize)>, x: Seq<int>, s: Seq<bool>, n: int, k: int)
    requires
        0 <= n,
        0 <= k < arcs.len(),
        k < x.len(),
    ensures
        set_net(arcs, x, s, n, k + 1) == set_net(arcs, x, s, n, k) + (if 0 <= arcs[k].0 < n && s[arcs[k].0 as int] {
            x[k]
        } else {
            0
        }) - (if 0 <= arcs[k].1 < n && s[arcs[k].1 as int] {
            x[k]
        } else {
            0
        }),
    decreases n,
{
    if n > 0 {
        lemma_set_net_step(arcs, x, s, n - 1, k);
    }
}

/// Summing the net outflows of the vertices of `s` counts each arc once for
/// each endpoint in `s`: what is left is the flow across the cut.
pub proof fn lemma_cut_identity(arcs: Seq<(usize, usize)>, x: Seq<int>, s: Seq<bool>, n: nat, k: int)
    requires
        arcs_within(arcs, n),
        0 <= k <= arcs.len(),
        k <= x.len(),
    ensures
        set_net(arcs, x, s, n as int, k) == cut_flow(arcs, x, s, k),
    decreases k,
{
    if k == 0 {
        lemma_set_net_zero(arcs, x, s, n as int);
    } else {
        lemma_cut_identity(arcs, x, s, n, k - 1);
        lemma_set_net_step(arcs, x, s, n as int, k - 1);
        assert(arcs[k - 1].0 < n && arcs[k - 1].1 < n);
    }
}

proof fn lemma_set_net_zero(arcs: Seq<(usize, usize)>, x: Seq<int>, s: Seq<bool>, n: int)
    requires
        0 <= n,
    ensures
        set_net(arcs, x, s, n, 0) == 0,
    decreases n,
{
    if n > 0 {
        lemma_set_net_zero(arcs, x, s, n - 1);
    }
}

/// A flow within capacities crosses a cut with at most its capacity.
pub proof fn lemma_cut_bound(arcs: Seq<(usize, usize)>, x: Seq<int>, cap: Seq<int>, s: Seq<bool>, k: int)
    requires
        0 <= k <= arcs.len(),
        k <= x.len(),
        k <= cap.len(),
        forall|a: int| 0 <= a < k ==> 0 <= #[trigger] x[a] <= cap[a],
    ensures
        cut_flow(arcs, x, s, k) <= cut_capacity(arcs, cap, s, k),
    decreases k,
{
    if k > 0 {
        lemma_cut_bound(arcs, x, cap, s, k - 1);
        assert(0 <= x[k - 1] <= cap[k - 1]);
    }
}

/// A flow that fills every arc leaving `s` and empties every arc entering
/// it crosses the cut with exactly its capacity.
pub proof fn lemma_cut_tight(arcs: Seq<(usize, usize)>, x: Seq<int>, cap: Seq<int>, s: Seq<bool>, k: int)
    requires
        0 <= k <= arcs.len(),
        k <= x.len(),
        k <= cap.len(),
        forall|a: int| 0 <= a < k && s[(#[trigger] arcs[a]).0 as int] && !s[arcs[a].1 as int] ==> x[a] == cap[a],
        forall|a: int| 0 <= a < k && !s[(#[trigger] arcs[a]).0 as int] && s[arcs[a].1 as int] ==> x[a] == 0,
    ensures
        cut_flow(arcs, x, s, k) == cut_capacity(arcs, cap, s, k),
    decreases k,
{
    if k > 0 {
        lemma_cut_tight(arcs, x, cap, s, k - 1);
        let a = k - 1;
        assert(s[arcs[a].0 as int] && !s[arcs[a].1 as int] ==> x[a] == cap[a]);
        assert(!s[arcs[a].0 as int] && s[arcs[a].1 as int] ==> x[a] == 0);
    }
}

/// Changing the flow on arc `a` by `d` changes the sums at its endpoints by `d`.
pub proof fn lemma_update_sums(arcs: Seq<(usize, usize)>, x: Seq<int>, a: int, d: int, v: int, k: int)
    requires
        0 <= a < x.len(),
        0 <= k <= x.len(),
    ensures
        out_sum(arcs, x.update(a, x[a] + d), v, k) == out_sum(arcs, x, v, k) + (if a < k && arcs[a].0 as int == v {
            d
        } else {
            0
        }),
        in_sum(arcs, x.update(a, x[a] + d), v, k) == in_sum(arcs, x, v, k) + (if a < k && arcs[a].1 as int == v {
            d
        } else {
            0
        }),
    decreases k,
{
    if k > 0 {
        lemma_update_sums(arcs, x, a, d, v, k - 1);
    }
}

/// The flow values as mathematical integers.
pub open spec fn ints_u128(x: Seq<u128>) -> Seq<int> {
    x.map_values(|v: u128| v as int)
}

/// Arc `a` can carry more flow from its tail (`forward`), or can give flow
/// back from its head (`!forward`).
pub open spec fn residual(cap: Seq<u128>, x: Seq<u128>, a: int, forward: bool) -> bool {
    if forward {
        x[a] < cap[a]
    } else {
        x[a] > 0
    }
}

/// The residual step along arc `a` leaves `u` and enters `v`.
pub open spec fn residual_step(arcs: Seq<(usize, usize)>, cap: Seq<u128>, x: Seq<u128>, a: int, forward: bool, u: int, v: int) -> bool {
    &&& 0 <= a < arcs.len()
    &&& residual(cap, x, a, forward)
    &&& if forward {
        arcs[a].0 as int == u && arcs[a].1 as int == v
    } else {
        arcs[a].1 as int == u && arcs[a].0 as int == v
    }
}

/// The vertex a residual step along arc `a` leaves.
pub open spec fn step_source(arcs: Seq<(usize, usize)>, a: int, forward: bool) -> int {
    if forward {
        arcs[a].0 as int
    } else {
        arcs[a].1 as int
    }
}

/// A reached vertex other than the start was reached by a residual step from
/// a reached vertex one level lower.
pub open spec fn labelled_from(
    arcs: Seq<(usize, usize)>,
    cap: Seq<u128>,
    x: Seq<u128>,
    reached: Seq<bool>,
    level: Seq<usize>,
    v: int,
) -> bool {
    exists|a: int, forward: bool|
        #[trigger] residual_step(arcs, cap, x, a, forward, step_source(arcs, a, forward), v) && reached[step_source(
            arcs,
            a,
            forward,
        )] && level[step_source(arcs, a, forward)] + 1 == level[v]
}

/// No residual step leaves the reached set.
pub open spec fn residual_closed(arcs: Seq<(usize, usize)>, cap: Seq<u128>, x: Seq<u128>, reached: Seq<bool>) -> bool {
    &&& forall|a: int| 0 <= a < arcs.len() && reached[(#[trigger] arcs[a]).0 as int] && x[a] < cap[a] ==> reached[arcs[a].1 as int]
    &&& forall|a: int| 0 <= a < arcs.len() && reached[(#[trigger] arcs[a]).1 as int] && x[a] > 0 ==> reached[arcs[a].0 as int]
}

/// A flow within capacities conserved at every vertex but `s` and `t`.
pub open spec fn is_flow(arcs: Seq<(usize, usize)>, cap: Seq<u128>, x: Seq<u128>, n: nat, s: int, t: int) -> bool {
    &&& x.len() == arcs.len()
    &&& forall|a: int| 0 <= a < arcs.len() ==> #[trigger] x[a] <= cap[a]
    &&& forall|v: int| 0 <= v < n && v != s && v != t ==> #[trigger] net_out(arcs, ints_u128(x), v) == 0
}

/// The reached set of a residual search from `s`: labelled, within `n`, and
/// closed under residual steps.
fn residual_search(n: usize, arcs: &[(usize, usize)], cap: &[u128], x: &Vec<u128>, s: usize) -> (r: (Vec<bool>, Vec<usize>))
    requires
        arcs_within(arcs@, n as nat),
        cap@.len() == arcs@.len(),
        x@.len() == arcs@.len(),
        s < n,
    ensures
        r.0@.len() == n,
        r.1@.len() == n,
        r.0@[s as int],
        r.1@[s as int] == 0,
        forall|v: int| 0 <= v < n && r.0@[v] ==> #[trigger] r.1@[v] < n,
        forall|v: int| 0 <= v < n && r.0@[v] && v != s ==> #[trigger] labelled_from(arcs@, cap@, x@, r.0@, r.1@, v),
        residual_closed(arcs@, cap@, x@, r.0@),
{
    let mut reached = vec![false; n];
    let mut level = vec![0usize; n];
    let ghost empty = reached@;
    reached.set(s, true);
    proof {
        assert(crate::util::count_true(reached@) == 1) by {
            assert(empty =~= Seq::new(n as nat, |i: int| false));
            crate::reach::lemma_count_true_zero(Seq::new(n as nat, |i: int| false));
            crate::util::lemma_count_true_update(Seq::new(n as nat, |i: int| false), s as int);
            assert(Seq::new(n as nat, |i: int| false).update(s as int, true) =~= reached@);
        }
    }
    loop
        invariant
            arcs_within(arcs@, n as nat),
            cap@.len() == arcs@.len(),
            x@.len() == arcs@.len(),
            s < n,
            reached@.len() == n,
            level@.len() == n,
            reached@[s as int],
            level@[s as int] == 0,
            1 <= crate::util::count_true(reached@) <= n,
            forall|v: int| 0 <= v < n && reached@[v] ==> #[trigger] level@[v] < crate::util::count_true(reached@),
            forall|v: int| 0 <= v < n && reached@[v] && v != s ==> #[trigger] labelled_from(arcs@, cap@, x@, reached@, level@, v),
        decreases n - crate::util::count_true(reached@),
    {
        let mut changed = false;
        let ghost before = crate::util::count_true(reached@);
        for a in 0..arcs.len()
            invariant
                arcs_within(arcs@, n as nat),
                cap@.len() == arcs@.len(),
                x@.len() == arcs@.len(),
                s < n,
                reached@.len() == n,
                level@.len() == n,
                reached@[s as int],
                level@[s as int] == 0,
                1 <= crate::util::count_true(reached@) <= n,
                crate::util::count_true(reached@) >= before,
                changed ==> crate::util::count_true(reached@) > before,
                !changed ==> crate::util::count_true(reached@) == before,
                forall|v: int| 0 <= v < n && reached@[v] ==> #[trigger] level@[v] < crate::util::count_true(reached@),
                forall|v: int| 0 <= v < n && reached@[v] && v != s ==> #[trigger] labelled_from(arcs@, cap@, x@, reached@, level@, v),
                !changed ==> forall|b: int|
                    0 <= b < a ==> (reached@[(#[trigger] arcs@[b]).0 as int] && x@[b] < cap@[b] ==> reached@[arcs@[b].1 as int])
                        && (reached@[arcs@[b].1 as int] && x@[b] > 0 ==> reached@[arcs@[b].0 as int]),
        {
            let (u, v) = arcs[a];
            assert(arcs@[a as int] == (u, v));
            let fwd = reached[u] && !reached[v] && x[a] < cap[a];
            let bwd = reached[v] && !reached[u] && x[a] > 0;
            if fwd || bwd {
                let (from, to) = if fwd { (u, v) } else { (v, u) };
                let ghost old_reached = reached@;
                let ghost old_level = level@;
                proof {
                    crate::util::lemma_count_true_bound(reached@);
                    crate::util::lemma_count_true_update(reached@, to as int);
                }
                let lv = level[from] + 1;
                reached.set(to, true);
                level.set(to, lv);
                changed = true;
                proof {
                    crate::util::lemma_count_true_bound(reached@);
                    assert(residual_step(arcs@, cap@, x@, a as int, fwd, from as int, to as int));
                    assert forall|w: int| 0 <= w < n && reached@[w] && w != s implies #[trigger] labelled_from(
                        arcs@,
                        cap@,
                        x@,
                        reached@,
                        level@,
                        w,
                    ) by {
                        if w == to as int {
                            assert(reached@[from as int] && level@[from as int] + 1 == level@[w]);
                            assert(from as int == step_source(arcs@, a as int, fwd));
                        } else {
                            assert(old_reached[w]);
                            assert(labelled_from(arcs@, cap@, x@, old_reached, old_level, w));
                            let (b, f) = choose|b: int, f: bool|
                                #[trigger] residual_step(arcs@, cap@, x@, b, f, step_source(arcs@, b, f), w)
                                    && old_reached[step_source(arcs@, b, f)] && old_level[step_source(arcs@, b, f)] + 1
                                    == old_level[w];
                            let p = step_source(arcs@, b, f);
                            assert(arcs@[b].0 < n && arcs@[b].1 < n);
                            assert(!old_reached[to as int]);
                            assert(p != to as int);
                            assert(reached@[p] && level@[p] == old_level[p] && level@[w] == old_level[w]);
                        }
                    }
                }
            }
        }
        if !changed {
            break;
        }
    }
    (reached, level)
}

/// Walk back from `t` to `s` through labelled predecessors: the residual
/// steps of a path from `s` to `t`, last step first, and its vertices from
/// `t` back to `s`.
fn find_path(
    n: usize,
    arcs: &[(usize, usize)],
    cap: &[u128],
    x: &Vec<u128>,
    reached: &Vec<bool>,
    level: &Vec<usize>,
    s: usize,
    t: usize,
) -> (r: (Vec<(usize, bool)>, Ghost<Seq<usize>>))
    requires
        arcs_within(arcs@, n as nat),
        cap@.len() == arcs@.len(),
        x@.len() == arcs@.len(),
        s < n,
        t < n,
        reached@.len() == n,
        level@.len() == n,
        reached@[s as int],
        level@[s as int] == 0,
        reached@[t as int],
        forall|v: int| 0 <= v < n && reached@[v] ==> #[trigger] level@[v] < n,
        forall|v: int| 0 <= v < n && reached@[v] && v != s ==> #[trigger] labelled_from(arcs@, cap@, x@, reached@, level@, v),
    ensures
        r.1@.len() == r.0@.len() + 1,
        r.1@[0] == t,
        r.1@.last() == s,
        forall|j: int| 0 <= j < r.1@.len() ==> (#[trigger] r.1@[j]) < n && level@[r.1@[j] as int] + j == level@[t as int],
        forall|j: int|
            0 <= j < r.0@.len() ==> #[trigger] residual_step(arcs@, cap@, x@, r.0@[j].0 as int, r.0@[j].1, r.1@[j + 1] as int, r.1@[j] as int),
{
    let mut steps: Vec<(usize, bool)> = Vec::new();
    let ghost mut verts: Seq<usize> = seq![t];
    let mut cur = t;
    while cur != s
        invariant
            arcs_within(arcs@, n as nat),
            cap@.len() == arcs@.len(),
            x@.len() == arcs@.len(),
            s < n,
            t < n,
            reached@.len() == n,
            level@.len() == n,
            level@[s as int] == 0,
            forall|v: int| 0 <= v < n && reached@[v] ==> #[trigger] level@[v] < n,
            forall|v: int| 0 <= v < n && reached@[v] && v != s ==> #[trigger] labelled_from(arcs@, cap@, x@, reached@, level@, v),
            cur < n,
            reached@[cur as int],
            verts.len() == steps@.len() + 1,
            verts[0] == t,
            verts.last() == cur,
            forall|j: int| 0 <= j < verts.len() ==> (#[trigger] verts[j]) < n && level@[verts[j] as int] + j == level@[t as int],
            forall|j: int|
                0 <= j < steps@.len() ==> #[trigger] residual_step(arcs@, cap@, x@, steps@[j].0 as int, steps@[j].1, verts[j + 1] as int, verts[j] as int),
        decreases level@[cur as int],
    {
        assert(labelled_from(arcs@, cap@, x@, reached@, level@, cur as int));
        let mut found: Option<(usize, bool)> = None;
        for a in 0..arcs.len()
            invariant
                arcs_within(arcs@, n as nat),
                cap@.len() == arcs@.len(),
                x@.len() == arcs@.len(),
                reached@.len() == n,
                level@.len() == n,
                cur < n,
                found is None,
                forall|b: int, f: bool|
                    0 <= b < a ==> !(#[trigger] residual_step(arcs@, cap@, x@, b, f, step_source(arcs@, b, f), cur as int)
                        && reached@[step_source(arcs@, b, f)] && level@[step_source(arcs@, b, f)] + 1 == level@[cur as int]),
        {
            let (u, v) = arcs[a];
            assert(arcs@[a as int] == (u, v));
            if v == cur && x[a] < cap[a] && reached[u] && level[u] < level[cur] && level[u] + 1 == level[cur] {
                found = Some((a, true));
                break;
            }
            if u == cur && x[a] > 0 && reached[v] && level[v] < level[cur] && level[v] + 1 == level[cur] {
                found = Some((a, false));
                break;
            }
            proof {
                assert forall|f: bool| !(#[trigger] residual_step(arcs@, cap@, x@, a as int, f, step_source(arcs@, a as int, f), cur as int)
                    && reached@[step_source(arcs@, a as int, f)] && level@[step_source(arcs@, a as int, f)] + 1
                    == level@[cur as int]) by {
                    assert(u < n && v < n);
                }
            }
        }
        match found {
            None => {
                proof {
                    let (b, f) = choose|b: int, f: bool|
                        #[trigger] residual_step(arcs@, cap@, x@, b, f, step_source(arcs@, b, f), cur as int)
                            && reached@[step_source(arcs@, b, f)] && level@[step_source(arcs@, b, f)] + 1 == level@[cur as int];
                    assert(false);
                }
                break;
            },
            Some((a, forward)) => {
                let prev = if forward { arcs[a].0 } else { arcs[a].1 };
                proof {
                    assert(residual_step(arcs@, cap@, x@, a as int, forward, prev as int, cur as int));
                    assert(arcs@[a as int].0 < n && arcs@[a as int].1 < n);
                }
                let ghost old_verts = verts;
                let ghost old_steps = steps@;
                steps.push((a, forward));
                proof {
                    verts = verts.push(prev);
                    assert forall|j: int| 0 <= j < verts.len() implies (#[trigger] verts[j]) < n && level@[verts[j] as int] + j
                        == level@[t as int] by {
                        if j < old_verts.len() {
                            assert(verts[j] == old_verts[j]);
                        }
                    }
                    assert forall|j: int| 0 <= j < steps@.len() implies #[trigger] residual_step(
                        arcs@,
                        cap@,
                        x@,
                        steps@[j].0 as int,
                        steps@[j].1,
                        verts[j + 1] as int,
                        verts[j] as int,
                    ) by {
                        if j < old_steps.len() {
                            assert(steps@[j] == old_steps[j] && verts[j] == old_verts[j] && verts[j + 1] == old_verts[j + 1]);
                        } else {
                            assert(verts[j] == cur && verts[j + 1] == prev);
                        }
                    }
                }
                cur = prev;
            },
        }
    }
    (steps, Ghost(verts))
}

/// Flow within capacities sums to at most the capacity.
proof fn lemma_out_sum_bound(arcs: Seq<(usize, usize)>, x: Seq<int>, cap: Seq<int>, v: int, k: int)
    requires
        0 <= k <= x.len(),
        k <= cap.len(),
        forall|a: int| 0 <= a < k ==> 0 <= #[trigger] x[a] <= cap[a],
    ensures
        0 <= out_sum(arcs, x, v, k) <= out_sum(arcs, cap, v, k),
        0 <= in_sum(arcs, x, v, k),
    decreases k,
{
    if k > 0 {
        lemma_out_sum_bound(arcs, x, cap, v, k - 1);
        assert(0 <= x[k - 1] <= cap[k - 1]);
    }
}

/// Push `delta` along the path `steps` (last step first, vertices `verts`
/// from `t` back to `s`).
fn augment(
    x: &mut Vec<u128>,
    arcs: &[(usize, usize)],
    cap: &[u128],
    steps: &Vec<(usize, bool)>,
    delta: u128,
    Ghost(verts): Ghost<Seq<usize>>,
    Ghost(level): Ghost<Seq<usize>>,
    Ghost(n): Ghost<nat>,
)
    requires
        arcs_within(arcs@, n),
        cap@.len() == arcs@.len(),
        old(x)@.len() == arcs@.len(),
        forall|a: int| 0 <= a < arcs@.len() ==> #[trigger] old(x)@[a] <= cap@[a],
        verts.len() == steps@.len() + 1,
        forall|j: int| 0 <= j < verts.len() ==> (#[trigger] verts[j]) < n && level[verts[j] as int] + j == level[verts[0] as int],
        forall|j: int|
            0 <= j < steps@.len() ==> #[trigger] residual_step(arcs@, cap@, old(x)@, steps@[j].0 as int, steps@[j].1, verts[j + 1] as int, verts[j] as int),
        forall|j: int|
            0 <= j < steps@.len() ==> delta <= (if steps@[j].1 {
                cap@[steps@[j].0 as int] - old(x)@[steps@[j].0 as int]
            } else {
                old(x)@[steps@[j].0 as int] as int
            }),
        level.len() == n,
    ensures
        final(x)@.len() == arcs@.len(),
        forall|a: int| 0 <= a < arcs@.len() ==> #[trigger] final(x)@[a] <= cap@[a],
        forall|w: int|
            #[trigger] net_out(arcs@, ints_u128(final(x)@), w) == net_out(arcs@, ints_u128(old(x)@), w) - (if w == verts[0] as int {
                delta as int
            } else {
                0
            }) + (if w == verts.last() as int {
                delta as int
            } else {
                0
            }),
{
    let ghost x0 = x@;
    let ghost m = arcs@.len() as int;
    for j in 0..steps.len()
        invariant
            arcs_within(arcs@, n),
            cap@.len() == arcs@.len(),
            m == arcs@.len(),
            x@.len() == arcs@.len(),
            x0.len() == arcs@.len(),
            forall|a: int| 0 <= a < arcs@.len() ==> #[trigger] x@[a] <= cap@[a],
            verts.len() == steps@.len() + 1,
            forall|i: int| 0 <= i < verts.len() ==> (#[trigger] verts[i]) < n && level[verts[i] as int] + i == level[verts[0] as int],
            forall|i: int|
                0 <= i < steps@.len() ==> #[trigger] residual_step(arcs@, cap@, x0, steps@[i].0 as int, steps@[i].1, verts[i + 1] as int, verts[i] as int),
            forall|i: int|
                0 <= i < steps@.len() ==> delta <= (if steps@[i].1 {
                    cap@[steps@[i].0 as int] - x0[steps@[i].0 as int]
                } else {
                    x0[steps@[i].0 as int] as int
                }),
            level.len() == n,
            forall|a: int| 0 <= a < arcs@.len() && (forall|i: int| 0 <= i < j ==> steps@[i].0 as int != a) ==> #[trigger] x@[a] == x0[a],
            forall|w: int|
                #[trigger] net_out(arcs@, ints_u128(x@), w) == net_out(arcs@, ints_u128(x0), w) - (if w == verts[0] as int {
                    delta as int
                } else {
                    0
                }) + (if w == verts[j as int] as int {
                    delta as int
                } else {
                    0
                }),
    {
        let (a, forward) = steps[j];
        let ghost u = verts[j + 1];
        let ghost v = verts[j as int];
        proof {
            assert(residual_step(arcs@, cap@, x0, a as int, forward, u as int, v as int));
            assert forall|i: int| 0 <= i < j implies steps@[i].0 != a by {
                assert(residual_step(arcs@, cap@, x0, steps@[i].0 as int, steps@[i].1, verts[i + 1] as int, verts[i] as int));
                assert(level[verts[i] as int] + i == level[verts[0] as int]);
                assert(level[verts[i + 1] as int] + i + 1 == level[verts[0] as int]);
                assert(level[v as int] + j == level[verts[0] as int]);
                assert(level[u as int] + j + 1 == level[verts[0] as int]);
            }
            assert(x@[a as int] == x0[a as int]);
            assert(level[u as int] + 1 == level[v as int]);
        }
        let ghost xi = ints_u128(x@);
        if forward {
            let nv = x[a] + delta;
            x.set(a, nv);
            proof {
                assert(ints_u128(x@) =~= xi.update(a as int, xi[a as int] + delta));
            }
        } else {
            let nv = x[a] - delta;
            x.set(a, nv);
            proof {
                assert(ints_u128(x@) =~= xi.update(a as int, xi[a as int] + (-(delta as int))));
            }
        }
        proof {
            let d: int = if forward { delta as int } else { -(delta as int) };
            assert forall|w: int| #[trigger] net_out(arcs@, ints_u128(x@), w) == net_out(arcs@, ints_u128(x0), w) - (if w == verts[0] as int {
                delta as int
            } else {
                0
            }) + (if w == verts[j + 1] as int {
                delta as int
            } else {
                0
            }) by {
                lemma_update_sums(arcs@, xi, a as int, d, w, m);
                assert(net_out(arcs@, xi, w) == net_out(arcs@, ints_u128(x0), w) - (if w == verts[0] as int {
                    delta as int
                } else {
                    0
                }) + (if w == v as int {
                    delta as int
                } else {
                    0
                }));
            }
            assert forall|b: int| 0 <= b < arcs@.len() && (forall|i: int| 0 <= i < j + 1 ==> steps@[i].0 as int != b) implies #[trigger] x@[b] == x0[b] by {
                assert(steps@[j as int].0 as int != b);
            }
        }
    }
}

/// A maximum flow from `s` to `t`, certified by the set of vertices its
/// residual network reaches from `s`: that set holds `s`, not `t`, and no
/// residual step leaves it.
pub fn max_flow(n: usize, arcs: &[(usize, usize)], cap: &[u128], s: usize, t: usize) -> (r: (Vec<u128>, Vec<bool>))
    requires
        arcs_within(arcs@, n as nat),
        cap@.len() == arcs@.len(),
        s < n,
        t < n,
        s != t,
    ensures
        is_flow(arcs@, cap@, r.0@, n as nat, s as int, t as int),
        r.1@.len() == n,
        r.1@[s as int],
        !r.1@[t as int],
        residual_closed(arcs@, cap@, r.0@, r.1@),
{
    let mut x = vec![0u128; arcs.len()];
    let ghost capi = ints_u128(cap@);
    let ghost m = arcs@.len() as int;
    proof {
        assert forall|v: int| 0 <= v < n && v != s && v != t implies #[trigger] net_out(arcs@, ints_u128(x@), v) == 0 by {
            lemma_zero_sums(arcs@, ints_u128(x@), v, m);
        }
        lemma_zero_sums(arcs@, ints_u128(x@), s as int, m);
    }
    loop
        invariant
            arcs_within(arcs@, n as nat),
            cap@.len() == arcs@.len(),
            capi == ints_u128(cap@),
            m == arcs@.len(),
            s < n,
            t < n,
            s != t,
            is_flow(arcs@, cap@, x@, n as nat, s as int, t as int),
            net_out(arcs@, ints_u128(x@), s as int) >= 0,
        decreases out_sum(arcs@, capi, s as int, m) - net_out(arcs@, ints_u128(x@), s as int),
    {
        proof {
            assert forall|a: int| 0 <= a < m implies 0 <= #[trigger] ints_u128(x@)[a] <= capi[a] by {
                assert(x@[a] <= cap@[a]);
            }
            lemma_out_sum_bound(arcs@, ints_u128(x@), capi, s as int, m);
        }
        let (reached, level) = residual_search(n, arcs, cap, &x, s);
        if !reached[t] {
            return (x, reached);
        }
        let (steps, Ghost(verts)) = find_path(n, arcs, cap, &x, &reached, &level, s, t);
        assert(verts.len() >= 2) by {
            if verts.len() < 2 {
                assert(verts[0] == verts.last());
            }
        }
        let mut delta: u128 = u128::MAX;
        for j in 0..steps.len()
            invariant
                cap@.len() == arcs@.len(),
                x@.len() == arcs@.len(),
                verts.len() == steps@.len() + 1,
                forall|i: int|
                    0 <= i < steps@.len() ==> #[trigger] residual_step(arcs@, cap@, x@, steps@[i].0 as int, steps@[i].1, verts[i + 1] as int, verts[i] as int),
                delta >= 1,
                forall|i: int|
                    0 <= i < j ==> delta <= (if steps@[i].1 {
                        cap@[steps@[i].0 as int] - x@[steps@[i].0 as int]
                    } else {
                        x@[steps@[i].0 as int] as int
                    }),
        {
            let (a, forward) = steps[j];
            assert(residual_step(arcs@, cap@, x@, a as int, forward, verts[j + 1] as int, verts[j as int] as int));
            let room = if forward { cap[a] - x[a] } else { x[a] };
            if room < delta {
                delta = room;
            }
        }
        let ghost old_net_s = net_out(arcs@, ints_u128(x@), s as int);
        augment(&mut x, arcs, cap, &steps, delta, Ghost(verts), Ghost(level@), Ghost(n as nat));
        proof {
            assert(net_out(arcs@, ints_u128(x@), s as int) == old_net_s + delta);
            assert forall|a: int| 0 <= a < m implies 0 <= #[trigger] ints_u128(x@)[a] <= capi[a] by {
                assert(x@[a] <= cap@[a]);
            }
            lemma_out_sum_bound(arcs@, ints_u128(x@), capi, s as int, m);
            assert forall|v: int| 0 <= v < n && v != s && v != t implies #[trigger] net_out(arcs@, ints_u128(x@), v) == 0 by {
                assert(net_out(arcs@, ints_u128(x@), v) == net_out(arcs@, ints_u128(x@), v));
            }
        }
    }
}

proof fn lemma_zero_sums(arcs: Seq<(usize, usize)>, x: Seq<int>, v: int, k: int)
    requires
        0 <= k <= x.len(),
        forall|a: int| 0 <= a < x.len() ==> #[trigger] x[a] == 0,
    ensures
        out_sum(arcs, x, v, k) == 0,
        in_sum(arcs, x, v, k) == 0,
    decreases k,
{
    if k > 0 {
        lemma_zero_sums(arcs, x, v, k - 1);
    }
}

} // verus!
