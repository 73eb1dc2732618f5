//! Circulations with lower bounds.
//!
//! A circulation gives every arc a value between a lower and an upper bound
//! and is conserved at every vertex. Whether one exists is decided by a
//! maximum flow: the lower bounds are taken out of the arcs, an added source
//! feeds every vertex the lower bounds bring more in than out, an added sink
//! drains the others, and a circulation exists exactly when the maximum flow
//! fills every arc leaving the added source.
use crate::flow::{
    arcs_within, cut_flow, in_sum, ints_u128, lemma_cut_bound, lemma_cut_identity,
    lemma_cut_tight, max_flow, net_out, out_sum, set_net,
};
use crate::util::ints_u64;
use vstd::prelude::*;

verus! {

/// Sum of `g(v)` over `0 <= v < n`.
pub open spec fn total(g: spec_fn(int) -> int, n: int) -> int
    decreases n,
{
    if n <= 0 {
        0
    } else {
        total(g, n - 1) + g(n - 1)
    }
}

/// `f` gives every arc a value within its bounds and is conserved at every
/// vertex below `n`.
pub open spec fn is_circulation(arcs: Seq<(usize, usize)>, lower: Seq<int>, upper: Seq<int>, f: Seq<int>, n: nat) -> bool {
    &&& f.len() == arcs.len()
    &&& forall|a: int| 0 <= a < arcs.len() ==> lower[a] <= #[trigger] f[a] <= upper[a]
    &&& forall|v: int| 0 <= v < n ==> #[trigger] net_out(arcs, f, v) == 0
}

/// Some circulation meets the bounds.
pub open spec fn has_circulation(arcs: Seq<(usize, usize)>, lower: Seq<int>, upper: Seq<int>, n: nat) -> bool {
    exists|f: Seq<int>| is_circulation(arcs, lower, upper, f, n)
}

/// What the lower bounds bring into `v` minus what they take out of it.
pub open spec fn lower_balance(arcs: Seq<(usize, usize)>, lower: Seq<int>, v: int) -> int {
    -net_out(arcs, lower, v)
}

/// The positive part of the lower-bound balance of `v`.
pub open spec fn surplus(arcs: Seq<(usize, usize)>, lower: Seq<int>, v: int) -> int {
    let b = lower_balance(arcs, lower, v);
    if b > 0 {
        b
    } else {
        0
    }
}

/// The negative part of the lower-bound balance of `v`, as a positive number.
pub open spec fn shortfall(arcs: Seq<(usize, usize)>, lower: Seq<int>, v: int) -> int {
    let b = lower_balance(arcs, lower, v);
    if b < 0 {
        -b
    } else {
        0
    }
}

/// Position of the arc from the added source to `v`, after `m` original arcs.
pub open spec fn supply_arc(m: int, v: int) -> int {
    m + 2 * v
}

/// Position of the arc from `v` to the added sink, after `m` original arcs.
pub open spec fn demand_arc(m: int, v: int) -> int {
    m + 2 * v + 1
}

/// `aux` is `arcs` followed, for each vertex `v < n` in turn, by an arc from
/// the added source `n` to `v` and an arc from `v` to the added sink `n + 1`.
pub open spec fn with_terminals(arcs: Seq<(usize, usize)>, aux: Seq<(usize, usize)>, n: nat) -> bool {
    let m = arcs.len() as int;
    &&& aux.len() == m + 2 * n
    &&& forall|a: int| 0 <= a < m ==> #[trigger] aux[a] == arcs[a]
    &&& forall|v: int|
        0 <= v < n ==> (#[trigger] aux[supply_arc(m, v)]).0 as int == n && aux[supply_arc(m, v)].1 as int == v
    &&& forall|v: int|
        0 <= v < n ==> (#[trigger] aux[demand_arc(m, v)]).0 as int == v && aux[demand_arc(m, v)].1 as int == n + 1
}

/// Capacities of the network with terminals: an original arc keeps the room
/// between its bounds, a source arc carries the surplus of its vertex and a
/// sink arc its shortfall.
pub open spec fn terminal_capacities(arcs: Seq<(usize, usize)>, lower: Seq<int>, upper: Seq<int>, cap: Seq<int>, n: nat) -> bool {
    let m = arcs.len() as int;
    &&& cap.len() == m + 2 * n
    &&& forall|a: int| 0 <= a < m ==> #[trigger] cap[a] == upper[a] - lower[a]
    &&& forall|v: int| 0 <= v < n ==> #[trigger] cap[supply_arc(m, v)] == surplus(arcs, lower, v)
    &&& forall|v: int| 0 <= v < n ==> #[trigger] cap[demand_arc(m, v)] == shortfall(arcs, lower, v)
}

proof fn lemma_total_ext(g: spec_fn(int) -> int, h: spec_fn(int) -> int, n: int)
    requires
        forall|v: int| 0 <= v < n ==> #[trigger] g(v) == h(v),
    ensures
        total(g, n) == total(h, n),
    decreases n,
{
    if n > 0 {
        lemma_total_ext(g, h, n - 1);
        assert(g(n - 1) == h(n - 1));
    }
}

/// Adding two functions adds their sums.
pub proof fn lemma_total_add(g: spec_fn(int) -> int, h: spec_fn(int) -> int, k: spec_fn(int) -> int, n: int)
    requires
        forall|v: int| 0 <= v < n ==> #[trigger] g(v) == h(v) + k(v),
    ensures
        total(g, n) == total(h, n) + total(k, n),
    decreases n,
{
    if n > 0 {
        lemma_total_add(g, h, k, n - 1);
        assert(g(n - 1) == h(n - 1) + k(n - 1));
    }
}

proof fn lemma_total_le(g: spec_fn(int) -> int, h: spec_fn(int) -> int, n: int)
    requires
        forall|v: int| 0 <= v < n ==> #[trigger] g(v) <= h(v),
    ensures
        total(g, n) <= total(h, n),
        total(g, n) == total(h, n) ==> forall|v: int| 0 <= v < n ==> #[trigger] g(v) == h(v),
    decreases n,
{
    if n > 0 {
        lemma_total_le(g, h, n - 1);
        assert(g(n - 1) <= h(n - 1));
        if total(g, n) == total(h, n) {
            assert forall|v: int| 0 <= v < n implies #[trigger] g(v) == h(v) by {
                if v < n - 1 {
                } else {
                }
            }
        }
    }
}

proof fn lemma_total_zero(g: spec_fn(int) -> int, n: int)
    requires
        forall|v: int| 0 <= v < n ==> #[trigger] g(v) == 0,
    ensures
        total(g, n) == 0,
    decreases n,
{
    if n > 0 {
        lemma_total_zero(g, n - 1);
        assert(g(n - 1) == 0);
    }
}

/// A function that is zero but at `w` sums to its value at `w`.
pub proof fn lemma_total_single(g: spec_fn(int) -> int, w: int, n: int)
    requires
        0 <= w < n,
        forall|v: int| 0 <= v < n && v != w ==> #[trigger] g(v) == 0,
    ensures
        total(g, n) == g(w),
    decreases n,
{
    if n - 1 == w {
        lemma_total_zero(g, n - 1);
    } else {
        lemma_total_single(g, w, n - 1);
        assert(g(n - 1) == 0);
    }
}

proof fn lemma_set_net_total(arcs: Seq<(usize, usize)>, x: Seq<int>, s: Seq<bool>, n: int, k: int)
    requires
        0 <= n,
    ensures
        set_net(arcs, x, s, n, k) == total(
            |v: int|
                if s[v] {
                    out_sum(arcs, x, v, k) - in_sum(arcs, x, v, k)
                } else {
                    0
                },
            n,
        ),
    decreases n,
{
    if n > 0 {
        lemma_set_net_total(arcs, x, s, n - 1, k);
    }
}

proof fn lemma_cut_flow_whole(arcs: Seq<(usize, usize)>, x: Seq<int>, s: Seq<bool>, n: nat, k: int)
    requires
        arcs_within(arcs, n),
        0 <= k <= arcs.len(),
        forall|v: int| 0 <= v < n ==> #[trigger] s[v],
    ensures
        cut_flow(arcs, x, s, k) == 0,
    decreases k,
{
    if k > 0 {
        lemma_cut_flow_whole(arcs, x, s, n, k - 1);
        assert(s[arcs[k - 1].0 as int] && s[arcs[k - 1].1 as int]);
    }
}

/// Every arc leaves one vertex and enters one: the net outflows of all the
/// vertices add up to zero.
pub proof fn lemma_net_total_zero(arcs: Seq<(usize, usize)>, x: Seq<int>, n: nat)
    requires
        arcs_within(arcs, n),
        arcs.len() <= x.len(),
    ensures
        total(|v: int| net_out(arcs, x, v), n as int) == 0,
{
    let k = arcs.len() as int;
    let s = Seq::new(n, |v: int| true);
    lemma_cut_identity(arcs, x, s, n, k);
    lemma_cut_flow_whole(arcs, x, s, n, k);
    lemma_set_net_total(arcs, x, s, n as int, k);
    lemma_total_ext(
        |v: int|
            if s[v] {
                out_sum(arcs, x, v, k) - in_sum(arcs, x, v, k)
            } else {
                0
            },
        |v: int| net_out(arcs, x, v),
        n as int,
    );
}

/// The sums at a vertex are additive in the flow values.
pub proof fn lemma_sums_linear(arcs: Seq<(usize, usize)>, x: Seq<int>, y: Seq<int>, z: Seq<int>, v: int, k: int)
    requires
        0 <= k,
        forall|a: int| 0 <= a < k ==> #[trigger] x[a] == y[a] + z[a],
    ensures
        out_sum(arcs, x, v, k) == out_sum(arcs, y, v, k) + out_sum(arcs, z, v, k),
        in_sum(arcs, x, v, k) == in_sum(arcs, y, v, k) + in_sum(arcs, z, v, k),
    decreases k,
{
    if k > 0 {
        lemma_sums_linear(arcs, x, y, z, v, k - 1);
        assert(x[k - 1] == y[k - 1] + z[k - 1]);
    }
}

/// The sums over the first `k` arcs only depend on those arcs and their values.
pub proof fn lemma_sums_prefix(
    arcs1: Seq<(usize, usize)>,
    arcs2: Seq<(usize, usize)>,
    x1: Seq<int>,
    x2: Seq<int>,
    v: int,
    k: int,
)
    requires
        0 <= k,
        forall|a: int| 0 <= a < k ==> #[trigger] arcs1[a] == arcs2[a] && x1[a] == x2[a],
    ensures
        out_sum(arcs1, x1, v, k) == out_sum(arcs2, x2, v, k),
        in_sum(arcs1, x1, v, k) == in_sum(arcs2, x2, v, k),
    decreases k,
{
    if k > 0 {
        lemma_sums_prefix(arcs1, arcs2, x1, x2, v, k - 1);
        assert(arcs1[k - 1] == arcs2[k - 1] && x1[k - 1] == x2[k - 1]);
    }
}

proof fn lemma_sums_outside(arcs: Seq<(usize, usize)>, x: Seq<int>, n: nat, w: int, k: int)
    requires
        arcs_within(arcs, n),
        0 <= k <= arcs.len(),
        w >= n,
    ensures
        out_sum(arcs, x, w, k) == 0,
        in_sum(arcs, x, w, k) == 0,
    decreases k,
{
    if k > 0 {
        lemma_sums_outside(arcs, x, n, w, k - 1);
        assert(arcs[k - 1].0 < n && arcs[k - 1].1 < n);
    }
}

/// At an original vertex, the network with terminals adds the source arc's
/// value to what comes in and the sink arc's value to what goes out.
proof fn lemma_terminal_vertex(arcs: Seq<(usize, usize)>, aux: Seq<(usize, usize)>, y: Seq<int>, n: nat, v: int, j: int)
    requires
        with_terminals(arcs, aux, n),
        0 <= v < n,
        0 <= j <= n,
    ensures
        out_sum(aux, y, v, arcs.len() + 2 * j) == out_sum(arcs, y, v, arcs.len() as int) + (if v < j {
            y[demand_arc(arcs.len() as int, v)]
        } else {
            0
        }),
        in_sum(aux, y, v, arcs.len() + 2 * j) == in_sum(arcs, y, v, arcs.len() as int) + (if v < j {
            y[supply_arc(arcs.len() as int, v)]
        } else {
            0
        }),
    decreases j,
{
    let m = arcs.len() as int;
    if j == 0 {
        lemma_sums_prefix(aux, arcs, y, y, v, m);
    } else {
        lemma_terminal_vertex(arcs, aux, y, n, v, j - 1);
        let u = j - 1;
        assert(aux[supply_arc(m, u)].0 as int == n && aux[supply_arc(m, u)].1 as int == u);
        assert(aux[demand_arc(m, u)].0 as int == u && aux[demand_arc(m, u)].1 as int == n + 1);
        assert(out_sum(aux, y, v, m + 2 * j) == out_sum(aux, y, v, m + 2 * j - 1) + (if aux[m + 2 * j - 1].0 as int == v {
            y[m + 2 * j - 1]
        } else {
            0
        }));
        assert(out_sum(aux, y, v, m + 2 * j - 1) == out_sum(aux, y, v, m + 2 * u) + (if aux[m + 2 * u].0 as int == v {
            y[m + 2 * u]
        } else {
            0
        }));
        assert(in_sum(aux, y, v, m + 2 * j) == in_sum(aux, y, v, m + 2 * j - 1) + (if aux[m + 2 * j - 1].1 as int == v {
            y[m + 2 * j - 1]
        } else {
            0
        }));
        assert(in_sum(aux, y, v, m + 2 * j - 1) == in_sum(aux, y, v, m + 2 * u) + (if aux[m + 2 * u].1 as int == v {
            y[m + 2 * u]
        } else {
            0
        }));
    }
}

/// The added source only has its own arcs, all leaving it.
proof fn lemma_terminal_source(arcs: Seq<(usize, usize)>, aux: Seq<(usize, usize)>, y: Seq<int>, n: nat, j: int)
    requires
        with_terminals(arcs, aux, n),
        arcs_within(arcs, n),
        0 <= j <= n,
    ensures
        out_sum(aux, y, n as int, arcs.len() + 2 * j) == total(|u: int| y[supply_arc(arcs.len() as int, u)], j),
        in_sum(aux, y, n as int, arcs.len() + 2 * j) == 0,
    decreases j,
{
    let m = arcs.len() as int;
    if j == 0 {
        lemma_sums_prefix(aux, arcs, y, y, n as int, m);
        lemma_sums_outside(arcs, y, n, n as int, m);
    } else {
        lemma_terminal_source(arcs, aux, y, n, j - 1);
        let u = j - 1;
        assert(aux[supply_arc(m, u)].0 as int == n && aux[supply_arc(m, u)].1 as int == u);
        assert(aux[demand_arc(m, u)].0 as int == u && aux[demand_arc(m, u)].1 as int == n + 1);
        assert(out_sum(aux, y, n as int, m + 2 * j) == out_sum(aux, y, n as int, m + 2 * j - 1) + (if aux[m + 2 * j
            - 1].0 as int == n {
            y[m + 2 * j - 1]
        } else {
            0
        }));
        assert(out_sum(aux, y, n as int, m + 2 * j - 1) == out_sum(aux, y, n as int, m + 2 * u) + (if aux[m + 2
            * u].0 as int == n {
            y[m + 2 * u]
        } else {
            0
        }));
        assert(in_sum(aux, y, n as int, m + 2 * j) == in_sum(aux, y, n as int, m + 2 * j - 1) + (if aux[m + 2 * j
            - 1].1 as int == n {
            y[m + 2 * j - 1]
        } else {
            0
        }));
        assert(in_sum(aux, y, n as int, m + 2 * j - 1) == in_sum(aux, y, n as int, m + 2 * u) + (if aux[m + 2
            * u].1 as int == n {
            y[m + 2 * u]
        } else {
            0
        }));
    }
}

/// A maximum flow of the network with terminals that fills every source arc
/// gives a circulation: add the lower bounds back to the original arcs.
proof fn lemma_saturation_gives_circulation(
    arcs: Seq<(usize, usize)>,
    aux: Seq<(usize, usize)>,
    lower: Seq<int>,
    upper: Seq<int>,
    cap: Seq<int>,
    x: Seq<int>,
    n: nat,
)
    requires
        arcs_within(arcs, n),
        lower.len() == arcs.len(),
        upper.len() == arcs.len(),
        with_terminals(arcs, aux, n),
        terminal_capacities(arcs, lower, upper, cap, n),
        x.len() == aux.len(),
        forall|a: int| 0 <= a < aux.len() ==> 0 <= #[trigger] x[a] <= cap[a],
        forall|v: int| 0 <= v < n ==> #[trigger] net_out(aux, x, v) == 0,
        forall|v: int| 0 <= v < n ==> #[trigger] x[supply_arc(arcs.len() as int, v)] == surplus(arcs, lower, v),
    ensures
        is_circulation(arcs, lower, upper, Seq::new(arcs.len(), |a: int| x[a] + lower[a]), n),
{
    let m = arcs.len() as int;
    let f = Seq::new(arcs.len(), |a: int| x[a] + lower[a]);
    let g_net = |v: int| net_out(arcs, x, v);
    let g_in = |v: int| x[supply_arc(m, v)];
    let g_out = |v: int| x[demand_arc(m, v)];
    let g_low = |v: int| net_out(arcs, lower, v);
    let g_plus = |v: int| surplus(arcs, lower, v);
    let g_minus = |v: int| shortfall(arcs, lower, v);
    assert forall|v: int| 0 <= v < n implies #[trigger] g_in(v) == g_net(v) + g_out(v) by {
        lemma_terminal_vertex(arcs, aux, x, n, v, n as int);
        assert(net_out(aux, x, v) == 0);
    }
    lemma_net_total_zero(arcs, x, n);
    lemma_net_total_zero(arcs, lower, n);
    lemma_total_add(g_in, g_net, g_out, n as int);
    assert forall|v: int| 0 <= v < n implies #[trigger] g_minus(v) == g_plus(v) + g_low(v) by {
    }
    lemma_total_add(g_minus, g_plus, g_low, n as int);
    lemma_total_ext(g_in, g_plus, n as int);
    assert forall|v: int| 0 <= v < n implies #[trigger] g_out(v) <= g_minus(v) by {
        assert(0 <= x[demand_arc(m, v)] <= cap[demand_arc(m, v)]);
    }
    lemma_total_le(g_out, g_minus, n as int);
    assert forall|a: int| 0 <= a < arcs.len() implies lower[a] <= #[trigger] f[a] <= upper[a] by {
        assert(0 <= x[a] <= cap[a]);
    }
    assert forall|v: int| 0 <= v < n implies #[trigger] net_out(arcs, f, v) == 0 by {
        lemma_sums_linear(arcs, f, x, lower, v, m);
        assert(g_out(v) == g_minus(v));
        assert(g_in(v) == g_net(v) + g_out(v));
    }
}

/// With a circulation at hand, a maximum flow of the network with terminals,
/// certified by a saturated cut around the added source, fills every source
/// arc: the circulation less its lower bounds is a flow that does.
proof fn lemma_circulation_fills_sources(
    arcs: Seq<(usize, usize)>,
    aux: Seq<(usize, usize)>,
    lower: Seq<int>,
    upper: Seq<int>,
    cap: Seq<int>,
    x: Seq<int>,
    reached: Seq<bool>,
    n: nat,
    f: Seq<int>,
)
    requires
        arcs_within(arcs, n),
        arcs_within(aux, n + 2),
        lower.len() == arcs.len(),
        with_terminals(arcs, aux, n),
        terminal_capacities(arcs, lower, upper, cap, n),
        x.len() == aux.len(),
        forall|a: int| 0 <= a < aux.len() ==> 0 <= #[trigger] x[a] <= cap[a],
        forall|v: int| 0 <= v < n ==> #[trigger] net_out(aux, x, v) == 0,
        reached.len() == n + 2,
        reached[n as int],
        !reached[n + 1int],
        forall|a: int|
            0 <= a < aux.len() && reached[(#[trigger] aux[a]).0 as int] && !reached[aux[a].1 as int] ==> x[a] == cap[a],
        forall|a: int|
            0 <= a < aux.len() && !reached[(#[trigger] aux[a]).0 as int] && reached[aux[a].1 as int] ==> x[a] == 0,
        is_circulation(arcs, lower, upper, f, n),
    ensures
        forall|v: int| 0 <= v < n ==> #[trigger] x[supply_arc(arcs.len() as int, v)] == cap[supply_arc(arcs.len() as int, v)],
{
    let m = arcs.len() as int;
    let total_arcs = aux.len() as int;
    let nn = (n + 2) as nat;
    let y = Seq::new(aux.len(), |a: int| if a < m { f[a] - lower[a] } else { cap[a] });
    assert forall|a: int| 0 <= a < aux.len() implies 0 <= #[trigger] y[a] <= cap[a] by {
        if a < m {
            assert(lower[a] <= f[a] <= upper[a]);
        } else {
            let v = (a - m) / 2;
            assert(a == supply_arc(m, v) || a == demand_arc(m, v));
        }
    }
    assert forall|v: int| 0 <= v < n implies #[trigger] net_out(aux, y, v) == 0 by {
        lemma_terminal_vertex(arcs, aux, y, n, v, n as int);
        lemma_sums_linear(arcs, f, y, lower, v, m);
        assert(net_out(arcs, f, v) == 0);
    }
    assert forall|a: int|
        0 <= a < total_arcs && reached[(#[trigger] aux[a]).0 as int] && !reached[aux[a].1 as int] implies x[a]
        == cap[a] by {
    }
    assert forall|a: int|
        0 <= a < total_arcs && !reached[(#[trigger] aux[a]).0 as int] && reached[aux[a].1 as int] implies x[a]
        == 0 by {
    }
    lemma_cut_identity(aux, y, reached, nn, total_arcs);
    lemma_cut_identity(aux, x, reached, nn, total_arcs);
    lemma_cut_bound(aux, y, cap, reached, total_arcs);
    lemma_cut_tight(aux, x, cap, reached, total_arcs);
    lemma_source_set_net(aux, y, reached, n);
    lemma_source_set_net(aux, x, reached, n);
    lemma_terminal_source(arcs, aux, y, n, n as int);
    lemma_terminal_source(arcs, aux, x, n, n as int);
    let g_x = |u: int| x[supply_arc(m, u)];
    let g_y = |u: int| y[supply_arc(m, u)];
    assert forall|u: int| 0 <= u < n implies #[trigger] g_x(u) <= g_y(u) by {
        assert(0 <= x[supply_arc(m, u)] <= cap[supply_arc(m, u)]);
    }
    lemma_total_le(g_x, g_y, n as int);
    assert forall|v: int| 0 <= v < n implies #[trigger] x[supply_arc(m, v)] == cap[supply_arc(m, v)] by {
        assert(g_x(v) == g_y(v));
    }
}

/// When only the added source can have a nonzero net outflow inside the cut
/// `s`, the cut's net outflow is the source's.
proof fn lemma_source_set_net(aux: Seq<(usize, usize)>, y: Seq<int>, s: Seq<bool>, n: nat)
    requires
        s[n as int],
        !s[n + 1int],
        forall|v: int| 0 <= v < n ==> #[trigger] net_out(aux, y, v) == 0,
    ensures
        set_net(aux, y, s, n + 2int, aux.len() as int) == net_out(aux, y, n as int),
{
    let k = aux.len() as int;
    let g = |v: int|
        if s[v] {
            out_sum(aux, y, v, k) - in_sum(aux, y, v, k)
        } else {
            0
        };
    lemma_set_net_total(aux, y, s, n + 2int, k);
    assert forall|v: int| 0 <= v < n + 2 && v != n implies #[trigger] g(v) == 0 by {
        if v < n {
            assert(net_out(aux, y, v) == 0);
        }
    }
    lemma_total_single(g, n as int, n + 2int);
}

proof fn lemma_lower_sum_bound(arcs: Seq<(usize, usize)>, lower: Seq<int>, v: int, k: int)
    requires
        0 <= k,
        forall|a: int| 0 <= a < k ==> 0 <= #[trigger] lower[a] <= 0xffff_ffff_ffff_ffff,
    ensures
        0 <= out_sum(arcs, lower, v, k) <= k * 0xffff_ffff_ffff_ffff,
        0 <= in_sum(arcs, lower, v, k) <= k * 0xffff_ffff_ffff_ffff,
    decreases k,
{
    if k > 0 {
        lemma_lower_sum_bound(arcs, lower, v, k - 1);
        assert(0 <= lower[k - 1] <= 0xffff_ffff_ffff_ffff);
    }
}

/// Whether some circulation on the `n` vertices gives every arc a value
/// between its lower and its upper bound.
pub fn has_feasible_circulation(n: usize, arcs: &[(usize, usize)], lower: &[u64], upper: &[u128]) -> (r: bool)
    requires
        arcs_within(arcs@, n as nat),
        lower@.len() == arcs@.len(),
        upper@.len() == arcs@.len(),
        forall|a: int| 0 <= a < arcs@.len() ==> lower@[a] <= #[trigger] upper@[a],
        n + 2 <= usize::MAX,
    ensures
        r == has_circulation(arcs@, ints_u64(lower@), ints_u128(upper@), n as nat),
{
    let m = arcs.len();
    let ghost low = ints_u64(lower@);
    let ghost up = ints_u128(upper@);
    let mut out_low: Vec<u128> = vec![0u128; n];
    let mut in_low: Vec<u128> = vec![0u128; n];
    for a in 0..m
        invariant
            m == arcs@.len(),
            low == ints_u64(lower@),
            lower@.len() == m,
            arcs_within(arcs@, n as nat),
            out_low@.len() == n,
            in_low@.len() == n,
            forall|v: int| 0 <= v < n ==> #[trigger] out_low@[v] == out_sum(arcs@, low, v, a as int),
            forall|v: int| 0 <= v < n ==> #[trigger] in_low@[v] == in_sum(arcs@, low, v, a as int),
    {
        let (u, w) = arcs[a];
        assert(arcs@[a as int].0 < n && arcs@[a as int].1 < n);
        proof {
            assert forall|b: int| 0 <= b < a + 1 implies 0 <= #[trigger] low[b] <= 0xffff_ffff_ffff_ffff by {
            }
            lemma_lower_sum_bound(arcs@, low, u as int, a as int + 1);
            lemma_lower_sum_bound(arcs@, low, w as int, a as int + 1);
            assert((a as int + 1) * 0xffff_ffff_ffff_ffff <= 0xffff_ffff_ffff_ffff * 0xffff_ffff_ffff_ffff);
        }
        let add = lower[a] as u128;
        let new_out = out_low[u] + add;
        out_low.set(u, new_out);
        let new_in = in_low[w] + add;
        in_low.set(w, new_in);
    }
    let mut aux: Vec<(usize, usize)> = Vec::new();
    let mut cap: Vec<u128> = Vec::new();
    for a in 0..m
        invariant
            m == arcs@.len(),
            low == ints_u64(lower@),
            up == ints_u128(upper@),
            lower@.len() == m,
            upper@.len() == m,
            forall|b: int| 0 <= b < m ==> lower@[b] <= #[trigger] upper@[b],
            arcs_within(arcs@, n as nat),
            aux@ == arcs@.take(a as int),
            cap@.len() == a,
            forall|b: int| 0 <= b < a ==> #[trigger] cap@[b] == up[b] - low[b],
    {
        aux.push(arcs[a]);
        assert(lower@[a as int] <= upper@[a as int]);
        cap.push(upper[a] - lower[a] as u128);
        assert(aux@ =~= arcs@.take(a + 1));
    }
    for v in 0..n
        invariant
            m == arcs@.len(),
            low == ints_u64(lower@),
            up == ints_u128(upper@),
            n + 2 <= usize::MAX,
            arcs_within(arcs@, n as nat),
            out_low@.len() == n,
            in_low@.len() == n,
            forall|u: int| 0 <= u < n ==> #[trigger] out_low@[u] == out_sum(arcs@, low, u, m as int),
            forall|u: int| 0 <= u < n ==> #[trigger] in_low@[u] == in_sum(arcs@, low, u, m as int),
            aux@.len() == m + 2 * v,
            cap@.len() == m + 2 * v,
            forall|b: int| 0 <= b < m ==> #[trigger] aux@[b] == arcs@[b],
            forall|b: int| 0 <= b < m ==> #[trigger] cap@[b] == up[b] - low[b],
            forall|u: int|
                0 <= u < v ==> (#[trigger] aux@[supply_arc(m as int, u)]).0 as int == n && aux@[supply_arc(
                    m as int,
                    u,
                )].1 as int == u,
            forall|u: int|
                0 <= u < v ==> (#[trigger] aux@[demand_arc(m as int, u)]).0 as int == u && aux@[demand_arc(
                    m as int,
                    u,
                )].1 as int == n + 1,
            forall|u: int| 0 <= u < v ==> #[trigger] cap@[supply_arc(m as int, u)] == surplus(arcs@, low, u),
            forall|u: int| 0 <= u < v ==> #[trigger] cap@[demand_arc(m as int, u)] == shortfall(arcs@, low, u),
    {
        aux.push((n, v));
        aux.push((v, n + 1));
        let gain = in_low[v];
        let loss = out_low[v];
        if gain > loss {
            cap.push(gain - loss);
            cap.push(0);
        } else {
            cap.push(0);
            cap.push(loss - gain);
        }
        assert(aux@[supply_arc(m as int, v as int)] == (n, v));
        assert(cap@[supply_arc(m as int, v as int)] == surplus(arcs@, low, v as int));
    }
    let ghost capi = ints_u128(cap@);
    proof {
        assert(with_terminals(arcs@, aux@, n as nat));
        assert(terminal_capacities(arcs@, low, up, capi, n as nat));
        assert forall|a: int| 0 <= a < aux@.len() implies (#[trigger] aux@[a]).0 < n + 2 && aux@[a].1 < n + 2 by {
            if a >= m {
                let u = (a - m) / 2;
                assert(a == supply_arc(m as int, u) || a == demand_arc(m as int, u));
            }
        }
    }
    let total_len = aux.len();
    let (x, reached) = max_flow(n + 2, aux.as_slice(), cap.as_slice(), n, n + 1);
    let ghost xi = ints_u128(x@);
    proof {
        assert forall|a: int| 0 <= a < aux@.len() implies 0 <= #[trigger] xi[a] <= capi[a] by {
            assert(x@[a] <= cap@[a]);
        }
        assert forall|v: int| 0 <= v < n implies #[trigger] net_out(aux@, xi, v) == 0 by {
            assert(net_out(aux@, ints_u128(x@), v) == 0);
        }
    }
    for v in 0..n
        invariant
            m == arcs@.len(),
            total_len == aux@.len(),
            aux@.len() == m + 2 * n,
            cap@.len() == aux@.len(),
            x@.len() == aux@.len(),
            forall|u: int| 0 <= u < v ==> #[trigger] x@[supply_arc(m as int, u)] == cap@[supply_arc(m as int, u)],
    {
        let i = m + 2 * v;
        if x[i] != cap[i] {
            proof {
                if has_circulation(arcs@, low, up, n as nat) {
                    let f = choose|f: Seq<int>| is_circulation(arcs@, low, up, f, n as nat);
                    lemma_circulation_fills_sources(arcs@, aux@, low, up, capi, xi, reached@, n as nat, f);
                    assert(xi[supply_arc(m as int, v as int)] == capi[supply_arc(m as int, v as int)]);
                }
            }
            return false;
        }
    }
    proof {
        lemma_saturation_gives_circulation(arcs@, aux@, low, up, capi, xi, n as nat);
        let f = Seq::new(arcs@.len(), |a: int| xi[a] + low[a]);
        assert(is_circulation(arcs@, low, up, f, n as nat));
    }
    true
}

} // verus!
