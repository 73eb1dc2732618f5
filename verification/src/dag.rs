//! Earliest start times in a precedence graph of tasks with lengths.
//!
//! A task may start once every predecessor has finished; in a graph without
//! cycles the earliest start of a task is the longest chain of predecessor
//! lengths leading to it.
use crate::reach::{first_true, lemma_first_true};
use crate::util::{
    count_true, is_permutation, lemma_count_true_bound, lemma_count_true_update, lemma_permutation_covers, occurs,
    order_respects, pairs_below, precedes_in,
};
use vstd::prelude::*;

verus! {

/// Some order of the tasks `0..n` puts the tail of every arc after its head.
pub open spec fn has_topological_order(n: nat, arcs: Seq<(usize, usize)>) -> bool {
    exists|ord: Seq<usize>| is_permutation(ord, n) && order_respects(ord, arcs)
}

/// Earliest start of task `t` looking back at most `fuel` arcs: zero without
/// fuel, otherwise the latest finish of its predecessors.
pub open spec fn earliest_start(arcs: Seq<(usize, usize)>, lens: Seq<u64>, t: usize, fuel: nat) -> nat
    decreases fuel, 0int,
{
    if fuel == 0 {
        0
    } else {
        latest_pred_finish(arcs, lens, t, (fuel - 1) as nat, arcs.len() as int)
    }
}

/// Latest finish, with `fuel` for their own starts, of the predecessors of `t`
/// along the first `j` arcs (zero when there are none).
pub open spec fn latest_pred_finish(arcs: Seq<(usize, usize)>, lens: Seq<u64>, t: usize, fuel: nat, j: int) -> nat
    decreases fuel, j,
{
    if j <= 0 {
        0
    } else {
        let prev = latest_pred_finish(arcs, lens, t, fuel, j - 1);
        if arcs[j - 1].1 == t {
            let p = arcs[j - 1].0;
            let f = earliest_start(arcs, lens, p, fuel) + lens[p as int] as nat;
            if f > prev {
                f
            } else {
                prev
            }
        } else {
            prev
        }
    }
}

/// In an order respecting the arcs, the predecessor of the task at position
/// `q` sits at an earlier position.
proof fn lemma_pred_earlier(ord: Seq<usize>, n: nat, arcs: Seq<(usize, usize)>, k: int, q: int) -> (i: int)
    requires
        is_permutation(ord, n),
        order_respects(ord, arcs),
        0 <= k < arcs.len(),
        0 <= q < n,
        arcs[k].1 == ord[q],
    ensures
        0 <= i < q,
        ord[i] == arcs[k].0,
{
    assert(precedes_in(ord, arcs[k].0, arcs[k].1));
    let (i, j) = choose|i: int, j: int| 0 <= i < j < ord.len() && ord[i] == arcs[k].0 && ord[j] == arcs[k].1;
    if j != q {
        if j < q {
            assert(ord[j] != ord[q]);
        } else {
            assert(ord[q] != ord[j]);
        }
    }
    i
}

/// Once the earliest starts of all earlier tasks are stable, the latest
/// predecessor finish of the task at position `q` no longer depends on fuel.
proof fn lemma_pred_finish_stable(
    arcs: Seq<(usize, usize)>,
    lens: Seq<u64>,
    ord: Seq<usize>,
    n: nat,
    q: int,
    k: nat,
    j: int,
)
    requires
        is_permutation(ord, n),
        order_respects(ord, arcs),
        0 <= q < n,
        k >= q + 1,
        0 <= j <= arcs.len(),
        forall|i: int, f: nat|
            0 <= i < q && f >= i + 1 ==> #[trigger] earliest_start(arcs, lens, ord[i], f) == earliest_start(
                arcs,
                lens,
                ord[i],
                (i + 1) as nat,
            ),
    ensures
        latest_pred_finish(arcs, lens, ord[q], (k - 1) as nat, j) == latest_pred_finish(arcs, lens, ord[q], q as nat, j),
    decreases j,
{
    if j > 0 {
        lemma_pred_finish_stable(arcs, lens, ord, n, q, k, j - 1);
        if arcs[j - 1].1 == ord[q] {
            let i = lemma_pred_earlier(ord, n, arcs, j - 1, q);
            assert(earliest_start(arcs, lens, ord[i], (k - 1) as nat) == earliest_start(arcs, lens, ord[i], (i + 1) as nat));
            assert(earliest_start(arcs, lens, ord[i], q as nat) == earliest_start(arcs, lens, ord[i], (i + 1) as nat));
        }
    }
}

/// In an order respecting the arcs, the earliest start of the task at
/// position `i` is the same for every fuel above `i`.
pub proof fn lemma_earliest_start_stable(arcs: Seq<(usize, usize)>, lens: Seq<u64>, ord: Seq<usize>, n: nat, q: int)
    requires
        is_permutation(ord, n),
        order_respects(ord, arcs),
        0 <= q <= n,
    ensures
        forall|i: int, f: nat|
            0 <= i < q && f >= i + 1 ==> #[trigger] earliest_start(arcs, lens, ord[i], f) == earliest_start(
                arcs,
                lens,
                ord[i],
                (i + 1) as nat,
            ),
    decreases q,
{
    if q > 0 {
        lemma_earliest_start_stable(arcs, lens, ord, n, q - 1);
        assert forall|i: int, f: nat| 0 <= i < q && f >= i + 1 implies #[trigger] earliest_start(
            arcs,
            lens,
            ord[i],
            f,
        ) == earliest_start(arcs, lens, ord[i], (i + 1) as nat) by {
            if i == q - 1 {
                lemma_pred_finish_stable(arcs, lens, ord, n, q - 1, f, arcs.len() as int);
            }
        }
    }
}

/// The latest predecessor finish is at least the finish of each predecessor.
proof fn lemma_pred_finish_bound(arcs: Seq<(usize, usize)>, lens: Seq<u64>, t: usize, fuel: nat, j: int, k: int)
    requires
        0 <= k < j <= arcs.len(),
        arcs[k].1 == t,
    ensures
        latest_pred_finish(arcs, lens, t, fuel, j) >= earliest_start(arcs, lens, arcs[k].0, fuel) + lens[arcs[k].0 as int],
    decreases j,
{
    if k < j - 1 {
        lemma_pred_finish_bound(arcs, lens, t, fuel, j - 1, k);
    }
}

/// When the tasks can be ordered, every task starts no earlier than each of
/// its predecessors finishes.
pub proof fn lemma_earliest_start_respects_arcs(arcs: Seq<(usize, usize)>, lens: Seq<u64>, n: nat, k: int)
    requires
        has_topological_order(n, arcs),
        pairs_below(arcs, n),
        0 <= k < arcs.len(),
    ensures
        earliest_start(arcs, lens, arcs[k].1, n) >= earliest_start(arcs, lens, arcs[k].0, n) + lens[arcs[k].0 as int],
{
    let ord = choose|ord: Seq<usize>| is_permutation(ord, n) && order_respects(ord, arcs);
    let t = arcs[k].1;
    let p = arcs[k].0;
    lemma_permutation_covers(ord, n);
    assert(occurs(ord, t as int));
    let q = choose|q: int| 0 <= q < ord.len() && ord[q] as int == t as int;
    let i = lemma_pred_earlier(ord, n, arcs, k, q);
    lemma_earliest_start_stable(arcs, lens, ord, n, n as int);
    assert(earliest_start(arcs, lens, ord[i], (n - 1) as nat) == earliest_start(arcs, lens, ord[i], (i + 1) as nat));
    assert(earliest_start(arcs, lens, ord[i], n) == earliest_start(arcs, lens, ord[i], (i + 1) as nat));
    lemma_pred_finish_bound(arcs, lens, t, (n - 1) as nat, arcs.len() as int, k);
}

/// Whether every predecessor of `t` is done.
fn preds_done(arcs: &[(usize, usize)], done: &Vec<bool>, t: usize) -> (b: bool)
    requires
        pairs_below(arcs@, done@.len() as nat),
    ensures
        b == forall|k: int| 0 <= k < arcs@.len() && (#[trigger] arcs@[k]).1 == t ==> done@[arcs@[k].0 as int],
{
    for k in 0..arcs.len()
        invariant
            pairs_below(arcs@, done@.len() as nat),
            forall|q: int| 0 <= q < k && (#[trigger] arcs@[q]).1 == t ==> done@[arcs@[q].0 as int],
    {
        let (p, u) = arcs[k];
        assert(arcs@[k as int] == (p, u));
        if u == t && !done[p] {
            return false;
        }
    }
    true
}

/// An order of `0..n` in which every arc goes forward, if there is one.
pub fn topological_order(n: usize, arcs: &[(usize, usize)]) -> (r: Option<Vec<usize>>)
    requires
        pairs_below(arcs@, n as nat),
    ensures
        match r {
            Some(ord) => is_permutation(ord@, n as nat) && order_respects(ord@, arcs@),
            None => !has_topological_order(n as nat, arcs@),
        },
{
    let mut done = vec![false; n];
    let mut ord: Vec<usize> = Vec::new();
    proof {
        assert(count_true(done@) == 0) by {
            assert(done@ =~= Seq::new(n as nat, |i: int| false));
            lemma_count_zero(n as nat);
        }
    }
    for round in 0..n
        invariant
            pairs_below(arcs@, n as nat),
            done@.len() == n,
            ord@.len() == round,
            count_true(done@) == round,
            forall|i: int| 0 <= i < ord@.len() ==> (#[trigger] ord@[i]) < n,
            forall|i: int, j: int| 0 <= i < j < ord@.len() ==> ord@[i] != ord@[j],
            forall|v: int| 0 <= v < n ==> (#[trigger] done@[v] <==> occurs(ord@, v)),
            forall|k: int|
                0 <= k < arcs@.len() && done@[(#[trigger] arcs@[k]).1 as int] ==> precedes_in(ord@, arcs@[k].0, arcs@[k].1),
    {
        let mut pick: usize = n;
        for t in 0..n
            invariant
                pairs_below(arcs@, n as nat),
                done@.len() == n,
                pick == n,
                forall|u: int|
                    0 <= u < t ==> #[trigger] done@[u] || exists|k: int|
                        0 <= k < arcs@.len() && (#[trigger] arcs@[k]).1 == u && !done@[arcs@[k].0 as int],
        {
            if !done[t] && preds_done(arcs, &done, t) {
                pick = t;
                break;
            }
        }
        if pick == n {
            proof {
                lemma_stuck_no_order(n as nat, arcs@, done@);
            }
            return None;
        }
        let t = pick;
        let ghost old_ord = ord@;
        let ghost old_done = done@;
        proof {
            lemma_count_true_update(done@, t as int);
        }
        done.set(t, true);
        ord.push(t);
        proof {
            assert(ord@[round as int] == t);
            assert forall|v: int| 0 <= v < n implies (#[trigger] done@[v] <==> occurs(ord@, v)) by {
                if occurs(old_ord, v) {
                    let i = choose|i: int| 0 <= i < old_ord.len() && old_ord[i] as int == v;
                    assert(ord@[i] == old_ord[i]);
                }
                if occurs(ord@, v) && v != t as int {
                    let i = choose|i: int| 0 <= i < ord@.len() && ord@[i] as int == v;
                    assert(i < old_ord.len());
                    assert(old_ord[i] == ord@[i]);
                }
                if v == t as int {
                    assert(ord@[round as int] as int == v);
                }
            }
            assert forall|i: int, j: int| 0 <= i < j < ord@.len() implies ord@[i] != ord@[j] by {
                if j == round {
                    assert(occurs(old_ord, ord@[i] as int)) by {
                        assert(old_ord[i] == ord@[i]);
                    }
                    assert(!old_done[t as int]);
                }
            }
            assert forall|k: int|
                0 <= k < arcs@.len() && done@[(#[trigger] arcs@[k]).1 as int] implies precedes_in(
                ord@,
                arcs@[k].0,
                arcs@[k].1,
            ) by {
                if arcs@[k].1 == t {
                    let p = arcs@[k].0;
                    assert(old_done[p as int]);
                    let i = choose|i: int| 0 <= i < old_ord.len() && old_ord[i] as int == p as int;
                    assert(ord@[i] == p && ord@[round as int] == t);
                } else {
                    assert(old_done[arcs@[k].1 as int]);
                    let (i, j) = choose|i: int, j: int|
                        0 <= i < j < old_ord.len() && old_ord[i] == arcs@[k].0 && old_ord[j] == arcs@[k].1;
                    assert(ord@[i] == old_ord[i] && ord@[j] == old_ord[j]);
                }
            }
        }
    }
    proof {
        assert forall|k: int| 0 <= k < arcs@.len() implies #[trigger] precedes_in(ord@, arcs@[k].0, arcs@[k].1) by {
            lemma_permutation_covers(ord@, n as nat);
            assert(occurs(ord@, arcs@[k].1 as int));
        }
    }
    Some(ord)
}

proof fn lemma_count_zero(n: nat)
    ensures
        count_true(Seq::new(n, |i: int| false)) == 0,
    decreases n,
{
    if n > 0 {
        assert(Seq::new(n, |i: int| false).drop_last() =~= Seq::new((n - 1) as nat, |i: int| false));
        lemma_count_zero((n - 1) as nat);
    }
}

/// Fewer than `n` entries are set.
proof fn lemma_some_unset(s: Seq<bool>) -> (v: int)
    requires
        count_true(s) < s.len(),
    ensures
        0 <= v < s.len(),
        !s[v],
    decreases s.len(),
{
    if s.last() {
        lemma_count_true_bound(s.drop_last());
        let v = lemma_some_unset(s.drop_last());
        assert(s[v] == s.drop_last()[v]);
        v
    } else {
        (s.len() - 1) as int
    }
}

/// When some task is not done and every task not done has a predecessor not
/// done, no order respects the arcs: the first such task in it would come
/// after its predecessor.
proof fn lemma_stuck_no_order(n: nat, arcs: Seq<(usize, usize)>, done: Seq<bool>)
    requires
        done.len() == n,
        count_true(done) < n,
        forall|u: int|
            0 <= u < n ==> #[trigger] done[u] || exists|k: int|
                0 <= k < arcs.len() && (#[trigger] arcs[k]).1 == u && !done[arcs[k].0 as int],
    ensures
        !has_topological_order(n, arcs),
{
    if has_topological_order(n, arcs) {
        let ord = choose|ord: Seq<usize>| is_permutation(ord, n) && order_respects(ord, arcs);
        let v = lemma_some_unset(done);
        lemma_permutation_covers(ord, n);
        assert(occurs(ord, v));
        let flags = Seq::new(n, |q: int| !done[ord[q] as int]);
        let qv = choose|q: int| 0 <= q < ord.len() && ord[q] as int == v;
        assert(flags[qv]);
        lemma_first_true(flags);
        let q0 = first_true(flags);
        assert(q0 < n);
        let t0 = ord[q0];
        assert(!done[t0 as int]);
        let k = choose|k: int| 0 <= k < arcs.len() && (#[trigger] arcs[k]).1 == t0 && !done[arcs[k].0 as int];
        let i = lemma_pred_earlier(ord, n, arcs, k, q0);
        assert(!flags[i]);
    }
}

/// Earliest start of every task, if the arcs allow an order of the tasks and
/// every task finishes within `u64`; `None` otherwise.
pub fn earliest_starts(n: usize, arcs: &[(usize, usize)], lens: &[u64]) -> (r: Option<Vec<u64>>)
    requires
        pairs_below(arcs@, n as nat),
        lens@.len() == n,
    ensures
        match r {
            Some(st) => {
                &&& has_topological_order(n as nat, arcs@)
                &&& st@.len() == n
                &&& forall|t: int|
                    0 <= t < n ==> #[trigger] st@[t] == earliest_start(arcs@, lens@, t as usize, n as nat) && st@[t]
                        + lens@[t] <= u64::MAX
            },
            None => !has_topological_order(n as nat, arcs@) || exists|t: int|
                0 <= t < n && #[trigger] earliest_start(arcs@, lens@, t as usize, n as nat) + lens@[t] > u64::MAX,
        },
{
    let ord = match topological_order(n, arcs) {
        Some(ord) => ord,
        None => return None,
    };
    let ghost a = arcs@;
    let ghost l = lens@;
    proof {
        lemma_earliest_start_stable(a, l, ord@, n as nat, n as int);
        lemma_permutation_covers(ord@, n as nat);
    }
    let mut st = vec![0u64; n];
    for s in 0..n
        invariant
            a == arcs@,
            l == lens@,
            l.len() == n,
            pairs_below(a, n as nat),
            is_permutation(ord@, n as nat),
            order_respects(ord@, a),
            forall|i: int, f: nat|
                0 <= i < n && f >= i + 1 ==> #[trigger] earliest_start(a, l, ord@[i], f) == earliest_start(
                    a,
                    l,
                    ord@[i],
                    (i + 1) as nat,
                ),
            st@.len() == n,
            forall|q: int|
                0 <= q < s ==> #[trigger] st@[ord@[q] as int] == earliest_start(a, l, ord@[q], (q + 1) as nat)
                    && st@[ord@[q] as int] + l[ord@[q] as int] <= u64::MAX,
    {
        let t = ord[s];
        let mut cur: u64 = 0;
        for k in 0..arcs.len()
            invariant
                a == arcs@,
                l == lens@,
                l.len() == n,
                pairs_below(a, n as nat),
                is_permutation(ord@, n as nat),
                order_respects(ord@, a),
                s < n,
                t == ord@[s as int],
                st@.len() == n,
                forall|i: int, f: nat|
                    0 <= i < n && f >= i + 1 ==> #[trigger] earliest_start(a, l, ord@[i], f) == earliest_start(
                        a,
                        l,
                        ord@[i],
                        (i + 1) as nat,
                    ),
                forall|q: int|
                    0 <= q < s ==> #[trigger] st@[ord@[q] as int] == earliest_start(a, l, ord@[q], (q + 1) as nat)
                        && st@[ord@[q] as int] + l[ord@[q] as int] <= u64::MAX,
                cur == latest_pred_finish(a, l, t, s as nat, k as int),
        {
            let (p, u) = arcs[k];
            assert(a[k as int] == (p, u));
            if u == t {
                let ghost i = lemma_pred_earlier(ord@, n as nat, a, k as int, s as int);
                assert(earliest_start(a, l, ord@[i], s as nat) == earliest_start(a, l, ord@[i], (i + 1) as nat));
                let f = st[p] + lens[p];
                if f > cur {
                    cur = f;
                }
            }
        }
        let finish = cur.checked_add(lens[t]);
        proof {
            assert(earliest_start(a, l, t, (s + 1) as nat) == cur);
            assert(earliest_start(a, l, ord@[s as int], n as nat) == cur);
        }
        match finish {
            None => {
                assert(0 <= t < n && #[trigger] earliest_start(arcs@, lens@, (t as int) as usize, n as nat) + lens@[t as int] > u64::MAX);
                return None;
            },
            Some(_) => {},
        }
        let ghost old_st = st@;
        st.set(t, cur);
        proof {
            assert forall|q: int| 0 <= q < s + 1 implies #[trigger] st@[ord@[q] as int] == earliest_start(
                a,
                l,
                ord@[q],
                (q + 1) as nat,
            ) && st@[ord@[q] as int] + l[ord@[q] as int] <= u64::MAX by {
                if q < s {
                    assert(ord@[q] != ord@[s as int]);
                    assert(st@[ord@[q] as int] == old_st[ord@[q] as int]);
                }
            }
        }
    }
    proof {
        assert forall|t: int| 0 <= t < n implies #[trigger] st@[t] == earliest_start(a, l, t as usize, n as nat) && st@[t]
            + l[t] <= u64::MAX by {
            assert(occurs(ord@, t));
            let q = choose|q: int| 0 <= q < ord@.len() && ord@[q] as int == t;
            assert(st@[ord@[q] as int] == earliest_start(a, l, ord@[q], (q + 1) as nat));
            assert(earliest_start(a, l, ord@[q], n as nat) == earliest_start(a, l, ord@[q], (q + 1) as nat));
        }
    }
    Some(st)
}

} // verus!
