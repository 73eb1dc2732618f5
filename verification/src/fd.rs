//! Closure of an attribute set under functional dependencies.
//!
//! A dependency `lhs -> rhs` forces every attribute of `rhs` into a set that
//! already holds every attribute of `lhs`. The closure of a set is the least
//! superset that respects every dependency.
use crate::util::{count_true, lemma_count_true_bound, lemma_count_true_update};
use vstd::prelude::*;

verus! {

/// The dependency list viewed as pairs of attribute sequences.
pub open spec fn deps_view(deps: Seq<(Vec<usize>, Vec<usize>)>) -> Seq<(Seq<usize>, Seq<usize>)> {
    deps.map_values(|d: (Vec<usize>, Vec<usize>)| (d.0@, d.1@))
}

/// Every listed attribute is set in `s`.
pub open spec fn all_set(s: Seq<bool>, attrs: Seq<usize>) -> bool {
    forall|k: int| 0 <= k < attrs.len() ==> s[#[trigger] attrs[k] as int]
}

/// `s` respects the dependency `d`: holding its left side means holding its
/// right side.
pub open spec fn respects(s: Seq<bool>, d: (Seq<usize>, Seq<usize>)) -> bool {
    all_set(s, d.0) ==> all_set(s, d.1)
}

/// `s` respects every dependency.
pub open spec fn closed_under(deps: Seq<(Seq<usize>, Seq<usize>)>, s: Seq<bool>) -> bool {
    forall|j: int| 0 <= j < deps.len() ==> #[trigger] respects(s, deps[j])
}

/// `s` is contained in `t` (as sets of attributes of the same universe).
pub open spec fn included(s: Seq<bool>, t: Seq<bool>) -> bool {
    &&& s.len() == t.len()
    &&& forall|x: int| 0 <= x < s.len() && #[trigger] s[x] ==> t[x]
}

/// `t` is a superset of `attrs` that respects every dependency.
pub open spec fn closed_superset(deps: Seq<(Seq<usize>, Seq<usize>)>, attrs: Seq<bool>, t: Seq<bool>) -> bool {
    included(attrs, t) && closed_under(deps, t)
}

/// Attribute `x` is in the closure of `attrs`: it belongs to every superset
/// of `attrs` that respects every dependency.
pub open spec fn in_closure(deps: Seq<(Seq<usize>, Seq<usize>)>, attrs: Seq<bool>, x: int) -> bool {
    forall|t: Seq<bool>| #[trigger] closed_superset(deps, attrs, t) ==> t[x]
}

/// Every attribute mentioned by a dependency is below `n`.
pub open spec fn deps_within(deps: Seq<(Seq<usize>, Seq<usize>)>, n: nat) -> bool {
    forall|j: int|
        0 <= j < deps.len() ==> (forall|k: int| 0 <= k < (#[trigger] deps[j]).0.len() ==> deps[j].0[k] < n)
            && (forall|k: int| 0 <= k < deps[j].1.len() ==> deps[j].1[k] < n)
}

proof fn lemma_dep_within(deps: Seq<(Seq<usize>, Seq<usize>)>, n: nat, j: int, lhs: Seq<usize>, rhs: Seq<usize>)
    requires
        deps_within(deps, n),
        0 <= j < deps.len(),
        deps[j] == (lhs, rhs),
    ensures
        forall|k: int| 0 <= k < lhs.len() ==> #[trigger] lhs[k] < n,
        forall|k: int| 0 <= k < rhs.len() ==> #[trigger] rhs[k] < n,
{
    assert forall|k: int| 0 <= k < lhs.len() implies #[trigger] lhs[k] < n by {
        assert(deps[j].0[k] == lhs[k]);
    }
    assert forall|k: int| 0 <= k < rhs.len() implies #[trigger] rhs[k] < n by {
        assert(deps[j].1[k] == rhs[k]);
    }
}

/// Whether every listed attribute is set.
fn all_listed_set(s: &Vec<bool>, attrs: &Vec<usize>) -> (r: bool)
    requires
        forall|k: int| 0 <= k < attrs@.len() ==> attrs@[k] < s@.len(),
    ensures
        r == all_set(s@, attrs@),
{
    for k in 0..attrs.len()
        invariant
            forall|k: int| 0 <= k < attrs@.len() ==> attrs@[k] < s@.len(),
            forall|i: int| 0 <= i < k ==> s@[#[trigger] attrs@[i] as int],
    {
        if !s[attrs[k]] {
            assert(!s@[attrs@[k as int] as int]);
            return false;
        }
    }
    true
}

/// The closure of `attrs` under `deps`: the least superset of `attrs` that
/// respects every dependency.
pub fn compute_closure(deps: &[(Vec<usize>, Vec<usize>)], attrs: &[bool]) -> (r: Vec<bool>)
    requires
        deps_within(deps_view(deps@), attrs@.len() as nat),
    ensures
        r@.len() == attrs@.len(),
        closed_superset(deps_view(deps@), attrs@, r@),
        forall|x: int| 0 <= x < attrs@.len() ==> (#[trigger] r@[x] <==> in_closure(deps_view(deps@), attrs@, x)),
{
    let ghost dv = deps_view(deps@);
    let ghost n = attrs@.len();
    let mut closure: Vec<bool> = Vec::new();
    for i in 0..attrs.len()
        invariant
            closure@ =~= attrs@.take(i as int),
    {
        closure.push(attrs[i]);
    }
    assert(closure@ =~= attrs@);
    let mut changed = true;
    proof {
        lemma_count_true_bound(closure@);
    }
    while changed
        invariant
            count_true(closure@) <= n,
            dv == deps_view(deps@),
            deps_within(dv, n),
            closure@.len() == n,
            included(attrs@, closure@),
            forall|t: Seq<bool>| #[trigger] closed_superset(dv, attrs@, t) ==> included(closure@, t),
            !changed ==> closed_under(dv, closure@),
        decreases n - count_true(closure@) + (if changed { 1int } else { 0int }),
    {
        let ghost start = closure@;
        let ghost start_count = count_true(closure@);
        proof {
            lemma_count_true_bound(closure@);
        }
        changed = false;
        for j in 0..deps.len()
            invariant
                dv == deps_view(deps@),
                deps_within(dv, n),
                closure@.len() == n,
                included(attrs@, closure@),
                forall|t: Seq<bool>| #[trigger] closed_superset(dv, attrs@, t) ==> included(closure@, t),
                !changed ==> closure@ == start,
                changed ==> count_true(closure@) > start_count,
                count_true(closure@) >= start_count,
                count_true(closure@) <= n,
                !changed ==> forall|i: int| 0 <= i < j ==> #[trigger] respects(closure@, dv[i]),
        {
            let lhs = &deps[j].0;
            let rhs = &deps[j].1;
            assert(dv[j as int] == (lhs@, rhs@));
            proof {
                lemma_dep_within(dv, n, j as int, lhs@, rhs@);
            }
            if all_listed_set(&closure, lhs) {
                let ghost before = closure@;
                let ghost changed_before = changed;
                for k in 0..rhs.len()
                    invariant
                        changed_before ==> changed,
                        dv == deps_view(deps@),
                        deps_within(dv, n),
                        dv[j as int] == (lhs@, rhs@),
                        0 <= j < dv.len(),
                        forall|i: int| 0 <= i < rhs@.len() ==> #[trigger] rhs@[i] < n,
                        closure@.len() == n,
                        all_set(before, lhs@),
                        included(before, closure@),
                        included(attrs@, closure@),
                        forall|t: Seq<bool>| #[trigger] closed_superset(dv, attrs@, t) ==> included(closure@, t),
                        forall|i: int| 0 <= i < k ==> closure@[#[trigger] rhs@[i] as int],
                        !changed ==> closure@ == start,
                        changed ==> count_true(closure@) > start_count,
                        count_true(closure@) >= start_count,
                        count_true(closure@) <= n,
                {
                    let a = rhs[k];
                    assert(rhs@[k as int] == a);
                    if !closure[a] {
                        let ghost prev = closure@;
                        proof {
                            lemma_count_true_update(prev, a as int);
                        }
                        closure.set(a, true);
                        changed = true;
                        proof {
                            lemma_count_true_bound(closure@);
                        }
                        assert forall|t: Seq<bool>| #[trigger] closed_superset(dv, attrs@, t) implies included(
                            closure@,
                            t,
                        ) by {
                            assert(included(prev, t));
                            assert(respects(t, dv[j as int]));
                            assert forall|i: int| 0 <= i < lhs@.len() implies t[#[trigger] lhs@[i] as int] by {
                                assert(before[lhs@[i] as int]);
                            }
                            assert(t[rhs@[k as int] as int]);
                        }
                    }
                }
                assert(all_set(closure@, rhs@));
                if !changed {
                    assert(respects(closure@, dv[j as int]));
                }
            } else {
                if !changed {
                    assert(respects(closure@, dv[j as int]));
                }
            }
        }
    }
    assert forall|x: int| 0 <= x < n implies (#[trigger] closure@[x] <==> in_closure(dv, attrs@, x)) by {
        assert(closed_superset(dv, attrs@, closure@));
        if closure@[x] {
            assert forall|t: Seq<bool>| #[trigger] closed_superset(dv, attrs@, t) implies t[x] by {
                assert(included(closure@, t));
            }
        }
    }
    closure
}

} // verus!
