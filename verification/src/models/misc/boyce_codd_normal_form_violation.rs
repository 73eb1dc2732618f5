//! Boyce-Codd Normal Form Violation.
//!
//! Given a set of attributes, functional dependencies and a target subset
//! `A'`, decide whether some `X ⊆ A'` violates Boyce-Codd normal form: there
//! are attributes `y, z ∈ A' \ X` with `y` in the closure of `X` and `z` not
//! in it. A configuration has one binary variable per target attribute
//! (in the normalized, ascending target order) selecting `X`.
use crate::fd::{compute_closure, deps_view, deps_within, in_closure};
use crate::types::Or;
use crate::util::{
    all_below, check_all_below, distinct_ascending, lemma_distinct_ascending, membership, membership_flags,
    select_attrs, selected_attrs, sort_dedup,
};
use vstd::prelude::*;

verus! {

/// Mathematical model of a [`BoyceCoddNormalFormViolation`] instance.
pub struct BcnfViolationView {
    pub num_attributes: nat,
    pub functional_deps: Seq<(Seq<usize>, Seq<usize>)>,
    pub target_subset: Seq<usize>,
}

impl BcnfViolationView {
    /// The instance is well formed: every attribute exists.
    pub open spec fn wf(self) -> bool {
        &&& deps_within(self.functional_deps, self.num_attributes)
        &&& all_below(self.target_subset, self.num_attributes as int)
    }
}

/// Each dependency with both sides sorted and deduplicated.
pub open spec fn normalize_deps(deps: Seq<(Seq<usize>, Seq<usize>)>, n: nat) -> Seq<(Seq<usize>, Seq<usize>)> {
    deps.map_values(|d: (Seq<usize>, Seq<usize>)| (distinct_ascending(d.0, n), distinct_ascending(d.1, n)))
}

/// Target attribute `k` lies outside the selected set `flags`.
pub open spec fn outside(m: BcnfViolationView, flags: Seq<bool>, k: int) -> bool {
    !flags[m.target_subset[k] as int]
}

/// The selected target attributes `X` witness a BCNF violation: some other
/// target attribute is in the closure of `X` and some other is not.
pub open spec fn is_bcnf_violation(m: BcnfViolationView, config: Seq<usize>) -> bool {
    let sel = selected_attrs(m.target_subset, config);
    let flags = membership(m.num_attributes, sel);
    &&& config.len() == m.target_subset.len()
    &&& all_below(config, 2)
    &&& exists|k: int|
        0 <= k < m.target_subset.len() && #[trigger] outside(m, flags, k) && in_closure(
            m.functional_deps,
            flags,
            m.target_subset[k] as int,
        )
    &&& exists|k: int|
        0 <= k < m.target_subset.len() && #[trigger] outside(m, flags, k) && !in_closure(
            m.functional_deps,
            flags,
            m.target_subset[k] as int,
        )
}

/// The Boyce-Codd Normal Form Violation problem.
#[derive(Debug)]
pub struct BoyceCoddNormalFormViolation {
    num_attributes: usize,
    functional_deps: Vec<(Vec<usize>, Vec<usize>)>,
    target_subset: Vec<usize>,
}

impl View for BoyceCoddNormalFormViolation {
    type V = BcnfViolationView;

    closed spec fn view(&self) -> BcnfViolationView {
        BcnfViolationView {
            num_attributes: self.num_attributes as nat,
            functional_deps: deps_view(self.functional_deps@),
            target_subset: self.target_subset@,
        }
    }
}

impl BoyceCoddNormalFormViolation {
    /// The stored instance is well formed.
    #[verifier::type_invariant]
    pub closed spec fn inv(self) -> bool {
        self@.wf()
    }

    /// Create a new instance; both sides of every dependency and the target
    /// subset are sorted and deduplicated.
    pub fn new(
        num_attributes: usize,
        functional_deps: Vec<(Vec<usize>, Vec<usize>)>,
        target_subset: Vec<usize>,
    ) -> (r: Self)
        requires
            target_subset@.len() > 0,
            all_below(target_subset@, num_attributes as int),
            forall|j: int| 0 <= j < functional_deps@.len() ==> (#[trigger] functional_deps@[j]).0@.len() > 0,
            deps_within(deps_view(functional_deps@), num_attributes as nat),
        ensures
            r@ == (BcnfViolationView {
                num_attributes: num_attributes as nat,
                functional_deps: normalize_deps(deps_view(functional_deps@), num_attributes as nat),
                target_subset: distinct_ascending(target_subset@, num_attributes as nat),
            }),
            r@.target_subset.len() > 0,
    {
        let ghost dv = deps_view(functional_deps@);
        let n = num_attributes;
        let mut deps: Vec<(Vec<usize>, Vec<usize>)> = Vec::new();
        for j in 0..functional_deps.len()
            invariant
                dv == deps_view(functional_deps@),
                deps_within(dv, n as nat),
                deps_view(deps@) =~= normalize_deps(dv, n as nat).take(j as int),
                deps_within(deps_view(deps@), n as nat),
        {
            let lhs = &functional_deps[j].0;
            let rhs = &functional_deps[j].1;
            assert(dv[j as int] == (lhs@, rhs@));
            assert(all_below(lhs@, n as int)) by {
                assert(forall|k: int| 0 <= k < dv[j as int].0.len() ==> dv[j as int].0[k] < n);
            }
            assert(all_below(rhs@, n as int)) by {
                assert(forall|k: int| 0 <= k < dv[j as int].1.len() ==> dv[j as int].1[k] < n);
            }
            let l = sort_dedup(lhs.as_slice(), n);
            let r = sort_dedup(rhs.as_slice(), n);
            proof {
                lemma_distinct_ascending(lhs@, n as nat);
                lemma_distinct_ascending(rhs@, n as nat);
            }
            deps.push((l, r));
            assert(deps_view(deps@) =~= normalize_deps(dv, n as nat).take(j + 1));
        }
        assert(normalize_deps(dv, n as nat).take(functional_deps@.len() as int) =~= normalize_deps(dv, n as nat));
        let target = sort_dedup(target_subset.as_slice(), n);
        proof {
            lemma_distinct_ascending(target_subset@, n as nat);
            assert(target_subset@.contains(target_subset@[0]));
            assert(target@.contains(target_subset@[0]));
        }
        BoyceCoddNormalFormViolation { num_attributes, functional_deps: deps, target_subset: target }
    }

    /// Return the total number of attributes.
    pub fn num_attributes(&self) -> (r: usize)
        ensures
            r == self@.num_attributes,
    {
        self.num_attributes
    }

    /// Return the number of functional dependencies.
    pub fn num_functional_deps(&self) -> (r: usize)
        ensures
            r == self@.functional_deps.len(),
    {
        self.functional_deps.len()
    }

    /// Return the number of attributes in the target subset.
    pub fn num_target_attributes(&self) -> (r: usize)
        ensures
            r == self@.target_subset.len(),
    {
        self.target_subset.len()
    }

    /// Return the (normalized) functional dependencies.
    pub fn functional_deps(&self) -> (r: &[(Vec<usize>, Vec<usize>)])
        ensures
            deps_view(r@) == self@.functional_deps,
    {
        self.functional_deps.as_slice()
    }

    /// Return the (normalized) target subset `A'`.
    pub fn target_subset(&self) -> (r: &[usize])
        ensures
            r@ == self@.target_subset,
    {
        self.target_subset.as_slice()
    }

    /// One binary variable per target attribute.
    pub fn dims(&self) -> (r: Vec<usize>)
        ensures
            r@ == Seq::new(self@.target_subset.len(), |i: int| 2usize),
    {
        crate::util::repeat_usize(2, self.target_subset.len())
    }

    /// Whether the selected attributes witness a BCNF violation.
    pub fn evaluate(&self, config: &[usize]) -> (r: Or)
        ensures
            r == Or(is_bcnf_violation(self@, config@)),
    {
        proof {
            use_type_invariant(self);
        }
        let n = self.num_attributes;
        if config.len() != self.target_subset.len() || !check_all_below(config, 2) {
            return Or(false);
        }
        let selected = select_attrs(self.target_subset.as_slice(), config, n);
        let flags = membership_flags(n, selected.as_slice());
        let ghost fl = flags@;
        let closure = compute_closure(self.functional_deps.as_slice(), flags.as_slice());
        let mut has_in_closure = false;
        let mut has_not_in_closure = false;
        for i in 0..self.target_subset.len()
            invariant
                self@.wf(),
                n == self@.num_attributes,
                fl == flags@,
                fl.len() == n,
                closure@.len() == n,
                forall|x: int| 0 <= x < n ==> (#[trigger] closure@[x] <==> in_closure(self@.functional_deps, fl, x)),
                has_in_closure == exists|k: int|
                    0 <= k < i && #[trigger] outside(self@, fl, k) && in_closure(
                        self@.functional_deps,
                        fl,
                        self@.target_subset[k] as int,
                    ),
                has_not_in_closure == exists|k: int|
                    0 <= k < i && #[trigger] outside(self@, fl, k) && !in_closure(
                        self@.functional_deps,
                        fl,
                        self@.target_subset[k] as int,
                    ),
        {
            let a = self.target_subset[i];
            assert(a < n);
            assert(closure@[a as int] <==> in_closure(self@.functional_deps, fl, a as int));
            if !flags[a] {
                assert(outside(self@, fl, i as int));
                if closure[a] {
                    has_in_closure = true;
                } else {
                    has_not_in_closure = true;
                }
            } else {
                assert(!outside(self@, fl, i as int));
            }
        }
        Or(has_in_closure && has_not_in_closure)
    }
}

} // verus!
