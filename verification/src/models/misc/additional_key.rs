//! Additional Key.
//!
//! Given a set `A` of attributes, a set of functional dependencies `F` over
//! `A`, a relation scheme `R ⊆ A` and a set `K` of known candidate keys of `R`
//! under `F`, determine whether `R` has a candidate key not in `K`.
//!
//! A configuration has one binary variable per attribute of `R`; it is
//! satisfying iff the selected attributes form a candidate key (a minimal set
//! whose closure covers `R`) that is not among the known keys.
use crate::fd::{compute_closure, deps_view, deps_within, in_closure};
use crate::types::Or;
use crate::util::{
    all_below, ascending, check_all_below, contains_row, copy_bools, membership, membership_flags,
    rows_of, select_attrs, selected_attrs, sort_ascending,
};
use vstd::prelude::*;

verus! {

/// Mathematical model of an [`AdditionalKey`] instance.
pub struct AdditionalKeyView {
    pub num_attributes: nat,
    pub dependencies: Seq<(Seq<usize>, Seq<usize>)>,
    pub relation_attrs: Seq<usize>,
    pub known_keys: Seq<Seq<usize>>,
}

impl AdditionalKeyView {
    /// The instance is well formed: all attributes exist, the relation scheme
    /// has no repeated attribute.
    pub open spec fn wf(self) -> bool {
        &&& all_below(self.relation_attrs, self.num_attributes as int)
        &&& forall|i: int, j: int|
            0 <= i < j < self.relation_attrs.len() ==> self.relation_attrs[i] != self.relation_attrs[j]
        &&& deps_within(self.dependencies, self.num_attributes)
        &&& forall|k: int| 0 <= k < self.known_keys.len() ==> all_below(#[trigger] self.known_keys[k], self.num_attributes as int)
    }
}

/// The closure of `flags` contains every attribute of the relation scheme.
pub open spec fn covers_relation(m: AdditionalKeyView, flags: Seq<bool>) -> bool {
    forall|k: int|
        0 <= k < m.relation_attrs.len() ==> in_closure(m.dependencies, flags, #[trigger] m.relation_attrs[k] as int)
}

/// The selected attributes form a candidate key of the relation scheme (a
/// non-empty set whose closure covers the scheme and from which no attribute
/// can be dropped) that is not one of the known keys.
pub open spec fn is_additional_key(m: AdditionalKeyView, config: Seq<usize>) -> bool {
    let sel = selected_attrs(m.relation_attrs, config);
    let flags = membership(m.num_attributes, sel);
    &&& config.len() == m.relation_attrs.len()
    &&& all_below(config, 2)
    &&& sel.len() > 0
    &&& covers_relation(m, flags)
    &&& forall|j: int| 0 <= j < sel.len() ==> !covers_relation(m, flags.update(#[trigger] sel[j] as int, false))
    &&& !m.known_keys.contains(ascending(sel, m.num_attributes))
}

/// The Additional Key problem.
#[derive(Debug)]
pub struct AdditionalKey {
    num_attributes: usize,
    dependencies: Vec<(Vec<usize>, Vec<usize>)>,
    relation_attrs: Vec<usize>,
    known_keys: Vec<Vec<usize>>,
}

impl View for AdditionalKey {
    type V = AdditionalKeyView;

    closed spec fn view(&self) -> AdditionalKeyView {
        AdditionalKeyView {
            num_attributes: self.num_attributes as nat,
            dependencies: deps_view(self.dependencies@),
            relation_attrs: self.relation_attrs@,
            known_keys: rows_of(self.known_keys@),
        }
    }
}

impl AdditionalKey {
    /// The stored instance is well formed.
    #[verifier::type_invariant]
    pub closed spec fn inv(self) -> bool {
        self@.wf()
    }

    /// Create a new instance; each known key is stored in ascending order.
    pub fn new(
        num_attributes: usize,
        dependencies: Vec<(Vec<usize>, Vec<usize>)>,
        relation_attrs: Vec<usize>,
        known_keys: Vec<Vec<usize>>,
    ) -> (r: Self)
        requires
            all_below(relation_attrs@, num_attributes as int),
            forall|i: int, j: int| 0 <= i < j < relation_attrs@.len() ==> relation_attrs@[i] != relation_attrs@[j],
            deps_within(deps_view(dependencies@), num_attributes as nat),
            forall|k: int| 0 <= k < known_keys@.len() ==> all_below(#[trigger] known_keys@[k]@, num_attributes as int),
        ensures
            r@ == (AdditionalKeyView {
                num_attributes: num_attributes as nat,
                dependencies: deps_view(dependencies@),
                relation_attrs: relation_attrs@,
                known_keys: rows_of(known_keys@).map_values(|k: Seq<usize>| ascending(k, num_attributes as nat)),
            }),
    {
        let mut sorted_keys: Vec<Vec<usize>> = Vec::new();
        for k in 0..known_keys.len()
            invariant
                forall|j: int| 0 <= j < known_keys@.len() ==> all_below(#[trigger] known_keys@[j]@, num_attributes as int),
                rows_of(sorted_keys@) =~= rows_of(known_keys@).map_values(
                    |k: Seq<usize>| ascending(k, num_attributes as nat),
                ).take(k as int),
                forall|j: int| 0 <= j < sorted_keys@.len() ==> all_below(#[trigger] sorted_keys@[j]@, num_attributes as int),
        {
            let sorted = sort_ascending(known_keys[k].as_slice(), num_attributes);
            proof {
                lemma_ascending_below(known_keys@[k as int]@, num_attributes as nat);
            }
            sorted_keys.push(sorted);
        }
        assert(rows_of(sorted_keys@) =~= rows_of(known_keys@).map_values(
            |k: Seq<usize>| ascending(k, num_attributes as nat),
        ));
        AdditionalKey { num_attributes, dependencies, relation_attrs, known_keys: sorted_keys }
    }

    /// Returns the number of attributes in the universal set A.
    pub fn num_attributes(&self) -> (r: usize)
        ensures
            r == self@.num_attributes,
    {
        self.num_attributes
    }

    /// Returns the number of functional dependencies.
    pub fn num_dependencies(&self) -> (r: usize)
        ensures
            r == self@.dependencies.len(),
    {
        self.dependencies.len()
    }

    /// Returns the number of attributes in the relation scheme R.
    pub fn num_relation_attrs(&self) -> (r: usize)
        ensures
            r == self@.relation_attrs.len(),
    {
        self.relation_attrs.len()
    }

    /// Returns the number of known candidate keys.
    pub fn num_known_keys(&self) -> (r: usize)
        ensures
            r == self@.known_keys.len(),
    {
        self.known_keys.len()
    }

    /// Returns the functional dependencies.
    pub fn dependencies(&self) -> (r: &[(Vec<usize>, Vec<usize>)])
        ensures
            deps_view(r@) == self@.dependencies,
    {
        self.dependencies.as_slice()
    }

    /// Returns the relation scheme attributes.
    pub fn relation_attrs(&self) -> (r: &[usize])
        ensures
            r@ == self@.relation_attrs,
    {
        self.relation_attrs.as_slice()
    }

    /// Returns the known candidate keys (each in ascending order).
    pub fn known_keys(&self) -> (r: &[Vec<usize>])
        ensures
            rows_of(r@) == self@.known_keys,
    {
        self.known_keys.as_slice()
    }

    /// Whether the closure holds every attribute of the relation scheme.
    fn closure_covers(&self, closure: &Vec<bool>) -> (r: bool)
        requires
            closure@.len() == self@.num_attributes,
            self@.wf(),
        ensures
            r == forall|k: int| 0 <= k < self@.relation_attrs.len() ==> closure@[#[trigger] self@.relation_attrs[k] as int],
    {
        for k in 0..self.relation_attrs.len()
            invariant
                closure@.len() == self@.num_attributes,
                self@.wf(),
                forall|i: int| 0 <= i < k ==> closure@[#[trigger] self@.relation_attrs[i] as int],
        {
            let a = self.relation_attrs[k];
            assert(self@.relation_attrs[k as int] < self@.num_attributes);
            if !closure[a] {
                return false;
            }
        }
        true
    }

    /// Whether the closure of `flags` covers the relation scheme.
    fn flags_cover(&self, flags: &[bool]) -> (r: bool)
        requires
            flags@.len() == self@.num_attributes,
            self@.wf(),
        ensures
            r == covers_relation(self@, flags@),
    {
        let closure = compute_closure(self.dependencies.as_slice(), flags);
        let r = self.closure_covers(&closure);
        assert(r == covers_relation(self@, flags@)) by {
            if r {
                assert forall|k: int| 0 <= k < self@.relation_attrs.len() implies in_closure(
                    self@.dependencies,
                    flags@,
                    #[trigger] self@.relation_attrs[k] as int,
                ) by {
                    assert(closure@[self@.relation_attrs[k] as int]);
                }
            } else {
                let k = choose|k: int|
                    0 <= k < self@.relation_attrs.len() && !closure@[#[trigger] self@.relation_attrs[k] as int];
                assert(!in_closure(self@.dependencies, flags@, self@.relation_attrs[k] as int));
            }
        }
        r
    }

    /// One binary variable per attribute of the relation scheme.
    pub fn dims(&self) -> (r: Vec<usize>)
        ensures
            r@ == Seq::new(self@.relation_attrs.len(), |i: int| 2usize),
    {
        crate::util::repeat_usize(2, self.relation_attrs.len())
    }

    /// Whether the selected attributes form a candidate key not among the
    /// known keys.
    pub fn evaluate(&self, config: &[usize]) -> (r: Or)
        ensures
            r == Or(is_additional_key(self@, config@)),
    {
        proof {
            use_type_invariant(self);
        }
        let n = self.num_attributes;
        if config.len() != self.relation_attrs.len() {
            return Or(false);
        }
        if !check_all_below(config, 2) {
            return Or(false);
        }
        let selected = select_attrs(self.relation_attrs.as_slice(), config, n);
        let ghost sel = selected@;
        if selected.len() == 0 {
            return Or(false);
        }
        let attr_set = membership_flags(n, selected.as_slice());
        let ghost flags = membership(n as nat, sel);
        if !self.flags_cover(attr_set.as_slice()) {
            return Or(false);
        }
        for j in 0..selected.len()
            invariant
                self@.wf(),
                n == self@.num_attributes,
                sel == selected@,
                all_below(sel, n as int),
                attr_set@ == flags,
                forall|i: int| 0 <= i < j ==> !covers_relation(self@, flags.update(#[trigger] sel[i] as int, false)),
        {
            let mut reduced = copy_bools(attr_set.as_slice());
            let a = selected[j];
            reduced.set(a, false);
            if self.flags_cover(reduced.as_slice()) {
                assert(reduced@ == flags.update(sel[j as int] as int, false));
                return Or(false);
            }
        }
        let sorted = sort_ascending(selected.as_slice(), n);
        if contains_row(self.known_keys.as_slice(), sorted.as_slice()) {
            return Or(false);
        }
        Or(true)
    }
}

/// The ascending rearrangement keeps entries below `n`.
proof fn lemma_ascending_below(s: Seq<usize>, n: nat)
    ensures
        all_below(ascending(s, n), n as int),
    decreases n,
{
    if n > 0 {
        lemma_ascending_below(s, (n - 1) as nat);
    }
}

} // verus!
