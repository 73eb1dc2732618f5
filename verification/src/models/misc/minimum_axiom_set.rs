//! Minimum Axiom Set.
//!
//! Given sentences, the set `T` of true sentences and implications
//! `antecedents -> consequent`, find a smallest subset of `T` whose deductive
//! closure contains all of `T`. A configuration has one binary variable per
//! true sentence.
use crate::fd::{compute_closure, deps_view, deps_within, in_closure};
use crate::types::Min;
use crate::util::{
    all_below, check_all_below, count_of, count_value, membership, membership_flags, select_attrs,
    selected_attrs,
};
use vstd::prelude::*;

verus! {

/// Mathematical model of a [`MinimumAxiomSet`] instance.
pub struct AxiomSetView {
    pub num_sentences: nat,
    pub true_sentences: Seq<usize>,
    pub implications: Seq<(Seq<usize>, usize)>,
}

/// The implication list viewed as antecedents and consequent.
pub open spec fn implications_view(imps: Seq<(Vec<usize>, usize)>) -> Seq<(Seq<usize>, usize)> {
    imps.map_values(|p: (Vec<usize>, usize)| (p.0@, p.1))
}

/// Each implication as a dependency with a single consequent.
pub open spec fn as_dependencies(imps: Seq<(Seq<usize>, usize)>) -> Seq<(Seq<usize>, Seq<usize>)> {
    imps.map_values(|p: (Seq<usize>, usize)| (p.0, seq![p.1]))
}

impl AxiomSetView {
    /// The instance is well formed: every sentence index exists and the true
    /// sentences are distinct.
    pub open spec fn wf(self) -> bool {
        &&& all_below(self.true_sentences, self.num_sentences as int)
        &&& forall|i: int, j: int| 0 <= i < j < self.true_sentences.len() ==> self.true_sentences[i] != self.true_sentences[j]
        &&& deps_within(as_dependencies(self.implications), self.num_sentences)
    }
}

/// Number of selected axioms when they are a binary selection of true
/// sentences whose deductive closure contains every true sentence; `None`
/// otherwise.
pub open spec fn axiom_set_size(m: AxiomSetView, config: Seq<usize>) -> Option<nat> {
    let flags = membership(m.num_sentences, selected_attrs(m.true_sentences, config));
    if config.len() != m.true_sentences.len() || !all_below(config, 2) {
        None
    } else if forall|k: int|
        0 <= k < m.true_sentences.len() ==> in_closure(
            as_dependencies(m.implications),
            flags,
            #[trigger] m.true_sentences[k] as int,
        ) {
        Some(count_of(config, 1))
    } else {
        None
    }
}

/// Extend `current` to its deductive closure under the implications.
fn deductive_closure(current: &mut Vec<bool>, implications: &[(Vec<usize>, usize)])
    requires
        deps_within(as_dependencies(implications_view(implications@)), old(current)@.len() as nat),
    ensures
        final(current)@.len() == old(current)@.len(),
        forall|x: int|
            0 <= x < old(current)@.len() ==> (#[trigger] final(current)@[x] <==> in_closure(
                as_dependencies(implications_view(implications@)),
                old(current)@,
                x,
            )),
{
    let ghost dv = as_dependencies(implications_view(implications@));
    let mut deps: Vec<(Vec<usize>, Vec<usize>)> = Vec::new();
    for i in 0..implications.len()
        invariant
            dv == as_dependencies(implications_view(implications@)),
            deps_view(deps@) =~= dv.take(i as int),
    {
        let antecedents = crate::util::copy_usizes(implications[i].0.as_slice());
        let consequent = vec![implications[i].1];
        assert(consequent@ =~= seq![implications@[i as int].1]);
        deps.push((antecedents, consequent));
    }
    assert(dv.take(implications@.len() as int) =~= dv);
    let closure = compute_closure(deps.as_slice(), current.as_slice());
    *current = closure;
}

/// The Minimum Axiom Set problem.
#[derive(Debug)]
pub struct MinimumAxiomSet {
    num_sentences: usize,
    true_sentences: Vec<usize>,
    implications: Vec<(Vec<usize>, usize)>,
}

impl View for MinimumAxiomSet {
    type V = AxiomSetView;

    closed spec fn view(&self) -> AxiomSetView {
        AxiomSetView {
            num_sentences: self.num_sentences as nat,
            true_sentences: self.true_sentences@,
            implications: implications_view(self.implications@),
        }
    }
}

impl MinimumAxiomSet {
    /// The stored instance is well formed.
    #[verifier::type_invariant]
    pub closed spec fn inv(self) -> bool {
        self@.wf()
    }

    /// Create a new instance.
    pub fn new(num_sentences: usize, true_sentences: Vec<usize>, implications: Vec<(Vec<usize>, usize)>) -> (r: Self)
        requires
            (AxiomSetView {
                num_sentences: num_sentences as nat,
                true_sentences: true_sentences@,
                implications: implications_view(implications@),
            }).wf(),
        ensures
            r@ == (AxiomSetView {
                num_sentences: num_sentences as nat,
                true_sentences: true_sentences@,
                implications: implications_view(implications@),
            }),
    {
        MinimumAxiomSet { num_sentences, true_sentences, implications }
    }

    /// Get the number of sentences.
    pub fn num_sentences(&self) -> (r: usize)
        ensures
            r == self@.num_sentences,
    {
        self.num_sentences
    }

    /// Get the number of true sentences.
    pub fn num_true_sentences(&self) -> (r: usize)
        ensures
            r == self@.true_sentences.len(),
    {
        self.true_sentences.len()
    }

    /// Get the number of implications.
    pub fn num_implications(&self) -> (r: usize)
        ensures
            r == self@.implications.len(),
    {
        self.implications.len()
    }

    /// Get the true sentences.
    pub fn true_sentences(&self) -> (r: &[usize])
        ensures
            r@ == self@.true_sentences,
    {
        self.true_sentences.as_slice()
    }

    /// Get the implications.
    pub fn implications(&self) -> (r: &[(Vec<usize>, usize)])
        ensures
            implications_view(r@) == self@.implications,
    {
        self.implications.as_slice()
    }

    /// One binary variable per true sentence.
    pub fn dims(&self) -> (r: Vec<usize>)
        ensures
            r@ == Seq::new(self@.true_sentences.len(), |i: int| 2usize),
    {
        crate::util::repeat_usize(2, self.true_sentences.len())
    }

    /// Number of selected axioms when their closure contains every true
    /// sentence; `Min(None)` otherwise.
    pub fn evaluate(&self, config: &[usize]) -> (r: Min<usize>)
        ensures
            r.0 == (match axiom_set_size(self@, config@) {
                Some(c) => Some(c as usize),
                None => None::<usize>,
            }),
            r.0 matches Some(c) ==> axiom_set_size(self@, config@) == Some(c as nat),
    {
        proof {
            use_type_invariant(self);
        }
        let n = self.num_sentences;
        if config.len() != self.true_sentences.len() || !check_all_below(config, 2) {
            return Min(None);
        }
        let selected = select_attrs(self.true_sentences.as_slice(), config, n);
        let mut current = membership_flags(n, selected.as_slice());
        let ghost flags = current@;
        let count = count_value(config, 1);
        deductive_closure(&mut current, self.implications.as_slice());
        for k in 0..self.true_sentences.len()
            invariant
                self@.wf(),
                n == self@.num_sentences,
                current@.len() == n,
                flags.len() == n,
                forall|x: int| 0 <= x < n ==> (#[trigger] current@[x] <==> in_closure(
                    as_dependencies(self@.implications),
                    flags,
                    x,
                )),
                forall|j: int| 0 <= j < k ==> in_closure(
                    as_dependencies(self@.implications),
                    flags,
                    #[trigger] self@.true_sentences[j] as int,
                ),
        {
            let s = self.true_sentences[k];
            assert(current@[s as int] <==> in_closure(as_dependencies(self@.implications), flags, s as int));
            if !current[s] {
                return Min(None);
            }
        }
        Min(Some(count))
    }
}

} // verus!
