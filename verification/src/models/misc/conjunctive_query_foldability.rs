//! Conjunctive Query Foldability.
//!
//! Given two conjunctive queries over the same relations, decide whether a
//! substitution of the undistinguished variables of the first query maps its
//! set of atoms exactly onto the set of atoms of the second. A configuration
//! gives every undistinguished variable a value: `v < domain_size` is the
//! constant `v`, the next `num_distinguished` values are distinguished
//! variables, the rest undistinguished variables.
use crate::types::Or;
use crate::util::{all_below, check_all_below};
use vstd::prelude::*;

verus! {

/// A term of a query atom.
#[derive(Debug, Clone, Copy, PartialEq, Eq, Structural, Hash)]
pub enum Term {
    /// A domain constant.
    Constant(usize),
    /// A distinguished variable.
    Distinguished(usize),
    /// An undistinguished (existential) variable.
    Undistinguished(usize),
}

/// Mathematical model of a [`ConjunctiveQueryFoldability`] instance.
pub struct FoldabilityView {
    pub domain_size: nat,
    pub num_distinguished: nat,
    pub num_undistinguished: nat,
    pub relation_arities: Seq<usize>,
    pub query1_conjuncts: Seq<(usize, Seq<Term>)>,
    pub query2_conjuncts: Seq<(usize, Seq<Term>)>,
}

/// The atom list viewed as relation index and argument sequence.
pub open spec fn atoms_view(atoms: Seq<(usize, Vec<Term>)>) -> Seq<(usize, Seq<Term>)> {
    atoms.map_values(|a: (usize, Vec<Term>)| (a.0, a.1@))
}

/// A term refers to an existing constant or variable.
pub open spec fn term_fits(m: FoldabilityView, t: Term) -> bool {
    match t {
        Term::Constant(i) => i < m.domain_size,
        Term::Distinguished(i) => i < m.num_distinguished,
        Term::Undistinguished(i) => i < m.num_undistinguished,
    }
}

/// Every atom names an existing relation with the right number of valid
/// terms.
pub open spec fn atoms_fit(m: FoldabilityView, atoms: Seq<(usize, Seq<Term>)>) -> bool {
    forall|a: int|
        0 <= a < atoms.len() ==> (#[trigger] atoms[a]).0 < m.relation_arities.len() && atoms[a].1.len()
            == m.relation_arities[atoms[a].0 as int] && forall|k: int|
            0 <= k < atoms[a].1.len() ==> term_fits(m, #[trigger] atoms[a].1[k])
}

impl FoldabilityView {
    /// The instance is well formed: both queries fit the relations and the
    /// value range of a substitution fits in `usize`.
    pub open spec fn wf(self) -> bool {
        &&& atoms_fit(self, self.query1_conjuncts)
        &&& atoms_fit(self, self.query2_conjuncts)
    }

    /// Number of values a substitution may take.
    pub open spec fn range(self) -> nat {
        self.domain_size + self.num_distinguished + self.num_undistinguished
    }
}

/// The term that substitution value `v` stands for.
pub open spec fn decode_value(m: FoldabilityView, v: usize) -> Term {
    if v < m.domain_size {
        Term::Constant(v)
    } else if v < m.domain_size + m.num_distinguished {
        Term::Distinguished((v - m.domain_size) as usize)
    } else {
        Term::Undistinguished((v - m.domain_size - m.num_distinguished) as usize)
    }
}

/// A term after substitution: undistinguished variables are replaced.
pub open spec fn substitute(m: FoldabilityView, t: Term, config: Seq<usize>) -> Term {
    match t {
        Term::Undistinguished(i) => decode_value(m, config[i as int]),
        _ => t,
    }
}

/// The first query's atoms after substitution.
pub open spec fn substituted_atoms(m: FoldabilityView, config: Seq<usize>) -> Seq<(usize, Seq<Term>)> {
    m.query1_conjuncts.map_values(
        |a: (usize, Seq<Term>)| (a.0, a.1.map_values(|t: Term| substitute(m, t, config))),
    )
}

/// The substitution maps the atom set of the first query onto that of the
/// second.
pub open spec fn folds(m: FoldabilityView, config: Seq<usize>) -> bool {
    &&& config.len() == m.num_undistinguished
    &&& all_below(config, m.range() as int)
    &&& substituted_atoms(m, config).to_set() == m.query2_conjuncts.to_set()
}

/// The Conjunctive Query Foldability problem.
#[derive(Debug)]
pub struct ConjunctiveQueryFoldability {
    domain_size: usize,
    num_distinguished: usize,
    num_undistinguished: usize,
    relation_arities: Vec<usize>,
    query1_conjuncts: Vec<(usize, Vec<Term>)>,
    query2_conjuncts: Vec<(usize, Vec<Term>)>,
}

impl View for ConjunctiveQueryFoldability {
    type V = FoldabilityView;

    closed spec fn view(&self) -> FoldabilityView {
        FoldabilityView {
            domain_size: self.domain_size as nat,
            num_distinguished: self.num_distinguished as nat,
            num_undistinguished: self.num_undistinguished as nat,
            relation_arities: self.relation_arities@,
            query1_conjuncts: atoms_view(self.query1_conjuncts@),
            query2_conjuncts: atoms_view(self.query2_conjuncts@),
        }
    }
}

/// Whether two term sequences are equal.
fn same_terms(a: &Vec<Term>, b: &Vec<Term>) -> (r: bool)
    ensures
        r == (a@ == b@),
{
    if a.len() != b.len() {
        return false;
    }
    for i in 0..a.len()
        invariant
            a@.len() == b@.len(),
            forall|k: int| 0 <= k < i ==> a@[k] == b@[k],
    {
        if a[i] != b[i] {
            return false;
        }
    }
    assert(a@ =~= b@);
    true
}

/// Whether `atom` is one of `atoms`.
fn contains_atom(atoms: &Vec<(usize, Vec<Term>)>, rel: usize, args: &Vec<Term>) -> (r: bool)
    ensures
        r == atoms_view(atoms@).contains((rel, args@)),
{
    for j in 0..atoms.len()
        invariant
            forall|k: int| 0 <= k < j ==> atoms_view(atoms@)[k] != (rel, args@),
    {
        if atoms[j].0 == rel && same_terms(&atoms[j].1, args) {
            assert(atoms_view(atoms@)[j as int] == (rel, args@));
            return true;
        }
    }
    false
}

impl ConjunctiveQueryFoldability {
    /// The stored instance is well formed.
    #[verifier::type_invariant]
    pub closed spec fn inv(self) -> bool {
        self@.wf()
    }

    /// Create a new instance.
    pub fn new(
        domain_size: usize,
        num_distinguished: usize,
        num_undistinguished: usize,
        relation_arities: Vec<usize>,
        query1_conjuncts: Vec<(usize, Vec<Term>)>,
        query2_conjuncts: Vec<(usize, Vec<Term>)>,
    ) -> (r: Self)
        requires
            (FoldabilityView {
                domain_size: domain_size as nat,
                num_distinguished: num_distinguished as nat,
                num_undistinguished: num_undistinguished as nat,
                relation_arities: relation_arities@,
                query1_conjuncts: atoms_view(query1_conjuncts@),
                query2_conjuncts: atoms_view(query2_conjuncts@),
            }).wf(),
        ensures
            r@ == (FoldabilityView {
                domain_size: domain_size as nat,
                num_distinguished: num_distinguished as nat,
                num_undistinguished: num_undistinguished as nat,
                relation_arities: relation_arities@,
                query1_conjuncts: atoms_view(query1_conjuncts@),
                query2_conjuncts: atoms_view(query2_conjuncts@),
            }),
    {
        ConjunctiveQueryFoldability {
            domain_size,
            num_distinguished,
            num_undistinguished,
            relation_arities,
            query1_conjuncts,
            query2_conjuncts,
        }
    }

    /// Get the domain size.
    pub fn domain_size(&self) -> (r: usize)
        ensures
            r == self@.domain_size,
    {
        self.domain_size
    }

    /// Get the number of distinguished variables.
    pub fn num_distinguished(&self) -> (r: usize)
        ensures
            r == self@.num_distinguished,
    {
        self.num_distinguished
    }

    /// Get the number of undistinguished variables.
    pub fn num_undistinguished(&self) -> (r: usize)
        ensures
            r == self@.num_undistinguished,
    {
        self.num_undistinguished
    }

    /// Get the number of atoms of the first query.
    pub fn num_conjuncts_q1(&self) -> (r: usize)
        ensures
            r == self@.query1_conjuncts.len(),
    {
        self.query1_conjuncts.len()
    }

    /// Get the number of atoms of the second query.
    pub fn num_conjuncts_q2(&self) -> (r: usize)
        ensures
            r == self@.query2_conjuncts.len(),
    {
        self.query2_conjuncts.len()
    }

    /// Get the number of relations.
    pub fn num_relations(&self) -> (r: usize)
        ensures
            r == self@.relation_arities.len(),
    {
        self.relation_arities.len()
    }

    /// Get the relation arities.
    pub fn relation_arities(&self) -> (r: &[usize])
        ensures
            r@ == self@.relation_arities,
    {
        self.relation_arities.as_slice()
    }

    /// Get the atoms of the first query.
    pub fn query1_conjuncts(&self) -> (r: &[(usize, Vec<Term>)])
        ensures
            atoms_view(r@) == self@.query1_conjuncts,
    {
        self.query1_conjuncts.as_slice()
    }

    /// Get the atoms of the second query.
    pub fn query2_conjuncts(&self) -> (r: &[(usize, Vec<Term>)])
        ensures
            atoms_view(r@) == self@.query2_conjuncts,
    {
        self.query2_conjuncts.as_slice()
    }

    fn decode_substitution(&self, v: usize) -> (r: Term)
        requires
            v < self@.range(),
        ensures
            r == decode_value(self@, v),
    {
        if v < self.domain_size {
            Term::Constant(v)
        } else if v - self.domain_size < self.num_distinguished {
            Term::Distinguished(v - self.domain_size)
        } else {
            Term::Undistinguished(v - self.domain_size - self.num_distinguished)
        }
    }

    fn apply_substitution(&self, term: &Term, config: &[usize]) -> (r: Term)
        requires
            term_fits(self@, *term),
            config@.len() == self@.num_undistinguished,
            all_below(config@, self@.range() as int),
        ensures
            r == substitute(self@, *term, config@),
    {
        match term {
            Term::Undistinguished(i) => self.decode_substitution(config[*i]),
            other => *other,
        }
    }

    /// Each undistinguished variable ranges over all constants and variables.
    pub fn dims(&self) -> (r: Vec<usize>)
        requires
            self@.range() <= usize::MAX,
        ensures
            r@ == Seq::new(self@.num_undistinguished, |i: int| self@.range() as usize),
    {
        let range = self.domain_size + self.num_distinguished + self.num_undistinguished;
        crate::util::repeat_usize(range, self.num_undistinguished)
    }

    /// Whether the substitution folds the first query onto the second.
    pub fn evaluate(&self, config: &[usize]) -> (r: Or)
        requires
            self@.range() <= usize::MAX,
        ensures
            r == Or(folds(self@, config@)),
    {
        proof {
            use_type_invariant(self);
        }
        if config.len() != self.num_undistinguished {
            return Or(false);
        }
        let range = self.domain_size + self.num_distinguished + self.num_undistinguished;
        if !check_all_below(config, range) {
            return Or(false);
        }
        let ghost sub = substituted_atoms(self@, config@);
        let mut substituted: Vec<(usize, Vec<Term>)> = Vec::new();
        for a in 0..self.query1_conjuncts.len()
            invariant
                self@.wf(),
                config@.len() == self@.num_undistinguished,
                all_below(config@, self@.range() as int),
                sub == substituted_atoms(self@, config@),
                atoms_view(substituted@) =~= sub.take(a as int),
        {
            let rel = self.query1_conjuncts[a].0;
            let args = &self.query1_conjuncts[a].1;
            assert(self@.query1_conjuncts[a as int] == (rel, args@));
            let mut new_args: Vec<Term> = Vec::new();
            for k in 0..args.len()
                invariant
                    self@.wf(),
                    config@.len() == self@.num_undistinguished,
                    all_below(config@, self@.range() as int),
                    0 <= a < self@.query1_conjuncts.len(),
                    self@.query1_conjuncts[a as int] == (rel, args@),
                    new_args@ =~= args@.map_values(|t: Term| substitute(self@, t, config@)).take(k as int),
            {
                assert(term_fits(self@, self@.query1_conjuncts[a as int].1[k as int]));
                let t = self.apply_substitution(&args[k], config);
                new_args.push(t);
            }
            assert(new_args@ =~= args@.map_values(|t: Term| substitute(self@, t, config@)));
            substituted.push((rel, new_args));
        }
        assert(sub.take(sub.len() as int) =~= sub);
        let ghost q2 = self@.query2_conjuncts;
        for a in 0..substituted.len()
            invariant
                atoms_view(substituted@) == sub,
                q2 == atoms_view(self.query2_conjuncts@),
                forall|i: int| 0 <= i < a ==> q2.contains(#[trigger] sub[i]),
        {
            if !contains_atom(&self.query2_conjuncts, substituted[a].0, &substituted[a].1) {
                assert(sub[a as int] == (substituted@[a as int].0, substituted@[a as int].1@));
                assert(sub.to_set().contains(sub[a as int]));
                assert(!q2.to_set().contains(sub[a as int]));
                return Or(false);
            }
            assert(sub[a as int] == (substituted@[a as int].0, substituted@[a as int].1@));
        }
        for b in 0..self.query2_conjuncts.len()
            invariant
                atoms_view(substituted@) == sub,
                q2 == atoms_view(self.query2_conjuncts@),
                forall|i: int| 0 <= i < sub.len() ==> q2.contains(#[trigger] sub[i]),
                forall|i: int| 0 <= i < b ==> sub.contains(#[trigger] q2[i]),
        {
            if !contains_atom(&substituted, self.query2_conjuncts[b].0, &self.query2_conjuncts[b].1) {
                assert(q2[b as int] == (self.query2_conjuncts@[b as int].0, self.query2_conjuncts@[b as int].1@));
                assert(q2.to_set().contains(q2[b as int]));
                assert(!sub.to_set().contains(q2[b as int]));
                return Or(false);
            }
            assert(q2[b as int] == (self.query2_conjuncts@[b as int].0, self.query2_conjuncts@[b as int].1@));
        }
        assert(sub.to_set() =~= q2.to_set()) by {
            assert forall|x: (usize, Seq<Term>)| sub.to_set().contains(x) implies q2.to_set().contains(x) by {
                let i = choose|i: int| 0 <= i < sub.len() && sub[i] == x;
                assert(q2.contains(sub[i]));
            }
            assert forall|x: (usize, Seq<Term>)| q2.to_set().contains(x) implies sub.to_set().contains(x) by {
                let i = choose|i: int| 0 <= i < q2.len() && q2[i] == x;
                assert(sub.contains(q2[i]));
            }
        }
        Or(true)
    }
}

} // verus!
