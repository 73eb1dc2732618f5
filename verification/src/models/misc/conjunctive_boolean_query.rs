//! Conjunctive Boolean Query.
//!
//! Given a finite domain `D = {0, ..., domain_size-1}`, a collection of
//! relations and a conjunctive Boolean query
//! `Q = (exists y_1, ..., y_l)(A_1 /\ ... /\ A_r)`, determine whether `Q` is
//! true. A configuration assigns a domain value to each existential variable.
use crate::types::Or;
use crate::util::{all_below, check_all_below, contains_row, rows_of};
use vstd::prelude::*;

verus! {

/// A relation with fixed arity and a set of tuples over a finite domain.
#[derive(Debug, Clone, PartialEq)]
pub struct Relation {
    /// The arity (number of columns) of this relation.
    pub arity: usize,
    /// The tuples; each has length `arity`, entries in `0..domain_size`.
    pub tuples: Vec<Vec<usize>>,
}

/// Mathematical model of a [`Relation`].
pub struct RelationView {
    pub arity: nat,
    pub tuples: Seq<Seq<usize>>,
}

impl View for Relation {
    type V = RelationView;

    open spec fn view(&self) -> RelationView {
        RelationView { arity: self.arity as nat, tuples: rows_of(self.tuples@) }
    }
}

/// An argument in a conjunctive query atom.
#[derive(Debug, Clone, PartialEq)]
pub enum QueryArg {
    /// A reference to existential variable `y_i` (0-indexed).
    Variable(usize),
    /// A constant value from the domain `D`.
    Constant(usize),
}

/// Value of an argument under an assignment of the variables.
pub open spec fn arg_value(arg: QueryArg, config: Seq<usize>) -> usize {
    match arg {
        QueryArg::Variable(i) => config[i as int],
        QueryArg::Constant(c) => c,
    }
}

/// The tuple an atom denotes under an assignment.
pub open spec fn instantiate(args: Seq<QueryArg>, config: Seq<usize>) -> Seq<usize> {
    args.map_values(|arg: QueryArg| arg_value(arg, config))
}

/// Mathematical model of a [`ConjunctiveBooleanQuery`] instance.
pub struct ConjunctiveBooleanQueryView {
    pub domain_size: nat,
    pub relations: Seq<RelationView>,
    pub num_variables: nat,
    pub conjuncts: Seq<(usize, Seq<QueryArg>)>,
}

/// An argument is a variable below `num_variables` or a domain constant.
pub open spec fn arg_fits(arg: QueryArg, num_variables: nat, domain_size: nat) -> bool {
    match arg {
        QueryArg::Variable(v) => v < num_variables,
        QueryArg::Constant(c) => c < domain_size,
    }
}

impl ConjunctiveBooleanQueryView {
    /// The instance is well formed: tuples have the relation's arity and
    /// domain entries; each atom names an existing relation with the right
    /// number of valid arguments.
    pub open spec fn wf(self) -> bool {
        &&& forall|r: int, j: int|
            0 <= r < self.relations.len() && 0 <= j < self.relations[r].tuples.len() ==> (
            #[trigger] self.relations[r].tuples[j]).len() == self.relations[r].arity && all_below(
                self.relations[r].tuples[j],
                self.domain_size as int,
            )
        &&& forall|k: int|
            0 <= k < self.conjuncts.len() ==> (#[trigger] self.conjuncts[k]).0 < self.relations.len()
                && self.conjuncts[k].1.len() == self.relations[self.conjuncts[k].0 as int].arity
                && forall|a: int|
                0 <= a < self.conjuncts[k].1.len() ==> arg_fits(
                    #[trigger] self.conjuncts[k].1[a],
                    self.num_variables,
                    self.domain_size,
                )
    }
}

/// Atom `k` holds: its instantiated tuple is a tuple of its relation.
pub open spec fn atom_holds(m: ConjunctiveBooleanQueryView, config: Seq<usize>, k: int) -> bool {
    m.relations[m.conjuncts[k].0 as int].tuples.contains(instantiate(m.conjuncts[k].1, config))
}

/// The assignment gives each variable a domain value and makes every atom true.
pub open spec fn satisfies_query(m: ConjunctiveBooleanQueryView, config: Seq<usize>) -> bool {
    &&& config.len() == m.num_variables
    &&& all_below(config, m.domain_size as int)
    &&& forall|k: int| 0 <= k < m.conjuncts.len() ==> #[trigger] atom_holds(m, config, k)
}

/// The conjunct list viewed as relation index and argument sequence.
pub open spec fn conjuncts_view(conjuncts: Seq<(usize, Vec<QueryArg>)>) -> Seq<(usize, Seq<QueryArg>)> {
    conjuncts.map_values(|c: (usize, Vec<QueryArg>)| (c.0, c.1@))
}

/// The Conjunctive Boolean Query problem.
#[derive(Debug, PartialEq)]
pub struct ConjunctiveBooleanQuery {
    domain_size: usize,
    relations: Vec<Relation>,
    num_variables: usize,
    conjuncts: Vec<(usize, Vec<QueryArg>)>,
}

impl View for ConjunctiveBooleanQuery {
    type V = ConjunctiveBooleanQueryView;

    closed spec fn view(&self) -> ConjunctiveBooleanQueryView {
        ConjunctiveBooleanQueryView {
            domain_size: self.domain_size as nat,
            relations: self.relations@.map_values(|r: Relation| r@),
            num_variables: self.num_variables as nat,
            conjuncts: conjuncts_view(self.conjuncts@),
        }
    }
}

impl ConjunctiveBooleanQuery {
    /// The stored instance is well formed.
    #[verifier::type_invariant]
    pub closed spec fn inv(self) -> bool {
        self@.wf()
    }

    /// Create a new instance.
    pub fn new(
        domain_size: usize,
        relations: Vec<Relation>,
        num_variables: usize,
        conjuncts: Vec<(usize, Vec<QueryArg>)>,
    ) -> (r: Self)
        requires
            (ConjunctiveBooleanQueryView {
                domain_size: domain_size as nat,
                relations: relations@.map_values(|r: Relation| r@),
                num_variables: num_variables as nat,
                conjuncts: conjuncts_view(conjuncts@),
            }).wf(),
        ensures
            r@ == (ConjunctiveBooleanQueryView {
                domain_size: domain_size as nat,
                relations: relations@.map_values(|r: Relation| r@),
                num_variables: num_variables as nat,
                conjuncts: conjuncts_view(conjuncts@),
            }),
    {
        ConjunctiveBooleanQuery { domain_size, relations, num_variables, conjuncts }
    }

    /// Returns the size of the finite domain.
    pub fn domain_size(&self) -> (r: usize)
        ensures
            r == self@.domain_size,
    {
        self.domain_size
    }

    /// Returns the number of relations.
    pub fn num_relations(&self) -> (r: usize)
        ensures
            r == self@.relations.len(),
    {
        self.relations.len()
    }

    /// Returns the number of existentially quantified variables.
    pub fn num_variables(&self) -> (r: usize)
        ensures
            r == self@.num_variables,
    {
        self.num_variables
    }

    /// Returns the number of conjuncts in the query.
    pub fn num_conjuncts(&self) -> (r: usize)
        ensures
            r == self@.conjuncts.len(),
    {
        self.conjuncts.len()
    }

    /// Returns the relations.
    pub fn relations(&self) -> (r: &[Relation])
        ensures
            r@.map_values(|rel: Relation| rel@) == self@.relations,
    {
        self.relations.as_slice()
    }

    /// Returns the conjuncts.
    pub fn conjuncts(&self) -> (r: &[(usize, Vec<QueryArg>)])
        ensures
            conjuncts_view(r@) == self@.conjuncts,
    {
        self.conjuncts.as_slice()
    }

    /// One variable per existential variable, ranging over the domain.
    pub fn dims(&self) -> (r: Vec<usize>)
        ensures
            r@ == Seq::new(self@.num_variables, |i: int| self@.domain_size as usize),
    {
        crate::util::repeat_usize(self.domain_size, self.num_variables)
    }

    /// Whether the assignment makes the query true.
    pub fn evaluate(&self, config: &[usize]) -> (r: Or)
        ensures
            r == Or(satisfies_query(self@, config@)),
    {
        proof {
            use_type_invariant(self);
        }
        if config.len() != self.num_variables {
            return Or(false);
        }
        if !check_all_below(config, self.domain_size) {
            return Or(false);
        }
        for k in 0..self.conjuncts.len()
            invariant
                self@.wf(),
                config@.len() == self@.num_variables,
                forall|j: int| 0 <= j < k ==> #[trigger] atom_holds(self@, config@, j),
        {
            let rel_idx = self.conjuncts[k].0;
            let args = &self.conjuncts[k].1;
            assert(self@.conjuncts[k as int] == (rel_idx, args@));
            let mut tuple: Vec<usize> = Vec::new();
            for a in 0..args.len()
                invariant
                    self@.wf(),
                    config@.len() == self@.num_variables,
                    self@.conjuncts[k as int] == (rel_idx, args@),
                    0 <= k < self@.conjuncts.len(),
                    tuple@ =~= instantiate(args@, config@).take(a as int),
            {
                assert(arg_fits(self@.conjuncts[k as int].1[a as int], self@.num_variables, self@.domain_size));
                let value = match &args[a] {
                    QueryArg::Variable(i) => config[*i],
                    QueryArg::Constant(c) => *c,
                };
                tuple.push(value);
            }
            assert(tuple@ =~= instantiate(args@, config@));
            let rel = &self.relations[rel_idx];
            assert(self@.relations[rel_idx as int] == rel@);
            if !contains_row(rel.tuples.as_slice(), tuple.as_slice()) {
                assert(!atom_holds(self@, config@, k as int));
                return Or(false);
            }
        }
        Or(true)
    }
}

} // verus!
