//! Minimum Code Generation for Parallel Assignments.
//!
//! A parallel assignment `x_t1, ..., x_tm := e1, ..., em` is executed as a
//! sequence of single assignments; an assignment that reads a variable
//! overwritten earlier in the sequence needs an extra temporary. Find an
//! order minimizing the number of such backward dependencies. A
//! configuration gives each assignment its position in the order.
use crate::types::Min;
use crate::util::{check_permutation, is_permutation};
use vstd::prelude::*;

verus! {

/// Mathematical model of a [`MinimumCodeGenerationParallelAssignments`] instance.
pub struct ParallelAssignmentsView {
    pub num_variables: nat,
    pub assignments: Seq<(usize, Seq<usize>)>,
}

/// The assignment list viewed as target and read set.
pub open spec fn assignments_view(a: Seq<(usize, Vec<usize>)>) -> Seq<(usize, Seq<usize>)> {
    a.map_values(|x: (usize, Vec<usize>)| (x.0, x.1@))
}

impl ParallelAssignmentsView {
    /// Every target and every read variable exists.
    pub open spec fn wf(self) -> bool {
        forall|i: int|
            0 <= i < self.assignments.len() ==> (#[trigger] self.assignments[i]).0 < self.num_variables && forall|k: int|
                0 <= k < self.assignments[i].1.len() ==> self.assignments[i].1[k] < self.num_variables
    }
}

/// Assignment `b` runs after assignment `a` and reads the variable `a` writes.
pub open spec fn backward(m: ParallelAssignmentsView, config: Seq<usize>, a: int, b: int) -> bool {
    config[a] < config[b] && m.assignments[b].1.contains(m.assignments[a].0)
}

/// Number of `b < k` such that `(a, b)` is a backward dependency.
pub open spec fn backward_from(m: ParallelAssignmentsView, config: Seq<usize>, a: int, k: int) -> nat
    decreases k,
{
    if k <= 0 {
        0
    } else {
        backward_from(m, config, a, k - 1) + (if backward(m, config, a, k - 1) { 1nat } else { 0nat })
    }
}

/// Number of backward dependencies `(a, b)` with `a < k`.
pub open spec fn backward_count(m: ParallelAssignmentsView, config: Seq<usize>, k: int) -> nat
    decreases k,
{
    if k <= 0 {
        0
    } else {
        backward_count(m, config, k - 1) + backward_from(m, config, k - 1, m.assignments.len() as int)
    }
}

/// Number of backward dependencies of the order, `None` when `config` is not
/// a permutation of the positions.
pub open spec fn dependency_count(m: ParallelAssignmentsView, config: Seq<usize>) -> Option<nat> {
    if is_permutation(config, m.assignments.len()) {
        Some(backward_count(m, config, m.assignments.len() as int))
    } else {
        None
    }
}

/// The Minimum Code Generation for Parallel Assignments problem.
#[derive(Debug)]
pub struct MinimumCodeGenerationParallelAssignments {
    num_variables: usize,
    assignments: Vec<(usize, Vec<usize>)>,
}

impl View for MinimumCodeGenerationParallelAssignments {
    type V = ParallelAssignmentsView;

    closed spec fn view(&self) -> ParallelAssignmentsView {
        ParallelAssignmentsView { num_variables: self.num_variables as nat, assignments: assignments_view(self.assignments@) }
    }
}

/// Whether `x` occurs in `s`.
fn contains_value(s: &Vec<usize>, x: usize) -> (r: bool)
    ensures
        r == s@.contains(x),
{
    for i in 0..s.len()
        invariant
            forall|k: int| 0 <= k < i ==> s@[k] != x,
    {
        if s[i] == x {
            assert(s@[i as int] == x);
            return true;
        }
    }
    false
}

impl MinimumCodeGenerationParallelAssignments {
    /// Create a new instance.
    pub fn new(num_variables: usize, assignments: Vec<(usize, Vec<usize>)>) -> (r: Self)
        requires
            (ParallelAssignmentsView { num_variables: num_variables as nat, assignments: assignments_view(assignments@) }).wf(),
        ensures
            r@ == (ParallelAssignmentsView { num_variables: num_variables as nat, assignments: assignments_view(assignments@) }),
    {
        MinimumCodeGenerationParallelAssignments { num_variables, assignments }
    }

    /// Get the number of variables.
    pub fn num_variables(&self) -> (r: usize)
        ensures
            r == self@.num_variables,
    {
        self.num_variables
    }

    /// Get the number of assignments.
    pub fn num_assignments(&self) -> (r: usize)
        ensures
            r == self@.assignments.len(),
    {
        self.assignments.len()
    }

    /// Get the assignments as (target, read variables).
    pub fn assignments(&self) -> (r: &[(usize, Vec<usize>)])
        ensures
            assignments_view(r@) == self@.assignments,
    {
        self.assignments.as_slice()
    }

    /// Each assignment chooses one of `m` positions.
    pub fn dims(&self) -> (r: Vec<usize>)
        ensures
            r@ == Seq::new(self@.assignments.len(), |i: int| self@.assignments.len() as usize),
    {
        let m = self.assignments.len();
        crate::util::repeat_usize(m, m)
    }

    /// Number of backward dependencies of the order; `Min(None)` for a
    /// non-permutation.
    pub fn evaluate(&self, config: &[usize]) -> (r: Min<usize>)
        requires
            self@.assignments.len() * self@.assignments.len() <= usize::MAX,
        ensures
            r.0 matches Some(c) ==> dependency_count(self@, config@) == Some(c as nat),
            r.0 is None ==> dependency_count(self@, config@) is None,
    {
        let m = self.assignments.len();
        if !check_permutation(config, m) {
            return Min(None);
        }
        let mut count: usize = 0;
        for a in 0..m
            invariant
                m == self@.assignments.len(),
                m * m <= usize::MAX,
                config@.len() == m,
                count == backward_count(self@, config@, a as int),
                count <= a * m,
        {
            let target = self.assignments[a].0;
            assert(self@.assignments[a as int].0 == target);
            let mut row: usize = 0;
            for b in 0..m
                invariant
                    m == self@.assignments.len(),
                    config@.len() == m,
                    self@.assignments[a as int].0 == target,
                    row == backward_from(self@, config@, a as int, b as int),
                    row <= b,
            {
                assert(self@.assignments[b as int].1 == self.assignments@[b as int].1@);
                if config[a] < config[b] && contains_value(&self.assignments[b].1, target) {
                    row = row + 1;
                }
            }
            assert(count + row <= (a + 1) * m) by (nonlinear_arith)
                requires
                    count <= a * m,
                    row <= m,
            ;
            assert((a + 1) * m <= m * m) by (nonlinear_arith)
                requires
                    a < m,
            ;
            count = count + row;
        }
        Min(Some(count))
    }
}

} // verus!
