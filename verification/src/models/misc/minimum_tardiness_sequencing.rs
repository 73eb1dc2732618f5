//! Minimum Tardiness Sequencing.
//!
//! Unit-length tasks with deadlines and precedence constraints are scheduled
//! on one machine; find a schedule respecting the precedences with the fewest
//! tardy tasks. A configuration gives every task its position.
use crate::types::{Direction, SolutionSize};
use crate::util::{check_permutation, indices_where, is_permutation, lemma_indices_where_step};
use vstd::prelude::*;

verus! {

/// Mathematical model of a [`MinimumTardinessSequencing`] instance.
pub struct TardinessView {
    pub num_tasks: nat,
    pub deadlines: Seq<usize>,
    pub precedences: Seq<(usize, usize)>,
}

impl TardinessView {
    /// One deadline per task; precedences name tasks.
    pub open spec fn wf(self) -> bool {
        &&& self.deadlines.len() == self.num_tasks
        &&& forall|k: int|
            0 <= k < self.precedences.len() ==> (#[trigger] self.precedences[k]).0 < self.num_tasks
                && self.precedences[k].1 < self.num_tasks
    }
}

/// Number of tasks among the first `k` that finish after their deadline.
pub open spec fn tardy_count(deadlines: Seq<usize>, config: Seq<usize>, k: int) -> nat
    decreases k,
{
    if k <= 0 {
        0
    } else {
        tardy_count(deadlines, config, k - 1) + (if config[k - 1] + 1 > deadlines[k - 1] { 1nat } else { 0nat })
    }
}

/// The tardy count over the first `k` tasks is the number of tasks `t < k`
/// whose finishing time `config[t] + 1` exceeds the deadline of `t` itself.
pub proof fn lemma_tardy_count_is_late_tasks(deadlines: Seq<usize>, config: Seq<usize>, k: int)
    requires
        0 <= k,
    ensures
        tardy_count(deadlines, config, k) == indices_where(|t: int| config[t] + 1 > deadlines[t], k).len(),
    decreases k,
{
    let late = |t: int| config[t] + 1 > deadlines[t];
    if k == 0 {
        lemma_indices_where_step(late, 0);
        assert(indices_where(late, 0) =~= Set::<int>::empty());
    } else {
        lemma_tardy_count_is_late_tasks(deadlines, config, k - 1);
        lemma_indices_where_step(late, k - 1);
    }
}

/// Every precedence `(p, s)` puts `p` before `s`.
pub open spec fn respects_precedences(precedences: Seq<(usize, usize)>, config: Seq<usize>) -> bool {
    forall|k: int|
        0 <= k < precedences.len() ==> config[(#[trigger] precedences[k]).0 as int] < config[precedences[k].1 as int]
}

/// Number of tardy tasks of a valid schedule, `None` otherwise.
pub open spec fn schedule_tardiness(m: TardinessView, config: Seq<usize>) -> Option<nat> {
    if is_permutation(config, m.num_tasks) && respects_precedences(m.precedences, config) {
        Some(tardy_count(m.deadlines, config, m.num_tasks as int))
    } else {
        None
    }
}

/// The Minimum Tardiness Sequencing problem.
#[derive(Debug)]
pub struct MinimumTardinessSequencing {
    num_tasks: usize,
    deadlines: Vec<usize>,
    precedences: Vec<(usize, usize)>,
}

impl View for MinimumTardinessSequencing {
    type V = TardinessView;

    closed spec fn view(&self) -> TardinessView {
        TardinessView { num_tasks: self.num_tasks as nat, deadlines: self.deadlines@, precedences: self.precedences@ }
    }
}

impl MinimumTardinessSequencing {
    /// The stored instance is well formed.
    #[verifier::type_invariant]
    pub closed spec fn inv(self) -> bool {
        self@.wf()
    }

    /// Create a new instance.
    pub fn new(num_tasks: usize, deadlines: Vec<usize>, precedences: Vec<(usize, usize)>) -> (r: Self)
        requires
            (TardinessView { num_tasks: num_tasks as nat, deadlines: deadlines@, precedences: precedences@ }).wf(),
        ensures
            r@ == (TardinessView { num_tasks: num_tasks as nat, deadlines: deadlines@, precedences: precedences@ }),
    {
        MinimumTardinessSequencing { num_tasks, deadlines, precedences }
    }

    /// Get the number of tasks.
    pub fn num_tasks(&self) -> (r: usize)
        ensures
            r == self@.num_tasks,
    {
        self.num_tasks
    }

    /// Get the deadlines.
    pub fn deadlines(&self) -> (r: &[usize])
        ensures
            r@ == self@.deadlines,
    {
        self.deadlines.as_slice()
    }

    /// Get the precedences.
    pub fn precedences(&self) -> (r: &[(usize, usize)])
        ensures
            r@ == self@.precedences,
    {
        self.precedences.as_slice()
    }

    /// Get the number of precedences.
    pub fn num_precedences(&self) -> (r: usize)
        ensures
            r == self@.precedences.len(),
    {
        self.precedences.len()
    }

    /// Each task chooses one of the `n` positions.
    pub fn dims(&self) -> (r: Vec<usize>)
        ensures
            r@ == Seq::new(self@.num_tasks, |i: int| self@.num_tasks as usize),
    {
        crate::util::repeat_usize(self.num_tasks, self.num_tasks)
    }

    /// Number of tardy tasks of a valid schedule; `Invalid` otherwise.
    pub fn evaluate(&self, config: &[usize]) -> (r: SolutionSize<usize>)
        ensures
            match r {
                SolutionSize::Valid(c) => schedule_tardiness(self@, config@) == Some(c as nat),
                SolutionSize::Invalid => schedule_tardiness(self@, config@) is None,
            },
    {
        proof {
            use_type_invariant(self);
        }
        let n = self.num_tasks;
        if !check_permutation(config, n) {
            return SolutionSize::Invalid;
        }
        for k in 0..self.precedences.len()
            invariant
                self@.wf(),
                config@.len() == n,
                n == self@.num_tasks,
                forall|j: int|
                    0 <= j < k ==> config@[(#[trigger] self@.precedences[j]).0 as int] < config@[self@.precedences[j].1 as int],
        {
            let (pred, succ) = self.precedences[k];
            assert(self@.precedences[k as int] == (pred, succ));
            if config[pred] >= config[succ] {
                return SolutionSize::Invalid;
            }
        }
        let mut count: usize = 0;
        for t in 0..n
            invariant
                self@.wf(),
                n == self@.num_tasks,
                is_permutation(config@, n as nat),
                count == tardy_count(self@.deadlines, config@, t as int),
                count <= t,
        {
            assert(config@[t as int] < n);
            if config[t] + 1 > self.deadlines[t] {
                count = count + 1;
            }
        }
        SolutionSize::Valid(count)
    }

    /// Minimum Tardiness Sequencing is a minimization problem.
    pub fn direction(&self) -> (r: Direction)
        ensures
            r == Direction::Minimize,
    {
        Direction::Minimize
    }
}

} // verus!
