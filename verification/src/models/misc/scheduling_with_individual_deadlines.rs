//! Scheduling with Individual Deadlines.
//!
//! Unit-length tasks with individual deadlines and precedence constraints are
//! scheduled on a number of processors; decide whether every task can start
//! before its deadline. A configuration gives every task its start time.
use crate::util::{count_of, count_value, lemma_count_of_push};
use vstd::prelude::*;

verus! {

/// Mathematical model of a [`SchedulingWithIndividualDeadlines`] instance.
pub struct IndividualDeadlinesView {
    pub num_tasks: nat,
    pub num_processors: nat,
    pub deadlines: Seq<usize>,
    pub precedences: Seq<(usize, usize)>,
}

impl IndividualDeadlinesView {
    /// One deadline per task; precedences name tasks.
    pub open spec fn wf(self) -> bool {
        &&& self.deadlines.len() == self.num_tasks
        &&& forall|k: int|
            0 <= k < self.precedences.len() ==> (#[trigger] self.precedences[k]).0 < self.num_tasks
                && self.precedences[k].1 < self.num_tasks
    }
}

/// Every task starts before its deadline and after its predecessors, and no
/// time step runs more tasks than there are processors.
pub open spec fn meets_individual_deadlines(m: IndividualDeadlinesView, config: Seq<usize>) -> bool {
    &&& config.len() == m.num_tasks
    &&& forall|t: int| 0 <= t < config.len() ==> #[trigger] config[t] < m.deadlines[t]
    &&& forall|k: int|
        0 <= k < m.precedences.len() ==> config[(#[trigger] m.precedences[k]).0 as int] + 1 <= config[m.precedences[k].1 as int]
    &&& forall|s: usize| #[trigger] count_of(config, s) <= m.num_processors
}

/// Largest of the first `k` deadlines (0 for none).
pub open spec fn max_prefix(deadlines: Seq<usize>, k: int) -> usize
    decreases k,
{
    if k <= 0 {
        0
    } else {
        let m = max_prefix(deadlines, k - 1);
        if deadlines[k - 1] > m { deadlines[k - 1] } else { m }
    }
}

/// An absent value is never counted.
proof fn lemma_count_absent(s: Seq<usize>, x: usize)
    requires
        !s.contains(x),
    ensures
        count_of(s, x) == 0,
    decreases s.len(),
{
    if s.len() > 0 {
        assert(!s.drop_last().contains(x)) by {
            if s.drop_last().contains(x) {
                let i = choose|i: int| 0 <= i < s.drop_last().len() && s.drop_last()[i] == x;
                assert(s[i] == x);
            }
        }
        assert(s.last() != x) by {
            if s.last() == x {
                assert(s[s.len() - 1] == x);
            }
        }
        lemma_count_absent(s.drop_last(), x);
    }
}

/// The Scheduling with Individual Deadlines problem.
#[derive(Debug)]
pub struct SchedulingWithIndividualDeadlines {
    num_tasks: usize,
    num_processors: usize,
    deadlines: Vec<usize>,
    precedences: Vec<(usize, usize)>,
}

impl View for SchedulingWithIndividualDeadlines {
    type V = IndividualDeadlinesView;

    closed spec fn view(&self) -> IndividualDeadlinesView {
        IndividualDeadlinesView {
            num_tasks: self.num_tasks as nat,
            num_processors: self.num_processors as nat,
            deadlines: self.deadlines@,
            precedences: self.precedences@,
        }
    }
}

impl SchedulingWithIndividualDeadlines {
    /// The stored instance is well formed.
    #[verifier::type_invariant]
    pub closed spec fn inv(self) -> bool {
        self@.wf()
    }

    /// Create a new instance.
    pub fn new(num_tasks: usize, num_processors: usize, deadlines: Vec<usize>, precedences: Vec<(usize, usize)>) -> (r: Self)
        requires
            (IndividualDeadlinesView {
                num_tasks: num_tasks as nat,
                num_processors: num_processors as nat,
                deadlines: deadlines@,
                precedences: precedences@,
            }).wf(),
        ensures
            r@ == (IndividualDeadlinesView {
                num_tasks: num_tasks as nat,
                num_processors: num_processors as nat,
                deadlines: deadlines@,
                precedences: precedences@,
            }),
    {
        SchedulingWithIndividualDeadlines { num_tasks, num_processors, deadlines, precedences }
    }

    /// Get the number of tasks.
    pub fn num_tasks(&self) -> (r: usize)
        ensures
            r == self@.num_tasks,
    {
        self.num_tasks
    }

    /// Get the number of processors.
    pub fn num_processors(&self) -> (r: usize)
        ensures
            r == self@.num_processors,
    {
        self.num_processors
    }

    /// Get the deadlines.
    pub fn deadlines(&self) -> (r: &[usize])
        ensures
            r@ == self@.deadlines,
    {
        self.deadlines.as_slice()
    }

    /// Get the precedences.
    pub fn precedences(&self) -> (r: &[(usize, usize)])
        ensures
            r@ == self@.precedences,
    {
        self.precedences.as_slice()
    }

    /// Get the number of precedences.
    pub fn num_precedences(&self) -> (r: usize)
        ensures
            r == self@.precedences.len(),
    {
        self.precedences.len()
    }

    /// Get the largest deadline (0 when there are no tasks).
    pub fn max_deadline(&self) -> (r: usize)
        ensures
            r == max_prefix(self@.deadlines, self@.deadlines.len() as int),
    {
        let mut m: usize = 0;
        for i in 0..self.deadlines.len()
            invariant
                m == max_prefix(self@.deadlines, i as int),
        {
            if self.deadlines[i] > m {
                m = self.deadlines[i];
            }
        }
        m
    }

    /// Task `t` starts somewhere before its deadline.
    pub fn dims(&self) -> (r: Vec<usize>)
        ensures
            r@ == self@.deadlines,
    {
        crate::util::copy_usizes(self.deadlines.as_slice())
    }

    /// Whether the start times meet every deadline, precedence and processor
    /// limit.
    pub fn evaluate(&self, config: &[usize]) -> (r: bool)
        ensures
            r == meets_individual_deadlines(self@, config@),
    {
        proof {
            use_type_invariant(self);
        }
        if config.len() != self.num_tasks {
            return false;
        }
        for t in 0..config.len()
            invariant
                config@.len() == self@.num_tasks,
                self@.wf(),
                forall|j: int| 0 <= j < t ==> #[trigger] config@[j] < self@.deadlines[j],
        {
            if config[t] >= self.deadlines[t] {
                return false;
            }
        }
        for k in 0..self.precedences.len()
            invariant
                config@.len() == self@.num_tasks,
                self@.wf(),
                forall|j: int|
                    0 <= j < k ==> config@[(#[trigger] self@.precedences[j]).0 as int] + 1 <= config@[self@.precedences[j].1 as int],
        {
            let (pred, succ) = self.precedences[k];
            assert(self@.precedences[k as int] == (pred, succ));
            if config[pred] as u128 + 1 > config[succ] as u128 {
                return false;
            }
        }
        for i in 0..config.len()
            invariant
                forall|j: int| 0 <= j < i ==> #[trigger] count_of(config@, config@[j]) <= self@.num_processors,
        {
            if count_value(config, config[i]) > self.num_processors {
                return false;
            }
        }
        assert forall|s: usize| #[trigger] count_of(config@, s) <= self@.num_processors by {
            if config@.contains(s) {
                let j = choose|j: int| 0 <= j < config@.len() && config@[j] == s;
                assert(count_of(config@, config@[j]) <= self@.num_processors);
            } else {
                lemma_count_absent(config@, s);
            }
        }
        true
    }
}

} // verus!
