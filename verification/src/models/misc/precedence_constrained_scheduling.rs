//! Precedence Constrained Scheduling.
//!
//! Unit-length tasks with precedence constraints are scheduled on a number
//! of processors; decide whether all tasks can finish by the deadline. A
//! configuration gives every task its time slot.
use crate::types::Or;
use crate::util::{all_below, check_all_below, count_of, lemma_count_of_push};
use vstd::prelude::*;

verus! {

/// Mathematical model of a [`PrecedenceConstrainedScheduling`] instance.
pub struct PrecedenceSchedulingView {
    pub num_tasks: nat,
    pub num_processors: nat,
    pub deadline: nat,
    pub precedences: Seq<(usize, usize)>,
}

impl PrecedenceSchedulingView {
    /// With tasks present there are processors and a positive deadline;
    /// precedences name tasks.
    pub open spec fn wf(self) -> bool {
        &&& self.num_tasks > 0 ==> self.num_processors > 0 && self.deadline > 0
        &&& forall|k: int|
            0 <= k < self.precedences.len() ==> (#[trigger] self.precedences[k]).0 < self.num_tasks
                && self.precedences[k].1 < self.num_tasks
    }
}

/// Every slot is before the deadline, no slot holds more tasks than there
/// are processors, and every precedence `(i, j)` puts `j` in a later slot.
pub open spec fn is_feasible_schedule(m: PrecedenceSchedulingView, config: Seq<usize>) -> bool {
    &&& config.len() == m.num_tasks
    &&& all_below(config, m.deadline as int)
    &&& forall|s: usize| s < m.deadline ==> #[trigger] count_of(config, s) <= m.num_processors
    &&& forall|k: int|
        0 <= k < m.precedences.len() ==> config[(#[trigger] m.precedences[k]).1 as int] >= config[m.precedences[k].0 as int] + 1
}

/// Counting in a prefix never exceeds counting in the whole sequence.
proof fn lemma_count_prefix(s: Seq<usize>, x: usize, k: int)
    requires
        0 <= k <= s.len(),
    ensures
        count_of(s.take(k), x) <= count_of(s, x),
    decreases s.len() - k,
{
    if k < s.len() {
        lemma_count_prefix(s, x, k + 1);
        assert(s.take(k + 1) =~= s.take(k).push(s[k]));
        lemma_count_of_push(s.take(k), s[k], x);
    } else {
        assert(s.take(k) =~= s);
    }
}

/// The Precedence Constrained Scheduling problem.
#[derive(Debug)]
pub struct PrecedenceConstrainedScheduling {
    num_tasks: usize,
    num_processors: usize,
    deadline: usize,
    precedences: Vec<(usize, usize)>,
}

impl View for PrecedenceConstrainedScheduling {
    type V = PrecedenceSchedulingView;

    closed spec fn view(&self) -> PrecedenceSchedulingView {
        PrecedenceSchedulingView {
            num_tasks: self.num_tasks as nat,
            num_processors: self.num_processors as nat,
            deadline: self.deadline as nat,
            precedences: self.precedences@,
        }
    }
}

impl PrecedenceConstrainedScheduling {
    /// The stored instance is well formed.
    #[verifier::type_invariant]
    pub closed spec fn inv(self) -> bool {
        self@.wf()
    }

    /// Create a new instance.
    pub fn new(num_tasks: usize, num_processors: usize, deadline: usize, precedences: Vec<(usize, usize)>) -> (r: Self)
        requires
            (PrecedenceSchedulingView {
                num_tasks: num_tasks as nat,
                num_processors: num_processors as nat,
                deadline: deadline as nat,
                precedences: precedences@,
            }).wf(),
        ensures
            r@ == (PrecedenceSchedulingView {
                num_tasks: num_tasks as nat,
                num_processors: num_processors as nat,
                deadline: deadline as nat,
                precedences: precedences@,
            }),
    {
        PrecedenceConstrainedScheduling { num_tasks, num_processors, deadline, precedences }
    }

    /// Get the number of tasks.
    pub fn num_tasks(&self) -> (r: usize)
        ensures
            r == self@.num_tasks,
    {
        self.num_tasks
    }

    /// Get the number of processors.
    pub fn num_processors(&self) -> (r: usize)
        ensures
            r == self@.num_processors,
    {
        self.num_processors
    }

    /// Get the deadline.
    pub fn deadline(&self) -> (r: usize)
        ensures
            r == self@.deadline,
    {
        self.deadline
    }

    /// Get the precedences.
    pub fn precedences(&self) -> (r: &[(usize, usize)])
        ensures
            r@ == self@.precedences,
    {
        self.precedences.as_slice()
    }

    /// Each task chooses one of the time slots.
    pub fn dims(&self) -> (r: Vec<usize>)
        ensures
            r@ == Seq::new(self@.num_tasks, |i: int| self@.deadline as usize),
    {
        crate::util::repeat_usize(self.deadline, self.num_tasks)
    }

    /// Whether the slot assignment is a feasible schedule.
    pub fn evaluate(&self, config: &[usize]) -> (r: Or)
        ensures
            r == Or(is_feasible_schedule(self@, config@)),
    {
        proof {
            use_type_invariant(self);
        }
        if config.len() != self.num_tasks {
            return Or(false);
        }
        if !check_all_below(config, self.deadline) {
            return Or(false);
        }
        let d = self.deadline;
        let mut slot_count = vec![0usize; d];
        for i in 0..config.len()
            invariant
                d == self@.deadline,
                all_below(config@, d as int),
                slot_count@.len() == d,
                forall|s: int| 0 <= s < d ==> #[trigger] slot_count@[s] == count_of(config@.take(i as int), s as usize),
                forall|s: int| 0 <= s < d ==> #[trigger] slot_count@[s] <= self@.num_processors,
        {
            let slot = config[i];
            proof {
                crate::util::lemma_count_of_bound(config@.take(i as int), slot);
            }
            proof {
                assert(config@.take(i + 1) =~= config@.take(i as int).push(slot));
                assert forall|s: usize| s < d implies #[trigger] count_of(config@.take(i + 1), s) == count_of(
                    config@.take(i as int),
                    s,
                ) + (if slot == s { 1nat } else { 0nat }) by {
                    lemma_count_of_push(config@.take(i as int), slot, s);
                }
            }
            slot_count.set(slot, slot_count[slot] + 1);
            if slot_count[slot] > self.num_processors {
                proof {
                    lemma_count_prefix(config@, slot, i + 1);
                }
                return Or(false);
            }
        }
        assert(config@.take(config@.len() as int) =~= config@);
        assert forall|s: usize| s < d implies #[trigger] count_of(config@, s) <= self@.num_processors by {
            assert(slot_count@[s as int] <= self@.num_processors);
        }
        for k in 0..self.precedences.len()
            invariant
                self@.wf(),
                config@.len() == self@.num_tasks,
                all_below(config@, d as int),
                d == self@.deadline,
                forall|j: int|
                    0 <= j < k ==> config@[(#[trigger] self@.precedences[j]).1 as int] >= config@[self@.precedences[j].0 as int] + 1,
        {
            let (i, j) = self.precedences[k];
            assert(self@.precedences[k as int] == (i, j));
            if config[j] < config[i] + 1 {
                return Or(false);
            }
        }
        Or(true)
    }
}

} // verus!
