//! Multiprocessor Scheduling.
//!
//! Given task lengths, a number of processors and a deadline, decide whether
//! the tasks can be assigned to processors so that every processor finishes
//! by the deadline. A configuration gives each task its processor.
use crate::types::Or;
use crate::util::{all_below, check_all_below, sum_u64, sum_u64s};
use vstd::prelude::*;

verus! {

/// Mathematical model of a [`MultiprocessorScheduling`] instance.
pub struct MultiprocessorSchedulingView {
    pub lengths: Seq<u64>,
    pub num_processors: nat,
    pub deadline: u64,
}

/// Total length of the first `k` tasks assigned to processor `p`.
pub open spec fn processor_load(lengths: Seq<u64>, config: Seq<usize>, p: usize, k: int) -> int
    decreases k,
{
    if k <= 0 {
        0
    } else {
        processor_load(lengths, config, p, k - 1) + (if config[k - 1] == p { lengths[k - 1] as int } else { 0 })
    }
}

/// Every task has a processor and every processor's load meets the deadline.
pub open spec fn meets_deadline(m: MultiprocessorSchedulingView, config: Seq<usize>) -> bool {
    &&& config.len() == m.lengths.len()
    &&& all_below(config, m.num_processors as int)
    &&& forall|p: usize| p < m.num_processors ==> #[trigger] processor_load(m.lengths, config, p, config.len() as int)
        <= m.deadline
}

/// The lengths of the tasks on processor `p` among the first `k`, every other
/// task counting zero.
pub open spec fn lengths_on(lengths: Seq<u64>, config: Seq<usize>, p: usize, k: int) -> Seq<u64> {
    Seq::new(k as nat, |i: int| if config[i] == p { lengths[i] } else { 0u64 })
}

/// The load of processor `p` over the first `k` tasks is the total length of
/// exactly those tasks `i < k` with `config[i] == p`.
pub proof fn lemma_processor_load_sums_its_tasks(lengths: Seq<u64>, config: Seq<usize>, p: usize, k: int)
    requires
        0 <= k,
    ensures
        processor_load(lengths, config, p, k) == sum_u64(lengths_on(lengths, config, p, k)),
    decreases k,
{
    if k > 0 {
        lemma_processor_load_sums_its_tasks(lengths, config, p, k - 1);
        assert(lengths_on(lengths, config, p, k).drop_last() =~= lengths_on(lengths, config, p, k - 1));
    }
}

/// A schedule meets the deadline exactly when every task has one of the
/// processors and, for every processor, the total length of all the tasks
/// assigned to it is at most the deadline.
pub proof fn lemma_meets_deadline_bounds_every_load(m: MultiprocessorSchedulingView, config: Seq<usize>)
    ensures
        meets_deadline(m, config) <==> {
            &&& config.len() == m.lengths.len()
            &&& all_below(config, m.num_processors as int)
            &&& forall|p: usize|
                p < m.num_processors ==> #[trigger] sum_u64(lengths_on(m.lengths, config, p, m.lengths.len() as int))
                    <= m.deadline
        },
{
    assert forall|p: usize| #[trigger] sum_u64(lengths_on(m.lengths, config, p, m.lengths.len() as int))
        == processor_load(m.lengths, config, p, m.lengths.len() as int) by {
        lemma_processor_load_sums_its_tasks(m.lengths, config, p, m.lengths.len() as int);
    }
    if config.len() == m.lengths.len() {
        let n = config.len() as int;
        if meets_deadline(m, config) {
            assert forall|p: usize| p < m.num_processors implies #[trigger] sum_u64(
                lengths_on(m.lengths, config, p, m.lengths.len() as int),
            ) <= m.deadline by {
                assert(processor_load(m.lengths, config, p, n) <= m.deadline);
            }
        }
        if forall|p: usize|
            p < m.num_processors ==> #[trigger] sum_u64(lengths_on(m.lengths, config, p, m.lengths.len() as int))
                <= m.deadline {
            assert forall|p: usize| p < m.num_processors implies #[trigger] processor_load(m.lengths, config, p, n)
                <= m.deadline by {
                assert(sum_u64(lengths_on(m.lengths, config, p, m.lengths.len() as int)) <= m.deadline);
            }
        }
    }
}

/// The Multiprocessor Scheduling problem.
#[derive(Debug, Clone)]
pub struct MultiprocessorScheduling {
    lengths: Vec<u64>,
    num_processors: usize,
    deadline: u64,
}

impl View for MultiprocessorScheduling {
    type V = MultiprocessorSchedulingView;

    closed spec fn view(&self) -> MultiprocessorSchedulingView {
        MultiprocessorSchedulingView {
            lengths: self.lengths@,
            num_processors: self.num_processors as nat,
            deadline: self.deadline,
        }
    }
}

impl MultiprocessorScheduling {
    /// Create a new instance with a positive number of processors.
    pub fn new(lengths: Vec<u64>, num_processors: usize, deadline: u64) -> (r: Self)
        requires
            num_processors > 0,
        ensures
            r@ == (MultiprocessorSchedulingView { lengths: lengths@, num_processors: num_processors as nat, deadline }),
    {
        MultiprocessorScheduling { lengths, num_processors, deadline }
    }

    /// Get the task lengths.
    pub fn lengths(&self) -> (r: &[u64])
        ensures
            r@ == self@.lengths,
    {
        self.lengths.as_slice()
    }

    /// Get the number of processors.
    pub fn num_processors(&self) -> (r: usize)
        ensures
            r == self@.num_processors,
    {
        self.num_processors
    }

    /// Get the deadline.
    pub fn deadline(&self) -> (r: u64)
        ensures
            r == self@.deadline,
    {
        self.deadline
    }

    /// Get the number of tasks.
    pub fn num_tasks(&self) -> (r: usize)
        ensures
            r == self@.lengths.len(),
    {
        self.lengths.len()
    }

    /// Get the sum of all task lengths.
    pub fn total_length(&self) -> (r: u64)
        requires
            sum_u64(self@.lengths) <= u64::MAX,
        ensures
            r == sum_u64(self@.lengths),
    {
        sum_u64s(self.lengths.as_slice()) as u64
    }

    /// Each task chooses one of the processors.
    pub fn dims(&self) -> (r: Vec<usize>)
        ensures
            r@ == Seq::new(self@.lengths.len(), |i: int| self@.num_processors as usize),
    {
        crate::util::repeat_usize(self.num_processors, self.lengths.len())
    }

    /// Whether every processor's load meets the deadline.
    pub fn evaluate(&self, config: &[usize]) -> (r: Or)
        ensures
            r == Or(meets_deadline(self@, config@)),
    {
        let n = self.lengths.len();
        if config.len() != n {
            return Or(false);
        }
        let m = self.num_processors;
        if !check_all_below(config, m) {
            return Or(false);
        }
        let mut loads = vec![0u128; m];
        for i in 0..n
            invariant
                n == self@.lengths.len(),
                m == self@.num_processors,
                config@.len() == n,
                all_below(config@, m as int),
                loads@.len() == m,
                forall|p: int| 0 <= p < m ==> #[trigger] loads@[p] == processor_load(self@.lengths, config@, p as usize, i as int),
                forall|p: int| 0 <= p < m ==> #[trigger] loads@[p] <= i * 0xffff_ffff_ffff_ffff,
        {
            let p = config[i];
            loads.set(p, loads[p] + self.lengths[i] as u128);
        }
        for p in 0..m
            invariant
                n == self@.lengths.len(),
                m == self@.num_processors,
                config@.len() == n,
                loads@.len() == m,
                forall|q: int| 0 <= q < m ==> #[trigger] loads@[q] == processor_load(self@.lengths, config@, q as usize, n as int),
                forall|q: usize| q < p ==> #[trigger] processor_load(self@.lengths, config@, q, n as int) <= self@.deadline,
        {
            assert(loads@[p as int] == processor_load(self@.lengths, config@, p, n as int));
            if loads[p] > self.deadline as u128 {
                return Or(false);
            }
        }
        Or(true)
    }
}

} // verus!
