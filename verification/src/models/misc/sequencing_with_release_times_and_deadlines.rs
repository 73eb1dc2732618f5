//! Sequencing with Release Times and Deadlines.
//!
//! Tasks with lengths, release times and deadlines run one at a time on a
//! single processor, each as early as possible in the chosen order; decide
//! whether some order meets every deadline. A configuration is a Lehmer code
//! of the order.
use crate::util::{decode_lehmer, lehmer_decode, lehmer_dims};
use vstd::prelude::*;

verus! {

/// Mathematical model of a [`SequencingWithReleaseTimesAndDeadlines`] instance.
pub struct ReleaseDeadlineView {
    pub lengths: Seq<u64>,
    pub release_times: Seq<u64>,
    pub deadlines: Seq<u64>,
}

impl ReleaseDeadlineView {
    /// One release time and one deadline per task.
    pub open spec fn wf(self) -> bool {
        self.release_times.len() == self.lengths.len() && self.deadlines.len() == self.lengths.len()
    }
}

/// Finish time of the `k`-th task of `order` (counting from one; zero for
/// `k == 0`): it starts once the previous task has finished and it has been
/// released.
pub open spec fn finish_time(m: ReleaseDeadlineView, order: Seq<usize>, k: int) -> nat
    decreases k,
{
    if k <= 0 {
        0
    } else {
        let previous = finish_time(m, order, k - 1);
        let release = m.release_times[order[k - 1] as int] as nat;
        (if previous >= release { previous } else { release }) + m.lengths[order[k - 1] as int] as nat
    }
}

/// Every task of `order` finishes by its deadline.
pub open spec fn meets_deadlines(m: ReleaseDeadlineView, order: Seq<usize>) -> bool {
    forall|k: int| 1 <= k <= order.len() ==> #[trigger] finish_time(m, order, k) <= m.deadlines[order[k - 1] as int]
}

/// The order a configuration encodes meets every deadline.
pub open spec fn release_feasible(m: ReleaseDeadlineView, config: Seq<usize>) -> bool {
    match lehmer_decode(config, m.lengths.len() as usize) {
        Some(order) => meets_deadlines(m, order),
        None => false,
    }
}

/// Largest entry of `s`, or zero when it is empty.
pub open spec fn max_entry(s: Seq<u64>) -> u64
    decreases s.len(),
{
    if s.len() == 0 {
        0
    } else {
        let rest = max_entry(s.drop_last());
        if s.last() > rest {
            s.last()
        } else {
            rest
        }
    }
}

/// The Sequencing with Release Times and Deadlines problem.
#[derive(Debug)]
pub struct SequencingWithReleaseTimesAndDeadlines {
    lengths: Vec<u64>,
    release_times: Vec<u64>,
    deadlines: Vec<u64>,
}

impl View for SequencingWithReleaseTimesAndDeadlines {
    type V = ReleaseDeadlineView;

    closed spec fn view(&self) -> ReleaseDeadlineView {
        ReleaseDeadlineView {
            lengths: self.lengths@,
            release_times: self.release_times@,
            deadlines: self.deadlines@,
        }
    }
}

impl SequencingWithReleaseTimesAndDeadlines {
    /// One release time and one deadline per task.
    #[verifier::type_invariant]
    pub closed spec fn inv(self) -> bool {
        self@.wf()
    }

    /// Create a new instance with one release time and one deadline per task.
    pub fn new(lengths: Vec<u64>, release_times: Vec<u64>, deadlines: Vec<u64>) -> (r: Self)
        requires
            release_times@.len() == lengths@.len(),
            deadlines@.len() == lengths@.len(),
        ensures
            r@ == (ReleaseDeadlineView { lengths: lengths@, release_times: release_times@, deadlines: deadlines@ }),
    {
        SequencingWithReleaseTimesAndDeadlines { lengths, release_times, deadlines }
    }

    /// Get the processing times.
    pub fn lengths(&self) -> (r: &[u64])
        ensures
            r@ == self@.lengths,
    {
        self.lengths.as_slice()
    }

    /// Get the release times.
    pub fn release_times(&self) -> (r: &[u64])
        ensures
            r@ == self@.release_times,
    {
        self.release_times.as_slice()
    }

    /// Get the deadlines.
    pub fn deadlines(&self) -> (r: &[u64])
        ensures
            r@ == self@.deadlines,
    {
        self.deadlines.as_slice()
    }

    /// Get the number of tasks.
    pub fn num_tasks(&self) -> (r: usize)
        ensures
            r == self@.lengths.len(),
    {
        self.lengths.len()
    }

    /// The latest deadline, or zero without tasks.
    pub fn time_horizon(&self) -> (r: u64)
        ensures
            r == max_entry(self@.deadlines),
    {
        let mut best: u64 = 0;
        for i in 0..self.deadlines.len()
            invariant
                best == max_entry(self@.deadlines.take(i as int)),
        {
            assert(self@.deadlines.take(i + 1).drop_last() =~= self@.deadlines.take(i as int));
            if self.deadlines[i] > best {
                best = self.deadlines[i];
            }
        }
        assert(self@.deadlines.take(self@.deadlines.len() as int) =~= self@.deadlines);
        best
    }

    /// Position `i` of the Lehmer code ranges over `0..n-i`.
    pub fn dims(&self) -> (r: Vec<usize>)
        ensures
            r@.len() == self@.lengths.len(),
            forall|i: int| 0 <= i < r@.len() ==> r@[i] == self@.lengths.len() - i,
    {
        lehmer_dims(self.lengths.len())
    }

    /// Whether the encoded order meets every deadline.
    pub fn evaluate(&self, config: &[usize]) -> (r: bool)
        ensures
            r == release_feasible(self@, config@),
    {
        proof {
            use_type_invariant(self);
        }
        let n = self.lengths.len();
        let order = match decode_lehmer(config, n) {
            Some(order) => order,
            None => return false,
        };
        proof {
            crate::util::lemma_lehmer_decode_permutation(config@, n);
        }
        let ghost m = self@;
        let mut current: u128 = 0;
        for k in 0..n
            invariant
                m == self@,
                m.wf(),
                n == m.lengths.len(),
                crate::util::is_permutation(order@, n as nat),
                current == finish_time(m, order@, k as int),
                current <= u64::MAX,
                forall|q: int| 1 <= q <= k ==> #[trigger] finish_time(m, order@, q) <= m.deadlines[order@[q - 1] as int],
        {
            let task = order[k];
            assert(order@[k as int] < n);
            let release = self.release_times[task] as u128;
            let start = if current >= release { current } else { release };
            let finish = start + self.lengths[task] as u128;
            if finish > self.deadlines[task] as u128 {
                assert(finish_time(m, order@, k + 1) > m.deadlines[order@[k as int] as int]);
                return false;
            }
            current = finish;
        }
        true
    }
}

} // verus!
