//! Sequencing Within Intervals.
//!
//! Every task must run, without interruption, inside its window
//! `[release, deadline]` on a single processor; decide whether the tasks can
//! be placed without overlapping. A configuration gives each task its start
//! offset from its release time.
use vstd::prelude::*;

verus! {

/// Mathematical model of a [`SequencingWithinIntervals`] instance.
pub struct IntervalsView {
    pub release_times: Seq<u64>,
    pub deadlines: Seq<u64>,
    pub lengths: Seq<u64>,
}

impl IntervalsView {
    /// One deadline and one length per task, and every window is long enough
    /// for its task.
    pub open spec fn wf(self) -> bool {
        &&& self.deadlines.len() == self.release_times.len()
        &&& self.lengths.len() == self.release_times.len()
        &&& forall|i: int|
            0 <= i < self.release_times.len() ==> (#[trigger] self.release_times[i]) + self.lengths[i]
                <= self.deadlines[i]
    }

    /// How late task `i` may start, counted from its release time.
    pub open spec fn slack(self, i: int) -> int {
        self.deadlines[i] - self.release_times[i] - self.lengths[i]
    }
}

/// Start time of task `i` under a configuration.
pub open spec fn start_time(m: IntervalsView, config: Seq<usize>, i: int) -> int {
    m.release_times[i] + config[i]
}

/// Every task starts inside its window and no two tasks overlap.
pub open spec fn intervals_feasible(m: IntervalsView, config: Seq<usize>) -> bool {
    &&& config.len() == m.release_times.len()
    &&& forall|i: int| 0 <= i < config.len() ==> (#[trigger] config[i]) <= m.slack(i)
    &&& forall|i: int, j: int|
        0 <= i < j < config.len() ==> #[trigger] start_time(m, config, i) + m.lengths[i] <= #[trigger] start_time(
            m,
            config,
            j,
        ) || start_time(m, config, j) + m.lengths[j] <= start_time(m, config, i)
}

/// The Sequencing Within Intervals problem.
#[derive(Debug)]
pub struct SequencingWithinIntervals {
    release_times: Vec<u64>,
    deadlines: Vec<u64>,
    lengths: Vec<u64>,
}

impl View for SequencingWithinIntervals {
    type V = IntervalsView;

    closed spec fn view(&self) -> IntervalsView {
        IntervalsView { release_times: self.release_times@, deadlines: self.deadlines@, lengths: self.lengths@ }
    }
}

impl SequencingWithinIntervals {
    /// Every window fits its task.
    #[verifier::type_invariant]
    pub closed spec fn inv(self) -> bool {
        self@.wf()
    }

    /// Create a new instance whose windows fit their tasks.
    pub fn new(release_times: Vec<u64>, deadlines: Vec<u64>, lengths: Vec<u64>) -> (r: Self)
        requires
            (IntervalsView { release_times: release_times@, deadlines: deadlines@, lengths: lengths@ }).wf(),
        ensures
            r@ == (IntervalsView { release_times: release_times@, deadlines: deadlines@, lengths: lengths@ }),
    {
        SequencingWithinIntervals { release_times, deadlines, lengths }
    }

    /// Get the release times.
    pub fn release_times(&self) -> (r: &[u64])
        ensures
            r@ == self@.release_times,
    {
        self.release_times.as_slice()
    }

    /// Get the deadlines.
    pub fn deadlines(&self) -> (r: &[u64])
        ensures
            r@ == self@.deadlines,
    {
        self.deadlines.as_slice()
    }

    /// Get the processing times.
    pub fn lengths(&self) -> (r: &[u64])
        ensures
            r@ == self@.lengths,
    {
        self.lengths.as_slice()
    }

    /// Get the number of tasks.
    pub fn num_tasks(&self) -> (r: usize)
        ensures
            r == self@.release_times.len(),
    {
        self.release_times.len()
    }

    /// Task `i` may start at any of the `slack + 1` offsets.
    pub fn dims(&self) -> (r: Vec<usize>)
        requires
            forall|i: int| 0 <= i < self@.release_times.len() ==> #[trigger] self@.slack(i) + 1 <= usize::MAX,
        ensures
            r@.len() == self@.release_times.len(),
            forall|i: int| 0 <= i < r@.len() ==> r@[i] == self@.slack(i) + 1,
    {
        proof {
            use_type_invariant(self);
        }
        let n = self.release_times.len();
        let mut dims: Vec<usize> = Vec::new();
        for i in 0..n
            invariant
                self@.wf(),
                n == self@.release_times.len(),
                forall|q: int| 0 <= q < n ==> #[trigger] self@.slack(q) + 1 <= usize::MAX,
                dims@.len() == i,
                forall|q: int| 0 <= q < i ==> dims@[q] == self@.slack(q) + 1,
        {
            assert(self@.release_times[i as int] + self@.lengths[i as int] <= self@.deadlines[i as int]);
            assert(self@.slack(i as int) + 1 <= usize::MAX);
            let slack = self.deadlines[i] - self.release_times[i] - self.lengths[i];
            dims.push((slack as usize) + 1);
        }
        dims
    }

    /// Whether every task starts inside its window and no two tasks overlap.
    pub fn evaluate(&self, config: &[usize]) -> (r: bool)
        ensures
            r == intervals_feasible(self@, config@),
    {
        proof {
            use_type_invariant(self);
        }
        let n = self.release_times.len();
        if config.len() != n {
            return false;
        }
        let ghost m = self@;
        let mut starts: Vec<u64> = Vec::new();
        for i in 0..n
            invariant
                m == self@,
                m.wf(),
                n == m.release_times.len(),
                config@.len() == n,
                starts@.len() == i,
                forall|q: int| 0 <= q < i ==> (#[trigger] config@[q]) <= m.slack(q),
                forall|q: int| 0 <= q < i ==> #[trigger] starts@[q] == start_time(m, config@, q),
                forall|q: int| 0 <= q < i ==> #[trigger] starts@[q] + m.lengths[q] <= m.deadlines[q],
        {
            assert(m.release_times[i as int] + m.lengths[i as int] <= m.deadlines[i as int]);
            let slack = self.deadlines[i] - self.release_times[i] - self.lengths[i];
            if config[i] as u64 > slack {
                return false;
            }
            starts.push(self.release_times[i] + config[i] as u64);
        }
        for i in 0..n
            invariant
                m == self@,
                n == m.release_times.len(),
                config@.len() == n,
                starts@.len() == n,
                forall|q: int| 0 <= q < n ==> #[trigger] starts@[q] == start_time(m, config@, q),
                forall|q: int| 0 <= q < n ==> #[trigger] starts@[q] + m.lengths[q] <= m.deadlines[q],
                forall|a: int, b: int|
                    0 <= a < i && a < b < n ==> #[trigger] start_time(m, config@, a) + m.lengths[a]
                        <= #[trigger] start_time(m, config@, b) || start_time(m, config@, b) + m.lengths[b]
                        <= start_time(m, config@, a),
        {
            for j in (i + 1)..n
                invariant
                    m == self@,
                    n == m.release_times.len(),
                    config@.len() == n,
                    starts@.len() == n,
                    i < n,
                    forall|q: int| 0 <= q < n ==> #[trigger] starts@[q] == start_time(m, config@, q),
                    forall|q: int| 0 <= q < n ==> #[trigger] starts@[q] + m.lengths[q] <= m.deadlines[q],
                    forall|a: int, b: int|
                        0 <= a < i && a < b < n ==> #[trigger] start_time(m, config@, a) + m.lengths[a]
                            <= #[trigger] start_time(m, config@, b) || start_time(m, config@, b) + m.lengths[b]
                            <= start_time(m, config@, a),
                    forall|b: int|
                        i < b < j ==> #[trigger] start_time(m, config@, i as int) + m.lengths[i as int]
                            <= start_time(m, config@, b) || start_time(m, config@, b) + m.lengths[b]
                            <= start_time(m, config@, i as int),
            {
                assert(starts@[i as int] + m.lengths[i as int] <= m.deadlines[i as int]);
                assert(starts@[j as int] + m.lengths[j as int] <= m.deadlines[j as int]);
                let end_i = starts[i] + self.lengths[i];
                let end_j = starts[j] + self.lengths[j];
                if !(end_i <= starts[j] || end_j <= starts[i]) {
                    assert(!intervals_feasible(m, config@)) by {
                        assert(start_time(m, config@, i as int) == starts@[i as int]);
                        assert(start_time(m, config@, j as int) == starts@[j as int]);
                    }
                    return false;
                }
            }
        }
        true
    }
}

} // verus!
