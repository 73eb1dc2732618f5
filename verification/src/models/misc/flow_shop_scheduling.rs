//! Flow Shop Scheduling.
//!
//! Every job consists of one task per processor, processed on processors
//! `0, 1, ..., m-1` in that order; all jobs pass the processors in the same
//! job order. Decide whether some job order finishes by the deadline. A
//! configuration is a Lehmer code of the job order.
use crate::util::{decode_lehmer, lehmer_decode, lehmer_dims};
use crate::util::rows_u64;
use vstd::prelude::*;

verus! {

/// Mathematical model of a [`FlowShopScheduling`] instance.
pub struct FlowShopView {
    pub num_processors: nat,
    pub task_lengths: Seq<Seq<u64>>,
    pub deadline: u64,
}

impl FlowShopView {
    /// Every job has one task per processor.
    pub open spec fn wf(self) -> bool {
        forall|j: int| 0 <= j < self.task_lengths.len() ==> (#[trigger] self.task_lengths[j]).len() == self.num_processors
    }
}

/// Completion time, in job order `order`, of the `k`-th job on processor
/// `i - 1` (0 when `k == 0` or `i == 0`): it starts when both the previous
/// processor has finished this job and this processor has finished the
/// previous job.
pub open spec fn completion(lengths: Seq<Seq<u64>>, order: Seq<usize>, k: nat, i: nat) -> nat
    decreases k + i,
{
    if k == 0 || i == 0 {
        0
    } else {
        let a = completion(lengths, order, k, (i - 1) as nat);
        let b = completion(lengths, order, (k - 1) as nat, i);
        (if a >= b { a } else { b }) + lengths[order[k - 1] as int][i - 1] as nat
    }
}

/// Finish time of the last job on the last processor.
pub open spec fn makespan(m: FlowShopView, order: Seq<usize>) -> nat {
    completion(m.task_lengths, order, order.len(), m.num_processors)
}

/// The job order a configuration encodes finishes by the deadline.
pub open spec fn meets_flow_deadline(m: FlowShopView, config: Seq<usize>) -> bool {
    match lehmer_decode(config, m.task_lengths.len() as usize) {
        Some(order) => makespan(m, order) <= m.deadline,
        None => false,
    }
}

/// Completion times never decrease along jobs or processors.
proof fn lemma_completion_mono(lengths: Seq<Seq<u64>>, order: Seq<usize>, k: nat, i: nat, k2: nat, i2: nat)
    requires
        k <= k2,
        i <= i2,
    ensures
        completion(lengths, order, k, i) <= completion(lengths, order, k2, i2),
    decreases k2 + i2,
{
    if k < k2 {
        lemma_completion_mono(lengths, order, k, i, (k2 - 1) as nat, i2);
        if i2 > 0 {
            assert(completion(lengths, order, (k2 - 1) as nat, i2) <= completion(lengths, order, k2, i2));
        }
    } else if i < i2 {
        lemma_completion_mono(lengths, order, k, i, k2, (i2 - 1) as nat);
        if k2 > 0 {
            assert(completion(lengths, order, k2, (i2 - 1) as nat) <= completion(lengths, order, k2, i2));
        }
    }
}

/// Flow Shop Scheduling.
#[derive(Debug)]
pub struct FlowShopScheduling {
    num_processors: usize,
    task_lengths: Vec<Vec<u64>>,
    deadline: u64,
}

impl View for FlowShopScheduling {
    type V = FlowShopView;

    closed spec fn view(&self) -> FlowShopView {
        FlowShopView {
            num_processors: self.num_processors as nat,
            task_lengths: rows_u64(self.task_lengths@),
            deadline: self.deadline,
        }
    }
}

impl FlowShopScheduling {
    /// The stored instance is well formed.
    #[verifier::type_invariant]
    pub closed spec fn inv(self) -> bool {
        self@.wf()
    }

    /// Create a new instance.
    pub fn new(num_processors: usize, task_lengths: Vec<Vec<u64>>, deadline: u64) -> (r: Self)
        requires
            (FlowShopView { num_processors: num_processors as nat, task_lengths: rows_u64(task_lengths@), deadline }).wf(),
        ensures
            r@ == (FlowShopView { num_processors: num_processors as nat, task_lengths: rows_u64(task_lengths@), deadline }),
    {
        FlowShopScheduling { num_processors, task_lengths, deadline }
    }

    /// Get the number of processors.
    pub fn num_processors(&self) -> (r: usize)
        ensures
            r == self@.num_processors,
    {
        self.num_processors
    }

    /// Get the task lengths (one row per job).
    pub fn task_lengths(&self) -> (r: &[Vec<u64>])
        ensures
            rows_u64(r@) == self@.task_lengths,
    {
        self.task_lengths.as_slice()
    }

    /// Get the deadline.
    pub fn deadline(&self) -> (r: u64)
        ensures
            r == self@.deadline,
    {
        self.deadline
    }

    /// Get the number of jobs.
    pub fn num_jobs(&self) -> (r: usize)
        ensures
            r == self@.task_lengths.len(),
    {
        self.task_lengths.len()
    }

    /// Finish time of the last job on the last processor for a job order.
    pub fn compute_makespan(&self, job_order: &[usize]) -> (r: u64)
        requires
            job_order@.len() == self@.task_lengths.len(),
            forall|k: int| 0 <= k < job_order@.len() ==> (#[trigger] job_order@[k]) < self@.task_lengths.len(),
            makespan(self@, job_order@) <= u64::MAX,
        ensures
            r == makespan(self@, job_order@),
    {
        proof {
            use_type_invariant(self);
        }
        let n = job_order.len();
        let m = self.num_processors;
        if n == 0 || m == 0 {
            return 0;
        }
        let ghost order = job_order@;
        let ghost lengths = self@.task_lengths;
        let mut row = vec![0u64; m];
        for k in 0..n
            invariant
                self@.wf(),
                lengths == self@.task_lengths,
                order == job_order@,
                n == order.len(),
                m == self@.num_processors,
                forall|q: int| 0 <= q < n ==> (#[trigger] order[q]) < lengths.len(),
                makespan(self@, order) <= u64::MAX,
                row@.len() == m,
                forall|i: int| 0 <= i < m ==> #[trigger] row@[i] == completion(lengths, order, k as nat, (i + 1) as nat),
        {
            let job = job_order[k];
            let tasks = &self.task_lengths[job];
            assert(lengths[job as int] == tasks@);
            for i in 0..m
                invariant
                    self@.wf(),
                    lengths == self@.task_lengths,
                    order == job_order@,
                    n == order.len(),
                    k < n,
                    m == self@.num_processors,
                    job == order[k as int],
                    lengths[job as int] == tasks@,
                    tasks@.len() == m,
                    makespan(self@, order) <= u64::MAX,
                    row@.len() == m,
                    forall|j: int| 0 <= j < i ==> #[trigger] row@[j] == completion(lengths, order, (k + 1) as nat, (j + 1) as nat),
                    forall|j: int| i <= j < m ==> #[trigger] row@[j] == completion(lengths, order, k as nat, (j + 1) as nat),
            {
                let prev_machine = if i == 0 { 0 } else { row[i - 1] };
                let prev_job = row[i];
                let start = if prev_machine >= prev_job { prev_machine } else { prev_job };
                proof {
                    lemma_completion_mono(lengths, order, (k + 1) as nat, (i + 1) as nat, n as nat, m as nat);
                }
                row.set(i, start + tasks[i]);
            }
        }
        row[m - 1]
    }

    /// Position `i` of the Lehmer code ranges over `0..n-i`.
    pub fn dims(&self) -> (r: Vec<usize>)
        ensures
            r@.len() == self@.task_lengths.len(),
            forall|i: int| 0 <= i < r@.len() ==> r@[i] == self@.task_lengths.len() - i,
    {
        lehmer_dims(self.task_lengths.len())
    }

    /// Whether the encoded job order finishes by the deadline.
    pub fn evaluate(&self, config: &[usize]) -> (r: bool)
        requires
            lehmer_decode(config@, self@.task_lengths.len() as usize) matches Some(order) ==> makespan(self@, order)
                <= u64::MAX,
        ensures
            r == meets_flow_deadline(self@, config@),
    {
        let n = self.task_lengths.len();
        match decode_lehmer(config, n) {
            Some(order) => {
                proof {
                    crate::util::lemma_lehmer_decode_permutation(config@, n);
                }
                let makespan = self.compute_makespan(order.as_slice());
                makespan <= self.deadline
            },
            None => false,
        }
    }
}

} // verus!
