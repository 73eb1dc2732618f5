//! Resource Constrained Scheduling.
//!
//! Unit-length tasks with resource requirements are scheduled in time slots
//! before a deadline; each slot has a number of processors and a bound per
//! resource. A configuration gives every task its time slot.
use crate::types::Or;
use crate::util::{all_below, check_all_below, count_of, lemma_count_of_push};
use crate::util::rows_u64;
use vstd::prelude::*;

verus! {

/// Mathematical model of a [`ResourceConstrainedScheduling`] instance.
pub struct ResourceSchedulingView {
    pub num_processors: nat,
    pub resource_bounds: Seq<u64>,
    pub resource_requirements: Seq<Seq<u64>>,
    pub deadline: u64,
}

impl ResourceSchedulingView {
    /// A positive deadline and one requirement per resource for each task.
    pub open spec fn wf(self) -> bool {
        &&& self.deadline > 0
        &&& forall|t: int|
            0 <= t < self.resource_requirements.len() ==> (#[trigger] self.resource_requirements[t]).len()
                == self.resource_bounds.len()
    }
}

/// Total requirement of resource `k` by the first `t` tasks placed in slot `u`.
pub open spec fn slot_usage(reqs: Seq<Seq<u64>>, config: Seq<usize>, u: usize, k: int, t: int) -> int
    decreases t,
{
    if t <= 0 {
        0
    } else {
        slot_usage(reqs, config, u, k, t - 1) + (if config[t - 1] == u { reqs[t - 1][k] as int } else { 0 })
    }
}

/// A sum capped at `u64::MAX`.
pub open spec fn saturate(x: int) -> int {
    if x > u64::MAX { u64::MAX as int } else { x }
}

/// Every task has a slot before the deadline, no slot holds more tasks than
/// processors, and no slot's (saturating) usage of a resource exceeds its
/// bound.
pub open spec fn is_feasible_resource_schedule(m: ResourceSchedulingView, config: Seq<usize>) -> bool {
    let n = m.resource_requirements.len();
    let d = m.deadline as usize;
    &&& config.len() == n
    &&& all_below(config, d as int)
    &&& forall|u: usize| u < d ==> #[trigger] count_of(config, u) <= m.num_processors
    &&& forall|u: usize, k: int|
        u < d && 0 <= k < m.resource_bounds.len() ==> saturate(#[trigger] slot_usage(m.resource_requirements, config, u, k, n as int))
            <= m.resource_bounds[k]
}

/// The Resource Constrained Scheduling problem.
#[derive(Debug)]
pub struct ResourceConstrainedScheduling {
    num_processors: usize,
    resource_bounds: Vec<u64>,
    resource_requirements: Vec<Vec<u64>>,
    deadline: u64,
}

impl View for ResourceConstrainedScheduling {
    type V = ResourceSchedulingView;

    closed spec fn view(&self) -> ResourceSchedulingView {
        ResourceSchedulingView {
            num_processors: self.num_processors as nat,
            resource_bounds: self.resource_bounds@,
            resource_requirements: rows_u64(self.resource_requirements@),
            deadline: self.deadline,
        }
    }
}

impl ResourceConstrainedScheduling {
    /// The stored instance is well formed.
    #[verifier::type_invariant]
    pub closed spec fn inv(self) -> bool {
        self@.wf()
    }

    /// Create a new instance.
    pub fn new(
        num_processors: usize,
        resource_bounds: Vec<u64>,
        resource_requirements: Vec<Vec<u64>>,
        deadline: u64,
    ) -> (r: Self)
        requires
            (ResourceSchedulingView {
                num_processors: num_processors as nat,
                resource_bounds: resource_bounds@,
                resource_requirements: rows_u64(resource_requirements@),
                deadline,
            }).wf(),
        ensures
            r@ == (ResourceSchedulingView {
                num_processors: num_processors as nat,
                resource_bounds: resource_bounds@,
                resource_requirements: rows_u64(resource_requirements@),
                deadline,
            }),
    {
        ResourceConstrainedScheduling { num_processors, resource_bounds, resource_requirements, deadline }
    }

    /// Get the number of tasks.
    pub fn num_tasks(&self) -> (r: usize)
        ensures
            r == self@.resource_requirements.len(),
    {
        self.resource_requirements.len()
    }

    /// Get the number of processors.
    pub fn num_processors(&self) -> (r: usize)
        ensures
            r == self@.num_processors,
    {
        self.num_processors
    }

    /// Get the resource bounds.
    pub fn resource_bounds(&self) -> (r: &[u64])
        ensures
            r@ == self@.resource_bounds,
    {
        self.resource_bounds.as_slice()
    }

    /// Get the resource requirements (one row per task).
    pub fn resource_requirements(&self) -> (r: &[Vec<u64>])
        ensures
            rows_u64(r@) == self@.resource_requirements,
    {
        self.resource_requirements.as_slice()
    }

    /// Get the deadline.
    pub fn deadline(&self) -> (r: u64)
        ensures
            r == self@.deadline,
    {
        self.deadline
    }

    /// Get the number of resources.
    pub fn num_resources(&self) -> (r: usize)
        ensures
            r == self@.resource_bounds.len(),
    {
        self.resource_bounds.len()
    }

    /// Each task chooses one of the time slots.
    pub fn dims(&self) -> (r: Vec<usize>)
        ensures
            r@ == Seq::new(self@.resource_requirements.len(), |i: int| self@.deadline as usize),
    {
        crate::util::repeat_usize(self.deadline as usize, self.resource_requirements.len())
    }

    /// Whether the slot assignment respects processors and resources.
    pub fn evaluate(&self, config: &[usize]) -> (r: Or)
        ensures
            r == Or(is_feasible_resource_schedule(self@, config@)),
    {
        proof {
            use_type_invariant(self);
        }
        let n = self.resource_requirements.len();
        let d = self.deadline as usize;
        let nr = self.resource_bounds.len();
        if config.len() != n {
            return Or(false);
        }
        if !check_all_below(config, d) {
            return Or(false);
        }
        let ghost m = self@;
        for u in 0..d
            invariant
                m == self@,
                m.wf(),
                n == m.resource_requirements.len(),
                nr == m.resource_bounds.len(),
                d == m.deadline as usize,
                config@.len() == n,
                forall|w: usize| w < u ==> #[trigger] count_of(config@, w) <= m.num_processors,
                forall|w: usize, k: int|
                    w < u && 0 <= k < nr ==> saturate(#[trigger] slot_usage(m.resource_requirements, config@, w, k, n as int))
                        <= m.resource_bounds[k],
        {
            let mut task_count: usize = 0;
            let mut usage = vec![0u128; nr];
            for t in 0..n
                invariant
                    m == self@,
                    m.wf(),
                    n == m.resource_requirements.len(),
                    nr == m.resource_bounds.len(),
                    config@.len() == n,
                    usage@.len() == nr,
                    task_count == count_of(config@.take(t as int), u),
                    task_count <= t,
                    forall|k: int| 0 <= k < nr ==> #[trigger] usage@[k] == slot_usage(m.resource_requirements, config@, u, k, t as int),
                    forall|k: int| 0 <= k < nr ==> #[trigger] usage@[k] <= t * 0xffff_ffff_ffff_ffff,
            {
                proof {
                    assert(config@.take(t + 1) =~= config@.take(t as int).push(config@[t as int]));
                    lemma_count_of_push(config@.take(t as int), config@[t as int], u);
                }
                if config[t] == u {
                    task_count = task_count + 1;
                    let row = &self.resource_requirements[t];
                    assert(m.resource_requirements[t as int] == row@);
                    for k in 0..nr
                        invariant
                            nr == m.resource_bounds.len(),
                            row@.len() == nr,
                            m.resource_requirements[t as int] == row@,
                            config@.len() == n,
                            t < n,
                            config@[t as int] == u,
                            usage@.len() == nr,
                            forall|j: int| 0 <= j < k ==> #[trigger] usage@[j] == slot_usage(m.resource_requirements, config@, u, j, t + 1),
                            forall|j: int| k <= j < nr ==> #[trigger] usage@[j] == slot_usage(m.resource_requirements, config@, u, j, t as int),
                            forall|j: int| 0 <= j < nr ==> #[trigger] usage@[j] <= (t + 1) * 0xffff_ffff_ffff_ffff,
                            forall|j: int| k <= j < nr ==> #[trigger] usage@[j] <= t * 0xffff_ffff_ffff_ffff,
                    {
                        usage.set(k, usage[k] + row[k] as u128);
                    }
                }
            }
            assert(config@.take(n as int) =~= config@);
            if task_count > self.num_processors {
                return Or(false);
            }
            for k in 0..nr
                invariant
                    nr == m.resource_bounds.len(),
                    usage@.len() == nr,
                    forall|j: int| 0 <= j < nr ==> #[trigger] usage@[j] == slot_usage(m.resource_requirements, config@, u, j, n as int),
                    forall|j: int| 0 <= j < k ==> saturate(#[trigger] slot_usage(m.resource_requirements, config@, u, j, n as int))
                        <= m.resource_bounds[j],
            {
                let used = if usage[k] > u64::MAX as u128 { u64::MAX } else { usage[k] as u64 };
                assert(usage@[k as int] == slot_usage(m.resource_requirements, config@, u, k as int, n as int));
                if used > self.resource_bounds[k] {
                    return Or(false);
                }
            }
        }
        Or(true)
    }
}

} // verus!
