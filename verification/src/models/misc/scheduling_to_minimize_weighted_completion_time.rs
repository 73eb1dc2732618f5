//! Scheduling to Minimize Weighted Completion Time.
//!
//! Tasks with processing times and weights are assigned to identical
//! processors; on each processor they run in Smith's order (non-decreasing
//! length-to-weight ratio, ties broken by index). The objective is the total
//! weighted completion time. A configuration gives every task its processor.
use crate::types::Min;
use crate::util::{all_below, contains_zero, has_zero};
use vstd::prelude::*;

verus! {

/// Mathematical model of a [`SchedulingToMinimizeWeightedCompletionTime`] instance.
pub struct WeightedCompletionView {
    pub lengths: Seq<u64>,
    pub weights: Seq<u64>,
    pub num_processors: nat,
}

/// The reason an instance is rejected, if any, in the order the checks are made.
pub open spec fn completion_instance_error(lengths: Seq<u64>, weights: Seq<u64>, num_processors: usize) -> Option<
    Seq<char>,
> {
    if lengths.len() != weights.len() {
        Some("lengths and weights must have the same length"@)
    } else if num_processors == 0 {
        Some("num_processors must be positive"@)
    } else if has_zero(lengths) {
        Some("task lengths must be positive"@)
    } else if has_zero(weights) {
        Some("task weights must be positive"@)
    } else {
        None
    }
}

/// Smith's order: task `s` runs before task `t` on a shared processor when
/// `l(s)/w(s) < l(t)/w(t)`, or the ratios tie and `s < t`.
pub open spec fn smith_before(m: WeightedCompletionView, s: int, t: int) -> bool {
    let lhs = m.lengths[s] * m.weights[t];
    let rhs = m.lengths[t] * m.weights[s];
    lhs < rhs || (lhs == rhs && s < t)
}

/// Sum of the lengths of the tasks among the first `k` that share `t`'s
/// processor and run no later than `t`.
pub open spec fn completion_prefix(m: WeightedCompletionView, config: Seq<usize>, t: int, k: int) -> nat
    decreases k,
{
    if k <= 0 {
        0
    } else {
        let s = k - 1;
        completion_prefix(m, config, t, k - 1) + (if config[s] == config[t] && (s == t || smith_before(m, s, t)) {
            m.lengths[s] as nat
        } else {
            0nat
        })
    }
}

/// Completion time of task `t`.
pub open spec fn completion_time(m: WeightedCompletionView, config: Seq<usize>, t: int) -> nat {
    completion_prefix(m, config, t, m.lengths.len() as int)
}

/// Total weighted completion time of the first `k` tasks.
pub open spec fn weighted_total(m: WeightedCompletionView, config: Seq<usize>, k: int) -> nat
    decreases k,
{
    if k <= 0 {
        0
    } else {
        weighted_total(m, config, k - 1) + m.weights[k - 1] as nat * completion_time(m, config, k - 1)
    }
}

/// An assignment of every task to an existing processor.
pub open spec fn valid_assignment(m: WeightedCompletionView, config: Seq<usize>) -> bool {
    config.len() == m.lengths.len() && all_below(config, m.num_processors as int)
}

/// Total weighted completion time of a valid assignment, `None` otherwise.
pub open spec fn assignment_cost(m: WeightedCompletionView, config: Seq<usize>) -> Option<nat> {
    if valid_assignment(m, config) {
        Some(weighted_total(m, config, m.lengths.len() as int))
    } else {
        None
    }
}

proof fn lemma_completion_prefix_mono(m: WeightedCompletionView, config: Seq<usize>, t: int, i: int, j: int)
    requires
        0 <= i <= j,
    ensures
        completion_prefix(m, config, t, i) <= completion_prefix(m, config, t, j),
    decreases j - i,
{
    if i < j {
        lemma_completion_prefix_mono(m, config, t, i, j - 1);
    }
}

proof fn lemma_weighted_total_mono(m: WeightedCompletionView, config: Seq<usize>, i: int, j: int)
    requires
        0 <= i <= j,
    ensures
        weighted_total(m, config, i) <= weighted_total(m, config, j),
    decreases j - i,
{
    if i < j {
        lemma_weighted_total_mono(m, config, i, j - 1);
    }
}

proof fn lemma_u64_product_fits(a: u64, b: u64)
    ensures
        (a as int) * (b as int) <= u128::MAX,
{
    assert((a as int) * (b as int) <= (u64::MAX as int) * (u64::MAX as int)) by (nonlinear_arith);
}

/// The Scheduling to Minimize Weighted Completion Time problem.
#[derive(Debug)]
pub struct SchedulingToMinimizeWeightedCompletionTime {
    lengths: Vec<u64>,
    weights: Vec<u64>,
    num_processors: usize,
}

impl View for SchedulingToMinimizeWeightedCompletionTime {
    type V = WeightedCompletionView;

    closed spec fn view(&self) -> WeightedCompletionView {
        WeightedCompletionView {
            lengths: self.lengths@,
            weights: self.weights@,
            num_processors: self.num_processors as nat,
        }
    }
}

impl SchedulingToMinimizeWeightedCompletionTime {
    /// The stored instance passed validation.
    #[verifier::type_invariant]
    pub closed spec fn inv(self) -> bool {
        completion_instance_error(self.lengths@, self.weights@, self.num_processors) is None
    }

    /// Check an instance, reporting the first problem found.
    pub fn validate(lengths: &[u64], weights: &[u64], num_processors: usize) -> (r: Result<(), String>)
        ensures
            match r {
                Ok(()) => completion_instance_error(lengths@, weights@, num_processors) is None,
                Err(e) => completion_instance_error(lengths@, weights@, num_processors) == Some(e@),
            },
    {
        if lengths.len() != weights.len() {
            return Err("lengths and weights must have the same length".to_owned());
        }
        if num_processors == 0 {
            return Err("num_processors must be positive".to_owned());
        }
        if contains_zero(lengths) {
            return Err("task lengths must be positive".to_owned());
        }
        if contains_zero(weights) {
            return Err("task weights must be positive".to_owned());
        }
        Ok(())
    }

    /// Create a new instance from positive lengths and weights.
    pub fn new(lengths: Vec<u64>, weights: Vec<u64>, num_processors: usize) -> (r: Self)
        requires
            completion_instance_error(lengths@, weights@, num_processors) is None,
        ensures
            r@ == (WeightedCompletionView {
                lengths: lengths@,
                weights: weights@,
                num_processors: num_processors as nat,
            }),
    {
        SchedulingToMinimizeWeightedCompletionTime { lengths, weights, num_processors }
    }

    /// Get the number of tasks.
    pub fn num_tasks(&self) -> (r: usize)
        ensures
            r == self@.lengths.len(),
    {
        self.lengths.len()
    }

    /// Get the number of processors.
    pub fn num_processors(&self) -> (r: usize)
        ensures
            r == self@.num_processors,
    {
        self.num_processors
    }

    /// Get the processing times.
    pub fn lengths(&self) -> (r: &[u64])
        ensures
            r@ == self@.lengths,
    {
        self.lengths.as_slice()
    }

    /// Get the task weights.
    pub fn weights(&self) -> (r: &[u64])
        ensures
            r@ == self@.weights,
    {
        self.weights.as_slice()
    }

    /// Each task chooses one of the processors.
    pub fn dims(&self) -> (r: Vec<usize>)
        ensures
            r@ == Seq::new(self@.lengths.len(), |i: int| self@.num_processors as usize),
    {
        crate::util::repeat_usize(self.num_processors, self.lengths.len())
    }

    /// Total weighted completion time of the assignment, with every processor
    /// running its tasks in Smith's order; `None` for an invalid assignment.
    pub fn evaluate(&self, config: &[usize]) -> (r: Min<u64>)
        requires
            assignment_cost(self@, config@) matches Some(c) ==> c <= u64::MAX,
        ensures
            match r.0 {
                Some(c) => assignment_cost(self@, config@) == Some(c as nat),
                None => assignment_cost(self@, config@) is None,
            },
    {
        proof {
            use_type_invariant(self);
        }
        let n = self.lengths.len();
        if config.len() != n || !crate::util::check_all_below(config, self.num_processors) {
            return Min(None);
        }
        let ghost m = self@;
        let ghost cfg = config@;
        proof {
            lemma_weighted_total_mono(m, cfg, 0, n as int);
        }
        let mut total: u64 = 0;
        for t in 0..n
            invariant
                m == self@,
                cfg == config@,
                n == m.lengths.len(),
                n == m.weights.len(),
                cfg.len() == n,
                weighted_total(m, cfg, n as int) <= u64::MAX,
                total == weighted_total(m, cfg, t as int),
        {
            proof {
                lemma_weighted_total_mono(m, cfg, t + 1, n as int);
            }
            let wt = self.weights[t];
            let lt = self.lengths[t];
            let mut elapsed: u64 = 0;
            for s in 0..n
                invariant
                    m == self@,
                    cfg == config@,
                    n == m.lengths.len(),
                    n == m.weights.len(),
                    cfg.len() == n,
                    t < n,
                    wt == m.weights[t as int],
                    lt == m.lengths[t as int],
                    wt > 0,
                    total + wt * completion_time(m, cfg, t as int) <= u64::MAX,
                    elapsed == completion_prefix(m, cfg, t as int, s as int),
            {
                proof {
                    lemma_completion_prefix_mono(m, cfg, t as int, s + 1, n as int);
                    let c = completion_time(m, cfg, t as int);
                    assert(c <= wt * c) by (nonlinear_arith)
                        requires
                            wt > 0,
                    ;
                }
                if config[s] == config[t] {
                    let ls = self.lengths[s];
                    let ws = self.weights[s];
                    proof {
                        lemma_u64_product_fits(ls, wt);
                        lemma_u64_product_fits(lt, ws);
                    }
                    let lhs: u128 = (ls as u128) * (wt as u128);
                    let rhs: u128 = (lt as u128) * (ws as u128);
                    if s == t || lhs < rhs || (lhs == rhs && s < t) {
                        elapsed = elapsed + ls;
                    }
                }
            }
            proof {
                let c = completion_time(m, cfg, t as int);
                assert(elapsed == c);
                assert(weighted_total(m, cfg, t + 1) == total + wt * c);
                assert(total + wt * elapsed <= u64::MAX);
            }
            let contribution = wt * elapsed;
            total = total + contribution;
        }
        Min(Some(total))
    }
}

} // verus!
