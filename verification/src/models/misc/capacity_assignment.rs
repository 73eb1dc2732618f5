//! Capacity Assignment.
//!
//! Given communication links, a strictly increasing list of capacities, and
//! for every link a non-decreasing cost and a non-increasing delay per
//! capacity, choose a capacity for every link so that the total delay is
//! within the budget and the total cost is minimal. A configuration gives
//! each link the index of its capacity.
use crate::types::Min;
use crate::util::all_below;
use crate::util::rows_u64;
use vstd::prelude::*;

verus! {

/// Mathematical model of a [`CapacityAssignment`] instance.
pub struct CapacityAssignmentView {
    pub capacities: Seq<u64>,
    pub cost: Seq<Seq<u64>>,
    pub delay: Seq<Seq<u64>>,
    pub delay_budget: u64,
}

impl CapacityAssignmentView {
    /// The instance is well formed: positive strictly increasing capacities,
    /// one cost row and one delay row per link, each with one entry per
    /// capacity, costs non-decreasing and delays non-increasing.
    pub open spec fn wf(self) -> bool {
        let k = self.capacities.len();
        &&& k > 0
        &&& forall|c: int| 0 <= c < k ==> #[trigger] self.capacities[c] > 0
        &&& forall|c: int, d: int| 0 <= c < d < k ==> self.capacities[c] < self.capacities[d]
        &&& self.cost.len() == self.delay.len()
        &&& forall|l: int| 0 <= l < self.cost.len() ==> (#[trigger] self.cost[l]).len() == k
        &&& forall|l: int| 0 <= l < self.delay.len() ==> (#[trigger] self.delay[l]).len() == k
        &&& forall|l: int, c: int, d: int|
            0 <= l < self.cost.len() && 0 <= c < d < k ==> self.cost[l][c] <= self.cost[l][d]
        &&& forall|l: int, c: int, d: int|
            0 <= l < self.delay.len() && 0 <= c < d < k ==> self.delay[l][c] >= self.delay[l][d]
    }
}

/// Sum over the first `k` links of the chosen entries of `table`.
pub open spec fn chosen_sum(table: Seq<Seq<u64>>, config: Seq<usize>, k: int) -> int
    decreases k,
{
    if k <= 0 {
        0
    } else {
        chosen_sum(table, config, k - 1) + table[k - 1][config[k - 1] as int] as int
    }
}

/// Total cost and total delay of an assignment of capacities to links.
pub open spec fn cost_and_delay(m: CapacityAssignmentView, config: Seq<usize>) -> Option<(int, int)> {
    if config.len() != m.cost.len() || !all_below(config, m.capacities.len() as int) {
        None
    } else {
        Some((chosen_sum(m.cost, config, config.len() as int), chosen_sum(m.delay, config, config.len() as int)))
    }
}

/// Total cost of an assignment within the delay budget, `None` otherwise.
pub open spec fn assignment_cost(m: CapacityAssignmentView, config: Seq<usize>) -> Option<int> {
    match cost_and_delay(m, config) {
        Some((c, d)) => if d <= m.delay_budget { Some(c) } else { None },
        None => None,
    }
}

/// The Capacity Assignment problem.
#[derive(Debug)]
pub struct CapacityAssignment {
    capacities: Vec<u64>,
    cost: Vec<Vec<u64>>,
    delay: Vec<Vec<u64>>,
    delay_budget: u64,
}

impl View for CapacityAssignment {
    type V = CapacityAssignmentView;

    closed spec fn view(&self) -> CapacityAssignmentView {
        CapacityAssignmentView {
            capacities: self.capacities@,
            cost: rows_u64(self.cost@),
            delay: rows_u64(self.delay@),
            delay_budget: self.delay_budget,
        }
    }
}

impl CapacityAssignment {
    /// The stored instance is well formed.
    #[verifier::type_invariant]
    pub closed spec fn inv(self) -> bool {
        self@.wf()
    }

    /// Create a new instance.
    pub fn new(capacities: Vec<u64>, cost: Vec<Vec<u64>>, delay: Vec<Vec<u64>>, delay_budget: u64) -> (r: Self)
        requires
            (CapacityAssignmentView {
                capacities: capacities@,
                cost: rows_u64(cost@),
                delay: rows_u64(delay@),
                delay_budget,
            }).wf(),
        ensures
            r@ == (CapacityAssignmentView {
                capacities: capacities@,
                cost: rows_u64(cost@),
                delay: rows_u64(delay@),
                delay_budget,
            }),
    {
        CapacityAssignment { capacities, cost, delay, delay_budget }
    }

    /// Get the number of links.
    pub fn num_links(&self) -> (r: usize)
        ensures
            r == self@.cost.len(),
    {
        self.cost.len()
    }

    /// Get the number of capacities.
    pub fn num_capacities(&self) -> (r: usize)
        ensures
            r == self@.capacities.len(),
    {
        self.capacities.len()
    }

    /// Get the capacities.
    pub fn capacities(&self) -> (r: &[u64])
        ensures
            r@ == self@.capacities,
    {
        self.capacities.as_slice()
    }

    /// Get the cost table.
    pub fn cost(&self) -> (r: &[Vec<u64>])
        ensures
            rows_u64(r@) == self@.cost,
    {
        self.cost.as_slice()
    }

    /// Get the delay table.
    pub fn delay(&self) -> (r: &[Vec<u64>])
        ensures
            rows_u64(r@) == self@.delay,
    {
        self.delay.as_slice()
    }

    /// Get the delay budget.
    pub fn delay_budget(&self) -> (r: u64)
        ensures
            r == self@.delay_budget,
    {
        self.delay_budget
    }

    fn total_cost_and_delay(&self, config: &[usize]) -> (r: Option<(u128, u128)>)
        ensures
            match r {
                Some((c, d)) => cost_and_delay(self@, config@) == Some((c as int, d as int)),
                None => cost_and_delay(self@, config@) is None,
            },
    {
        proof {
            use_type_invariant(self);
        }
        if config.len() != self.cost.len() {
            return None;
        }
        let k = self.capacities.len();
        let mut total_cost: u128 = 0;
        let mut total_delay: u128 = 0;
        for link in 0..config.len()
            invariant
                self@.wf(),
                k == self@.capacities.len(),
                config@.len() == self@.cost.len(),
                forall|j: int| 0 <= j < link ==> (#[trigger] config@[j]) < k,
                total_cost == chosen_sum(self@.cost, config@, link as int),
                total_delay == chosen_sum(self@.delay, config@, link as int),
                total_cost <= link * 0xffff_ffff_ffff_ffff,
                total_delay <= link * 0xffff_ffff_ffff_ffff,
        {
            let choice = config[link];
            if choice >= k {
                assert(!(config@[link as int] < k));
                return None;
            }
            assert(self@.cost[link as int] == self.cost@[link as int]@);
            assert(self@.delay[link as int] == self.delay@[link as int]@);
            total_cost = total_cost + self.cost[link][choice] as u128;
            total_delay = total_delay + self.delay[link][choice] as u128;
        }
        Some((total_cost, total_delay))
    }

    /// Each link chooses one of the capacities.
    pub fn dims(&self) -> (r: Vec<usize>)
        ensures
            r@ == Seq::new(self@.cost.len(), |i: int| self@.capacities.len() as usize),
    {
        crate::util::repeat_usize(self.capacities.len(), self.cost.len())
    }

    /// Total cost of an assignment within the delay budget; `Min(None)`
    /// otherwise.
    pub fn evaluate(&self, config: &[usize]) -> (r: Min<u128>)
        ensures
            r.0 matches Some(c) ==> assignment_cost(self@, config@) == Some(c as int),
            r.0 is None ==> assignment_cost(self@, config@) is None,
    {
        match self.total_cost_and_delay(config) {
            Some((total_cost, total_delay)) => {
                if total_delay <= self.delay_budget as u128 {
                    Min(Some(total_cost))
                } else {
                    Min(None)
                }
            },
            None => Min(None),
        }
    }
}

} // verus!
