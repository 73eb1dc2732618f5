//! Sequencing to Minimize Maximum Cumulative Cost.
//!
//! Tasks with (possibly negative) costs and precedence constraints are put in
//! one order; decide whether some order respecting the precedences keeps
//! every prefix sum of costs at most the bound. A configuration is a Lehmer
//! code of the order.
use crate::util::{
    check_order_respects, decode_lehmer, lehmer_decode, lehmer_dims, order_respects, pairs_below,
};
use vstd::prelude::*;

verus! {

/// Mathematical model of a [`SequencingToMinimizeMaximumCumulativeCost`] instance.
pub struct CumulativeCostView {
    pub costs: Seq<i64>,
    pub precedences: Seq<(usize, usize)>,
    pub bound: i64,
}

/// Sum of the costs of the first `k` tasks of `order`.
pub open spec fn cumulative_cost(costs: Seq<i64>, order: Seq<usize>, k: int) -> int
    decreases k,
{
    if k <= 0 {
        0
    } else {
        cumulative_cost(costs, order, k - 1) + costs[order[k - 1] as int]
    }
}

/// Every nonempty prefix of `order` costs at most `bound`.
pub open spec fn prefixes_within(costs: Seq<i64>, order: Seq<usize>, bound: i64) -> bool {
    forall|k: int| 1 <= k <= order.len() ==> #[trigger] cumulative_cost(costs, order, k) <= bound
}

/// The order a configuration encodes respects the precedences and keeps
/// every prefix cost within the bound.
pub open spec fn cumulative_feasible(m: CumulativeCostView, config: Seq<usize>) -> bool {
    match lehmer_decode(config, m.costs.len() as usize) {
        Some(order) => order_respects(order, m.precedences) && prefixes_within(m.costs, order, m.bound),
        None => false,
    }
}

/// The Sequencing to Minimize Maximum Cumulative Cost problem.
#[derive(Debug)]
pub struct SequencingToMinimizeMaximumCumulativeCost {
    costs: Vec<i64>,
    precedences: Vec<(usize, usize)>,
    bound: i64,
}

impl View for SequencingToMinimizeMaximumCumulativeCost {
    type V = CumulativeCostView;

    closed spec fn view(&self) -> CumulativeCostView {
        CumulativeCostView { costs: self.costs@, precedences: self.precedences@, bound: self.bound }
    }
}

impl SequencingToMinimizeMaximumCumulativeCost {
    /// Every precedence names existing tasks.
    #[verifier::type_invariant]
    pub closed spec fn inv(self) -> bool {
        pairs_below(self.precedences@, self.costs@.len())
    }

    /// Create a new instance whose precedences name existing tasks.
    pub fn new(costs: Vec<i64>, precedences: Vec<(usize, usize)>, bound: i64) -> (r: Self)
        requires
            pairs_below(precedences@, costs@.len()),
        ensures
            r@ == (CumulativeCostView { costs: costs@, precedences: precedences@, bound }),
    {
        SequencingToMinimizeMaximumCumulativeCost { costs, precedences, bound }
    }

    /// Get the task costs.
    pub fn costs(&self) -> (r: &[i64])
        ensures
            r@ == self@.costs,
    {
        self.costs.as_slice()
    }

    /// Get the precedence pairs.
    pub fn precedences(&self) -> (r: &[(usize, usize)])
        ensures
            r@ == self@.precedences,
    {
        self.precedences.as_slice()
    }

    /// Get the bound on every prefix cost.
    pub fn bound(&self) -> (r: i64)
        ensures
            r == self@.bound,
    {
        self.bound
    }

    /// Get the number of tasks.
    pub fn num_tasks(&self) -> (r: usize)
        ensures
            r == self@.costs.len(),
    {
        self.costs.len()
    }

    /// Get the number of precedence pairs.
    pub fn num_precedences(&self) -> (r: usize)
        ensures
            r == self@.precedences.len(),
    {
        self.precedences.len()
    }

    /// Position `i` of the Lehmer code ranges over `0..n-i`.
    pub fn dims(&self) -> (r: Vec<usize>)
        ensures
            r@.len() == self@.costs.len(),
            forall|i: int| 0 <= i < r@.len() ==> r@[i] == self@.costs.len() - i,
    {
        lehmer_dims(self.costs.len())
    }

    /// Whether the encoded order respects the precedences and keeps every
    /// prefix cost within the bound.
    pub fn evaluate(&self, config: &[usize]) -> (r: bool)
        ensures
            r == cumulative_feasible(self@, config@),
    {
        proof {
            use_type_invariant(self);
        }
        let n = self.costs.len();
        let order = match decode_lehmer(config, n) {
            Some(order) => order,
            None => return false,
        };
        proof {
            crate::util::lemma_lehmer_decode_permutation(config@, n);
        }
        if !check_order_respects(order.as_slice(), self.precedences.as_slice(), n) {
            return false;
        }
        let ghost costs = self@.costs;
        let mut cumulative: i128 = 0;
        for k in 0..n
            invariant
                costs == self@.costs,
                n == costs.len(),
                crate::util::is_permutation(order@, n as nat),
                cumulative == cumulative_cost(costs, order@, k as int),
                -0x8000_0000_0000_0000 * (k as int) <= cumulative <= 0x7fff_ffff_ffff_ffff * (k as int),
                forall|q: int| 1 <= q <= k ==> #[trigger] cumulative_cost(costs, order@, q) <= self.bound,
        {
            let task = order[k];
            assert(order@[k as int] < n);
            cumulative = cumulative + self.costs[task] as i128;
            if cumulative > self.bound as i128 {
                assert(cumulative_cost(costs, order@, k + 1) > self.bound);
                return false;
            }
        }
        true
    }
}

} // verus!
