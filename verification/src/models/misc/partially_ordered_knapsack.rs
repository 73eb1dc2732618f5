//! Partially Ordered Knapsack.
//!
//! A knapsack whose items are partially ordered by precedences `(a, b)`
//! ("`b` may only be taken together with `a`"); a solution is a
//! downward-closed set of items within the capacity, of maximum value. A
//! configuration has one binary variable per item.
use crate::reach::{digraph_step, reaches};
use crate::types::Max;
use crate::util::{all_below, check_all_below, ints_i64, selected_sum, selected_value_i64};
use vstd::prelude::*;

verus! {

/// Mathematical model of a [`PartiallyOrderedKnapsack`] instance.
pub struct OrderedKnapsackView {
    pub weights: Seq<i64>,
    pub values: Seq<i64>,
    pub precedences: Seq<(usize, usize)>,
    pub capacity: i64,
}

impl OrderedKnapsackView {
    /// The instance is well formed: one weight and value per item, all
    /// nonnegative, precedences between items and without cycles (no
    /// precedence `(a, b)` has `b` leading back to `a`).
    pub open spec fn wf(self) -> bool {
        let n = self.weights.len();
        &&& self.values.len() == n
        &&& self.capacity >= 0
        &&& forall|i: int| 0 <= i < n ==> #[trigger] self.weights[i] >= 0
        &&& forall|i: int| 0 <= i < n ==> #[trigger] self.values[i] >= 0
        &&& forall|k: int|
            0 <= k < self.precedences.len() ==> (#[trigger] self.precedences[k]).0 < n && self.precedences[k].1 < n
        &&& forall|k: int|
            0 <= k < self.precedences.len() ==> !reaches(
                digraph_step(self.precedences),
                (#[trigger] self.precedences[k]).1,
                self.precedences[k].0,
            )
    }
}

/// Every selected item has all its direct (hence all its transitive)
/// predecessors selected.
pub open spec fn downward_closed(precedences: Seq<(usize, usize)>, config: Seq<usize>) -> bool {
    forall|k: int|
        0 <= k < precedences.len() && config[(#[trigger] precedences[k]).1 as int] == 1 ==> config[precedences[k].0 as int]
            == 1
}

/// Total value of a feasible selection, `None` otherwise.
pub open spec fn ordered_knapsack_value(m: OrderedKnapsackView, config: Seq<usize>) -> Option<int> {
    if config.len() != m.weights.len() || !all_below(config, 2) || !downward_closed(m.precedences, config)
        || selected_sum(ints_i64(m.weights), config) > m.capacity {
        None
    } else {
        Some(selected_sum(ints_i64(m.values), config))
    }
}

/// The Partially Ordered Knapsack problem.
#[derive(Debug)]
pub struct PartiallyOrderedKnapsack {
    weights: Vec<i64>,
    values: Vec<i64>,
    precedences: Vec<(usize, usize)>,
    capacity: i64,
}

impl View for PartiallyOrderedKnapsack {
    type V = OrderedKnapsackView;

    closed spec fn view(&self) -> OrderedKnapsackView {
        OrderedKnapsackView {
            weights: self.weights@,
            values: self.values@,
            precedences: self.precedences@,
            capacity: self.capacity,
        }
    }
}

impl PartiallyOrderedKnapsack {
    /// The stored instance is well formed.
    #[verifier::type_invariant]
    pub closed spec fn inv(self) -> bool {
        self@.wf()
    }

    /// Create a new instance.
    pub fn new(weights: Vec<i64>, values: Vec<i64>, precedences: Vec<(usize, usize)>, capacity: i64) -> (r: Self)
        requires
            (OrderedKnapsackView { weights: weights@, values: values@, precedences: precedences@, capacity }).wf(),
        ensures
            r@ == (OrderedKnapsackView { weights: weights@, values: values@, precedences: precedences@, capacity }),
    {
        PartiallyOrderedKnapsack { weights, values, precedences, capacity }
    }

    /// Get the item weights.
    pub fn weights(&self) -> (r: &[i64])
        ensures
            r@ == self@.weights,
    {
        self.weights.as_slice()
    }

    /// Get the item values.
    pub fn values(&self) -> (r: &[i64])
        ensures
            r@ == self@.values,
    {
        self.values.as_slice()
    }

    /// Get the precedences.
    pub fn precedences(&self) -> (r: &[(usize, usize)])
        ensures
            r@ == self@.precedences,
    {
        self.precedences.as_slice()
    }

    /// Get the capacity.
    pub fn capacity(&self) -> (r: i64)
        ensures
            r == self@.capacity,
    {
        self.capacity
    }

    /// Get the number of items.
    pub fn num_items(&self) -> (r: usize)
        ensures
            r == self@.weights.len(),
    {
        self.weights.len()
    }

    /// Get the number of precedences.
    pub fn num_precedences(&self) -> (r: usize)
        ensures
            r == self@.precedences.len(),
    {
        self.precedences.len()
    }

    fn is_downward_closed(&self, config: &[usize]) -> (r: bool)
        requires
            self@.wf(),
            config@.len() == self@.weights.len(),
        ensures
            r == downward_closed(self@.precedences, config@),
    {
        for k in 0..self.precedences.len()
            invariant
                self@.wf(),
                config@.len() == self@.weights.len(),
                forall|j: int|
                    0 <= j < k && config@[(#[trigger] self@.precedences[j]).1 as int] == 1 ==> config@[self@.precedences[j].0 as int]
                        == 1,
        {
            let (a, b) = self.precedences[k];
            assert(self@.precedences[k as int] == (a, b));
            if config[b] == 1 && config[a] != 1 {
                return false;
            }
        }
        true
    }

    /// One binary variable per item.
    pub fn dims(&self) -> (r: Vec<usize>)
        ensures
            r@ == Seq::new(self@.weights.len(), |i: int| 2usize),
    {
        crate::util::repeat_usize(2, self.weights.len())
    }

    /// Total value of a feasible selection; `Max(None)` otherwise.
    pub fn evaluate(&self, config: &[usize]) -> (r: Max<i64>)
        requires
            ordered_knapsack_value(self@, config@) matches Some(v) ==> v <= i64::MAX,
        ensures
            r.0 matches Some(v) ==> ordered_knapsack_value(self@, config@) == Some(v as int),
            r.0 is None ==> ordered_knapsack_value(self@, config@) is None,
    {
        proof {
            use_type_invariant(self);
        }
        if config.len() != self.weights.len() || !check_all_below(config, 2) {
            return Max(None);
        }
        if !self.is_downward_closed(config) {
            return Max(None);
        }
        let total_weight = selected_value_i64(self.weights.as_slice(), config);
        if total_weight > self.capacity as i128 {
            return Max(None);
        }
        let total_value = selected_value_i64(self.values.as_slice(), config);
        proof {
            lemma_selected_nonneg(self@.values, config@);
        }
        Max(Some(total_value as i64))
    }
}

/// A selected sum of nonnegative values is nonnegative.
proof fn lemma_selected_nonneg(values: Seq<i64>, config: Seq<usize>)
    requires
        forall|i: int| 0 <= i < values.len() ==> #[trigger] values[i] >= 0,
    ensures
        selected_sum(ints_i64(values), config) >= 0,
    decreases config.len(),
{
    if config.len() > 0 {
        lemma_selected_nonneg(values, config.drop_last());
    }
}

} // verus!
