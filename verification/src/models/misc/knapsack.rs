//! 0-1 Knapsack.
//!
//! Given items with nonnegative weights and values and a capacity, choose a
//! subset of items of total weight at most the capacity that maximizes the
//! total value. A configuration has one binary variable per item.
use crate::types::{Direction, SolutionSize};
use crate::util::{all_below, check_all_below, ints_i64, selected_sum, selected_value_i64};
use vstd::prelude::*;

verus! {

/// Mathematical model of a [`Knapsack`] instance.
pub struct KnapsackView {
    pub weights: Seq<i64>,
    pub values: Seq<i64>,
    pub capacity: i64,
}

impl KnapsackView {
    /// The instance is well formed: one weight and one value per item, all
    /// nonnegative, and a nonnegative capacity.
    pub open spec fn wf(self) -> bool {
        &&& self.weights.len() == self.values.len()
        &&& forall|i: int| 0 <= i < self.weights.len() ==> #[trigger] self.weights[i] >= 0
        &&& forall|i: int| 0 <= i < self.values.len() ==> #[trigger] self.values[i] >= 0
        &&& self.capacity >= 0
    }
}

/// Total value of a binary selection within the capacity, `None` otherwise.
pub open spec fn knapsack_value(m: KnapsackView, config: Seq<usize>) -> Option<int> {
    if config.len() != m.weights.len() || !all_below(config, 2) || selected_sum(ints_i64(m.weights), config)
        > m.capacity {
        None
    } else {
        Some(selected_sum(ints_i64(m.values), config))
    }
}

/// Number of binary digits of `x` (0 for 0).
pub open spec fn bit_length(x: nat) -> nat
    decreases x,
{
    if x == 0 {
        0
    } else {
        1 + bit_length(x / 2)
    }
}

/// The 0-1 Knapsack problem.
#[derive(Debug)]
pub struct Knapsack {
    weights: Vec<i64>,
    values: Vec<i64>,
    capacity: i64,
}

impl View for Knapsack {
    type V = KnapsackView;

    closed spec fn view(&self) -> KnapsackView {
        KnapsackView { weights: self.weights@, values: self.values@, capacity: self.capacity }
    }
}

impl Knapsack {
    /// The stored instance is well formed.
    #[verifier::type_invariant]
    pub closed spec fn inv(self) -> bool {
        self@.wf()
    }

    /// Create a new instance.
    pub fn new(weights: Vec<i64>, values: Vec<i64>, capacity: i64) -> (r: Self)
        requires
            (KnapsackView { weights: weights@, values: values@, capacity }).wf(),
        ensures
            r@ == (KnapsackView { weights: weights@, values: values@, capacity }),
            r@.wf(),
    {
        Knapsack { weights, values, capacity }
    }

    /// Get the item weights.
    pub fn weights(&self) -> (r: &[i64])
        ensures
            r@ == self@.weights,
    {
        self.weights.as_slice()
    }

    /// Get the item values.
    pub fn values(&self) -> (r: &[i64])
        ensures
            r@ == self@.values,
    {
        self.values.as_slice()
    }

    /// Get the knapsack capacity.
    pub fn capacity(&self) -> (r: i64)
        ensures
            r == self@.capacity,
    {
        self.capacity
    }

    /// Get the number of items.
    pub fn num_items(&self) -> (r: usize)
        ensures
            r == self@.weights.len(),
    {
        self.weights.len()
    }

    /// Number of binary digits of the capacity (1 for a zero capacity).
    pub fn num_slack_bits(&self) -> (r: usize)
        ensures
            r == (if self@.capacity == 0 { 1 } else { bit_length(self@.capacity as nat) }),
    {
        proof {
            use_type_invariant(self);
        }
        if self.capacity == 0 {
            return 1;
        }
        let mut x = self.capacity as u64;
        let mut bits: usize = 0;
        proof {
            vstd::arithmetic::power2::lemma2_to64();
            lemma_bit_length_bound(x as nat, 64);
        }
        while x > 0
            invariant
                bits + bit_length(x as nat) == bit_length(self@.capacity as nat),
                bit_length(self@.capacity as nat) <= 64,
            decreases x,
        {
            x = x / 2;
            bits = bits + 1;
        }
        bits
    }

    /// One binary variable per item.
    pub fn dims(&self) -> (r: Vec<usize>)
        ensures
            r@ == Seq::new(self@.weights.len(), |i: int| 2usize),
    {
        crate::util::repeat_usize(2, self.weights.len())
    }

    /// Total value of a feasible selection; `Invalid` otherwise.
    pub fn evaluate(&self, config: &[usize]) -> (r: SolutionSize<i64>)
        requires
            knapsack_value(self@, config@) matches Some(v) ==> i64::MIN <= v <= i64::MAX,
        ensures
            match r {
                SolutionSize::Valid(v) => knapsack_value(self@, config@) == Some(v as int),
                SolutionSize::Invalid => knapsack_value(self@, config@) is None,
            },
    {
        if config.len() != self.weights.len() || !check_all_below(config, 2) {
            return SolutionSize::Invalid;
        }
        let total_weight = selected_value_i64(self.weights.as_slice(), config);
        if total_weight > self.capacity as i128 {
            return SolutionSize::Invalid;
        }
        let total_value = selected_value_i64(self.values.as_slice(), config);
        SolutionSize::Valid(total_value as i64)
    }

    /// Knapsack is a maximization problem.
    pub fn direction(&self) -> (r: Direction)
        ensures
            r == Direction::Maximize,
    {
        Direction::Maximize
    }
}

impl Clone for Knapsack {
    fn clone(&self) -> (r: Self)
        ensures
            r@ == self@,
    {
        proof {
            use_type_invariant(self);
        }
        Knapsack {
            weights: crate::util::copy_i64s(self.weights.as_slice()),
            values: crate::util::copy_i64s(self.values.as_slice()),
            capacity: self.capacity,
        }
    }
}

/// A value below `2^k` has at most `k` binary digits.
proof fn lemma_bit_length_bound(x: nat, k: nat)
    requires
        x < vstd::arithmetic::power2::pow2(k),
    ensures
        bit_length(x) <= k,
    decreases k,
{
    if x > 0 {
        if k == 0 {
            vstd::arithmetic::power2::lemma2_to64();
        } else {
            vstd::arithmetic::power2::lemma_pow2_unfold(k);
            lemma_bit_length_bound(x / 2, (k - 1) as nat);
        }
    }
}

} // verus!
