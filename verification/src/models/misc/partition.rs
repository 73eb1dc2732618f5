//! Partition.
//!
//! Given a multiset of positive integers, decide whether it can be split into
//! two subsets of equal sum. A configuration has one binary variable per
//! element selecting the first subset.
use crate::types::Or;
use crate::util::{all_below, check_all_below, ints_u64, selected_sum, selected_value_u64, sum_u64, sum_u64s};
use vstd::prelude::*;

verus! {

/// Mathematical model of a [`Partition`] instance.
pub struct PartitionView {
    pub sizes: Seq<u64>,
}

impl PartitionView {
    /// The instance is well formed: at least one element, all positive.
    pub open spec fn wf(self) -> bool {
        &&& self.sizes.len() > 0
        &&& forall|i: int| 0 <= i < self.sizes.len() ==> #[trigger] self.sizes[i] > 0
    }
}

/// The selected elements sum to exactly half of the total.
pub open spec fn is_equal_split(m: PartitionView, config: Seq<usize>) -> bool {
    &&& config.len() == m.sizes.len()
    &&& all_below(config, 2)
    &&& selected_sum(ints_u64(m.sizes), config) * 2 == sum_u64(m.sizes)
}

/// The Partition problem.
#[derive(Debug, Clone)]
pub struct Partition {
    sizes: Vec<u64>,
}

impl View for Partition {
    type V = PartitionView;

    closed spec fn view(&self) -> PartitionView {
        PartitionView { sizes: self.sizes@ }
    }
}

impl Partition {
    /// Create a new instance from positive element sizes.
    pub fn new(sizes: Vec<u64>) -> (r: Self)
        requires
            (PartitionView { sizes: sizes@ }).wf(),
        ensures
            r@ == (PartitionView { sizes: sizes@ }),
            r@.wf(),
    {
        Partition { sizes }
    }

    /// Get the element sizes.
    pub fn sizes(&self) -> (r: &[u64])
        ensures
            r@ == self@.sizes,
    {
        self.sizes.as_slice()
    }

    /// Get the number of elements.
    pub fn num_elements(&self) -> (r: usize)
        ensures
            r == self@.sizes.len(),
    {
        self.sizes.len()
    }

    /// Get the sum of all sizes.
    pub fn total_sum(&self) -> (r: u64)
        requires
            sum_u64(self@.sizes) <= u64::MAX,
        ensures
            r == sum_u64(self@.sizes),
    {
        sum_u64s(self.sizes.as_slice()) as u64
    }

    /// One binary variable per element.
    pub fn dims(&self) -> (r: Vec<usize>)
        ensures
            r@ == Seq::new(self@.sizes.len(), |i: int| 2usize),
    {
        crate::util::repeat_usize(2, self.sizes.len())
    }

    /// Whether the selected elements sum to half of the total.
    pub fn evaluate(&self, config: &[usize]) -> (r: Or)
        ensures
            r == Or(is_equal_split(self@, config@)),
    {
        if config.len() != self.sizes.len() || !check_all_below(config, 2) {
            return Or(false);
        }
        let selected = selected_value_u64(self.sizes.as_slice(), config);
        let total = sum_u64s(self.sizes.as_slice());
        proof {
            lemma_selected_le_total(self@.sizes, config@);
        }
        Or(selected == total - selected)
    }
}

/// The selected part of nonnegative sizes never exceeds the whole.
proof fn lemma_selected_le_total(sizes: Seq<u64>, config: Seq<usize>)
    requires
        config.len() == sizes.len(),
    ensures
        0 <= selected_sum(ints_u64(sizes), config) <= sum_u64(sizes),
    decreases config.len(),
{
    if config.len() > 0 {
        lemma_selected_le_total(sizes.drop_last(), config.drop_last());
        lemma_selected_sum_prefix_values(sizes, config.drop_last());
    }
}

/// Only the first `config.len()` values matter to a selected sum.
proof fn lemma_selected_sum_prefix_values(sizes: Seq<u64>, config: Seq<usize>)
    requires
        config.len() < sizes.len(),
    ensures
        selected_sum(ints_u64(sizes), config) == selected_sum(ints_u64(sizes.drop_last()), config),
    decreases config.len(),
{
    if config.len() > 0 {
        lemma_selected_sum_prefix_values(sizes, config.drop_last());
    }
}

} // verus!
