//! Bin Packing.
//!
//! Given item sizes and a bin capacity, assign every item to a bin so that no
//! bin overflows, using as few bins as possible. A configuration gives each
//! item its bin index among `0..n`.
use crate::types::{Direction, SolutionSize};
use crate::util::{all_below, check_all_below, count_true, count_true_flags};
use vstd::prelude::*;

verus! {

/// Mathematical model of a [`BinPacking`] instance.
pub struct BinPackingView {
    pub sizes: Seq<i32>,
    pub capacity: i32,
}

/// Total size of the first `k` items placed in bin `b`.
pub open spec fn bin_load(sizes: Seq<i32>, config: Seq<usize>, b: usize, k: int) -> int
    decreases k,
{
    if k <= 0 {
        0
    } else {
        bin_load(sizes, config, b, k - 1) + (if config[k - 1] == b { sizes[k - 1] as int } else { 0 })
    }
}

/// Every item has a bin among `0..n` and no bin holds more than the capacity.
pub open spec fn is_valid_packing(m: BinPackingView, config: Seq<usize>) -> bool {
    let n = m.sizes.len();
    &&& config.len() == n
    &&& all_below(config, n as int)
    &&& forall|b: usize| b < n ==> #[trigger] bin_load(m.sizes, config, b, n as int) <= m.capacity
}

/// Flags the bins `0..n` that hold at least one item.
pub open spec fn used_bins(config: Seq<usize>) -> Seq<bool> {
    Seq::new(config.len(), |b: int| config.contains(b as usize))
}

/// The Bin Packing problem.
#[derive(Debug, Clone)]
pub struct BinPacking {
    sizes: Vec<i32>,
    capacity: i32,
}

impl View for BinPacking {
    type V = BinPackingView;

    closed spec fn view(&self) -> BinPackingView {
        BinPackingView { sizes: self.sizes@, capacity: self.capacity }
    }
}

/// Whether the configuration packs the items without overflowing any bin.
fn check_packing(sizes: &[i32], capacity: i32, config: &[usize]) -> (r: bool)
    ensures
        r == is_valid_packing(BinPackingView { sizes: sizes@, capacity }, config@),
{
    let n = sizes.len();
    if config.len() != n {
        return false;
    }
    if !check_all_below(config, n) {
        return false;
    }
    let mut loads = vec![0i128; n];
    for i in 0..n
        invariant
            n == sizes@.len(),
            config@.len() == n,
            all_below(config@, n as int),
            loads@.len() == n,
            forall|b: int| 0 <= b < n ==> #[trigger] loads@[b] == bin_load(sizes@, config@, b as usize, i as int),
            forall|b: int| 0 <= b < n ==> -(i as int) * 0x8000_0000 <= #[trigger] loads@[b] <= (i as int) * 0x8000_0000,
    {
        let b = config[i];
        loads.set(b, loads[b] + sizes[i] as i128);
    }
    for b in 0..n
        invariant
            n == sizes@.len(),
            config@.len() == n,
            loads@.len() == n,
            forall|c: int| 0 <= c < n ==> #[trigger] loads@[c] == bin_load(sizes@, config@, c as usize, n as int),
            forall|c: usize| c < b ==> #[trigger] bin_load(sizes@, config@, c, n as int) <= capacity,
    {
        assert(loads@[b as int] == bin_load(sizes@, config@, b, n as int));
        if loads[b] > capacity as i128 {
            return false;
        }
    }
    true
}

/// Number of distinct bins that hold at least one item.
fn count_bins(config: &[usize]) -> (r: usize)
    ensures
        r == count_true(used_bins(config@)),
{
    let n = config.len();
    let mut used = vec![false; n];
    for i in 0..n
        invariant
            n == config@.len(),
            used@.len() == n,
            forall|b: int| 0 <= b < n ==> #[trigger] used@[b] == config@.take(i as int).contains(b as usize),
    {
        let bin = config[i];
        let ghost before = used@;
        if bin < n {
            used.set(bin, true);
        }
        assert forall|b: int| 0 <= b < n implies #[trigger] used@[b] == config@.take(i + 1).contains(b as usize) by {
            let t1 = config@.take(i + 1);
            let t0 = config@.take(i as int);
            assert(t1 =~= t0.push(bin));
            if b == bin as int {
                assert(t1[i as int] == bin);
            } else {
                if t0.contains(b as usize) {
                    let j = choose|j: int| 0 <= j < t0.len() && t0[j] == b as usize;
                    assert(t1[j] == b as usize);
                }
                if t1.contains(b as usize) {
                    let j = choose|j: int| 0 <= j < t1.len() && t1[j] == b as usize;
                    assert(t0[j] == b as usize);
                }
            }
        }
    }
    assert(config@.take(n as int) =~= config@);
    assert(used@ =~= used_bins(config@));
    count_true_flags(used.as_slice())
}

impl BinPacking {
    /// Create a new instance.
    pub fn new(sizes: Vec<i32>, capacity: i32) -> (r: Self)
        ensures
            r@ == (BinPackingView { sizes: sizes@, capacity }),
    {
        BinPacking { sizes, capacity }
    }

    /// Get the item sizes.
    pub fn sizes(&self) -> (r: &[i32])
        ensures
            r@ == self@.sizes,
    {
        self.sizes.as_slice()
    }

    /// Get the bin capacity.
    pub fn capacity(&self) -> (r: i32)
        ensures
            r == self@.capacity,
    {
        self.capacity
    }

    /// Get the number of items.
    pub fn num_items(&self) -> (r: usize)
        ensures
            r == self@.sizes.len(),
    {
        self.sizes.len()
    }

    /// Each item chooses one of `n` bins.
    pub fn dims(&self) -> (r: Vec<usize>)
        ensures
            r@ == Seq::new(self@.sizes.len(), |i: int| self@.sizes.len() as usize),
    {
        let n = self.sizes.len();
        crate::util::repeat_usize(n, n)
    }

    /// Number of bins used by a valid packing; `Invalid` otherwise.
    pub fn evaluate(&self, config: &[usize]) -> (r: SolutionSize<i32>)
        ensures
            match r {
                SolutionSize::Valid(v) => is_valid_packing(self@, config@) && v == count_true(used_bins(config@)) as i32,
                SolutionSize::Invalid => !is_valid_packing(self@, config@),
            },
    {
        if !check_packing(self.sizes.as_slice(), self.capacity, config) {
            return SolutionSize::Invalid;
        }
        let num_bins = count_bins(config);
        SolutionSize::Valid(num_bins as i32)
    }

    /// Bin Packing is a minimization problem.
    pub fn direction(&self) -> (r: Direction)
        ensures
            r == Direction::Minimize,
    {
        Direction::Minimize
    }
}

} // verus!
