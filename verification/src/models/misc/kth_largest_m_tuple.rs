//! K-th Largest m-Tuple.
//!
//! Given `m` sets of positive integers, a threshold `K` and a bound `B`,
//! decide whether at least `K` of the tuples (one element chosen from each
//! set) have sum at least `B`. A configuration chooses one element index per
//! set; it counts 1 when its sum reaches the bound.
use crate::types::Sum;
use crate::util::rows_u64;
use vstd::prelude::*;

verus! {

/// Mathematical model of a [`KthLargestMTuple`] instance.
pub struct KthLargestView {
    pub sets: Seq<Seq<u64>>,
    pub k: u64,
    pub bound: u64,
}

/// Some set is empty.
pub open spec fn has_empty_set(sets: Seq<Seq<u64>>) -> bool {
    exists|i: int| 0 <= i < sets.len() && (#[trigger] sets[i]).len() == 0
}

/// Some set contains 0.
pub open spec fn has_zero(sets: Seq<Seq<u64>>) -> bool {
    exists|i: int| 0 <= i < sets.len() && (#[trigger] sets[i]).contains(0)
}

/// The reason the instance is rejected, if any, in the order the checks are
/// made.
pub open spec fn tuple_instance_error(sets: Seq<Seq<u64>>, k: u64, bound: u64) -> Option<Seq<char>> {
    if sets.len() == 0 {
        Some("KthLargestMTuple requires at least one set"@)
    } else if has_empty_set(sets) {
        Some("Every set must be non-empty"@)
    } else if has_zero(sets) {
        Some("All sizes must be positive (> 0)"@)
    } else if k == 0 {
        Some("Threshold K must be positive"@)
    } else if bound == 0 {
        Some("Bound B must be positive"@)
    } else {
        None
    }
}

/// Sum of the chosen elements of the first `i` sets.
pub open spec fn tuple_sum(sets: Seq<Seq<u64>>, config: Seq<usize>, i: int) -> int
    decreases i,
{
    if i <= 0 {
        0
    } else {
        tuple_sum(sets, config, i - 1) + sets[i - 1][config[i - 1] as int] as int
    }
}

/// The configuration chooses an element of every set and the tuple sum
/// reaches the bound.
pub open spec fn tuple_reaches_bound(m: KthLargestView, config: Seq<usize>) -> bool {
    &&& config.len() == m.sets.len()
    &&& forall|i: int| 0 <= i < config.len() ==> #[trigger] config[i] < m.sets[i].len()
    &&& tuple_sum(m.sets, config, config.len() as int) >= m.bound
}

/// Product of the set sizes of the first `i` sets.
pub open spec fn size_product(sets: Seq<Seq<u64>>, i: int) -> nat
    decreases i,
{
    if i <= 0 {
        1
    } else {
        size_product(sets, i - 1) * sets[i - 1].len()
    }
}

/// The K-th Largest m-Tuple problem.
#[derive(Debug)]
pub struct KthLargestMTuple {
    sets: Vec<Vec<u64>>,
    k: u64,
    bound: u64,
}

impl View for KthLargestMTuple {
    type V = KthLargestView;

    closed spec fn view(&self) -> KthLargestView {
        KthLargestView { sets: rows_u64(self.sets@), k: self.k, bound: self.bound }
    }
}

impl KthLargestMTuple {
    /// The stored instance passed validation.
    #[verifier::type_invariant]
    pub closed spec fn inv(self) -> bool {
        tuple_instance_error(self@.sets, self@.k, self@.bound) is None
    }

    fn validate(sets: &Vec<Vec<u64>>, k: u64, bound: u64) -> (r: Result<(), String>)
        ensures
            match r {
                Ok(()) => tuple_instance_error(rows_u64(sets@), k, bound) is None,
                Err(e) => tuple_instance_error(rows_u64(sets@), k, bound) == Some(e@),
            },
    {
        let ghost rows = rows_u64(sets@);
        if sets.len() == 0 {
            return Err("KthLargestMTuple requires at least one set".to_owned());
        }
        for i in 0..sets.len()
            invariant
                rows == rows_u64(sets@),
                forall|j: int| 0 <= j < i ==> (#[trigger] rows[j]).len() > 0,
        {
            assert(rows[i as int] == sets@[i as int]@);
            if sets[i].len() == 0 {
                return Err("Every set must be non-empty".to_owned());
            }
        }
        for i in 0..sets.len()
            invariant
                rows == rows_u64(sets@),
                !has_empty_set(rows),
                forall|j: int| 0 <= j < i ==> !(#[trigger] rows[j]).contains(0),
        {
            assert(rows[i as int] == sets@[i as int]@);
            let set = &sets[i];
            for j in 0..set.len()
                invariant
                    forall|l: int| 0 <= l < j ==> set@[l] != 0,
            {
                if set[j] == 0 {
                    assert(rows[i as int].contains(0)) by {
                        assert(rows[i as int][j as int] == 0);
                    }
                    return Err("All sizes must be positive (> 0)".to_owned());
                }
            }
        }
        if k == 0 {
            return Err("Threshold K must be positive".to_owned());
        }
        if bound == 0 {
            return Err("Bound B must be positive".to_owned());
        }
        Ok(())
    }

    /// Create an instance, or report the first problem found.
    pub fn try_new(sets: Vec<Vec<u64>>, k: u64, bound: u64) -> (r: Result<Self, String>)
        ensures
            match r {
                Ok(p) => tuple_instance_error(rows_u64(sets@), k, bound) is None && p@ == (KthLargestView {
                    sets: rows_u64(sets@),
                    k,
                    bound,
                }),
                Err(e) => tuple_instance_error(rows_u64(sets@), k, bound) == Some(e@),
            },
    {
        match Self::validate(&sets, k, bound) {
            Ok(()) => Ok(KthLargestMTuple { sets, k, bound }),
            Err(e) => Err(e),
        }
    }

    /// Create an instance that passes validation.
    pub fn new(sets: Vec<Vec<u64>>, k: u64, bound: u64) -> (r: Self)
        requires
            tuple_instance_error(rows_u64(sets@), k, bound) is None,
        ensures
            r@ == (KthLargestView { sets: rows_u64(sets@), k, bound }),
    {
        match Self::try_new(sets, k, bound) {
            Ok(p) => p,
            Err(_) => vstd::pervasive::unreached(),
        }
    }

    /// Get the sets.
    pub fn sets(&self) -> (r: &[Vec<u64>])
        ensures
            rows_u64(r@) == self@.sets,
    {
        self.sets.as_slice()
    }

    /// Get the threshold K.
    pub fn k(&self) -> (r: u64)
        ensures
            r == self@.k,
    {
        self.k
    }

    /// Get the bound B.
    pub fn bound(&self) -> (r: u64)
        ensures
            r == self@.bound,
    {
        self.bound
    }

    /// Get the number of sets.
    pub fn num_sets(&self) -> (r: usize)
        ensures
            r == self@.sets.len(),
    {
        self.sets.len()
    }

    /// Number of tuples: the product of the set sizes.
    pub fn total_tuples(&self) -> (r: usize)
        requires
            forall|i: int| 0 <= i <= self@.sets.len() ==> #[trigger] size_product(self@.sets, i) <= usize::MAX,
        ensures
            r == size_product(self@.sets, self@.sets.len() as int),
    {
        let mut total: usize = 1;
        for i in 0..self.sets.len()
            invariant
                forall|j: int| 0 <= j <= self@.sets.len() ==> #[trigger] size_product(self@.sets, j) <= usize::MAX,
                total == size_product(self@.sets, i as int),
        {
            assert(self@.sets[i as int] == self.sets@[i as int]@);
            assert(size_product(self@.sets, i + 1) <= usize::MAX);
            total = total * self.sets[i].len();
        }
        total
    }

    /// One variable per set, ranging over its elements.
    pub fn dims(&self) -> (r: Vec<usize>)
        ensures
            r@.len() == self@.sets.len(),
            forall|i: int| 0 <= i < r@.len() ==> #[trigger] r@[i] == self@.sets[i].len(),
    {
        let mut r: Vec<usize> = Vec::new();
        for i in 0..self.sets.len()
            invariant
                r@.len() == i,
                forall|j: int| 0 <= j < i ==> #[trigger] r@[j] == self@.sets[j].len(),
        {
            assert(self@.sets[i as int] == self.sets@[i as int]@);
            r.push(self.sets[i].len());
        }
        r
    }

    /// `Sum(1)` when the chosen tuple reaches the bound, `Sum(0)` otherwise.
    pub fn evaluate(&self, config: &[usize]) -> (r: Sum<u64>)
        ensures
            r == (if tuple_reaches_bound(self@, config@) { Sum(1u64) } else { Sum(0u64) }),
    {
        if config.len() != self.sets.len() {
            return Sum(0);
        }
        for i in 0..config.len()
            invariant
                config@.len() == self@.sets.len(),
                forall|j: int| 0 <= j < i ==> #[trigger] config@[j] < self@.sets[j].len(),
        {
            assert(self@.sets[i as int] == self.sets@[i as int]@);
            if config[i] >= self.sets[i].len() {
                return Sum(0);
            }
        }
        let mut total: u128 = 0;
        for i in 0..config.len()
            invariant
                config@.len() == self@.sets.len(),
                forall|j: int| 0 <= j < config@.len() ==> #[trigger] config@[j] < self@.sets[j].len(),
                total == tuple_sum(self@.sets, config@, i as int),
                total <= i * 0xffff_ffff_ffff_ffff,
        {
            assert(self@.sets[i as int] == self.sets@[i as int]@);
            assert(config@[i as int] < self@.sets[i as int].len());
            total = total + self.sets[i][config[i]] as u128;
        }
        if total >= self.bound as u128 {
            Sum(1)
        } else {
            Sum(0)
        }
    }
}

} // verus!
