//! Sequencing to Minimize Weighted Tardiness.
//!
//! Tasks with processing times, weights and deadlines run one after another
//! on a single processor; decide whether some order keeps the total weighted
//! tardiness within the bound. A configuration is a Lehmer code of the order.
use crate::models::misc::sequencing_to_minimize_weighted_completion_time::elapsed_time;
use crate::types::Or;
use crate::util::{decode_lehmer, lehmer_decode, lehmer_dims};
use vstd::prelude::*;

verus! {

/// Mathematical model of a [`SequencingToMinimizeWeightedTardiness`] instance.
pub struct TardinessInstanceView {
    pub lengths: Seq<u64>,
    pub weights: Seq<u64>,
    pub deadlines: Seq<u64>,
    pub bound: u64,
}

impl TardinessInstanceView {
    /// One weight and one deadline per task.
    pub open spec fn wf(self) -> bool {
        self.weights.len() == self.lengths.len() && self.deadlines.len() == self.lengths.len()
    }
}

/// How far past its deadline the `k`-th task of `order` (counting from one)
/// finishes, or zero.
pub open spec fn tardiness_at(m: TardinessInstanceView, order: Seq<usize>, k: int) -> nat {
    let finish = elapsed_time(m.lengths, order, k);
    let deadline = m.deadlines[order[k - 1] as int] as nat;
    if finish > deadline {
        (finish - deadline) as nat
    } else {
        0
    }
}

/// Sum over the first `k` tasks of `order` of weight times tardiness.
pub open spec fn weighted_tardiness(m: TardinessInstanceView, order: Seq<usize>, k: int) -> nat
    decreases k,
{
    if k <= 0 {
        0
    } else {
        weighted_tardiness(m, order, k - 1) + m.weights[order[k - 1] as int] as nat * tardiness_at(m, order, k)
    }
}

/// The total weighted tardiness of the order a configuration encodes, when
/// the code is valid and the total fits in a `u64`.
pub open spec fn tardiness_total(m: TardinessInstanceView, config: Seq<usize>) -> Option<nat> {
    match lehmer_decode(config, m.lengths.len() as usize) {
        Some(order) => {
            let t = weighted_tardiness(m, order, order.len() as int);
            if t <= u64::MAX {
                Some(t)
            } else {
                None
            }
        },
        None => None,
    }
}

proof fn lemma_weighted_tardiness_mono(m: TardinessInstanceView, order: Seq<usize>, i: int, j: int)
    requires
        0 <= i <= j,
    ensures
        weighted_tardiness(m, order, i) <= weighted_tardiness(m, order, j),
    decreases j - i,
{
    if i < j {
        lemma_weighted_tardiness_mono(m, order, i, j - 1);
    }
}

proof fn lemma_product_fits(a: u64, b: u128, c: int)
    requires
        a * b <= c,
        c <= u128::MAX,
    ensures
        (a as int) * (b as int) <= u128::MAX,
{
}

/// The Sequencing to Minimize Weighted Tardiness problem.
#[derive(Debug)]
pub struct SequencingToMinimizeWeightedTardiness {
    lengths: Vec<u64>,
    weights: Vec<u64>,
    deadlines: Vec<u64>,
    bound: u64,
}

impl View for SequencingToMinimizeWeightedTardiness {
    type V = TardinessInstanceView;

    closed spec fn view(&self) -> TardinessInstanceView {
        TardinessInstanceView {
            lengths: self.lengths@,
            weights: self.weights@,
            deadlines: self.deadlines@,
            bound: self.bound,
        }
    }
}

impl SequencingToMinimizeWeightedTardiness {
    /// One weight and one deadline per task.
    #[verifier::type_invariant]
    pub closed spec fn inv(self) -> bool {
        self@.wf()
    }

    /// Create a new instance with one weight and one deadline per task.
    pub fn new(lengths: Vec<u64>, weights: Vec<u64>, deadlines: Vec<u64>, bound: u64) -> (r: Self)
        requires
            weights@.len() == lengths@.len(),
            deadlines@.len() == lengths@.len(),
        ensures
            r@ == (TardinessInstanceView { lengths: lengths@, weights: weights@, deadlines: deadlines@, bound }),
    {
        SequencingToMinimizeWeightedTardiness { lengths, weights, deadlines, bound }
    }

    /// Get the processing times.
    pub fn lengths(&self) -> (r: &[u64])
        ensures
            r@ == self@.lengths,
    {
        self.lengths.as_slice()
    }

    /// Get the task weights.
    pub fn weights(&self) -> (r: &[u64])
        ensures
            r@ == self@.weights,
    {
        self.weights.as_slice()
    }

    /// Get the deadlines.
    pub fn deadlines(&self) -> (r: &[u64])
        ensures
            r@ == self@.deadlines,
    {
        self.deadlines.as_slice()
    }

    /// Get the bound on the total weighted tardiness.
    pub fn bound(&self) -> (r: u64)
        ensures
            r == self@.bound,
    {
        self.bound
    }

    /// Get the number of tasks.
    pub fn num_tasks(&self) -> (r: usize)
        ensures
            r == self@.lengths.len(),
    {
        self.lengths.len()
    }

    /// Total weighted tardiness of an order, when it fits in a `u64`.
    fn schedule_weighted_tardiness(&self, order: &[usize]) -> (r: Option<u64>)
        requires
            crate::util::is_permutation(order@, self@.lengths.len()),
            weighted_tardiness(self@, order@, order@.len() as int) <= u128::MAX,
        ensures
            match r {
                Some(t) => t == weighted_tardiness(self@, order@, order@.len() as int),
                None => weighted_tardiness(self@, order@, order@.len() as int) > u64::MAX,
            },
    {
        proof {
            use_type_invariant(self);
        }
        let n = order.len();
        let ghost m = self@;
        let ghost ord = order@;
        proof {
            lemma_weighted_tardiness_mono(m, ord, 0, n as int);
        }
        let mut completion: u128 = 0;
        let mut total: u128 = 0;
        for k in 0..n
            invariant
                m == self@,
                m.wf(),
                ord == order@,
                n == ord.len(),
                n == m.lengths.len(),
                crate::util::is_permutation(ord, n as nat),
                weighted_tardiness(m, ord, n as int) <= u128::MAX,
                completion == elapsed_time(m.lengths, ord, k as int),
                completion <= k * 0xffff_ffff_ffff_ffff,
                total == weighted_tardiness(m, ord, k as int),
        {
            let job = order[k];
            assert(ord[k as int] < n);
            completion = completion + self.lengths[job] as u128;
            let deadline = self.deadlines[job] as u128;
            let tardiness: u128 = if completion > deadline { completion - deadline } else { 0 };
            let w = self.weights[job];
            proof {
                lemma_weighted_tardiness_mono(m, ord, k + 1, n as int);
                assert(tardiness == tardiness_at(m, ord, k + 1));
                assert(weighted_tardiness(m, ord, k + 1) == total + w * tardiness);
                lemma_product_fits(w, tardiness, weighted_tardiness(m, ord, n as int) as int);
            }
            total = total + (w as u128) * tardiness;
        }
        if total <= u64::MAX as u128 {
            Some(total as u64)
        } else {
            None
        }
    }

    /// Total weighted tardiness of the encoded order; `None` when the code is
    /// not a valid Lehmer code or the total does not fit in a `u64`.
    pub fn total_weighted_tardiness(&self, config: &[usize]) -> (r: Option<u64>)
        requires
            lehmer_decode(config@, self@.lengths.len() as usize) matches Some(order) ==> weighted_tardiness(
                self@,
                order,
                order.len() as int,
            ) <= u128::MAX,
        ensures
            match r {
                Some(t) => tardiness_total(self@, config@) == Some(t as nat),
                None => tardiness_total(self@, config@) is None,
            },
    {
        let n = self.lengths.len();
        match decode_lehmer(config, n) {
            Some(order) => {
                proof {
                    crate::util::lemma_lehmer_decode_permutation(config@, n);
                }
                self.schedule_weighted_tardiness(order.as_slice())
            },
            None => None,
        }
    }

    /// Position `i` of the Lehmer code ranges over `0..n-i`.
    pub fn dims(&self) -> (r: Vec<usize>)
        ensures
            r@.len() == self@.lengths.len(),
            forall|i: int| 0 <= i < r@.len() ==> r@[i] == self@.lengths.len() - i,
    {
        lehmer_dims(self.lengths.len())
    }

    /// Whether the encoded order has total weighted tardiness within the bound.
    pub fn evaluate(&self, config: &[usize]) -> (r: Or)
        requires
            lehmer_decode(config@, self@.lengths.len() as usize) matches Some(order) ==> weighted_tardiness(
                self@,
                order,
                order.len() as int,
            ) <= u128::MAX,
        ensures
            r.0 == (tardiness_total(self@, config@) matches Some(t) && t <= self@.bound),
    {
        match self.total_weighted_tardiness(config) {
            Some(total) => Or(total <= self.bound),
            None => Or(false),
        }
    }
}

} // verus!
