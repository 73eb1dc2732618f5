//! Sequencing to Minimize Weighted Completion Time.
//!
//! Tasks with processing times, weights and precedence constraints run one
//! after another on a single processor; minimize the total weighted
//! completion time over the orders respecting the precedences. A
//! configuration is a Lehmer code of the order.
use crate::message::{out_of_range_message, out_of_range_text};
use crate::types::Min;
use crate::util::{
    check_order_respects, contains_zero, decode_lehmer, has_zero, lehmer_decode, lehmer_dims, order_respects,
    pairs_below, sum_u64,
};
use vstd::prelude::*;

verus! {

/// Mathematical model of a [`SequencingToMinimizeWeightedCompletionTime`] instance.
pub struct SequencingCompletionView {
    pub lengths: Seq<u64>,
    pub weights: Seq<u64>,
    pub precedences: Seq<(usize, usize)>,
}

/// The first precedence pair, from position `k` on, naming a task outside
/// `0..n`, reported as its message.
pub open spec fn precedence_error_from(precedences: Seq<(usize, usize)>, n: usize, k: int) -> Option<Seq<char>>
    decreases precedences.len() - k,
{
    if k < 0 || k >= precedences.len() {
        None
    } else if precedences[k].0 >= n {
        Some(out_of_range_text("predecessor"@, precedences[k].0, n))
    } else if precedences[k].1 >= n {
        Some(out_of_range_text("successor"@, precedences[k].1, n))
    } else {
        precedence_error_from(precedences, n, k + 1)
    }
}

/// The reason an instance is rejected, if any, in the order the checks are made.
pub open spec fn sequencing_instance_error(lengths: Seq<u64>, weights: Seq<u64>, precedences: Seq<(usize, usize)>) -> Option<
    Seq<char>,
> {
    if lengths.len() != weights.len() {
        Some("lengths length must equal weights length"@)
    } else if has_zero(lengths) {
        Some("task lengths must be positive"@)
    } else {
        precedence_error_from(precedences, lengths.len() as usize, 0)
    }
}

/// Sum of the lengths of the first `k` tasks of `order`: the completion time
/// of the `k`-th task.
pub open spec fn elapsed_time(lengths: Seq<u64>, order: Seq<usize>, k: int) -> nat
    decreases k,
{
    if k <= 0 {
        0
    } else {
        elapsed_time(lengths, order, k - 1) + lengths[order[k - 1] as int] as nat
    }
}

/// Sum over the first `k` tasks of `order` of weight times completion time.
pub open spec fn weighted_completion(m: SequencingCompletionView, order: Seq<usize>, k: int) -> nat
    decreases k,
{
    if k <= 0 {
        0
    } else {
        weighted_completion(m, order, k - 1) + m.weights[order[k - 1] as int] as nat * elapsed_time(
            m.lengths,
            order,
            k,
        )
    }
}

/// Total weighted completion time of the order a configuration encodes, if
/// that order respects the precedences; `None` otherwise.
pub open spec fn sequencing_cost(m: SequencingCompletionView, config: Seq<usize>) -> Option<nat> {
    match lehmer_decode(config, m.lengths.len() as usize) {
        Some(order) => if order_respects(order, m.precedences) {
            Some(weighted_completion(m, order, order.len() as int))
        } else {
            None
        },
        None => None,
    }
}

/// No error from position `k` on means every later pair names existing tasks.
proof fn lemma_no_precedence_error(precedences: Seq<(usize, usize)>, n: usize, k: int)
    requires
        0 <= k,
        precedence_error_from(precedences, n, k) is None,
    ensures
        forall|q: int| k <= q < precedences.len() ==> (#[trigger] precedences[q]).0 < n && precedences[q].1 < n,
    decreases precedences.len() - k,
{
    if k < precedences.len() {
        lemma_no_precedence_error(precedences, n, k + 1);
    }
}

proof fn lemma_elapsed_mono(lengths: Seq<u64>, order: Seq<usize>, i: int, j: int)
    requires
        0 <= i <= j,
    ensures
        elapsed_time(lengths, order, i) <= elapsed_time(lengths, order, j),
    decreases j - i,
{
    if i < j {
        lemma_elapsed_mono(lengths, order, i, j - 1);
    }
}

proof fn lemma_weighted_mono(m: SequencingCompletionView, order: Seq<usize>, i: int, j: int)
    requires
        0 <= i <= j,
    ensures
        weighted_completion(m, order, i) <= weighted_completion(m, order, j),
    decreases j - i,
{
    if i < j {
        lemma_weighted_mono(m, order, i, j - 1);
    }
}

/// Check the precedence pairs from position `0`, reporting the first one
/// naming a task outside `0..n`.
fn check_precedence_range(precedences: &[(usize, usize)], n: usize) -> (r: Result<(), String>)
    ensures
        match r {
            Ok(()) => precedence_error_from(precedences@, n, 0) is None,
            Err(e) => precedence_error_from(precedences@, n, 0) == Some(e@),
        },
{
    let ghost p = precedences@;
    for k in 0..precedences.len()
        invariant
            p == precedences@,
            precedence_error_from(p, n, 0) == precedence_error_from(p, n, k as int),
    {
        let (pred, succ) = precedences[k];
        assert(p[k as int] == (pred, succ));
        if pred >= n {
            return Err(out_of_range_message("predecessor", pred, n));
        }
        if succ >= n {
            return Err(out_of_range_message("successor", succ, n));
        }
    }
    Ok(())
}

/// The Sequencing to Minimize Weighted Completion Time problem.
#[derive(Debug)]
pub struct SequencingToMinimizeWeightedCompletionTime {
    lengths: Vec<u64>,
    weights: Vec<u64>,
    precedences: Vec<(usize, usize)>,
}

impl View for SequencingToMinimizeWeightedCompletionTime {
    type V = SequencingCompletionView;

    closed spec fn view(&self) -> SequencingCompletionView {
        SequencingCompletionView { lengths: self.lengths@, weights: self.weights@, precedences: self.precedences@ }
    }
}

impl SequencingToMinimizeWeightedCompletionTime {
    /// The stored instance passed validation.
    #[verifier::type_invariant]
    pub closed spec fn inv(self) -> bool {
        sequencing_instance_error(self.lengths@, self.weights@, self.precedences@) is None
    }

    /// Check an instance, reporting the first problem found.
    pub fn validate(lengths: &[u64], weights: &[u64], precedences: &[(usize, usize)]) -> (r: Result<(), String>)
        ensures
            match r {
                Ok(()) => sequencing_instance_error(lengths@, weights@, precedences@) is None,
                Err(e) => sequencing_instance_error(lengths@, weights@, precedences@) == Some(e@),
            },
    {
        if lengths.len() != weights.len() {
            return Err("lengths length must equal weights length".to_owned());
        }
        if contains_zero(lengths) {
            return Err("task lengths must be positive".to_owned());
        }
        check_precedence_range(precedences, lengths.len())
    }

    /// Create a new instance that passes validation.
    pub fn new(lengths: Vec<u64>, weights: Vec<u64>, precedences: Vec<(usize, usize)>) -> (r: Self)
        requires
            sequencing_instance_error(lengths@, weights@, precedences@) is None,
        ensures
            r@ == (SequencingCompletionView { lengths: lengths@, weights: weights@, precedences: precedences@ }),
    {
        SequencingToMinimizeWeightedCompletionTime { lengths, weights, precedences }
    }

    /// Get the number of tasks.
    pub fn num_tasks(&self) -> (r: usize)
        ensures
            r == self@.lengths.len(),
    {
        self.lengths.len()
    }

    /// Get the processing times.
    pub fn lengths(&self) -> (r: &[u64])
        ensures
            r@ == self@.lengths,
    {
        self.lengths.as_slice()
    }

    /// Get the task weights.
    pub fn weights(&self) -> (r: &[u64])
        ensures
            r@ == self@.weights,
    {
        self.weights.as_slice()
    }

    /// Get the precedence pairs.
    pub fn precedences(&self) -> (r: &[(usize, usize)])
        ensures
            r@ == self@.precedences,
    {
        self.precedences.as_slice()
    }

    /// Get the number of precedence pairs.
    pub fn num_precedences(&self) -> (r: usize)
        ensures
            r == self@.precedences.len(),
    {
        self.precedences.len()
    }

    /// Sum of all processing times.
    pub fn total_processing_time(&self) -> (r: u64)
        requires
            sum_u64(self@.lengths) <= u64::MAX,
        ensures
            r == sum_u64(self@.lengths),
    {
        crate::util::sum_u64s(self.lengths.as_slice()) as u64
    }

    /// Position `i` of the Lehmer code ranges over `0..n-i`.
    pub fn dims(&self) -> (r: Vec<usize>)
        ensures
            r@.len() == self@.lengths.len(),
            forall|i: int| 0 <= i < r@.len() ==> r@[i] == self@.lengths.len() - i,
    {
        lehmer_dims(self.lengths.len())
    }

    /// Total weighted completion time of the encoded order; `None` when the
    /// code is not a valid Lehmer code or the order breaks a precedence.
    pub fn evaluate(&self, config: &[usize]) -> (r: Min<u64>)
        requires
            lehmer_decode(config@, self@.lengths.len() as usize) matches Some(order) ==> elapsed_time(
                self@.lengths,
                order,
                order.len() as int,
            ) <= u64::MAX,
            sequencing_cost(self@, config@) matches Some(c) ==> c <= u64::MAX,
        ensures
            match r.0 {
                Some(c) => sequencing_cost(self@, config@) == Some(c as nat),
                None => sequencing_cost(self@, config@) is None,
            },
    {
        proof {
            use_type_invariant(self);
        }
        let n = self.lengths.len();
        let order = match decode_lehmer(config, n) {
            Some(order) => order,
            None => return Min(None),
        };
        proof {
            crate::util::lemma_lehmer_decode_permutation(config@, n);
        }
        proof {
            lemma_no_precedence_error(self@.precedences, n, 0);
        }
        if !check_order_respects(order.as_slice(), self.precedences.as_slice(), n) {
            return Min(None);
        }
        let ghost m = self@;
        let ghost ord = order@;
        proof {
            lemma_weighted_mono(m, ord, 0, n as int);
        }
        let mut elapsed: u64 = 0;
        let mut total: u64 = 0;
        for k in 0..n
            invariant
                m == self@,
                ord == order@,
                n == m.lengths.len(),
                n == m.weights.len(),
                crate::util::is_permutation(ord, n as nat),
                elapsed_time(m.lengths, ord, n as int) <= u64::MAX,
                weighted_completion(m, ord, n as int) <= u64::MAX,
                elapsed == elapsed_time(m.lengths, ord, k as int),
                total == weighted_completion(m, ord, k as int),
        {
            let task = order[k];
            assert(ord[k as int] < n);
            proof {
                lemma_elapsed_mono(m.lengths, ord, k + 1, n as int);
                lemma_weighted_mono(m, ord, k + 1, n as int);
            }
            elapsed = elapsed + self.lengths[task];
            let w = self.weights[task];
            proof {
                assert(weighted_completion(m, ord, k + 1) == total + w * elapsed);
            }
            total = total + w * elapsed;
        }
        Min(Some(total))
    }
}

} // verus!
