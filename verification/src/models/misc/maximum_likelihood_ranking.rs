//! Maximum Likelihood Ranking.
//!
//! Given a square matrix of pairwise comparison counts (`matrix[a][b]` counts
//! how often `a` was preferred to `b`), find a ranking of the items that
//! minimizes the total disagreement: the sum of `matrix[a][b]` over pairs
//! where `a` is ranked after `b`. A configuration gives each item its rank.
use crate::types::Min;
use crate::util::{check_permutation, is_permutation};
use vstd::prelude::*;

verus! {

/// Mathematical model of a [`MaximumLikelihoodRanking`] instance.
pub struct RankingView {
    pub matrix: Seq<Seq<i32>>,
}

/// The rows of an `i32` matrix, each viewed as a sequence.
pub open spec fn rows_i32(rows: Seq<Vec<i32>>) -> Seq<Seq<i32>> {
    rows.map_values(|row: Vec<i32>| row@)
}

impl RankingView {
    /// The matrix is square with a zero diagonal, and every off-diagonal pair
    /// `matrix[i][j] + matrix[j][i]` (computed in `i32`) has the same value.
    pub open spec fn wf(self) -> bool {
        let n = self.matrix.len();
        &&& forall|i: int| 0 <= i < n ==> (#[trigger] self.matrix[i]).len() == n && self.matrix[i][i] == 0
        &&& forall|i: int, j: int|
            0 <= i < n && 0 <= j < n ==> i32::MIN <= #[trigger] (self.matrix[i][j] + self.matrix[j][i]) <= i32::MAX
        &&& forall|i: int, j: int, k: int, l: int|
            0 <= i < j < n && 0 <= k < l < n ==> #[trigger] (self.matrix[i][j] + self.matrix[j][i]) == #[trigger] (
            self.matrix[k][l] + self.matrix[l][k])
    }
}

/// Disagreement of item `a` against the items `0..k`.
pub open spec fn row_cost(matrix: Seq<Seq<i32>>, config: Seq<usize>, a: int, k: int) -> int
    decreases k,
{
    if k <= 0 {
        0
    } else {
        let b = k - 1;
        row_cost(matrix, config, a, k - 1) + (if a != b && config[a] > config[b] { matrix[a][b] as int } else { 0 })
    }
}

/// Disagreement of the items `0..a` against all items.
pub open spec fn ranking_cost(matrix: Seq<Seq<i32>>, config: Seq<usize>, a: int) -> int
    decreases a,
{
    if a <= 0 {
        0
    } else {
        ranking_cost(matrix, config, a - 1) + row_cost(matrix, config, a - 1, matrix.len() as int)
    }
}

/// Total disagreement of a ranking, `None` when `config` is not a
/// permutation of the ranks.
pub open spec fn disagreement(m: RankingView, config: Seq<usize>) -> Option<int> {
    if is_permutation(config, m.matrix.len()) {
        Some(ranking_cost(m.matrix, config, m.matrix.len() as int))
    } else {
        None
    }
}

/// The Maximum Likelihood Ranking problem.
#[derive(Debug)]
pub struct MaximumLikelihoodRanking {
    matrix: Vec<Vec<i32>>,
}

impl View for MaximumLikelihoodRanking {
    type V = RankingView;

    closed spec fn view(&self) -> RankingView {
        RankingView { matrix: rows_i32(self.matrix@) }
    }
}

impl MaximumLikelihoodRanking {
    /// The stored instance is well formed.
    #[verifier::type_invariant]
    pub closed spec fn inv(self) -> bool {
        self@.wf()
    }

    /// Create a new instance.
    pub fn new(matrix: Vec<Vec<i32>>) -> (r: Self)
        requires
            (RankingView { matrix: rows_i32(matrix@) }).wf(),
        ensures
            r@ == (RankingView { matrix: rows_i32(matrix@) }),
    {
        MaximumLikelihoodRanking { matrix }
    }

    /// Get the comparison matrix.
    pub fn matrix(&self) -> (r: &Vec<Vec<i32>>)
        ensures
            rows_i32(r@) == self@.matrix,
    {
        &self.matrix
    }

    /// Get the number of items.
    pub fn num_items(&self) -> (r: usize)
        ensures
            r == self@.matrix.len(),
    {
        self.matrix.len()
    }

    /// Number of comparisons per pair of items (0 with fewer than two items).
    pub fn comparison_count(&self) -> (r: i32)
        ensures
            r == (if self@.matrix.len() < 2 { 0 } else { self@.matrix[0][1] + self@.matrix[1][0] }),
    {
        proof {
            use_type_invariant(self);
        }
        if self.matrix.len() < 2 {
            return 0;
        }
        assert(self@.matrix[0] == self.matrix@[0]@);
        assert(self@.matrix[1] == self.matrix@[1]@);
        assert(i32::MIN <= self@.matrix[0][1] + self@.matrix[1][0] <= i32::MAX);
        self.matrix[0][1] + self.matrix[1][0]
    }

    /// Each item chooses one of `n` ranks.
    pub fn dims(&self) -> (r: Vec<usize>)
        ensures
            r@ == Seq::new(self@.matrix.len(), |i: int| self@.matrix.len() as usize),
    {
        let n = self.matrix.len();
        crate::util::repeat_usize(n, n)
    }

    /// Total disagreement of a ranking; `Min(None)` for a non-permutation.
    pub fn evaluate(&self, config: &[usize]) -> (r: Min<i64>)
        requires
            self@.matrix.len() * self@.matrix.len() <= usize::MAX,
            disagreement(self@, config@) matches Some(c) ==> i64::MIN <= c <= i64::MAX,
        ensures
            r.0 matches Some(c) ==> disagreement(self@, config@) == Some(c as int),
            r.0 is None ==> disagreement(self@, config@) is None,
    {
        proof {
            use_type_invariant(self);
        }
        let n = self.matrix.len();
        if !check_permutation(config, n) {
            return Min(None);
        }
        let mut cost: i128 = 0;
        for a in 0..n
            invariant
                self@.wf(),
                n == self@.matrix.len(),
                n * n <= usize::MAX,
                config@.len() == n,
                cost == ranking_cost(self@.matrix, config@, a as int),
                -(a * n) * 0x8000_0000 <= cost <= (a * n) * 0x8000_0000,
        {
            let row = &self.matrix[a];
            assert(self@.matrix[a as int] == row@);
            let mut row_total: i128 = 0;
            for b in 0..n
                invariant
                    self@.wf(),
                    n == self@.matrix.len(),
                    a < n,
                    config@.len() == n,
                    self@.matrix[a as int] == row@,
                    row@.len() == n,
                    row_total == row_cost(self@.matrix, config@, a as int, b as int),
                    -(b as int) * 0x8000_0000 <= row_total <= (b as int) * 0x8000_0000,
            {
                if a != b && config[a] > config[b] {
                    row_total = row_total + row[b] as i128;
                }
            }
            assert(-((a + 1) * n) * 0x8000_0000 <= cost + row_total <= ((a + 1) * n) * 0x8000_0000) by (nonlinear_arith)
                requires
                    -(a * n) * 0x8000_0000 <= cost <= (a * n) * 0x8000_0000,
                    -(n as int) * 0x8000_0000 <= row_total <= (n as int) * 0x8000_0000,
            ;
            assert((a + 1) * n <= n * n) by (nonlinear_arith)
                requires
                    a < n,
            ;
            cost = cost + row_total;
        }
        Min(Some(cost as i64))
    }
}

} // verus!
