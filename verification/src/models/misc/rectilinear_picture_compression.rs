//! Rectilinear Picture Compression.
//!
//! Given a binary matrix and a bound `K`, decide whether at most `K`
//! axis-aligned all-ones rectangles cover every 1-entry. The candidate
//! rectangles are the maximal all-ones rectangles, precomputed in
//! lexicographic order; a configuration selects a subset of them.
use crate::util::{count_of, count_value};
use vstd::prelude::*;

verus! {

/// A rectangle `(r1, c1, r2, c2)`: rows `r1..=r2` and columns `c1..=c2`.
pub type Rectangle = (usize, usize, usize, usize);

/// The rows of a `bool` matrix, each viewed as a sequence.
pub open spec fn bool_rows(rows: Seq<Vec<bool>>) -> Seq<Seq<bool>> {
    rows.map_values(|row: Vec<bool>| row@)
}

/// A matrix with at least one row and one column, all rows equally long.
pub open spec fn is_matrix(mat: Seq<Seq<bool>>) -> bool {
    &&& mat.len() > 0
    &&& mat[0].len() > 0
    &&& forall|r: int| 0 <= r < mat.len() ==> (#[trigger] mat[r]).len() == mat[0].len()
}

/// Every entry of rows `r1..=r2` and columns `c1..=c2` is `true`.
pub open spec fn all_ones(mat: Seq<Seq<bool>>, r1: int, c1: int, r2: int, c2: int) -> bool {
    forall|r: int, c: int| r1 <= r <= r2 && c1 <= c <= c2 ==> #[trigger] mat[r][c]
}

/// The rectangle lies inside the matrix.
pub open spec fn in_bounds(mat: Seq<Seq<bool>>, t: Rectangle) -> bool {
    t.0 <= t.2 < mat.len() && t.1 <= t.3 < mat[0].len()
}

/// An all-ones rectangle that cannot grow by a row or a column in any direction.
pub open spec fn is_maximal(mat: Seq<Seq<bool>>, t: Rectangle) -> bool {
    let (r1, c1, r2, c2) = (t.0 as int, t.1 as int, t.2 as int, t.3 as int);
    &&& in_bounds(mat, t)
    &&& all_ones(mat, r1, c1, r2, c2)
    &&& !(c1 > 0 && all_ones(mat, r1, c1 - 1, r2, c1 - 1))
    &&& !(c2 + 1 < mat[0].len() && all_ones(mat, r1, c2 + 1, r2, c2 + 1))
    &&& !(r1 > 0 && all_ones(mat, r1 - 1, c1, r1 - 1, c2))
    &&& !(r2 + 1 < mat.len() && all_ones(mat, r2 + 1, c1, r2 + 1, c2))
}

/// Lexicographic order on rectangles.
pub open spec fn lex_lt(a: Rectangle, b: Rectangle) -> bool {
    a.0 < b.0 || (a.0 == b.0 && (a.1 < b.1 || (a.1 == b.1 && (a.2 < b.2 || (a.2 == b.2 && a.3 < b.3)))))
}

/// `rects` lists exactly the maximal all-ones rectangles, in increasing
/// lexicographic order.
pub open spec fn lists_maximal(mat: Seq<Seq<bool>>, rects: Seq<Rectangle>) -> bool {
    &&& forall|i: int, j: int| 0 <= i < j < rects.len() ==> lex_lt(#[trigger] rects[i], #[trigger] rects[j])
    &&& forall|t: Rectangle| #![trigger rects.contains(t)] #![trigger is_maximal(mat, t)] rects.contains(t) <==> is_maximal(mat, t)
}

/// Mathematical model of a [`RectilinearPictureCompression`] instance.
pub struct PictureView {
    pub matrix: Seq<Seq<bool>>,
    pub bound: i64,
    pub maximal_rects: Seq<Rectangle>,
}

/// Cell `(r, c)` lies in rectangle `t`.
pub open spec fn covers(t: Rectangle, r: int, c: int) -> bool {
    t.0 <= r <= t.2 && t.1 <= c <= t.3
}

/// Some selected rectangle covers cell `(r, c)`.
pub open spec fn covered(rects: Seq<Rectangle>, config: Seq<usize>, r: int, c: int) -> bool {
    exists|i: int| 0 <= i < config.len() && config[i] == 1 && #[trigger] covers(rects[i], r, c)
}

/// The selection is a 0/1 vector over the maximal rectangles, of at most
/// `bound` rectangles, covering every 1-entry.
pub open spec fn compresses(m: PictureView, config: Seq<usize>) -> bool {
    &&& config.len() == m.maximal_rects.len()
    &&& forall|i: int| 0 <= i < config.len() ==> #[trigger] config[i] < 2
    &&& count_of(config, 1) <= m.bound
    &&& forall|r: int, c: int|
        0 <= r < m.matrix.len() && 0 <= c < m.matrix[0].len() && #[trigger] m.matrix[r][c] ==> covered(
            m.maximal_rects,
            config,
            r,
            c,
        )
}

/// Whether rows `r1..=r2` and columns `c1..=c2` hold only `true`.
fn range_all_ones(matrix: &Vec<Vec<bool>>, r1: usize, c1: usize, r2: usize, c2: usize) -> (b: bool)
    requires
        is_matrix(bool_rows(matrix@)),
        r1 <= r2 < matrix@.len(),
        c1 <= c2 < matrix@[0]@.len(),
    ensures
        b == all_ones(bool_rows(matrix@), r1 as int, c1 as int, r2 as int, c2 as int),
{
    let ghost mat = bool_rows(matrix@);
    let rows = matrix.len();
    let cols = matrix[0].len();
    assert(mat[0] == matrix@[0]@);
    assert(r2 < rows && c2 < cols);
    for r in r1..r2 + 1
        invariant
            mat == bool_rows(matrix@),
            is_matrix(mat),
            r2 < mat.len(),
            c1 <= c2 < mat[0].len(),
            forall|a: int, b: int| r1 <= a < r && c1 <= b <= c2 ==> #[trigger] mat[a][b],
    {
        assert(mat[r as int] == matrix@[r as int]@);
        assert(mat[r as int].len() == mat[0].len());
        for c in c1..c2 + 1
            invariant
                mat == bool_rows(matrix@),
                is_matrix(mat),
                r1 <= r <= r2 < mat.len(),
                c1 <= c2 < mat[0].len(),
                mat[r as int] == matrix@[r as int]@,
                mat[r as int].len() == mat[0].len(),
                forall|a: int, b: int| r1 <= a < r && c1 <= b <= c2 ==> #[trigger] mat[a][b],
                forall|b: int| c1 <= b < c ==> #[trigger] mat[r as int][b],
        {
            if !matrix[r][c] {
                assert(!mat[r as int][c as int]);
                return false;
            }
        }
    }
    true
}

/// Whether the in-bounds rectangle is all ones and maximal.
fn check_maximal(matrix: &Vec<Vec<bool>>, t: Rectangle) -> (b: bool)
    requires
        is_matrix(bool_rows(matrix@)),
        in_bounds(bool_rows(matrix@), t),
    ensures
        b == is_maximal(bool_rows(matrix@), t),
{
    let (r1, c1, r2, c2) = t;
    let m = matrix.len();
    let n = matrix[0].len();
    if !range_all_ones(matrix, r1, c1, r2, c2) {
        return false;
    }
    if c1 > 0 && range_all_ones(matrix, r1, c1 - 1, r2, c1 - 1) {
        return false;
    }
    if c2 + 1 < n && range_all_ones(matrix, r1, c2 + 1, r2, c2 + 1) {
        return false;
    }
    if r1 > 0 && range_all_ones(matrix, r1 - 1, c1, r1 - 1, c2) {
        return false;
    }
    if r2 + 1 < m && range_all_ones(matrix, r2 + 1, c1, r2 + 1, c2) {
        return false;
    }
    true
}

/// The maximal all-ones rectangles of the matrix, in increasing
/// lexicographic order.
fn compute_maximal_rectangles(matrix: &Vec<Vec<bool>>) -> (rects: Vec<Rectangle>)
    requires
        is_matrix(bool_rows(matrix@)),
    ensures
        lists_maximal(bool_rows(matrix@), rects@),
{
    let ghost mat = bool_rows(matrix@);
    let m = matrix.len();
    let n = matrix[0].len();
    assert(mat[0] == matrix@[0]@);
    let mut rects: Vec<Rectangle> = Vec::new();
    for r1 in 0..m
        invariant
            mat == bool_rows(matrix@),
            is_matrix(mat),
            m == mat.len(),
            n == mat[0].len(),
            forall|i: int, j: int| 0 <= i < j < rects@.len() ==> lex_lt(#[trigger] rects@[i], #[trigger] rects@[j]),
            forall|t: Rectangle|
                #![trigger rects@.contains(t)]
                #![trigger is_maximal(mat, t)]
                rects@.contains(t) <==> is_maximal(mat, t) && t.0 < r1,
    {
        for c1 in 0..n
            invariant
                mat == bool_rows(matrix@),
                is_matrix(mat),
                m == mat.len(),
                n == mat[0].len(),
                r1 < m,
                forall|i: int, j: int| 0 <= i < j < rects@.len() ==> lex_lt(#[trigger] rects@[i], #[trigger] rects@[j]),
                forall|t: Rectangle|
                    #![trigger rects@.contains(t)]
                    #![trigger is_maximal(mat, t)]
                    rects@.contains(t) <==> is_maximal(mat, t) && (t.0 < r1 || (t.0 == r1 && t.1 < c1)),
        {
            for r2 in r1..m
                invariant
                    mat == bool_rows(matrix@),
                    is_matrix(mat),
                    m == mat.len(),
                    n == mat[0].len(),
                    r1 < m,
                    c1 < n,
                    forall|i: int, j: int| 0 <= i < j < rects@.len() ==> lex_lt(#[trigger] rects@[i], #[trigger] rects@[j]),
                    forall|t: Rectangle|
                        #![trigger rects@.contains(t)]
                        #![trigger is_maximal(mat, t)]
                        rects@.contains(t) <==> is_maximal(mat, t) && (t.0 < r1 || (t.0 == r1 && t.1 < c1) || (
                        t.0 == r1 && t.1 == c1 && t.2 < r2)),
            {
                for c2 in c1..n
                    invariant
                        mat == bool_rows(matrix@),
                        is_matrix(mat),
                        m == mat.len(),
                        n == mat[0].len(),
                        r1 <= r2 < m,
                        c1 < n,
                        forall|i: int, j: int|
                            0 <= i < j < rects@.len() ==> lex_lt(#[trigger] rects@[i], #[trigger] rects@[j]),
                        forall|t: Rectangle|
                            #![trigger rects@.contains(t)]
                            #![trigger is_maximal(mat, t)]
                            rects@.contains(t) <==> is_maximal(mat, t) && (t.0 < r1 || (t.0 == r1 && t.1 < c1) || (
                            t.0 == r1 && t.1 == c1 && t.2 < r2) || (t.0 == r1 && t.1 == c1 && t.2 == r2 && t.3 < c2)),
                {
                    let t: Rectangle = (r1, c1, r2, c2);
                    if check_maximal(matrix, t) {
                        let ghost old_rects = rects@;
                        proof {
                            assert forall|i: int| 0 <= i < old_rects.len() implies lex_lt(old_rects[i], t) by {
                                assert(old_rects.contains(old_rects[i]));
                            }
                        }
                        rects.push(t);
                        proof {
                            assert forall|i: int, j: int| 0 <= i < j < rects@.len() implies lex_lt(
                                #[trigger] rects@[i],
                                #[trigger] rects@[j],
                            ) by {
                                if j == old_rects.len() {
                                    assert(rects@[i] == old_rects[i]);
                                } else {
                                    assert(rects@[i] == old_rects[i] && rects@[j] == old_rects[j]);
                                }
                            }
                            assert forall|u: Rectangle| rects@.contains(u) implies old_rects.contains(u) || u == t by {
                                let k = choose|k: int| 0 <= k < rects@.len() && rects@[k] == u;
                                if k < old_rects.len() {
                                    assert(old_rects[k] == u);
                                }
                            }
                            assert forall|u: Rectangle| old_rects.contains(u) implies rects@.contains(u) by {
                                let k = choose|k: int| 0 <= k < old_rects.len() && old_rects[k] == u;
                                assert(rects@[k] == u);
                            }
                            assert(rects@[old_rects.len() as int] == t);
                        }
                    }
                }
            }
        }
    }
    rects
}

/// The Rectilinear Picture Compression problem.
#[derive(Debug)]
pub struct RectilinearPictureCompression {
    matrix: Vec<Vec<bool>>,
    bound: i64,
    maximal_rects: Vec<Rectangle>,
}

impl View for RectilinearPictureCompression {
    type V = PictureView;

    closed spec fn view(&self) -> PictureView {
        PictureView { matrix: bool_rows(self.matrix@), bound: self.bound, maximal_rects: self.maximal_rects@ }
    }
}

impl RectilinearPictureCompression {
    /// The matrix is rectangular and the candidates are its maximal
    /// all-ones rectangles in lexicographic order.
    #[verifier::type_invariant]
    pub closed spec fn inv(self) -> bool {
        is_matrix(self@.matrix) && lists_maximal(self@.matrix, self@.maximal_rects)
    }

    /// Create a new instance from a nonempty rectangular matrix.
    pub fn new(matrix: Vec<Vec<bool>>, bound: i64) -> (r: Self)
        requires
            is_matrix(bool_rows(matrix@)),
        ensures
            r@.matrix == bool_rows(matrix@),
            r@.bound == bound,
            lists_maximal(r@.matrix, r@.maximal_rects),
    {
        let maximal_rects = compute_maximal_rectangles(&matrix);
        RectilinearPictureCompression { matrix, bound, maximal_rects }
    }

    /// Get the number of rows.
    pub fn num_rows(&self) -> (r: usize)
        ensures
            r == self@.matrix.len(),
    {
        self.matrix.len()
    }

    /// Get the number of columns.
    pub fn num_cols(&self) -> (r: usize)
        ensures
            r == self@.matrix[0].len(),
    {
        proof {
            use_type_invariant(self);
        }
        assert(self@.matrix[0] == self.matrix@[0]@);
        self.matrix[0].len()
    }

    /// Get the bound on the number of rectangles.
    pub fn bound(&self) -> (r: i64)
        ensures
            r == self@.bound,
    {
        self.bound
    }

    /// Get the matrix.
    pub fn matrix(&self) -> (r: &[Vec<bool>])
        ensures
            bool_rows(r@) == self@.matrix,
    {
        self.matrix.as_slice()
    }

    /// Get the maximal all-ones rectangles, in lexicographic order.
    pub fn maximal_rectangles(&self) -> (r: &[Rectangle])
        ensures
            r@ == self@.maximal_rects,
            lists_maximal(self@.matrix, r@),
    {
        proof {
            use_type_invariant(self);
        }
        self.maximal_rects.as_slice()
    }

    /// Each maximal rectangle is selected or not.
    pub fn dims(&self) -> (r: Vec<usize>)
        ensures
            r@ == Seq::new(self@.maximal_rects.len(), |i: int| 2usize),
    {
        crate::util::repeat_usize(2, self.maximal_rects.len())
    }

    /// Whether some selected rectangle covers cell `(r, c)`.
    fn cell_covered(&self, config: &[usize], r: usize, c: usize) -> (b: bool)
        requires
            config@.len() == self@.maximal_rects.len(),
        ensures
            b == covered(self@.maximal_rects, config@, r as int, c as int),
    {
        let ghost m = self@;
        for i in 0..self.maximal_rects.len()
            invariant
                m == self@,
                config@.len() == m.maximal_rects.len(),
                forall|q: int| 0 <= q < i ==> !(config@[q] == 1 && #[trigger] covers(m.maximal_rects[q], r as int, c as int)),
        {
            let (r1, c1, r2, c2) = self.maximal_rects[i];
            assert(m.maximal_rects[i as int] == (r1, c1, r2, c2));
            if config[i] == 1 && r1 <= r && r <= r2 && c1 <= c && c <= c2 {
                assert(covers(m.maximal_rects[i as int], r as int, c as int));
                return true;
            }
        }
        false
    }

    /// Whether the selection uses at most `bound` rectangles and covers every
    /// 1-entry.
    pub fn evaluate(&self, config: &[usize]) -> (r: bool)
        ensures
            r == compresses(self@, config@),
    {
        proof {
            use_type_invariant(self);
        }
        let k = self.maximal_rects.len();
        if config.len() != k {
            return false;
        }
        for i in 0..k
            invariant
                config@.len() == k,
                forall|q: int| 0 <= q < i ==> #[trigger] config@[q] < 2,
        {
            if config[i] >= 2 {
                assert(!(config@[i as int] < 2));
                return false;
            }
        }
        let selected = count_value(config, 1);
        if self.bound < 0 || selected as u64 > self.bound as u64 {
            return false;
        }
        let ghost m = self@;
        let rows = self.matrix.len();
        let cols = self.matrix[0].len();
        assert(m.matrix[0] == self.matrix@[0]@);
        for r in 0..rows
            invariant
                m == self@,
                is_matrix(m.matrix),
                rows == m.matrix.len(),
                cols == m.matrix[0].len(),
                config@.len() == k,
                k == m.maximal_rects.len(),
                forall|a: int, b: int|
                    0 <= a < r && 0 <= b < cols && #[trigger] m.matrix[a][b] ==> covered(
                        m.maximal_rects,
                        config@,
                        a,
                        b,
                    ),
        {
            assert(m.matrix[r as int] == self.matrix@[r as int]@);
            assert(m.matrix[r as int].len() == cols);
            for c in 0..cols
                invariant
                    m == self@,
                    is_matrix(m.matrix),
                    rows == m.matrix.len(),
                    cols == m.matrix[0].len(),
                    r < rows,
                    m.matrix[r as int] == self.matrix@[r as int]@,
                    m.matrix[r as int].len() == cols,
                    config@.len() == k,
                    k == m.maximal_rects.len(),
                    forall|a: int, b: int|
                        0 <= a < r && 0 <= b < cols && #[trigger] m.matrix[a][b] ==> covered(
                            m.maximal_rects,
                            config@,
                            a,
                            b,
                        ),
                    forall|b: int|
                        0 <= b < c && #[trigger] m.matrix[r as int][b] ==> covered(
                            m.maximal_rects,
                            config@,
                            r as int,
                            b,
                        ),
            {
                if self.matrix[r][c] && !self.cell_covered(config, r, c) {
                    return false;
                }
            }
        }
        true
    }
}

} // verus!
