//! Longest Common Subsequence.
//!
//! Given strings over a finite alphabet, find a longest string that is a
//! subsequence of each of them. A configuration has `max_length` positions
//! (the length of the shortest input); the value `alphabet_size` is padding
//! and may only fill a suffix.
use crate::types::Max;
use crate::util::{all_below, rows_of};
use vstd::prelude::*;

verus! {

/// Mathematical model of a [`LongestCommonSubsequence`] instance.
pub struct LcsView {
    pub alphabet_size: nat,
    pub strings: Seq<Seq<usize>>,
    pub max_length: nat,
}

/// Length of the shortest of the first `k` strings (0 when there are none).
pub open spec fn min_length(strings: Seq<Seq<usize>>, k: int) -> nat
    decreases k,
{
    if k <= 0 {
        0
    } else if k == 1 {
        strings[0].len()
    } else {
        let m = min_length(strings, k - 1);
        if strings[k - 1].len() < m { strings[k - 1].len() } else { m }
    }
}

impl LcsView {
    /// The instance is well formed: symbols are below the alphabet size and
    /// `max_length` is the length of the shortest string.
    pub open spec fn wf(self) -> bool {
        &&& forall|i: int| 0 <= i < self.strings.len() ==> all_below(#[trigger] self.strings[i], self.alphabet_size as int)
        &&& self.max_length == min_length(self.strings, self.strings.len() as int)
    }
}

/// `c` is a subsequence of `t`: matching the symbols of `c` greedily against
/// `t` from left to right succeeds.
pub open spec fn is_subseq(c: Seq<usize>, t: Seq<usize>) -> bool
    decreases c.len() + t.len(),
{
    if c.len() == 0 {
        true
    } else if t.len() == 0 {
        false
    } else if c[0] == t[0] {
        is_subseq(c.drop_first(), t.drop_first())
    } else {
        is_subseq(c, t.drop_first())
    }
}

/// Index of the first padding symbol (the length when there is none).
pub open spec fn first_padding(config: Seq<usize>, padding: usize) -> int
    decreases config.len(),
{
    if config.len() == 0 {
        0
    } else if config[0] == padding {
        0
    } else {
        1 + first_padding(config.drop_first(), padding)
    }
}

/// Length of the candidate when `config` is a common subsequence of every
/// string followed only by padding; `None` otherwise.
pub open spec fn common_subsequence_length(m: LcsView, config: Seq<usize>) -> Option<nat> {
    let pad = m.alphabet_size as usize;
    let e = first_padding(config, pad);
    let prefix = config.take(e);
    if config.len() != m.max_length {
        None
    } else if exists|i: int| e <= i < config.len() && #[trigger] config[i] != pad {
        None
    } else if !all_below(prefix, m.alphabet_size as int) {
        None
    } else if exists|k: int| 0 <= k < m.strings.len() && !is_subseq(prefix, #[trigger] m.strings[k]) {
        None
    } else {
        Some(e as nat)
    }
}

/// The term a string of length `l` contributes to a length statistic:
/// `l`, `l * l` or `l * (l + 1) / 2` for `kind` 0, 1 or 2.
pub open spec fn length_term(l: nat, kind: nat) -> nat {
    if kind == 0 {
        l
    } else if kind == 1 {
        l * l
    } else {
        l * (l + 1) / 2
    }
}

/// Sum over the first `k` strings of `length_term(length, kind)`.
pub open spec fn length_sum(strings: Seq<Seq<usize>>, k: int, kind: nat) -> nat
    decreases k,
{
    if k <= 0 {
        0
    } else {
        length_sum(strings, k - 1, kind) + length_term(strings[k - 1].len(), kind)
    }
}

/// Matching a prefix step by step.
pub proof fn lemma_first_padding(config: Seq<usize>, padding: usize)
    ensures
        0 <= first_padding(config, padding) <= config.len(),
        first_padding(config, padding) < config.len() ==> config[first_padding(config, padding)] == padding,
        forall|j: int| 0 <= j < first_padding(config, padding) ==> config[j] != padding,
    decreases config.len(),
{
    if config.len() > 0 && config[0] != padding {
        lemma_first_padding(config.drop_first(), padding);
        assert forall|j: int| 0 <= j < first_padding(config, padding) implies config[j] != padding by {
            if j > 0 {
                assert(config[j] == config.drop_first()[j - 1]);
            }
        }
    }
}

/// Whether `candidate` is a subsequence of `target` (greedy matching).
pub fn is_subsequence(candidate: &[usize], target: &[usize]) -> (r: bool)
    ensures
        r == is_subseq(candidate@, target@),
{
    let mut i: usize = 0;
    let mut j: usize = 0;
    assert(candidate@.skip(0) =~= candidate@);
    assert(target@.skip(0) =~= target@);
    while i < candidate.len()
        invariant
            i <= candidate@.len(),
            j <= target@.len(),
            is_subseq(candidate@, target@) == is_subseq(candidate@.skip(i as int), target@.skip(j as int)),
        decreases candidate@.len() - i + target@.len() - j,
    {
        let ghost c = candidate@.skip(i as int);
        let ghost t = target@.skip(j as int);
        if j >= target.len() {
            assert(t.len() == 0);
            return false;
        }
        assert(c[0] == candidate@[i as int]);
        assert(t[0] == target@[j as int]);
        assert(c.drop_first() =~= candidate@.skip(i + 1));
        assert(t.drop_first() =~= target@.skip(j + 1));
        if candidate[i] == target[j] {
            i = i + 1;
        }
        j = j + 1;
    }
    assert(candidate@.skip(i as int).len() == 0);
    true
}

/// The Longest Common Subsequence problem.
#[derive(Debug)]
pub struct LongestCommonSubsequence {
    alphabet_size: usize,
    strings: Vec<Vec<usize>>,
    max_length: usize,
}

impl View for LongestCommonSubsequence {
    type V = LcsView;

    closed spec fn view(&self) -> LcsView {
        LcsView { alphabet_size: self.alphabet_size as nat, strings: rows_of(self.strings@), max_length: self.max_length as nat }
    }
}

impl LongestCommonSubsequence {
    /// The stored instance is well formed.
    #[verifier::type_invariant]
    pub closed spec fn inv(self) -> bool {
        self@.wf()
    }

    /// Create a new instance; `max_length` is the length of the shortest string.
    /// At least one string must be non-empty.
    pub fn new(alphabet_size: usize, strings: Vec<Vec<usize>>) -> (r: Self)
        requires
            forall|i: int| 0 <= i < strings@.len() ==> all_below(#[trigger] strings@[i]@, alphabet_size as int),
            exists|i: int| 0 <= i < strings@.len() && #[trigger] strings@[i]@.len() > 0,
        ensures
            r@ == (LcsView {
                alphabet_size: alphabet_size as nat,
                strings: rows_of(strings@),
                max_length: min_length(rows_of(strings@), strings@.len() as int),
            }),
    {
        let ghost rows = rows_of(strings@);
        let mut max_length: usize = 0;
        for k in 0..strings.len()
            invariant
                rows == rows_of(strings@),
                max_length == min_length(rows, k as int),
        {
            let len = strings[k].len();
            assert(rows[k as int].len() == len);
            if k == 0 || len < max_length {
                max_length = len;
            }
        }
        proof {
            assert forall|i: int| 0 <= i < rows.len() implies all_below(#[trigger] rows[i], alphabet_size as int) by {
                assert(rows[i] == strings@[i]@);
            }
        }
        LongestCommonSubsequence { alphabet_size, strings, max_length }
    }

    /// Get the alphabet size.
    pub fn alphabet_size(&self) -> (r: usize)
        ensures
            r == self@.alphabet_size,
    {
        self.alphabet_size
    }

    /// Get the input strings.
    pub fn strings(&self) -> (r: &[Vec<usize>])
        ensures
            rows_of(r@) == self@.strings,
    {
        self.strings.as_slice()
    }

    /// Get the length of the shortest input string.
    pub fn max_length(&self) -> (r: usize)
        ensures
            r == self@.max_length,
    {
        self.max_length
    }

    /// Get the number of strings.
    pub fn num_strings(&self) -> (r: usize)
        ensures
            r == self@.strings.len(),
    {
        self.strings.len()
    }

    /// Sum of the string lengths.
    pub fn total_length(&self) -> (r: usize)
        requires
            forall|k: int| 0 <= k <= self@.strings.len() ==> #[trigger] length_sum(self@.strings, k, 0) <= usize::MAX,
        ensures
            r == length_sum(self@.strings, self@.strings.len() as int, 0),
    {
        let mut total: usize = 0;
        for k in 0..self.strings.len()
            invariant
                forall|j: int| 0 <= j <= self@.strings.len() ==> #[trigger] length_sum(self@.strings, j, 0) <= usize::MAX,
                total == length_sum(self@.strings, k as int, 0),
        {
            assert(self@.strings[k as int].len() == self.strings@[k as int]@.len());
            assert(length_sum(self@.strings, k + 1, 0) <= usize::MAX);
            total = total + self.strings[k].len();
        }
        total
    }

    /// Sum of the squared string lengths.
    pub fn sum_squared_lengths(&self) -> (r: usize)
        requires
            forall|k: int| 0 <= k <= self@.strings.len() ==> #[trigger] length_sum(self@.strings, k, 1) <= usize::MAX,
        ensures
            r == length_sum(self@.strings, self@.strings.len() as int, 1),
    {
        let mut total: usize = 0;
        for k in 0..self.strings.len()
            invariant
                forall|j: int| 0 <= j <= self@.strings.len() ==> #[trigger] length_sum(self@.strings, j, 1) <= usize::MAX,
                total == length_sum(self@.strings, k as int, 1),
        {
            let len = self.strings[k].len();
            assert(self@.strings[k as int].len() == len);
            assert(length_sum(self@.strings, k + 1, 1) <= usize::MAX);
            assert(len * len <= usize::MAX);
            total = total + len * len;
        }
        total
    }

    /// Sum of `len * (len + 1) / 2` over the strings.
    pub fn sum_triangular_lengths(&self) -> (r: usize)
        requires
            forall|k: int|
                0 <= k <= self@.strings.len() ==> #[trigger] length_sum(self@.strings, k, 2)
                    <= usize::MAX,
            forall|k: int| 0 <= k < self@.strings.len() ==> #[trigger] self@.strings[k].len() * (self@.strings[k].len() + 1) <= usize::MAX,
        ensures
            r == length_sum(self@.strings, self@.strings.len() as int, 2),
    {
        let mut total: usize = 0;
        for k in 0..self.strings.len()
            invariant
                forall|j: int|
                    0 <= j <= self@.strings.len() ==> #[trigger] length_sum(self@.strings, j, 2)
                        <= usize::MAX,
                forall|j: int| 0 <= j < self@.strings.len() ==> #[trigger] self@.strings[j].len() * (self@.strings[j].len() + 1) <= usize::MAX,
                total == length_sum(self@.strings, k as int, 2),
        {
            let len = self.strings[k].len();
            assert(self@.strings[k as int].len() == len);
            assert(length_sum(self@.strings, k + 1, 2) <= usize::MAX);
            assert(len * (len + 1) <= usize::MAX);
            assert(len + 1 <= usize::MAX) by (nonlinear_arith)
                requires
                    len * (len + 1) <= usize::MAX,
                    len >= 0,
            ;
            total = total + len * (len + 1) / 2;
        }
        total
    }

    /// Number of transitions between consecutive positions.
    pub fn num_transitions(&self) -> (r: usize)
        ensures
            r == (if self@.max_length == 0 { 0 } else { self@.max_length - 1 }),
    {
        if self.max_length == 0 { 0 } else { self.max_length - 1 }
    }

    /// Each position chooses a symbol or padding.
    pub fn dims(&self) -> (r: Vec<usize>)
        requires
            self@.alphabet_size + 1 <= usize::MAX,
        ensures
            r@ == Seq::new(self@.max_length, |i: int| (self@.alphabet_size + 1) as usize),
    {
        crate::util::repeat_usize(self.alphabet_size + 1, self.max_length)
    }

    /// Length of a common subsequence followed by padding; `Max(None)`
    /// otherwise.
    pub fn evaluate(&self, config: &[usize]) -> (r: Max<usize>)
        ensures
            r.0 matches Some(l) ==> common_subsequence_length(self@, config@) == Some(l as nat),
            r.0 is None ==> common_subsequence_length(self@, config@) is None,
    {
        if config.len() != self.max_length {
            return Max(None);
        }
        let padding = self.alphabet_size;
        let ghost pad = padding;
        proof {
            lemma_first_padding(config@, pad);
        }
        let mut effective_length: usize = 0;
        while effective_length < config.len() && config[effective_length] != padding
            invariant
                effective_length <= config@.len(),
                effective_length <= first_padding(config@, pad),
                0 <= first_padding(config@, pad) <= config@.len(),
                first_padding(config@, pad) < config@.len() ==> config@[first_padding(config@, pad)] == pad,
                forall|j: int| 0 <= j < first_padding(config@, pad) ==> config@[j] != pad,
            decreases config@.len() - effective_length,
        {
            effective_length = effective_length + 1;
        }
        assert(effective_length == first_padding(config@, pad));
        for i in effective_length..config.len()
            invariant
                forall|j: int| effective_length <= j < i ==> config@[j] == pad,
        {
            if config[i] != padding {
                assert(config@[i as int] != pad);
                return Max(None);
            }
        }
        let prefix = vstd::slice::slice_subrange(config, 0, effective_length);
        assert(prefix@ =~= config@.take(effective_length as int));
        for i in 0..prefix.len()
            invariant
                forall|j: int| 0 <= j < i ==> #[trigger] prefix@[j] < self@.alphabet_size,
        {
            if prefix[i] >= self.alphabet_size {
                assert(!(prefix@[i as int] < self@.alphabet_size));
                return Max(None);
            }
        }
        for k in 0..self.strings.len()
            invariant
                forall|j: int| 0 <= j < k ==> is_subseq(prefix@, #[trigger] self@.strings[j]),
        {
            assert(self@.strings[k as int] == self.strings@[k as int]@);
            if !is_subsequence(prefix, self.strings[k].as_slice()) {
                return Max(None);
            }
        }
        Max(Some(effective_length))
    }
}

} // verus!
