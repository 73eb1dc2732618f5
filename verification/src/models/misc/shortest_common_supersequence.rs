//! Shortest Common Supersequence.
//!
//! Given strings over a finite alphabet, find a shortest string that has each
//! of them as a subsequence. A configuration has one position per symbol of
//! the inputs (their total length); the value `alphabet_size` is padding and
//! may only fill a suffix.
use crate::models::misc::longest_common_subsequence::{
    first_padding, is_subseq, is_subsequence, lemma_first_padding, length_sum,
};
use crate::types::Min;
use crate::util::{all_below, rows_of};
use vstd::prelude::*;

verus! {

/// Mathematical model of a [`ShortestCommonSupersequence`] instance.
pub struct ScsView {
    pub alphabet_size: nat,
    pub strings: Seq<Seq<usize>>,
    pub max_length: nat,
}

/// Every string is empty.
pub open spec fn all_empty(strings: Seq<Seq<usize>>) -> bool {
    forall|i: int| 0 <= i < strings.len() ==> (#[trigger] strings[i]).len() == 0
}

/// The instance is accepted: at least one string, a nonempty alphabet unless
/// every string is empty, and a total length that fits in a `usize`.
pub open spec fn scs_accepts(alphabet_size: usize, strings: Seq<Seq<usize>>) -> bool {
    &&& strings.len() > 0
    &&& alphabet_size > 0 || all_empty(strings)
    &&& forall|k: int| 0 <= k <= strings.len() ==> #[trigger] length_sum(strings, k, 0) <= usize::MAX
}

/// Length of the candidate when `config` is a supersequence of every string
/// followed only by padding; `None` otherwise.
pub open spec fn supersequence_length(m: ScsView, config: Seq<usize>) -> Option<nat> {
    let pad = m.alphabet_size as usize;
    let e = first_padding(config, pad);
    let prefix = config.take(e);
    if config.len() != m.max_length {
        None
    } else if exists|i: int| e <= i < config.len() && #[trigger] config[i] != pad {
        None
    } else if !all_below(prefix, m.alphabet_size as int) {
        None
    } else if exists|k: int| 0 <= k < m.strings.len() && !is_subseq(#[trigger] m.strings[k], prefix) {
        None
    } else {
        Some(e as nat)
    }
}

/// The Shortest Common Supersequence problem.
#[derive(Debug)]
pub struct ShortestCommonSupersequence {
    alphabet_size: usize,
    strings: Vec<Vec<usize>>,
    max_length: usize,
}

impl View for ShortestCommonSupersequence {
    type V = ScsView;

    closed spec fn view(&self) -> ScsView {
        ScsView {
            alphabet_size: self.alphabet_size as nat,
            strings: rows_of(self.strings@),
            max_length: self.max_length as nat,
        }
    }
}

impl ShortestCommonSupersequence {
    /// The stored instance was accepted and `max_length` is the total length.
    #[verifier::type_invariant]
    pub closed spec fn inv(self) -> bool {
        &&& scs_accepts(self.alphabet_size, self@.strings)
        &&& self.max_length == length_sum(self@.strings, self@.strings.len() as int, 0)
    }

    /// Create a new instance; `max_length` is the total length of the strings.
    pub fn new(alphabet_size: usize, strings: Vec<Vec<usize>>) -> (r: Self)
        requires
            scs_accepts(alphabet_size, rows_of(strings@)),
        ensures
            r@ == (ScsView {
                alphabet_size: alphabet_size as nat,
                strings: rows_of(strings@),
                max_length: length_sum(rows_of(strings@), strings@.len() as int, 0),
            }),
    {
        let ghost rows = rows_of(strings@);
        let mut total: usize = 0;
        for k in 0..strings.len()
            invariant
                rows == rows_of(strings@),
                scs_accepts(alphabet_size, rows),
                total == length_sum(rows, k as int, 0),
        {
            assert(rows[k as int].len() == strings@[k as int]@.len());
            assert(length_sum(rows, k + 1, 0) <= usize::MAX);
            total = total + strings[k].len();
        }
        ShortestCommonSupersequence { alphabet_size, strings, max_length: total }
    }

    /// Get the alphabet size.
    pub fn alphabet_size(&self) -> (r: usize)
        ensures
            r == self@.alphabet_size,
    {
        self.alphabet_size
    }

    /// Get the input strings.
    pub fn strings(&self) -> (r: &[Vec<usize>])
        ensures
            rows_of(r@) == self@.strings,
    {
        self.strings.as_slice()
    }

    /// Get the number of positions of a configuration (the total length).
    pub fn max_length(&self) -> (r: usize)
        ensures
            r == self@.max_length,
    {
        self.max_length
    }

    /// Get the number of strings.
    pub fn num_strings(&self) -> (r: usize)
        ensures
            r == self@.strings.len(),
    {
        self.strings.len()
    }

    /// Sum of the string lengths.
    pub fn total_length(&self) -> (r: usize)
        ensures
            r == length_sum(self@.strings, self@.strings.len() as int, 0),
    {
        proof {
            use_type_invariant(self);
        }
        let mut total: usize = 0;
        for k in 0..self.strings.len()
            invariant
                scs_accepts(self.alphabet_size, self@.strings),
                total == length_sum(self@.strings, k as int, 0),
        {
            assert(self@.strings[k as int].len() == self.strings@[k as int]@.len());
            assert(length_sum(self@.strings, k + 1, 0) <= usize::MAX);
            total = total + self.strings[k].len();
        }
        total
    }

    /// Each position chooses a symbol or padding.
    pub fn dims(&self) -> (r: Vec<usize>)
        requires
            self@.alphabet_size + 1 <= usize::MAX,
        ensures
            r@ == Seq::new(self@.max_length, |i: int| (self@.alphabet_size + 1) as usize),
    {
        crate::util::repeat_usize(self.alphabet_size + 1, self.max_length)
    }

    /// Length of a common supersequence followed by padding; `Min(None)`
    /// otherwise.
    pub fn evaluate(&self, config: &[usize]) -> (r: Min<usize>)
        ensures
            r.0 matches Some(l) ==> supersequence_length(self@, config@) == Some(l as nat),
            r.0 is None ==> supersequence_length(self@, config@) is None,
    {
        if config.len() != self.max_length {
            return Min(None);
        }
        let padding = self.alphabet_size;
        let ghost pad = padding;
        proof {
            lemma_first_padding(config@, pad);
        }
        let mut effective_length: usize = 0;
        while effective_length < config.len() && config[effective_length] != padding
            invariant
                effective_length <= config@.len(),
                effective_length <= first_padding(config@, pad),
                0 <= first_padding(config@, pad) <= config@.len(),
                first_padding(config@, pad) < config@.len() ==> config@[first_padding(config@, pad)] == pad,
                forall|j: int| 0 <= j < first_padding(config@, pad) ==> config@[j] != pad,
            decreases config@.len() - effective_length,
        {
            effective_length = effective_length + 1;
        }
        assert(effective_length == first_padding(config@, pad));
        for i in effective_length..config.len()
            invariant
                forall|j: int| effective_length <= j < i ==> config@[j] == pad,
        {
            if config[i] != padding {
                assert(config@[i as int] != pad);
                return Min(None);
            }
        }
        let prefix = vstd::slice::slice_subrange(config, 0, effective_length);
        assert(prefix@ =~= config@.take(effective_length as int));
        for i in 0..prefix.len()
            invariant
                forall|j: int| 0 <= j < i ==> #[trigger] prefix@[j] < self@.alphabet_size,
        {
            if prefix[i] >= self.alphabet_size {
                assert(!(prefix@[i as int] < self@.alphabet_size));
                return Min(None);
            }
        }
        for k in 0..self.strings.len()
            invariant
                forall|j: int| 0 <= j < k ==> is_subseq(#[trigger] self@.strings[j], prefix@),
        {
            assert(self@.strings[k as int] == self.strings@[k as int]@);
            if !is_subsequence(self.strings[k].as_slice(), prefix) {
                return Min(None);
            }
        }
        Min(Some(effective_length))
    }
}

} // verus!
