//! Grouping by Swapping.
//!
//! Given a string over a finite alphabet and a budget `K`, decide whether at
//! most `K` adjacent swaps make every symbol's occurrences contiguous. A
//! configuration lists `K` swap slots; slot `i < n - 1` swaps positions `i`
//! and `i + 1`, slot `n - 1` does nothing.
use crate::types::Or;
use crate::util::{all_below, check_all_below, copy_usizes};
use vstd::prelude::*;

verus! {

/// Mathematical model of a [`GroupingBySwapping`] instance.
pub struct GroupingBySwappingView {
    pub alphabet_size: nat,
    pub string: Seq<usize>,
    pub budget: nat,
}

impl GroupingBySwappingView {
    /// The instance is well formed: symbols are in the alphabet, and an empty
    /// string has a zero budget.
    pub open spec fn wf(self) -> bool {
        &&& self.alphabet_size > 0 || self.string.len() == 0
        &&& all_below(self.string, self.alphabet_size as int)
        &&& self.string.len() > 0 || self.budget == 0
    }
}

/// The string after one swap slot (`slot + 1 == len` is the no-op slot).
pub open spec fn swap_step(s: Seq<usize>, slot: usize) -> Seq<usize> {
    if slot + 1 >= s.len() {
        s
    } else {
        s.update(slot as int, s[slot + 1]).update(slot + 1, s[slot as int])
    }
}

/// The string after the swap slots of `program`, in order.
pub open spec fn run_swaps(s: Seq<usize>, program: Seq<usize>) -> Seq<usize>
    decreases program.len(),
{
    if program.len() == 0 {
        s
    } else {
        swap_step(run_swaps(s, program.drop_last()), program.last())
    }
}

/// Swapping keeps the length.
proof fn lemma_run_swaps_len(s: Seq<usize>, program: Seq<usize>)
    ensures
        run_swaps(s, program).len() == s.len(),
    decreases program.len(),
{
    if program.len() > 0 {
        lemma_run_swaps_len(s, program.drop_last());
    }
}

/// One swap step at a slot `i` with `i + 1 < len` exchanges the symbols at
/// `i` and `i + 1` and keeps every other position; the last slot `len - 1`
/// leaves the string as it is.
pub proof fn lemma_swap_step_exchanges(s: Seq<usize>, i: usize)
    requires
        i < s.len(),
    ensures
        swap_step(s, i).len() == s.len(),
        i + 1 < s.len() ==> swap_step(s, i)[i as int] == s[i + 1] && swap_step(s, i)[i + 1] == s[i as int],
        forall|j: int| 0 <= j < s.len() && j != i && j != i + 1 ==> #[trigger] swap_step(s, i)[j] == s[j],
        i + 1 == s.len() ==> swap_step(s, i) == s,
{
}

/// Running a program is running its slots one after another: the empty
/// program keeps the string, a one-slot program is that swap step, and
/// running `p` then `q` is running `p + q`.
pub proof fn lemma_run_swaps_in_order(s: Seq<usize>, p: Seq<usize>, q: Seq<usize>)
    ensures
        run_swaps(s, Seq::empty()) == s,
        forall|i: usize| #[trigger] run_swaps(s, seq![i]) == swap_step(s, i),
        run_swaps(run_swaps(s, p), q) == run_swaps(s, p + q),
    decreases q.len(),
{
    assert forall|i: usize| #[trigger] run_swaps(s, seq![i]) == swap_step(s, i) by {
        assert(seq![i].drop_last() =~= Seq::<usize>::empty());
        assert(run_swaps(s, Seq::<usize>::empty()) == s);
        assert(seq![i].last() == i);
    }
    if q.len() == 0 {
        assert(p + q =~= p);
    } else {
        lemma_run_swaps_in_order(s, p, q.drop_last());
        assert((p + q).drop_last() =~= p + q.drop_last());
        assert((p + q).last() == q.last());
    }
}

/// The result of a swap program of exactly `budget` valid slots, `None`
/// otherwise.
pub open spec fn swap_result(m: GroupingBySwappingView, config: Seq<usize>) -> Option<Seq<usize>> {
    if config.len() != m.budget {
        None
    } else if m.string.len() == 0 {
        if config.len() == 0 { Some(Seq::empty()) } else { None }
    } else if !all_below(config, m.string.len() as int) {
        None
    } else {
        Some(run_swaps(m.string, config))
    }
}

/// Every symbol's occurrences are contiguous.
pub open spec fn contiguous(s: Seq<usize>) -> bool {
    forall|i: int, j: int, k: int|
        #![trigger s[i], s[j], s[k]]
        0 <= i < j < k < s.len() && s[i] == s[k] ==> s[j] == s[i]
}

/// The string has symbols in the alphabet only, each in one block.
pub open spec fn is_grouped_string(alphabet_size: nat, s: Seq<usize>) -> bool {
    all_below(s, alphabet_size as int) && contiguous(s)
}

/// The Grouping by Swapping problem.
#[derive(Debug)]
pub struct GroupingBySwapping {
    alphabet_size: usize,
    string: Vec<usize>,
    budget: usize,
}

impl View for GroupingBySwapping {
    type V = GroupingBySwappingView;

    closed spec fn view(&self) -> GroupingBySwappingView {
        GroupingBySwappingView {
            alphabet_size: self.alphabet_size as nat,
            string: self.string@,
            budget: self.budget as nat,
        }
    }
}

impl GroupingBySwapping {
    /// The stored instance is well formed.
    #[verifier::type_invariant]
    pub closed spec fn inv(self) -> bool {
        self@.wf()
    }

    /// Create a new instance.
    pub fn new(alphabet_size: usize, string: Vec<usize>, budget: usize) -> (r: Self)
        requires
            (GroupingBySwappingView { alphabet_size: alphabet_size as nat, string: string@, budget: budget as nat }).wf(),
        ensures
            r@ == (GroupingBySwappingView { alphabet_size: alphabet_size as nat, string: string@, budget: budget as nat }),
    {
        GroupingBySwapping { alphabet_size, string, budget }
    }

    /// Get the alphabet size.
    pub fn alphabet_size(&self) -> (r: usize)
        ensures
            r == self@.alphabet_size,
    {
        self.alphabet_size
    }

    /// Get the input string.
    pub fn string(&self) -> (r: &[usize])
        ensures
            r@ == self@.string,
    {
        self.string.as_slice()
    }

    /// Get the swap budget.
    pub fn budget(&self) -> (r: usize)
        ensures
            r == self@.budget,
    {
        self.budget
    }

    /// Get the string length.
    pub fn string_len(&self) -> (r: usize)
        ensures
            r == self@.string.len(),
    {
        self.string.len()
    }

    /// Apply a swap program to the string.
    pub fn apply_swap_program(&self, config: &[usize]) -> (r: Option<Vec<usize>>)
        ensures
            match r {
                Some(s) => swap_result(self@, config@) == Some(s@),
                None => swap_result(self@, config@) is None,
            },
    {
        if config.len() != self.budget {
            return None;
        }
        if self.string.len() == 0 {
            if config.len() == 0 {
                return Some(Vec::new());
            }
            return None;
        }
        let n = self.string.len();
        if !check_all_below(config, n) {
            return None;
        }
        let mut current = copy_usizes(self.string.as_slice());
        for k in 0..config.len()
            invariant
                n == self@.string.len(),
                all_below(config@, n as int),
                current@ == run_swaps(self@.string, config@.take(k as int)),
        {
            let slot = config[k];
            assert(config@.take(k + 1).drop_last() =~= config@.take(k as int));
            proof {
                lemma_run_swaps_len(self@.string, config@.take(k as int));
            }
            if slot + 1 < n {
                let a = current[slot];
                let b = current[slot + 1];
                current.set(slot, b);
                current.set(slot + 1, a);
            }
        }
        assert(config@.take(config@.len() as int) =~= config@);
        Some(current)
    }

    /// Whether every symbol of `candidate` is in the alphabet and occurs in
    /// one contiguous block.
    pub fn is_grouped(&self, candidate: &[usize]) -> (r: bool)
        ensures
            r == is_grouped_string(self@.alphabet_size, candidate@),
    {
        if !check_all_below(candidate, self.alphabet_size) {
            return false;
        }
        if candidate.len() == 0 {
            return true;
        }
        let ghost c = candidate@;
        let mut closed = vec![false; self.alphabet_size];
        let mut current_symbol = candidate[0];
        for t in 1..candidate.len()
            invariant
                c == candidate@,
                all_below(c, self@.alphabet_size as int),
                closed@.len() == self@.alphabet_size,
                current_symbol == c[t - 1],
                forall|x: int|
                    0 <= x < self@.alphabet_size ==> (#[trigger] closed@[x] <==> (x != current_symbol as int
                        && exists|i: int| 0 <= i < t && c[i] == x)),
                contiguous(c.take(t as int)),
        {
            let symbol = candidate[t];
            let ghost prev = c.take(t as int);
            let ghost next = c.take(t + 1);
            if symbol == current_symbol {
                assert(contiguous(next)) by {
                    assert forall|i: int, j: int, k: int|
                        #![trigger next[i], next[j], next[k]]
                        0 <= i < j < k < next.len() && next[i] == next[k] implies next[j] == next[i] by {
                        if k < t {
                            assert(prev[i] == next[i] && prev[j] == next[j] && prev[k] == next[k]);
                        } else if j < t - 1 {
                            assert(prev[i] == next[i] && prev[j] == next[j] && prev[t - 1] == next[t - 1]);
                        }
                    }
                }
            } else {
                closed.set(current_symbol, true);
                if closed[symbol] {
                    proof {
                        let i = choose|i: int| 0 <= i < t && c[i] == symbol as int;
                        assert(c[t - 1] != c[i]);
                        assert(!contiguous(c)) by {
                            assert(0 <= i < t - 1 && c[i] == c[t as int]);
                            assert(c[t - 1] != c[i]);
                        }
                    }
                    return false;
                }
                assert(contiguous(next)) by {
                    assert forall|i: int, j: int, k: int|
                        #![trigger next[i], next[j], next[k]]
                            0 <= i < j < k < next.len() && next[i] == next[k] implies next[j] == next[i] by {
                        if k < t {
                            assert(prev[i] == next[i] && prev[j] == next[j] && prev[k] == next[k]);
                        } else {
                            assert(c[i] == symbol);
                            assert(closed@[symbol as int] == false);
                        }
                    }
                }
                current_symbol = symbol;
            }
        }
        assert(c.take(c.len() as int) =~= c);
        true
    }

    /// Each of the `budget` swaps chooses one of `n` slots.
    pub fn dims(&self) -> (r: Vec<usize>)
        ensures
            r@ == Seq::new(self@.budget, |i: int| self@.string.len() as usize),
    {
        crate::util::repeat_usize(self.string.len(), self.budget)
    }

    /// Whether the swap program groups the string.
    pub fn evaluate(&self, config: &[usize]) -> (r: Or)
        ensures
            r == Or(swap_result(self@, config@) matches Some(s) && is_grouped_string(self@.alphabet_size, s)),
    {
        match self.apply_swap_program(config) {
            Some(candidate) => Or(self.is_grouped(candidate.as_slice())),
            None => Or(false),
        }
    }
}

} // verus!
