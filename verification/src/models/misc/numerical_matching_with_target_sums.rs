//! Numerical Matching with Target Sums.
//!
//! Given two sets `X`, `Y` of `m` integers each and `m` targets, decide
//! whether `X` and `Y` can be matched into `m` pairs whose sums are exactly
//! the targets (as a multiset). A configuration gives the partner in `Y` of
//! every element of `X`.
use crate::types::Or;
use crate::util::{check_permutation, is_permutation};
use vstd::prelude::*;

verus! {

/// Mathematical model of a [`NumericalMatchingWithTargetSums`] instance.
pub struct NumericalMatchingView {
    pub sizes_x: Seq<i64>,
    pub sizes_y: Seq<i64>,
    pub targets: Seq<i64>,
}

/// The reason the instance is rejected, if any, in the order the checks are
/// made.
pub open spec fn matching_instance_error(x: Seq<i64>, y: Seq<i64>, t: Seq<i64>) -> Option<Seq<char>> {
    if x.len() == 0 {
        Some("NumericalMatchingWithTargetSums requires at least one element per set"@)
    } else if y.len() != x.len() {
        Some("NumericalMatchingWithTargetSums requires sizes_x and sizes_y to have the same length"@)
    } else if t.len() != x.len() {
        Some("NumericalMatchingWithTargetSums requires targets to have the same length as sizes_x"@)
    } else {
        None
    }
}

/// The pair sums of a matching.
pub open spec fn pair_sums(m: NumericalMatchingView, config: Seq<usize>) -> Seq<int> {
    Seq::new(config.len(), |i: int| m.sizes_x[i] as int + m.sizes_y[config[i] as int] as int)
}

/// Number of positions of `s` holding `v`.
pub open spec fn occurrences(s: Seq<int>, v: int) -> nat
    decreases s.len(),
{
    if s.len() == 0 {
        0
    } else {
        occurrences(s.drop_last(), v) + (if s.last() == v { 1nat } else { 0nat })
    }
}

/// The configuration is a permutation and the pair sums equal the targets
/// as multisets.
pub open spec fn matches_targets(m: NumericalMatchingView, config: Seq<usize>) -> bool {
    let targets = m.targets.map_values(|v: i64| v as int);
    &&& is_permutation(config, m.sizes_x.len())
    &&& forall|v: int| #[trigger] occurrences(pair_sums(m, config), v) == occurrences(targets, v)
}

/// An absent value has no occurrences.
proof fn lemma_occurrences_absent(s: Seq<int>, v: int)
    requires
        !s.contains(v),
    ensures
        occurrences(s, v) == 0,
    decreases s.len(),
{
    if s.len() > 0 {
        assert(s.drop_last().contains(v) ==> s.contains(v)) by {
            if s.drop_last().contains(v) {
                let i = choose|i: int| 0 <= i < s.drop_last().len() && s.drop_last()[i] == v;
                assert(s[i] == v);
            }
        }
        assert(s.last() != v) by {
            if s.last() == v {
                assert(s[s.len() - 1] == v);
            }
        }
        lemma_occurrences_absent(s.drop_last(), v);
    }
}

/// Number of positions of `s` holding `v`, computed.
fn count_occurrences(s: &Vec<i128>, v: i128) -> (r: usize)
    ensures
        r == occurrences(s@.map_values(|x: i128| x as int), v as int),
{
    let ghost si = s@.map_values(|x: i128| x as int);
    let mut count: usize = 0;
    for i in 0..s.len()
        invariant
            si == s@.map_values(|x: i128| x as int),
            count == occurrences(si.take(i as int), v as int),
            count <= i,
    {
        assert(si.take(i + 1).drop_last() =~= si.take(i as int));
        if s[i] == v {
            count = count + 1;
        }
    }
    assert(si.take(si.len() as int) =~= si);
    count
}

/// The Numerical Matching with Target Sums problem.
#[derive(Debug)]
pub struct NumericalMatchingWithTargetSums {
    sizes_x: Vec<i64>,
    sizes_y: Vec<i64>,
    targets: Vec<i64>,
}

impl View for NumericalMatchingWithTargetSums {
    type V = NumericalMatchingView;

    closed spec fn view(&self) -> NumericalMatchingView {
        NumericalMatchingView { sizes_x: self.sizes_x@, sizes_y: self.sizes_y@, targets: self.targets@ }
    }
}

impl NumericalMatchingWithTargetSums {
    /// The stored instance passed validation.
    #[verifier::type_invariant]
    pub closed spec fn inv(self) -> bool {
        matching_instance_error(self@.sizes_x, self@.sizes_y, self@.targets) is None
    }

    fn validate_inputs(sizes_x: &[i64], sizes_y: &[i64], targets: &[i64]) -> (r: Result<(), String>)
        ensures
            match r {
                Ok(()) => matching_instance_error(sizes_x@, sizes_y@, targets@) is None,
                Err(e) => matching_instance_error(sizes_x@, sizes_y@, targets@) == Some(e@),
            },
    {
        let m = sizes_x.len();
        if m == 0 {
            return Err("NumericalMatchingWithTargetSums requires at least one element per set".to_owned());
        }
        if sizes_y.len() != m {
            return Err(
                "NumericalMatchingWithTargetSums requires sizes_x and sizes_y to have the same length".to_owned(),
            );
        }
        if targets.len() != m {
            return Err(
                "NumericalMatchingWithTargetSums requires targets to have the same length as sizes_x".to_owned(),
            );
        }
        Ok(())
    }

    /// Create an instance, or report the first problem found.
    pub fn try_new(sizes_x: Vec<i64>, sizes_y: Vec<i64>, targets: Vec<i64>) -> (r: Result<Self, String>)
        ensures
            match r {
                Ok(p) => matching_instance_error(sizes_x@, sizes_y@, targets@) is None && p@ == (NumericalMatchingView {
                    sizes_x: sizes_x@,
                    sizes_y: sizes_y@,
                    targets: targets@,
                }),
                Err(e) => matching_instance_error(sizes_x@, sizes_y@, targets@) == Some(e@),
            },
    {
        match Self::validate_inputs(sizes_x.as_slice(), sizes_y.as_slice(), targets.as_slice()) {
            Ok(()) => Ok(NumericalMatchingWithTargetSums { sizes_x, sizes_y, targets }),
            Err(e) => Err(e),
        }
    }

    /// Create an instance that passes validation.
    pub fn new(sizes_x: Vec<i64>, sizes_y: Vec<i64>, targets: Vec<i64>) -> (r: Self)
        requires
            matching_instance_error(sizes_x@, sizes_y@, targets@) is None,
        ensures
            r@ == (NumericalMatchingView { sizes_x: sizes_x@, sizes_y: sizes_y@, targets: targets@ }),
    {
        match Self::try_new(sizes_x, sizes_y, targets) {
            Ok(p) => p,
            Err(_) => vstd::pervasive::unreached(),
        }
    }

    /// Get the number of pairs.
    pub fn num_pairs(&self) -> (r: usize)
        ensures
            r == self@.sizes_x.len(),
    {
        self.sizes_x.len()
    }

    /// Get the elements of X.
    pub fn sizes_x(&self) -> (r: &[i64])
        ensures
            r@ == self@.sizes_x,
    {
        self.sizes_x.as_slice()
    }

    /// Get the elements of Y.
    pub fn sizes_y(&self) -> (r: &[i64])
        ensures
            r@ == self@.sizes_y,
    {
        self.sizes_y.as_slice()
    }

    /// Get the targets.
    pub fn targets(&self) -> (r: &[i64])
        ensures
            r@ == self@.targets,
    {
        self.targets.as_slice()
    }

    /// Each element of X chooses one of the `m` elements of Y.
    pub fn dims(&self) -> (r: Vec<usize>)
        ensures
            r@ == Seq::new(self@.sizes_x.len(), |i: int| self@.sizes_x.len() as usize),
    {
        let m = self.sizes_x.len();
        crate::util::repeat_usize(m, m)
    }

    /// Whether the matching's pair sums are exactly the targets.
    pub fn evaluate(&self, config: &[usize]) -> (r: Or)
        ensures
            r == Or(matches_targets(self@, config@)),
    {
        proof {
            use_type_invariant(self);
        }
        let m = self.sizes_x.len();
        if !check_permutation(config, m) {
            return Or(false);
        }
        let ghost ps = pair_sums(self@, config@);
        let ghost ts = self@.targets.map_values(|v: i64| v as int);
        let mut sums: Vec<i128> = Vec::new();
        for i in 0..m
            invariant
                m == self@.sizes_x.len(),
                m == self@.sizes_y.len(),
                is_permutation(config@, m as nat),
                ps == pair_sums(self@, config@),
                sums@.map_values(|x: i128| x as int) =~= ps.take(i as int),
        {
            assert(config@[i as int] < m);
            sums.push(self.sizes_x[i] as i128 + self.sizes_y[config[i]] as i128);
        }
        assert(ps.take(m as int) =~= ps);
        let mut targets: Vec<i128> = Vec::new();
        for i in 0..m
            invariant
                m == self@.targets.len(),
                ts == self@.targets.map_values(|v: i64| v as int),
                targets@.map_values(|x: i128| x as int) =~= ts.take(i as int),
        {
            targets.push(self.targets[i] as i128);
        }
        assert(ts.take(m as int) =~= ts);
        for i in 0..m
            invariant
                sums@.map_values(|x: i128| x as int) == ps,
                targets@.map_values(|x: i128| x as int) == ts,
                sums@.len() == m,
                targets@.len() == m,
                forall|j: int| 0 <= j < i ==> occurrences(ps, #[trigger] ps[j]) == occurrences(ts, ps[j]),
                forall|j: int| 0 <= j < i ==> occurrences(ps, #[trigger] ts[j]) == occurrences(ts, ts[j]),
        {
            let a = sums[i];
            let b = targets[i];
            assert(ps[i as int] == a as int);
            assert(ts[i as int] == b as int);
            if count_occurrences(&sums, a) != count_occurrences(&targets, a) {
                return Or(false);
            }
            if count_occurrences(&sums, b) != count_occurrences(&targets, b) {
                return Or(false);
            }
        }
        assert forall|v: int| #[trigger] occurrences(ps, v) == occurrences(ts, v) by {
            if ps.contains(v) {
                let j = choose|j: int| 0 <= j < ps.len() && ps[j] == v;
                assert(occurrences(ps, ps[j]) == occurrences(ts, ps[j]));
            } else if ts.contains(v) {
                let j = choose|j: int| 0 <= j < ts.len() && ts[j] == v;
                assert(occurrences(ps, ts[j]) == occurrences(ts, ts[j]));
            } else {
                lemma_occurrences_absent(ps, v);
                lemma_occurrences_absent(ts, v);
            }
        }
        Or(true)
    }
}

} // verus!
