//! Minimum Register Sufficiency for Loops.
//!
//! Loop variables live on circular arcs of a loop of length `N`: a variable
//! born at `start` lives for `duration` time steps (wrapping around). Assign
//! registers so that variables with overlapping lifetimes use different
//! registers, using as few registers as possible. A configuration gives each
//! variable its register.
use crate::types::Min;
use crate::util::{all_below, check_all_below, count_true, count_true_flags};
use vstd::prelude::*;

verus! {

/// Mathematical model of a [`MinimumRegisterSufficiencyForLoops`] instance.
pub struct LoopRegistersView {
    pub loop_length: nat,
    pub variables: Seq<(usize, usize)>,
}

impl LoopRegistersView {
    /// The loop is non-empty, every variable starts inside it and lives for
    /// between 1 and `N` steps.
    pub open spec fn wf(self) -> bool {
        &&& self.loop_length > 0
        &&& forall|i: int|
            0 <= i < self.variables.len() ==> (#[trigger] self.variables[i]).0 < self.loop_length
                && 0 < self.variables[i].1 <= self.loop_length
    }
}

/// Two circular arcs `[s1, s1 + l1)` and `[s2, s2 + l2)` on a loop of length
/// `n` overlap: one of them covers the whole loop, or neither fits into the
/// gap the other leaves (the gap of `[s, s + l)` starts at `s + l` and has
/// length `n - l`).
pub open spec fn arcs_overlap(s1: int, l1: int, s2: int, l2: int, n: int) -> bool {
    if l1 == n || l2 == n {
        true
    } else {
        let gap1_start = (s1 + l1) % n;
        let gap2_start = (s2 + l2) % n;
        !((s2 + n - gap1_start) % n + l2 <= n - l1) && !((s1 + n - gap2_start) % n + l1 <= n - l2)
    }
}

/// Flags the registers `0..n` that some variable uses.
pub open spec fn used_registers(config: Seq<usize>) -> Seq<bool> {
    Seq::new(config.len(), |r: int| config.contains(r as usize))
}

/// Number of registers used by a conflict-free assignment, `None` otherwise.
pub open spec fn register_count(m: LoopRegistersView, config: Seq<usize>) -> Option<nat> {
    let n = m.variables.len();
    if config.len() != n || !all_below(config, n as int) {
        None
    } else if exists|i: int, j: int|
        0 <= i < j < n && config[i] == config[j] && #[trigger] arcs_overlap(
            m.variables[i].0 as int,
            m.variables[i].1 as int,
            m.variables[j].0 as int,
            #[trigger] m.variables[j].1 as int,
            m.loop_length as int,
        ) {
        None
    } else {
        Some(count_true(used_registers(config)))
    }
}

/// The Minimum Register Sufficiency for Loops problem.
#[derive(Debug)]
pub struct MinimumRegisterSufficiencyForLoops {
    loop_length: usize,
    variables: Vec<(usize, usize)>,
}

impl View for MinimumRegisterSufficiencyForLoops {
    type V = LoopRegistersView;

    closed spec fn view(&self) -> LoopRegistersView {
        LoopRegistersView { loop_length: self.loop_length as nat, variables: self.variables@ }
    }
}

impl MinimumRegisterSufficiencyForLoops {
    /// The stored instance is well formed.
    #[verifier::type_invariant]
    pub closed spec fn inv(self) -> bool {
        self@.wf()
    }

    /// Create a new instance.
    pub fn new(loop_length: usize, variables: Vec<(usize, usize)>) -> (r: Self)
        requires
            (LoopRegistersView { loop_length: loop_length as nat, variables: variables@ }).wf(),
        ensures
            r@ == (LoopRegistersView { loop_length: loop_length as nat, variables: variables@ }),
    {
        MinimumRegisterSufficiencyForLoops { loop_length, variables }
    }

    /// Get the loop length.
    pub fn loop_length(&self) -> (r: usize)
        ensures
            r == self@.loop_length,
    {
        self.loop_length
    }

    /// Get the number of variables.
    pub fn num_variables(&self) -> (r: usize)
        ensures
            r == self@.variables.len(),
    {
        self.variables.len()
    }

    /// Get the variables as (start, duration).
    pub fn variables(&self) -> (r: &[(usize, usize)])
        ensures
            r@ == self@.variables,
    {
        self.variables.as_slice()
    }

    fn arcs_overlap(s1: usize, l1: usize, s2: usize, l2: usize, n: usize) -> (r: bool)
        requires
            n > 0,
            s1 < n,
            s2 < n,
            0 < l1 <= n,
            0 < l2 <= n,
        ensures
            r == arcs_overlap(s1 as int, l1 as int, s2 as int, l2 as int, n as int),
    {
        if l1 == n || l2 == n {
            return true;
        }
        let gap1_start = ((s1 as u128 + l1 as u128) % n as u128) as usize;
        let dist_s2_in_gap1 = ((s2 as u128 + n as u128 - gap1_start as u128) % n as u128) as usize;
        if dist_s2_in_gap1 as u128 + l2 as u128 <= (n - l1) as u128 {
            return false;
        }
        let gap2_start = ((s2 as u128 + l2 as u128) % n as u128) as usize;
        let dist_s1_in_gap2 = ((s1 as u128 + n as u128 - gap2_start as u128) % n as u128) as usize;
        if dist_s1_in_gap2 as u128 + l1 as u128 <= (n - l2) as u128 {
            return false;
        }
        true
    }

    /// Each variable chooses one of `n` registers.
    pub fn dims(&self) -> (r: Vec<usize>)
        ensures
            r@ == Seq::new(self@.variables.len(), |i: int| self@.variables.len() as usize),
    {
        let n = self.variables.len();
        crate::util::repeat_usize(n, n)
    }

    /// Number of registers used by a conflict-free assignment; `Min(None)`
    /// otherwise.
    pub fn evaluate(&self, config: &[usize]) -> (r: Min<usize>)
        ensures
            r.0 matches Some(c) ==> register_count(self@, config@) == Some(c as nat),
            r.0 is None ==> register_count(self@, config@) is None,
    {
        proof {
            use_type_invariant(self);
        }
        let n = self.variables.len();
        if config.len() != n || !check_all_below(config, n) {
            return Min(None);
        }
        let ghost m = self@;
        for i in 0..n
            invariant
                m == self@,
                m.wf(),
                n == m.variables.len(),
                config@.len() == n,
                forall|a: int, b: int|
                    0 <= a < i && a < b < n && config@[a] == config@[b] ==> !#[trigger] arcs_overlap(
                        m.variables[a].0 as int,
                        m.variables[a].1 as int,
                        m.variables[b].0 as int,
                        #[trigger] m.variables[b].1 as int,
                        m.loop_length as int,
                    ),
        {
            for j in i + 1..n
                invariant
                    m == self@,
                    m.wf(),
                    n == m.variables.len(),
                    i < n,
                    config@.len() == n,
                    forall|a: int, b: int|
                        0 <= a < i && a < b < n && config@[a] == config@[b] ==> !#[trigger] arcs_overlap(
                            m.variables[a].0 as int,
                            m.variables[a].1 as int,
                            m.variables[b].0 as int,
                            #[trigger] m.variables[b].1 as int,
                            m.loop_length as int,
                        ),
                    forall|b: int|
                        i < b < j && config@[i as int] == config@[b] ==> !#[trigger] arcs_overlap(
                            m.variables[i as int].0 as int,
                            m.variables[i as int].1 as int,
                            m.variables[b].0 as int,
                            m.variables[b].1 as int,
                            m.loop_length as int,
                        ),
            {
                if config[i] == config[j] {
                    let (s1, l1) = self.variables[i];
                    let (s2, l2) = self.variables[j];
                    assert(m.variables[i as int] == (s1, l1));
                    assert(m.variables[j as int] == (s2, l2));
                    if Self::arcs_overlap(s1, l1, s2, l2, self.loop_length) {
                        return Min(None);
                    }
                }
            }
        }
        let mut used = vec![false; n];
        for i in 0..n
            invariant
                n == config@.len(),
                all_below(config@, n as int),
                used@.len() == n,
                forall|r: int| 0 <= r < n ==> #[trigger] used@[r] == config@.take(i as int).contains(r as usize),
        {
            let reg = config[i];
            used.set(reg, true);
            assert forall|r: int| 0 <= r < n implies #[trigger] used@[r] == config@.take(i + 1).contains(r as usize) by {
                let t1 = config@.take(i + 1);
                let t0 = config@.take(i as int);
                assert(t1 =~= t0.push(reg));
                if r == reg as int {
                    assert(t1[i as int] == reg);
                } else {
                    if t0.contains(r as usize) {
                        let k = choose|k: int| 0 <= k < t0.len() && t0[k] == r as usize;
                        assert(t1[k] == r as usize);
                    }
                    if t1.contains(r as usize) {
                        let k = choose|k: int| 0 <= k < t1.len() && t1[k] == r as usize;
                        assert(t0[k] == r as usize);
                    }
                }
            }
        }
        assert(config@.take(n as int) =~= config@);
        assert(used@ =~= used_registers(config@));
        Min(Some(count_true_flags(used.as_slice())))
    }
}

} // verus!
