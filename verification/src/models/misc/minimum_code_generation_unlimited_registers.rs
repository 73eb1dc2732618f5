//! Minimum Code Generation with Unlimited Registers.
//!
//! An expression DAG is evaluated on a machine with two-address instructions
//! `r <- r op s` that overwrite their left operand, and unlimited registers.
//! A configuration gives every internal vertex its position in the
//! evaluation order; the cost is one instruction per internal vertex plus one
//! copy (LOAD) for each left operand that is still needed afterwards.
use crate::util::{inverse_positions, is_permutation};
use crate::types::Min;
use vstd::prelude::*;

verus! {

/// Mathematical model of a [`MinimumCodeGenerationUnlimitedRegisters`] instance.
pub struct CodeGenView {
    pub num_vertices: nat,
    pub left_arcs: Seq<(usize, usize)>,
    pub right_arcs: Seq<(usize, usize)>,
}

/// Number of arcs leaving `v`.
pub open spec fn out_count(arcs: Seq<(usize, usize)>, v: usize) -> nat
    decreases arcs.len(),
{
    if arcs.len() == 0 {
        0
    } else {
        out_count(arcs.drop_last(), v) + (if arcs.last().0 == v { 1nat } else { 0nat })
    }
}

impl CodeGenView {
    /// Arcs name existing vertices and are no self-loops; every vertex has at
    /// most one left and one right operand, and a right operand only with a
    /// left one.
    pub open spec fn wf(self) -> bool {
        &&& forall|k: int|
            0 <= k < self.left_arcs.len() ==> (#[trigger] self.left_arcs[k]).0 < self.num_vertices
                && self.left_arcs[k].1 < self.num_vertices && self.left_arcs[k].0 != self.left_arcs[k].1
        &&& forall|k: int|
            0 <= k < self.right_arcs.len() ==> (#[trigger] self.right_arcs[k]).0 < self.num_vertices
                && self.right_arcs[k].1 < self.num_vertices && self.right_arcs[k].0 != self.right_arcs[k].1
        &&& forall|v: usize|
            v < self.num_vertices ==> #[trigger] out_count(self.left_arcs, v) <= 1 && out_count(self.right_arcs, v)
                <= 1 && (out_count(self.right_arcs, v) == 1 ==> out_count(self.left_arcs, v) == 1)
    }
}

/// The child of the first arc, from position `k` on, that leaves `v`.
pub open spec fn child_from(arcs: Seq<(usize, usize)>, v: usize, k: int) -> Option<usize>
    decreases arcs.len() - k,
{
    if k < 0 || k >= arcs.len() {
        None
    } else if arcs[k].0 == v {
        Some(arcs[k].1)
    } else {
        child_from(arcs, v, k + 1)
    }
}

/// The operand of `v` along the first arc of `arcs` leaving it.
pub open spec fn child_of(arcs: Seq<(usize, usize)>, v: usize) -> Option<usize> {
    child_from(arcs, v, 0)
}

/// Some arc leaves `v`.
pub open spec fn has_out_arc(arcs: Seq<(usize, usize)>, v: int) -> bool {
    exists|k: int| 0 <= k < arcs.len() && arcs[k].0 as int == v
}

/// `v` has an operand, so it is computed by an instruction.
pub open spec fn is_internal(m: CodeGenView, v: int) -> bool {
    has_out_arc(m.left_arcs, v) || has_out_arc(m.right_arcs, v)
}

/// The internal vertices among `0..k`, in increasing order.
pub open spec fn internal_upto(m: CodeGenView, k: int) -> Seq<usize>
    decreases k,
{
    if k <= 0 {
        Seq::empty()
    } else if is_internal(m, k - 1) {
        internal_upto(m, k - 1).push((k - 1) as usize)
    } else {
        internal_upto(m, k - 1)
    }
}

/// All internal vertices, in increasing order.
pub open spec fn internal_vertices(m: CodeGenView) -> Seq<usize> {
    internal_upto(m, m.num_vertices as int)
}

/// The index `i` with `config[i] == s`.
pub open spec fn placed_at(config: Seq<usize>, s: int) -> int {
    choose|i: int| 0 <= i < config.len() && config[i] as int == s
}

/// The evaluation order: the internal vertex placed at each step.
pub open spec fn evaluation_order(m: CodeGenView, config: Seq<usize>) -> Seq<usize> {
    Seq::new(config.len(), |s: int| internal_vertices(m)[placed_at(config, s)])
}

/// Vertex `x` is available before step `s`: a leaf, or computed earlier.
pub open spec fn available(m: CodeGenView, order: Seq<usize>, x: usize, s: int) -> bool {
    !is_internal(m, x as int) || exists|q: int| 0 <= q < s && order[q] == x
}

/// The operands of the vertex at step `s` are available.
pub open spec fn operands_available(m: CodeGenView, order: Seq<usize>, s: int) -> bool {
    &&& (child_of(m.left_arcs, order[s]) matches Some(l) ==> available(m, order, l, s))
    &&& (child_of(m.right_arcs, order[s]) matches Some(r) ==> available(m, order, r, s))
}

/// Some step after `s` uses `x` as an operand.
pub open spec fn used_after(m: CodeGenView, order: Seq<usize>, x: usize, s: int) -> bool {
    exists|q: int|
        s < q < order.len() && (child_of(m.left_arcs, #[trigger] order[q]) == Some(x) || child_of(
            m.right_arcs,
            order[q],
        ) == Some(x))
}

/// Step `s` overwrites a left operand that a later step still needs, so it
/// first copies it.
pub open spec fn needs_copy(m: CodeGenView, order: Seq<usize>, s: int) -> bool {
    child_of(m.left_arcs, order[s]) matches Some(l) && used_after(m, order, l, s)
}

/// Number of copies among the first `k` steps.
pub open spec fn copies(m: CodeGenView, order: Seq<usize>, k: int) -> nat
    decreases k,
{
    if k <= 0 {
        0
    } else {
        copies(m, order, k - 1) + (if needs_copy(m, order, k - 1) { 1nat } else { 0nat })
    }
}

/// Number of instructions of the evaluation order a configuration gives, if
/// it is a permutation of the internal vertices' positions in which every
/// vertex comes after its operands.
pub open spec fn instruction_count(m: CodeGenView, config: Seq<usize>) -> Option<nat> {
    let n = internal_vertices(m).len();
    let order = evaluation_order(m, config);
    if is_permutation(config, n) && forall|s: int| 0 <= s < n ==> #[trigger] operands_available(m, order, s) {
        Some(n + copies(m, order, n as int))
    } else {
        None
    }
}

/// The operand of `v` along the first arc leaving it.
fn find_child(arcs: &Vec<(usize, usize)>, v: usize) -> (r: Option<usize>)
    ensures
        r == child_of(arcs@, v),
{
    let ghost a = arcs@;
    for k in 0..arcs.len()
        invariant
            a == arcs@,
            child_from(a, v, 0) == child_from(a, v, k as int),
    {
        let (parent, child) = arcs[k];
        assert(a[k as int] == (parent, child));
        if parent == v {
            return Some(child);
        }
    }
    None
}

/// The Minimum Code Generation with Unlimited Registers problem.
#[derive(Debug)]
pub struct MinimumCodeGenerationUnlimitedRegisters {
    num_vertices: usize,
    left_arcs: Vec<(usize, usize)>,
    right_arcs: Vec<(usize, usize)>,
}

impl View for MinimumCodeGenerationUnlimitedRegisters {
    type V = CodeGenView;

    closed spec fn view(&self) -> CodeGenView {
        CodeGenView { num_vertices: self.num_vertices as nat, left_arcs: self.left_arcs@, right_arcs: self.right_arcs@ }
    }
}

impl MinimumCodeGenerationUnlimitedRegisters {
    /// The stored instance is well formed.
    #[verifier::type_invariant]
    pub closed spec fn inv(self) -> bool {
        self@.wf()
    }

    /// Create a new instance.
    pub fn new(num_vertices: usize, left_arcs: Vec<(usize, usize)>, right_arcs: Vec<(usize, usize)>) -> (r: Self)
        requires
            (CodeGenView { num_vertices: num_vertices as nat, left_arcs: left_arcs@, right_arcs: right_arcs@ }).wf(),
        ensures
            r@ == (CodeGenView { num_vertices: num_vertices as nat, left_arcs: left_arcs@, right_arcs: right_arcs@ }),
    {
        MinimumCodeGenerationUnlimitedRegisters { num_vertices, left_arcs, right_arcs }
    }

    /// Get the number of vertices.
    pub fn num_vertices(&self) -> (r: usize)
        ensures
            r == self@.num_vertices,
    {
        self.num_vertices
    }

    /// Get the left arcs (parent, left operand).
    pub fn left_arcs(&self) -> (r: &[(usize, usize)])
        ensures
            r@ == self@.left_arcs,
    {
        self.left_arcs.as_slice()
    }

    /// Get the right arcs (parent, right operand).
    pub fn right_arcs(&self) -> (r: &[(usize, usize)])
        ensures
            r@ == self@.right_arcs,
    {
        self.right_arcs.as_slice()
    }

    /// Which vertices have an operand.
    fn has_children(&self) -> (r: Vec<bool>)
        ensures
            r@.len() == self@.num_vertices,
            forall|v: int| 0 <= v < self@.num_vertices ==> r@[v] == is_internal(self@, v),
    {
        proof {
            use_type_invariant(self);
        }
        let n = self.num_vertices;
        let ghost m = self@;
        let mut hc = vec![false; n];
        for k in 0..self.left_arcs.len()
            invariant
                m == self@,
                m.wf(),
                hc@.len() == n,
                n == m.num_vertices,
                forall|v: int|
                    0 <= v < n ==> hc@[v] == (exists|q: int| 0 <= q < k && m.left_arcs[q].0 as int == v),
        {
            let (parent, _) = self.left_arcs[k];
            assert(m.left_arcs[k as int].0 == parent);
            hc.set(parent, true);
            assert forall|v: int| 0 <= v < n implies hc@[v] == (exists|q: int|
                0 <= q < k + 1 && m.left_arcs[q].0 as int == v) by {
                if v == parent as int {
                    assert(m.left_arcs[k as int].0 as int == v);
                } else if exists|q: int| 0 <= q < k + 1 && m.left_arcs[q].0 as int == v {
                    let q = choose|q: int| 0 <= q < k + 1 && m.left_arcs[q].0 as int == v;
                    assert(q < k);
                }
            }
        }
        for k in 0..self.right_arcs.len()
            invariant
                m == self@,
                m.wf(),
                hc@.len() == n,
                n == m.num_vertices,
                forall|v: int|
                    0 <= v < n ==> hc@[v] == (has_out_arc(m.left_arcs, v) || exists|q: int|
                        0 <= q < k && m.right_arcs[q].0 as int == v),
        {
            let (parent, _) = self.right_arcs[k];
            assert(m.right_arcs[k as int].0 == parent);
            hc.set(parent, true);
            assert forall|v: int| 0 <= v < n implies hc@[v] == (has_out_arc(m.left_arcs, v) || exists|q: int|
                0 <= q < k + 1 && m.right_arcs[q].0 as int == v) by {
                if v == parent as int {
                    assert(m.right_arcs[k as int].0 as int == v);
                } else if exists|q: int| 0 <= q < k + 1 && m.right_arcs[q].0 as int == v {
                    let q = choose|q: int| 0 <= q < k + 1 && m.right_arcs[q].0 as int == v;
                    assert(q < k);
                }
            }
        }
        hc
    }

    /// Get the number of internal vertices (those with an operand).
    pub fn num_internal(&self) -> (r: usize)
        ensures
            r == internal_vertices(self@).len(),
    {
        self.internal_vertices().len()
    }

    /// Get the number of leaves (vertices without an operand).
    pub fn num_leaves(&self) -> (r: usize)
        ensures
            r == self@.num_vertices - internal_vertices(self@).len(),
    {
        let internal = self.num_internal();
        proof {
            lemma_internal_upto_len(self@, self@.num_vertices as int);
        }
        self.num_vertices - internal
    }

    /// The internal vertices in increasing order.
    fn internal_vertices(&self) -> (r: Vec<usize>)
        ensures
            r@ == internal_vertices(self@),
    {
        let hc = self.has_children();
        let mut internal: Vec<usize> = Vec::new();
        for v in 0..self.num_vertices
            invariant
                hc@.len() == self@.num_vertices,
                forall|u: int| 0 <= u < self@.num_vertices ==> hc@[u] == is_internal(self@, u),
                internal@ == internal_upto(self@, v as int),
        {
            if hc[v] {
                internal.push(v);
            }
        }
        internal
    }

    /// The evaluation order a permutation configuration gives, with the
    /// operands of each step.
    fn schedule(&self, internal: &Vec<usize>, positions: &Vec<usize>, config: &[usize]) -> (r: (
        Vec<usize>,
        Vec<Option<usize>>,
        Vec<Option<usize>>,
    ))
        requires
            self@.wf(),
            internal@ == internal_vertices(self@),
            is_permutation(config@, internal@.len()),
            positions@.len() == internal@.len(),
            forall|t: int|
                0 <= t < internal@.len() ==> (#[trigger] positions@[t]) < internal@.len() && config@[positions@[t] as int]
                    == t,
            forall|k: int|
                0 <= k < internal@.len() ==> (#[trigger] internal@[k]) < self@.num_vertices && is_internal(
                    self@,
                    internal@[k] as int,
                ),
        ensures
            r.0@ == evaluation_order(self@, config@),
            forall|k: int| 0 <= k < internal@.len() ==> (#[trigger] r.0@[k]) < self@.num_vertices,
            r.1@.len() == internal@.len(),
            r.2@.len() == internal@.len(),
            forall|q: int| 0 <= q < internal@.len() ==> #[trigger] r.1@[q] == child_of(self@.left_arcs, r.0@[q]),
            forall|q: int| 0 <= q < internal@.len() ==> #[trigger] r.2@[q] == child_of(self@.right_arcs, r.0@[q]),
    {
        let ghost m = self@;
        let n_internal = internal.len();
        let ghost order = evaluation_order(m, config@);
        let mut sched: Vec<usize> = Vec::new();
        let mut lefts: Vec<Option<usize>> = Vec::new();
        let mut rights: Vec<Option<usize>> = Vec::new();
        for s in 0..n_internal
            invariant
                m == self@,
                order == evaluation_order(m, config@),
                n_internal == internal@.len(),
                sched@ =~= order.take(s as int),
                forall|q: int| 0 <= q < s ==> (#[trigger] order[q]) < m.num_vertices,
                lefts@.len() == s,
                rights@.len() == s,
                forall|q: int| 0 <= q < s ==> #[trigger] lefts@[q] == child_of(m.left_arcs, order[q]),
                forall|q: int| 0 <= q < s ==> #[trigger] rights@[q] == child_of(m.right_arcs, order[q]),
        {
            let i = positions[s];
            proof {
                let c = placed_at(config@, s as int);
                assert(config@[i as int] as int == s as int);
                assert(0 <= c < config@.len() && config@[c] as int == s as int);
                if c != i as int {
                    if c < i {
                        assert(config@[c] != config@[i as int]);
                    } else {
                        assert(config@[i as int] != config@[c]);
                    }
                }
                assert(order[s as int] == internal@[i as int]);
            }
            let v = internal[i];
            sched.push(v);
            lefts.push(find_child(&self.left_arcs, v));
            rights.push(find_child(&self.right_arcs, v));
        }
        assert(sched@ =~= order);
        (sched, lefts, rights)
    }

    /// Whether some step after `s` uses `x` as an operand.
    fn used_later(lefts: &Vec<Option<usize>>, rights: &Vec<Option<usize>>, s: usize, x: usize) -> (b: bool)
        requires
            lefts@.len() == rights@.len(),
        ensures
            b == exists|j: int| s < j < lefts@.len() && (#[trigger] lefts@[j] == Some(x) || rights@[j] == Some(x)),
    {
        let n = lefts.len();
        if s >= n {
            return false;
        }
        for q in s + 1..n
            invariant
                n == lefts@.len(),
                n == rights@.len(),
                forall|j: int| s < j < q ==> !(#[trigger] lefts@[j] == Some(x) || rights@[j] == Some(x)),
        {
            if lefts[q] == Some(x) || rights[q] == Some(x) {
                assert(lefts@[q as int] == Some(x) || rights@[q as int] == Some(x));
                return true;
            }
        }
        false
    }

    /// Number of instructions of the evaluation order the configuration
    /// gives, or `None` when it is not a permutation of the positions or some
    /// vertex comes before one of its operands.
    pub fn simulate(&self, config: &[usize]) -> (r: Option<usize>)
        requires
            instruction_count(self@, config@) matches Some(c) ==> c <= usize::MAX,
        ensures
            match r {
                Some(c) => instruction_count(self@, config@) == Some(c as nat),
                None => instruction_count(self@, config@) is None,
            },
    {
        proof {
            use_type_invariant(self);
        }
        let ghost m = self@;
        let internal = self.internal_vertices();
        let n_internal = internal.len();
        proof {
            lemma_internal_upto_len(m, m.num_vertices as int);
            lemma_internal_upto_members(m, m.num_vertices as int);
        }
        if !crate::util::check_permutation(config, n_internal) {
            return None;
        }
        let positions = inverse_positions(config, n_internal);
        let ghost order = evaluation_order(m, config@);
        let (sched, lefts, rights) = self.schedule(&internal, &positions, config);
        let mut computed = self.has_children();
        for v in 0..self.num_vertices
            invariant
                computed@.len() == m.num_vertices,
                forall|u: int| 0 <= u < v ==> computed@[u] == !is_internal(m, u),
                forall|u: int| v <= u < m.num_vertices ==> computed@[u] == is_internal(m, u),
        {
            let leaf = !computed[v];
            computed.set(v, leaf);
        }
        let mut extra: usize = 0;
        for s in 0..n_internal
            invariant
                m == self@,
                m.wf(),
                n_internal == internal_vertices(m).len(),
                is_permutation(config@, n_internal as nat),
                order == evaluation_order(m, config@),
                sched@ == order,
                order.len() == n_internal,
                forall|k: int| 0 <= k < n_internal ==> (#[trigger] order[k]) < m.num_vertices,
                lefts@.len() == n_internal,
                rights@.len() == n_internal,
                forall|q: int| 0 <= q < n_internal ==> #[trigger] lefts@[q] == child_of(m.left_arcs, order[q]),
                forall|q: int| 0 <= q < n_internal ==> #[trigger] rights@[q] == child_of(m.right_arcs, order[q]),
                computed@.len() == m.num_vertices,
                forall|u: int| 0 <= u < m.num_vertices ==> #[trigger] computed@[u] == available(m, order, u as usize, s as int),
                forall|q: int| 0 <= q < s ==> #[trigger] operands_available(m, order, q),
                extra == copies(m, order, s as int),
                extra <= s,
        {
            let v = sched[s];
            let lc = lefts[s];
            let rc = rights[s];
            proof {
                lemma_child_in_range(m, m.left_arcs, order[s as int]);
                lemma_child_in_range(m, m.right_arcs, order[s as int]);
            }
            if let Some(l) = lc {
                if !computed[l] {
                    assert(!operands_available(m, order, s as int));
                    return None;
                }
            }
            if let Some(r) = rc {
                if !computed[r] {
                    assert(!operands_available(m, order, s as int));
                    return None;
                }
            }
            assert(operands_available(m, order, s as int));
            if let Some(l) = lc {
                let used = Self::used_later(&lefts, &rights, s, l);
                proof {
                    if used {
                        let j = choose|j: int| s < j < lefts@.len() && (#[trigger] lefts@[j] == Some(l) || rights@[j] == Some(l));
                        assert(child_of(m.left_arcs, order[j]) == Some(l) || child_of(m.right_arcs, order[j]) == Some(l));
                    }
                    if used_after(m, order, l, s as int) {
                        let j = choose|j: int|
                            s < j < order.len() && (child_of(m.left_arcs, #[trigger] order[j]) == Some(l) || child_of(
                                m.right_arcs,
                                order[j],
                            ) == Some(l));
                        assert(lefts@[j] == Some(l) || rights@[j] == Some(l));
                    }
                    assert(used == used_after(m, order, l, s as int));
                }
                if used {
                    extra = extra + 1;
                }
            }
            computed.set(v, true);
            proof {
                assert forall|u: int| 0 <= u < m.num_vertices implies #[trigger] computed@[u] == available(
                    m,
                    order,
                    u as usize,
                    s + 1,
                ) by {
                    if u == v as int {
                        assert(order[s as int] == v);
                    } else {
                        if exists|q: int| 0 <= q < s + 1 && order[q] == u as usize {
                            let q = choose|q: int| 0 <= q < s + 1 && order[q] == u as usize;
                            assert(q < s);
                        }
                    }
                }
            }
        }
        Some(n_internal + extra)
    }

    /// Each internal vertex chooses one of the positions.
    pub fn dims(&self) -> (r: Vec<usize>)
        ensures
            r@ == Seq::new(internal_vertices(self@).len(), |i: int| internal_vertices(self@).len() as usize),
    {
        let n = self.num_internal();
        crate::util::repeat_usize(n, n)
    }

    /// Number of instructions of the evaluation order; `Min(None)` for an
    /// invalid configuration.
    pub fn evaluate(&self, config: &[usize]) -> (r: Min<usize>)
        requires
            instruction_count(self@, config@) matches Some(c) ==> c <= usize::MAX,
        ensures
            match r.0 {
                Some(c) => instruction_count(self@, config@) == Some(c as nat),
                None => instruction_count(self@, config@) is None,
            },
    {
        Min(self.simulate(config))
    }
}

/// The internal vertices among `0..k` number at most `k`.
proof fn lemma_internal_upto_len(m: CodeGenView, k: int)
    requires
        k >= 0,
    ensures
        internal_upto(m, k).len() <= k,
    decreases k,
{
    if k > 0 {
        lemma_internal_upto_len(m, k - 1);
    }
}

/// The internal vertices among `0..k` are internal and below `k`.
proof fn lemma_internal_upto_members(m: CodeGenView, k: int)
    requires
        k >= 0,
    ensures
        forall|j: int| 0 <= j < internal_upto(m, k).len() ==> (#[trigger] internal_upto(m, k)[j]) < k && is_internal(
            m,
            internal_upto(m, k)[j] as int,
        ),
    decreases k,
{
    if k > 0 {
        lemma_internal_upto_members(m, k - 1);
        let prev = internal_upto(m, k - 1);
        if is_internal(m, k - 1) {
            assert forall|j: int| 0 <= j < internal_upto(m, k).len() implies (#[trigger] internal_upto(m, k)[j]) < k
                && is_internal(m, internal_upto(m, k)[j] as int) by {
                if j < prev.len() {
                    assert(internal_upto(m, k)[j] == prev[j]);
                }
            }
        }
    }
}

/// An operand named by an arc is a vertex.
proof fn lemma_child_in_range(m: CodeGenView, arcs: Seq<(usize, usize)>, v: usize)
    requires
        m.wf(),
        arcs == m.left_arcs || arcs == m.right_arcs,
    ensures
        child_of(arcs, v) matches Some(c) ==> c < m.num_vertices,
{
    lemma_child_from_in_range(m, arcs, v, 0);
}

proof fn lemma_child_from_in_range(m: CodeGenView, arcs: Seq<(usize, usize)>, v: usize, k: int)
    requires
        m.wf(),
        arcs == m.left_arcs || arcs == m.right_arcs,
        k >= 0,
    ensures
        child_from(arcs, v, k) matches Some(c) ==> c < m.num_vertices,
    decreases arcs.len() - k,
{
    if k < arcs.len() && arcs[k].0 != v {
        lemma_child_from_in_range(m, arcs, v, k + 1);
    }
}

} // verus!
