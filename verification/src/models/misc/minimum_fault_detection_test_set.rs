//! Minimum Fault Detection Test Set.
//!
//! Given a directed graph with input and output vertices, find the fewest
//! input-output pairs such that every internal vertex (neither input nor
//! output) lies on a path from the input to the output of some chosen pair.
//! A configuration has one binary variable per pair, in input-major order.
use crate::reach::{
    all_kept, arc_step_fn, digraph_step, lemma_reaches_reverse, reach_by_kept_arcs, reaches,
};
use crate::types::Min;
use crate::util::{all_below, check_all_below, count_of, count_value};
use vstd::prelude::*;

verus! {

/// Mathematical model of a [`MinimumFaultDetectionTestSet`] instance.
pub struct FaultDetectionView {
    pub num_vertices: nat,
    pub arcs: Seq<(usize, usize)>,
    pub inputs: Seq<usize>,
    pub outputs: Seq<usize>,
}

impl FaultDetectionView {
    /// The instance is well formed: at least one input and one output, all
    /// vertices inside the graph.
    pub open spec fn wf(self) -> bool {
        &&& self.inputs.len() > 0
        &&& self.outputs.len() > 0
        &&& forall|i: int|
            0 <= i < self.arcs.len() ==> (#[trigger] self.arcs[i]).0 < self.num_vertices && self.arcs[i].1
                < self.num_vertices
        &&& all_below(self.inputs, self.num_vertices as int)
        &&& all_below(self.outputs, self.num_vertices as int)
    }

    /// `v` is an input or an output.
    pub open spec fn is_boundary(self, v: usize) -> bool {
        self.inputs.contains(v) || self.outputs.contains(v)
    }

    /// `v` lies on a path from input `i` to output `o`.
    pub open spec fn on_test_path(self, i: int, o: int, v: usize) -> bool {
        reaches(digraph_step(self.arcs), self.inputs[i], v) && reaches(digraph_step(self.arcs), v, self.outputs[o])
    }
}

/// The pair `(i, o)` is selected.
pub open spec fn pair_selected(m: FaultDetectionView, config: Seq<usize>, i: int, o: int) -> bool {
    config[i * m.outputs.len() + o] == 1
}

/// Some selected pair's paths pass through `v`.
pub open spec fn covered_by_selection(m: FaultDetectionView, config: Seq<usize>, v: usize) -> bool {
    exists|i: int, o: int|
        0 <= i < m.inputs.len() && 0 <= o < m.outputs.len() && #[trigger] pair_selected(m, config, i, o)
            && m.on_test_path(i, o, v)
}

/// Number of selected pairs when the selection is binary and covers every
/// internal vertex; `None` otherwise.
pub open spec fn test_set_size(m: FaultDetectionView, config: Seq<usize>) -> Option<nat> {
    if config.len() != m.inputs.len() * m.outputs.len() || !all_below(config, 2) {
        None
    } else if forall|v: usize|
        v < m.num_vertices && !m.is_boundary(v) ==> #[trigger] covered_by_selection(m, config, v) {
        Some(count_of(config, 1))
    } else {
        None
    }
}

/// Position of pair `(i, o)` lies below `ni * no`.
proof fn lemma_pair_index(i: int, o: int, ni: int, no: int)
    requires
        0 <= i < ni,
        0 <= o < no,
    ensures
        0 <= i * no + o < ni * no,
{
    assert(0 <= i * no + o < ni * no) by (nonlinear_arith)
        requires
            0 <= i < ni,
            0 <= o < no,
    ;
}

/// Whether `x` occurs in `s`.
fn contains_value(s: &Vec<usize>, x: usize) -> (r: bool)
    ensures
        r == s@.contains(x),
{
    for i in 0..s.len()
        invariant
            forall|k: int| 0 <= k < i ==> s@[k] != x,
    {
        if s[i] == x {
            assert(s@[i as int] == x);
            return true;
        }
    }
    false
}

/// The Minimum Fault Detection Test Set problem.
#[derive(Debug)]
pub struct MinimumFaultDetectionTestSet {
    num_vertices: usize,
    arcs: Vec<(usize, usize)>,
    inputs: Vec<usize>,
    outputs: Vec<usize>,
    coverage: Vec<Vec<bool>>,
}

impl View for MinimumFaultDetectionTestSet {
    type V = FaultDetectionView;

    closed spec fn view(&self) -> FaultDetectionView {
        FaultDetectionView {
            num_vertices: self.num_vertices as nat,
            arcs: self.arcs@,
            inputs: self.inputs@,
            outputs: self.outputs@,
        }
    }
}

impl MinimumFaultDetectionTestSet {
    /// The instance is well formed and `coverage` holds, for every pair in
    /// input-major order, which vertices lie on its paths.
    #[verifier::type_invariant]
    pub closed spec fn inv(self) -> bool {
        let m = self@;
        &&& m.wf()
        &&& m.inputs.len() * m.outputs.len() <= usize::MAX
        &&& self.coverage@.len() == m.inputs.len() * m.outputs.len()
        &&& forall|i: int, o: int|
            0 <= i < m.inputs.len() && 0 <= o < m.outputs.len() ==> (#[trigger] self.coverage@[i * m.outputs.len() + o])@.len()
                == m.num_vertices
        &&& forall|i: int, o: int, v: int|
            0 <= i < m.inputs.len() && 0 <= o < m.outputs.len() && 0 <= v < m.num_vertices ==> (
            #[trigger] self.coverage@[i * m.outputs.len() + o]@[v] <==> m.on_test_path(i, o, v as usize))
    }

    /// Create a new instance.
    pub fn new(num_vertices: usize, arcs: Vec<(usize, usize)>, inputs: Vec<usize>, outputs: Vec<usize>) -> (r: Self)
        requires
            (FaultDetectionView { num_vertices: num_vertices as nat, arcs: arcs@, inputs: inputs@, outputs: outputs@ }).wf(),
            inputs@.len() * outputs@.len() <= usize::MAX,
        ensures
            r@ == (FaultDetectionView { num_vertices: num_vertices as nat, arcs: arcs@, inputs: inputs@, outputs: outputs@ }),
    {
        let ghost m = FaultDetectionView { num_vertices: num_vertices as nat, arcs: arcs@, inputs: inputs@, outputs: outputs@ };
        let keep = vec![true; arcs.len()];
        assert(keep@ =~= all_kept(arcs@.len()));
        let no = outputs.len();
        let ni = inputs.len();
        let mut backward: Vec<Vec<bool>> = Vec::new();
        for o in 0..no
            invariant
                m.wf(),
                m.arcs == arcs@,
                m.outputs == outputs@,
                m.num_vertices == num_vertices,
                no == outputs@.len(),
                keep@ == all_kept(arcs@.len()),
                backward@.len() == o,
                forall|p: int| 0 <= p < o ==> (#[trigger] backward@[p])@.len() == num_vertices,
                forall|p: int, v: int|
                    0 <= p < o && 0 <= v < num_vertices ==> (#[trigger] backward@[p]@[v] <==> reaches(
                        digraph_step(arcs@),
                        v as usize,
                        outputs@[p],
                    )),
        {
            let out = outputs[o];
            assert(out < num_vertices);
            let b = reach_by_kept_arcs(num_vertices, arcs.as_slice(), keep.as_slice(), false, out);
            assert forall|v: int| 0 <= v < num_vertices implies (b@[v] <==> reaches(digraph_step(arcs@), v as usize, out)) by {
                if b@[v] {
                    lemma_reaches_reverse(arcs@, keep@, false, out, v as usize);
                }
                if reaches(digraph_step(arcs@), v as usize, out) {
                    lemma_reaches_reverse(arcs@, keep@, true, v as usize, out);
                }
            }
            backward.push(b);
        }
        let mut coverage: Vec<Vec<bool>> = Vec::new();
        assert(0 * no == 0);
        for i in 0..ni
            invariant
                m.wf(),
                m.arcs == arcs@,
                m.inputs == inputs@,
                m.outputs == outputs@,
                m.num_vertices == num_vertices,
                ni == inputs@.len(),
                no == outputs@.len(),
                ni * no <= usize::MAX,
                keep@ == all_kept(arcs@.len()),
                backward@.len() == no,
                forall|p: int| 0 <= p < no ==> (#[trigger] backward@[p])@.len() == num_vertices,
                forall|p: int, v: int|
                    0 <= p < no && 0 <= v < num_vertices ==> (#[trigger] backward@[p]@[v] <==> reaches(
                        digraph_step(arcs@),
                        v as usize,
                        outputs@[p],
                    )),
                coverage@.len() == i * no,
                forall|a: int, o: int|
                    0 <= a < i && 0 <= o < no ==> (#[trigger] coverage@[a * no + o])@.len() == num_vertices,
                forall|a: int, o: int, v: int|
                    0 <= a < i && 0 <= o < no && 0 <= v < num_vertices ==> (#[trigger] coverage@[a * no + o]@[v]
                        <==> m.on_test_path(a, o, v as usize)),
        {
            let inp = inputs[i];
            assert(inp < num_vertices);
            let f = reach_by_kept_arcs(num_vertices, arcs.as_slice(), keep.as_slice(), true, inp);
            let ghost before = coverage@;
            for o in 0..no
                invariant
                    m.wf(),
                    m.arcs == arcs@,
                    m.inputs == inputs@,
                    m.outputs == outputs@,
                    m.num_vertices == num_vertices,
                    ni == inputs@.len(),
                    no == outputs@.len(),
                    i < ni,
                    inp == inputs@[i as int],
                    keep@ == all_kept(arcs@.len()),
                    f@.len() == num_vertices,
                    forall|v: int| 0 <= v < num_vertices ==> (#[trigger] f@[v] <==> reaches(digraph_step(arcs@), inp, v as usize)),
                    backward@.len() == no,
                    forall|p: int| 0 <= p < no ==> (#[trigger] backward@[p])@.len() == num_vertices,
                    forall|p: int, v: int|
                        0 <= p < no && 0 <= v < num_vertices ==> (#[trigger] backward@[p]@[v] <==> reaches(
                            digraph_step(arcs@),
                            v as usize,
                            outputs@[p],
                        )),
                    before.len() == i * no,
                    coverage@.len() == i * no + o,
                    coverage@.take(i * no) == before,
                    forall|p: int| 0 <= p < o ==> (#[trigger] coverage@[i * no + p])@.len() == num_vertices,
                    forall|p: int, v: int|
                        0 <= p < o && 0 <= v < num_vertices ==> (#[trigger] coverage@[i * no + p]@[v] <==> m.on_test_path(
                            i as int,
                            p,
                            v as usize,
                        )),
            {
                let mut cov: Vec<bool> = Vec::new();
                for v in 0..num_vertices
                    invariant
                        f@.len() == num_vertices,
                        backward@.len() == no,
                        o < no,
                        backward@[o as int]@.len() == num_vertices,
                        cov@.len() == v,
                        forall|w: int| 0 <= w < v ==> #[trigger] cov@[w] == (f@[w] && backward@[o as int]@[w]),
                {
                    cov.push(f[v] && backward[o][v]);
                }
                coverage.push(cov);
                assert(coverage@.take(i * no) =~= before);
            }
            assert(coverage@.len() == (i + 1) * no) by (nonlinear_arith)
                requires
                    coverage@.len() == i * no + no,
            ;
            assert forall|a: int, o: int| 0 <= a < i + 1 && 0 <= o < no implies (#[trigger] coverage@[a * no + o])@.len()
                == num_vertices && forall|v: int|
                0 <= v < num_vertices ==> (#[trigger] coverage@[a * no + o]@[v] <==> m.on_test_path(a, o, v as usize)) by {
                if a < i {
                    lemma_pair_index(a, o, i as int, no as int);
                    assert(coverage@[a * no + o] == before[a * no + o]);
                }
            }
        }
        MinimumFaultDetectionTestSet { num_vertices, arcs, inputs, outputs, coverage }
    }

    /// Get the number of vertices.
    pub fn num_vertices(&self) -> (r: usize)
        ensures
            r == self@.num_vertices,
    {
        self.num_vertices
    }

    /// Get the number of arcs.
    pub fn num_arcs(&self) -> (r: usize)
        ensures
            r == self@.arcs.len(),
    {
        self.arcs.len()
    }

    /// Get the arcs.
    pub fn arcs(&self) -> (r: &[(usize, usize)])
        ensures
            r@ == self@.arcs,
    {
        self.arcs.as_slice()
    }

    /// Get the input vertices.
    pub fn inputs(&self) -> (r: &[usize])
        ensures
            r@ == self@.inputs,
    {
        self.inputs.as_slice()
    }

    /// Get the output vertices.
    pub fn outputs(&self) -> (r: &[usize])
        ensures
            r@ == self@.outputs,
    {
        self.outputs.as_slice()
    }

    /// Get the number of inputs.
    pub fn num_inputs(&self) -> (r: usize)
        ensures
            r == self@.inputs.len(),
    {
        self.inputs.len()
    }

    /// Get the number of outputs.
    pub fn num_outputs(&self) -> (r: usize)
        ensures
            r == self@.outputs.len(),
    {
        self.outputs.len()
    }

    /// One binary variable per input-output pair.
    pub fn dims(&self) -> (r: Vec<usize>)
        ensures
            r@ == Seq::new(self@.inputs.len() * self@.outputs.len(), |i: int| 2usize),
    {
        proof {
            use_type_invariant(self);
        }
        crate::util::repeat_usize(2, self.inputs.len() * self.outputs.len())
    }

    /// Number of selected pairs when they cover every internal vertex;
    /// `Min(None)` otherwise.
    pub fn evaluate(&self, config: &[usize]) -> (r: Min<usize>)
        ensures
            r.0 matches Some(c) ==> test_set_size(self@, config@) == Some(c as nat),
            r.0 is None ==> test_set_size(self@, config@) is None,
    {
        proof {
            use_type_invariant(self);
        }
        let ni = self.inputs.len();
        let no = self.outputs.len();
        let n = self.num_vertices;
        if config.len() != ni * no || !check_all_below(config, 2) {
            return Min(None);
        }
        let ghost m = self@;
        for v in 0..n
            invariant
                self.inv(),
                m == self@,
                n == m.num_vertices,
                ni == m.inputs.len(),
                no == m.outputs.len(),
                config@.len() == ni * no,
                forall|w: usize| w < v && !m.is_boundary(w) ==> #[trigger] covered_by_selection(m, config@, w),
        {
            let boundary = contains_value(&self.inputs, v) || contains_value(&self.outputs, v);
            if !boundary {
                let mut found = false;
                for i in 0..ni
                    invariant
                        self.inv(),
                        m == self@,
                        n == m.num_vertices,
                        v < n,
                        ni == m.inputs.len(),
                        no == m.outputs.len(),
                        config@.len() == ni * no,
                        found ==> covered_by_selection(m, config@, v),
                        !found ==> forall|a: int, o: int|
                            0 <= a < i && 0 <= o < no ==> !(#[trigger] pair_selected(m, config@, a, o) && m.on_test_path(a, o, v)),
                {
                    for o in 0..no
                        invariant
                            self.inv(),
                            m == self@,
                            n == m.num_vertices,
                            v < n,
                            i < ni,
                            ni == m.inputs.len(),
                            no == m.outputs.len(),
                            config@.len() == ni * no,
                            found ==> covered_by_selection(m, config@, v),
                            !found ==> forall|a: int, p: int|
                                (0 <= a < i && 0 <= p < no) || (a == i && 0 <= p < o) ==> !(#[trigger] pair_selected(m, config@, a, p)
                                    && m.on_test_path(a, p, v)),
                    {
                        proof {
                            lemma_pair_index(i as int, o as int, ni as int, no as int);
                        }
                        let idx = i * no + o;
                        assert(self.coverage@[i * no + o]@[v as int] <==> m.on_test_path(i as int, o as int, v));
                        if config[idx] == 1 && self.coverage[idx][v] {
                            assert(pair_selected(m, config@, i as int, o as int));
                            found = true;
                        }
                    }
                }
                if !found {
                    assert(!covered_by_selection(m, config@, v));
                    return Min(None);
                }
            }
        }
        Min(Some(count_value(config, 1)))
    }
}

} // verus!
