//! Paint Shop.
//!
//! A sequence of cars passes through a paint shop; every car occurs exactly
//! twice and must be painted once in each of two colors. A configuration
//! gives the color of each car's first occurrence (the second occurrence gets
//! the other color); the cost is the number of color switches along the
//! sequence.
use crate::types::{Direction, SolutionSize};
use vstd::prelude::*;

verus! {

/// Mathematical model of a [`PaintShop`] instance.
pub struct PaintShopView {
    pub sequence_indices: Seq<usize>,
    pub car_labels: Seq<Seq<char>>,
    pub is_first: Seq<bool>,
    pub num_cars: nat,
}

/// The distinct labels of `seq`, in order of first occurrence.
pub open spec fn distinct_labels(seq: Seq<Seq<char>>) -> Seq<Seq<char>>
    decreases seq.len(),
{
    if seq.len() == 0 {
        Seq::empty()
    } else {
        let d = distinct_labels(seq.drop_last());
        if d.contains(seq.last()) {
            d
        } else {
            d.push(seq.last())
        }
    }
}

/// Number of positions of `seq` holding `x`.
pub open spec fn label_count(seq: Seq<Seq<char>>, x: Seq<char>) -> nat
    decreases seq.len(),
{
    if seq.len() == 0 {
        0
    } else {
        label_count(seq.drop_last(), x) + (if seq.last() == x { 1nat } else { 0nat })
    }
}

/// Every label occurs exactly twice.
pub open spec fn each_twice(seq: Seq<Seq<char>>) -> bool {
    forall|i: int| 0 <= i < seq.len() ==> label_count(seq, #[trigger] seq[i]) == 2
}

/// The position of `x` among distinct labels `d`.
pub open spec fn label_index(d: Seq<Seq<char>>, x: Seq<char>) -> int {
    choose|k: int| 0 <= k < d.len() && d[k] == x
}

/// The instance a sequence of labels describes.
pub open spec fn shop_of(seq: Seq<Seq<char>>) -> PaintShopView {
    let d = distinct_labels(seq);
    PaintShopView {
        sequence_indices: Seq::new(seq.len(), |i: int| label_index(d, seq[i]) as usize),
        car_labels: d,
        is_first: Seq::new(seq.len(), |i: int| !seq.take(i).contains(seq[i])),
        num_cars: d.len(),
    }
}

/// Color of the first occurrence of car `c`: `config[c]`, or 0 past the end.
pub open spec fn first_color(config: Seq<usize>, c: usize) -> int {
    if c < config.len() { config[c as int] as int } else { 0 }
}

/// The color of every position of the sequence.
pub open spec fn coloring(m: PaintShopView, config: Seq<usize>) -> Seq<int> {
    Seq::new(
        m.sequence_indices.len(),
        |i: int|
            if m.is_first[i] {
                first_color(config, m.sequence_indices[i])
            } else {
                1 - first_color(config, m.sequence_indices[i])
            },
    )
}

/// Number of adjacent positions among the first `k` with different colors.
pub open spec fn switches(colors: Seq<int>, k: int) -> nat
    decreases k,
{
    if k <= 1 {
        0
    } else {
        switches(colors, k - 1) + (if colors[k - 2] != colors[k - 1] { 1nat } else { 0nat })
    }
}

/// The switch count over the first `k` positions is the number of adjacent
/// pairs `(i, i + 1)` with `i + 1 < k`, the first pair included, whose colors
/// differ.
pub proof fn lemma_switches_counts_color_changes(colors: Seq<int>, k: int)
    requires
        0 <= k,
    ensures
        switches(colors, k) == crate::util::indices_where(|i: int| colors[i] != colors[i + 1], k - 1).len(),
    decreases k,
{
    let change = |i: int| colors[i] != colors[i + 1];
    if k <= 1 {
        assert(crate::util::indices_where(change, k - 1) =~= Set::<int>::empty());
    } else {
        lemma_switches_counts_color_changes(colors, k - 1);
        crate::util::lemma_indices_where_step(change, k - 2);
    }
}

/// Second occurrences are only colored from 0/1 first colors.
pub open spec fn second_colors_defined(m: PaintShopView, config: Seq<usize>) -> bool {
    forall|i: int|
        0 <= i < m.sequence_indices.len() && !m.is_first[i] ==> #[trigger] first_color(config, m.sequence_indices[i]) <= 1
}

impl PaintShopView {
    /// The stored tables agree in length and indices name cars.
    pub open spec fn wf(self) -> bool {
        &&& self.is_first.len() == self.sequence_indices.len()
        &&& self.num_cars == self.car_labels.len()
        &&& forall|i: int| 0 <= i < self.sequence_indices.len() ==> #[trigger] self.sequence_indices[i] < self.num_cars
    }
}

/// The Paint Shop problem.
#[derive(Debug)]
pub struct PaintShop {
    sequence_indices: Vec<usize>,
    car_labels: Vec<String>,
    is_first: Vec<bool>,
    num_cars: usize,
}

impl View for PaintShop {
    type V = PaintShopView;

    closed spec fn view(&self) -> PaintShopView {
        PaintShopView {
            sequence_indices: self.sequence_indices@,
            car_labels: self.car_labels@.map_values(|s: String| s@),
            is_first: self.is_first@,
            num_cars: self.num_cars as nat,
        }
    }
}

/// Index of `x` among `labels`, if present.
fn find_label(labels: &Vec<String>, x: &String) -> (r: Option<usize>)
    ensures
        match r {
            Some(k) => k < labels@.len() && labels@[k as int]@ == x@,
            None => !labels@.map_values(|s: String| s@).contains(x@),
        },
{
    for k in 0..labels.len()
        invariant
            forall|j: int| 0 <= j < k ==> labels@[j]@ != x@,
    {
        if labels[k] == *x {
            return Some(k);
        }
    }
    proof {
        if labels@.map_values(|s: String| s@).contains(x@) {
            let lv = labels@.map_values(|s: String| s@);
            let j = choose|j: int| 0 <= j < lv.len() && #[trigger] lv[j] == x@;
            assert(labels@[j]@ == x@);
        }
    }
    None
}

/// Distinct labels are distinct.
proof fn lemma_distinct_labels(seq: Seq<Seq<char>>)
    ensures
        forall|a: int, b: int|
            0 <= a < b < distinct_labels(seq).len() ==> distinct_labels(seq)[a] != distinct_labels(seq)[b],
        forall|x: Seq<char>| #[trigger] distinct_labels(seq).contains(x) <==> seq.contains(x),
    decreases seq.len(),
{
    if seq.len() > 0 {
        let s0 = seq.drop_last();
        lemma_distinct_labels(s0);
        let d0 = distinct_labels(s0);
        let d = distinct_labels(seq);
        assert forall|x: Seq<char>| #[trigger] d.contains(x) <==> seq.contains(x) by {
            if seq.contains(x) {
                let i = choose|i: int| 0 <= i < seq.len() && seq[i] == x;
                if i < seq.len() - 1 {
                    assert(s0[i] == x);
                    assert(d0.contains(x));
                    if !d0.contains(seq.last()) {
                        let k = choose|k: int| 0 <= k < d0.len() && d0[k] == x;
                        assert(d[k] == x);
                    }
                } else if !d0.contains(seq.last()) {
                    assert(d[d0.len() as int] == x);
                }
            }
            if d.contains(x) {
                let k = choose|k: int| 0 <= k < d.len() && d[k] == x;
                if k < d0.len() {
                    assert(d0.contains(x));
                    let i = choose|i: int| 0 <= i < s0.len() && s0[i] == x;
                    assert(seq[i] == x);
                } else {
                    assert(seq[seq.len() - 1] == x);
                }
            }
        }
    }
}

impl PaintShop {
    /// The stored tables are consistent.
    #[verifier::type_invariant]
    pub closed spec fn inv(self) -> bool {
        self@.wf()
    }

    /// Create an instance from the sequence of car labels.
    pub fn new(sequence: Vec<&str>) -> (r: Self)
        requires
            each_twice(sequence@.map_values(|s: &str| s@)),
        ensures
            r@ == shop_of(sequence@.map_values(|s: &str| s@)),
    {
        let mut strings: Vec<String> = Vec::new();
        for i in 0..sequence.len()
            invariant
                strings@.map_values(|s: String| s@) =~= sequence@.map_values(|s: &str| s@).take(i as int),
        {
            strings.push(sequence[i].to_owned());
        }
        assert(strings@.map_values(|s: String| s@) =~= sequence@.map_values(|s: &str| s@));
        Self::from_strings(strings)
    }

    /// Create an instance from the sequence of car labels.
    pub fn from_strings(sequence: Vec<String>) -> (r: Self)
        requires
            each_twice(sequence@.map_values(|s: String| s@)),
        ensures
            r@ == shop_of(sequence@.map_values(|s: String| s@)),
    {
        let ghost seq = sequence@.map_values(|s: String| s@);
        let mut labels: Vec<String> = Vec::new();
        let mut indices: Vec<usize> = Vec::new();
        let mut is_first: Vec<bool> = Vec::new();
        for i in 0..sequence.len()
            invariant
                seq == sequence@.map_values(|s: String| s@),
                labels@.map_values(|s: String| s@) == distinct_labels(seq.take(i as int)),
                indices@.len() == i,
                is_first@.len() == i,
                forall|j: int| 0 <= j < i ==> #[trigger] indices@[j] < labels@.len() && labels@[indices@[j] as int]@ == seq[j],
                forall|j: int| 0 <= j < i ==> #[trigger] is_first@[j] == !seq.take(j).contains(seq[j]),
        {
            let ghost prefix = seq.take(i as int);
            assert(seq.take(i + 1).drop_last() =~= prefix);
            assert(seq.take(i + 1).last() == seq[i as int]);
            proof {
                lemma_distinct_labels(prefix);
            }
            let item = &sequence[i];
            assert(item@ == seq[i as int]);
            match find_label(&labels, item) {
                Some(k) => {
                    assert(labels@.map_values(|s: String| s@)[k as int] == seq[i as int]);
                    assert(distinct_labels(prefix).contains(seq[i as int]));
                    assert(prefix.contains(seq[i as int]));
                    indices.push(k);
                    is_first.push(false);
                },
                None => {
                    assert(!prefix.contains(seq[i as int]));
                    labels.push(item.clone());
                    assert(labels@.map_values(|s: String| s@) =~= distinct_labels(seq.take(i + 1)));
                    indices.push(labels.len() - 1);
                    is_first.push(true);
                },
            }
            assert(seq.take(i as int) =~= prefix);
        }
        assert(seq.take(seq.len() as int) =~= seq);
        let num_cars = labels.len();
        let r = PaintShop { sequence_indices: indices, car_labels: labels, is_first, num_cars };
        proof {
            let d = distinct_labels(seq);
            lemma_distinct_labels(seq);
            assert forall|j: int| 0 <= j < seq.len() implies r@.sequence_indices[j] == label_index(d, seq[j]) as usize by {
                let k = indices@[j] as int;
                assert(d[k] == seq[j]);
                let c = label_index(d, seq[j]);
                assert(0 <= c < d.len() && d[c] == seq[j]);
            }
            assert(r@.sequence_indices =~= shop_of(seq).sequence_indices);
            assert(r@.is_first =~= shop_of(seq).is_first);
        }
        r
    }

    /// Get the length of the car sequence.
    pub fn sequence_len(&self) -> (r: usize)
        ensures
            r == self@.sequence_indices.len(),
    {
        self.sequence_indices.len()
    }

    /// Get the length of the car sequence.
    pub fn num_sequence(&self) -> (r: usize)
        ensures
            r == self@.sequence_indices.len(),
    {
        self.sequence_len()
    }

    /// Get the number of distinct cars.
    pub fn num_cars(&self) -> (r: usize)
        ensures
            r == self@.num_cars,
    {
        self.num_cars
    }

    /// Get the car labels, in order of first occurrence.
    pub fn car_labels(&self) -> (r: &[String])
        ensures
            r@.map_values(|s: String| s@) == self@.car_labels,
    {
        self.car_labels.as_slice()
    }

    /// The color of every position of the sequence.
    pub fn get_coloring(&self, config: &[usize]) -> (r: Vec<usize>)
        requires
            second_colors_defined(self@, config@),
        ensures
            r@.len() == self@.sequence_indices.len(),
            forall|i: int| 0 <= i < r@.len() ==> #[trigger] r@[i] as int == coloring(self@, config@)[i],
    {
        proof {
            use_type_invariant(self);
        }
        let mut colors: Vec<usize> = Vec::new();
        for i in 0..self.sequence_indices.len()
            invariant
                self@.wf(),
                second_colors_defined(self@, config@),
                colors@.len() == i,
                forall|j: int| 0 <= j < i ==> #[trigger] colors@[j] as int == coloring(self@, config@)[j],
        {
            let car = self.sequence_indices[i];
            let first = if car < config.len() { config[car] } else { 0 };
            if self.is_first[i] {
                colors.push(first);
            } else {
                assert(first_color(config@, self@.sequence_indices[i as int]) <= 1);
                colors.push(1 - first);
            }
        }
        colors
    }

    /// Number of color switches along the sequence.
    pub fn count_switches(&self, config: &[usize]) -> (r: usize)
        requires
            second_colors_defined(self@, config@),
        ensures
            r == switches(coloring(self@, config@), self@.sequence_indices.len() as int),
    {
        let colors = self.get_coloring(config);
        let ghost c = coloring(self@, config@);
        let mut count: usize = 0;
        if colors.len() < 2 {
            return 0;
        }
        for k in 1..colors.len()
            invariant
                colors@.len() == c.len(),
                forall|i: int| 0 <= i < colors@.len() ==> #[trigger] colors@[i] as int == c[i],
                count == switches(c, k as int),
                count <= k,
        {
            assert(colors@[k - 1] as int == c[k - 1]);
            assert(colors@[k as int] as int == c[k as int]);
            if colors[k - 1] != colors[k] {
                count = count + 1;
            }
        }
        count
    }

    /// One binary variable per car.
    pub fn dims(&self) -> (r: Vec<usize>)
        ensures
            r@ == Seq::new(self@.num_cars, |i: int| 2usize),
    {
        crate::util::repeat_usize(2, self.num_cars)
    }

    /// Number of color switches (every configuration is feasible).
    pub fn evaluate(&self, config: &[usize]) -> (r: SolutionSize<i32>)
        requires
            second_colors_defined(self@, config@),
        ensures
            r == SolutionSize::Valid(switches(coloring(self@, config@), self@.sequence_indices.len() as int) as i32),
    {
        SolutionSize::Valid(self.count_switches(config) as i32)
    }

    /// Paint Shop is a minimization problem.
    pub fn direction(&self) -> (r: Direction)
        ensures
            r == Direction::Minimize,
    {
        Direction::Minimize
    }
}

} // verus!
