//! Shared mathematical vocabulary and small verified helpers used by the
//! problem models: counting, sums, permutations and Lehmer codes.
use vstd::prelude::*;

verus! {

/// Number of positions of `s` that hold `x`.
pub open spec fn count_of(s: Seq<usize>, x: usize) -> nat
    decreases s.len(),
{
    if s.len() == 0 {
        0
    } else {
        count_of(s.drop_last(), x) + (if s.last() == x { 1nat } else { 0nat })
    }
}

/// Number of `true` entries of `s`.
pub open spec fn count_true(s: Seq<bool>) -> nat
    decreases s.len(),
{
    if s.len() == 0 {
        0
    } else {
        count_true(s.drop_last()) + (if s.last() { 1nat } else { 0nat })
    }
}

/// Sum of `vals[i]` over the positions `i` where `sel[i] == 1` (positions
/// beyond the shorter sequence are ignored).
pub open spec fn selected_sum(vals: Seq<int>, sel: Seq<usize>) -> int
    decreases sel.len(),
{
    if sel.len() == 0 {
        0
    } else {
        let i = sel.len() - 1;
        selected_sum(vals, sel.drop_last()) + (if sel[i] == 1 && i < vals.len() {
            vals[i]
        } else {
            0
        })
    }
}

/// Widen a sequence of `i32` values to mathematical integers.
pub open spec fn ints_i32(s: Seq<i32>) -> Seq<int> {
    s.map_values(|x: i32| x as int)
}

/// Widen a sequence of `i64` values to mathematical integers.
pub open spec fn ints_i64(s: Seq<i64>) -> Seq<int> {
    s.map_values(|x: i64| x as int)
}

/// Widen a sequence of `u64` values to mathematical integers.
pub open spec fn ints_u64(s: Seq<u64>) -> Seq<int> {
    s.map_values(|x: u64| x as int)
}

/// Sum of all entries of an unsigned sequence.
pub open spec fn sum_u64(s: Seq<u64>) -> int
    decreases s.len(),
{
    if s.len() == 0 {
        0
    } else {
        sum_u64(s.drop_last()) + s.last() as int
    }
}

/// Every entry of `s` is below `bound`.
pub open spec fn all_below(s: Seq<usize>, bound: int) -> bool {
    forall|i: int| 0 <= i < s.len() ==> (#[trigger] s[i]) < bound
}

/// `s` lists each of `0..n` exactly once.
pub open spec fn is_permutation(s: Seq<usize>, n: nat) -> bool {
    &&& s.len() == n
    &&& all_below(s, n as int)
    &&& forall|i: int, j: int| 0 <= i < j < s.len() ==> s[i] != s[j]
}

/// The ascending sequence `0, 1, ..., n - 1`.
pub open spec fn range_seq(n: usize) -> Seq<usize> {
    Seq::new(n as nat, |i: int| i as usize)
}

/// Decode a Lehmer code against the list of still available items: each digit
/// picks (and removes) the item at that index of the remaining list.
pub open spec fn lehmer_from(avail: Seq<usize>, digits: Seq<usize>) -> Option<Seq<usize>>
    decreases digits.len(),
{
    if digits.len() == 0 {
        Some(Seq::empty())
    } else if digits[0] >= avail.len() {
        None
    } else {
        match lehmer_from(avail.remove(digits[0] as int), digits.drop_first()) {
            Some(rest) => Some(seq![avail[digits[0] as int]].add(rest)),
            None => None,
        }
    }
}

/// The permutation of `0..n` that a Lehmer code denotes, if the code has length
/// `n` and each digit `config[i]` is below `n - i`.
pub open spec fn lehmer_decode(config: Seq<usize>, n: usize) -> Option<Seq<usize>> {
    if config.len() != n {
        None
    } else {
        lehmer_from(range_seq(n), config)
    }
}

pub proof fn lemma_count_of_push(s: Seq<usize>, v: usize, x: usize)
    ensures
        count_of(s.push(v), x) == count_of(s, x) + (if v == x { 1nat } else { 0nat }),
{
    assert(s.push(v).drop_last() =~= s);
}

pub proof fn lemma_count_true_push(s: Seq<bool>, v: bool)
    ensures
        count_true(s.push(v)) == count_true(s) + (if v { 1nat } else { 0nat }),
{
    assert(s.push(v).drop_last() =~= s);
}

pub proof fn lemma_count_true_bound(s: Seq<bool>)
    ensures
        count_true(s) <= s.len(),
    decreases s.len(),
{
    if s.len() > 0 {
        lemma_count_true_bound(s.drop_last());
    }
}

pub proof fn lemma_count_of_bound(s: Seq<usize>, x: usize)
    ensures
        count_of(s, x) <= s.len(),
    decreases s.len(),
{
    if s.len() > 0 {
        lemma_count_of_bound(s.drop_last(), x);
    }
}

/// Setting a `false` entry to `true` raises the count by one.
pub proof fn lemma_count_true_update(s: Seq<bool>, i: int)
    requires
        0 <= i < s.len(),
        !s[i],
    ensures
        count_true(s.update(i, true)) == count_true(s) + 1,
    decreases s.len(),
{
    if i == s.len() - 1 {
        assert(s.update(i, true).drop_last() =~= s.drop_last());
    } else {
        lemma_count_true_update(s.drop_last(), i);
        assert(s.update(i, true).drop_last() =~= s.drop_last().update(i, true));
    }
}

/// A Lehmer decoding of digits against distinct available items yields a
/// sequence of distinct available items of the same length as the digits.
pub proof fn lemma_lehmer_from_distinct(avail: Seq<usize>, digits: Seq<usize>)
    requires
        forall|i: int, j: int| 0 <= i < j < avail.len() ==> avail[i] != avail[j],
        lehmer_from(avail, digits) is Some,
    ensures
        lehmer_from(avail, digits).unwrap().len() == digits.len(),
        forall|k: int|
            0 <= k < digits.len() ==> avail.contains(
                #[trigger] lehmer_from(avail, digits).unwrap()[k],
            ),
        forall|i: int, j: int|
            0 <= i < j < digits.len() ==> lehmer_from(avail, digits).unwrap()[i]
                != lehmer_from(avail, digits).unwrap()[j],
    decreases digits.len(),
{
    if digits.len() > 0 {
        let d = digits[0] as int;
        let rest_avail = avail.remove(d);
        assert forall|i: int, j: int| 0 <= i < j < rest_avail.len() implies rest_avail[i]
            != rest_avail[j] by {
            if i < d {
                if j < d {
                } else {
                    assert(rest_avail[j] == avail[j + 1]);
                }
            } else {
                assert(rest_avail[i] == avail[i + 1]);
                assert(rest_avail[j] == avail[j + 1]);
            }
        }
        lemma_lehmer_from_distinct(rest_avail, digits.drop_first());
        let rest = lehmer_from(rest_avail, digits.drop_first()).unwrap();
        let full = lehmer_from(avail, digits).unwrap();
        assert(full =~= seq![avail[d]].add(rest));
        assert forall|k: int| 0 <= k < digits.len() implies avail.contains(#[trigger] full[k]) by {
            if k == 0 {
                assert(avail[d] == full[0]);
            } else {
                assert(full[k] == rest[k - 1]);
                assert(rest_avail.contains(rest[k - 1]));
                let m = choose|m: int| 0 <= m < rest_avail.len() && rest_avail[m] == rest[k - 1];
                if m < d {
                    assert(avail[m] == full[k]);
                } else {
                    assert(avail[m + 1] == full[k]);
                }
            }
        }
        assert forall|i: int, j: int| 0 <= i < j < digits.len() implies full[i] != full[j] by {
            if i == 0 {
                assert(full[j] == rest[j - 1]);
                assert(rest_avail.contains(rest[j - 1]));
                let m = choose|m: int| 0 <= m < rest_avail.len() && rest_avail[m] == rest[j - 1];
                if m < d {
                    assert(avail[m] == rest[j - 1]);
                } else {
                    assert(avail[m + 1] == rest[j - 1]);
                }
            } else {
                assert(full[i] == rest[i - 1]);
                assert(full[j] == rest[j - 1]);
            }
        }
    }
}

/// Decoding succeeds exactly when every digit is in range for its position.
pub proof fn lemma_lehmer_from_some(avail: Seq<usize>, digits: Seq<usize>)
    ensures
        (lehmer_from(avail, digits) is Some) <==> (digits.len() <= avail.len() && forall|i: int|
            0 <= i < digits.len() ==> #[trigger] digits[i] < avail.len() - i),
    decreases digits.len(),
{
    if digits.len() > 0 {
        let d = digits[0] as int;
        if d < avail.len() {
            lemma_lehmer_from_some(avail.remove(d), digits.drop_first());
            let rest = digits.drop_first();
            if (lehmer_from(avail, digits) is Some) {
                assert forall|i: int| 0 <= i < digits.len() implies #[trigger] digits[i]
                    < avail.len() - i by {
                    if i > 0 {
                        assert(rest[i - 1] == digits[i]);
                    }
                }
            } else {
                if digits.len() <= avail.len() && forall|i: int|
                    0 <= i < digits.len() ==> #[trigger] digits[i] < avail.len() - i {
                    assert forall|i: int| 0 <= i < rest.len() implies #[trigger] rest[i] < avail.remove(
                        d,
                    ).len() - i by {
                        assert(digits[i + 1] < avail.len() - (i + 1));
                    }
                }
            }
        } else {
            assert(!(digits[0] < avail.len() - 0));
        }
    }
}

/// A successful Lehmer decoding is a permutation of `0..n`.
pub proof fn lemma_lehmer_decode_permutation(config: Seq<usize>, n: usize)
    requires
        lehmer_decode(config, n) is Some,
    ensures
        is_permutation(lehmer_decode(config, n).unwrap(), n as nat),
{
    let avail = range_seq(n);
    lemma_lehmer_from_distinct(avail, config);
    let p = lehmer_decode(config, n).unwrap();
    assert forall|k: int| 0 <= k < p.len() implies (#[trigger] p[k]) < n by {
        assert(avail.contains(p[k]));
    }
}

/// Check that `config` lists each of `0..n` exactly once.
pub fn check_permutation(config: &[usize], n: usize) -> (r: bool)
    ensures
        r == is_permutation(config@, n as nat),
{
    if config.len() != n {
        return false;
    }
    let mut seen = vec![false; n];
    for i in 0..config.len()
        invariant
            config@.len() == n,
            seen@.len() == n,
            forall|k: int| 0 <= k < i ==> (#[trigger] config@[k]) < n,
            forall|k: int, l: int| 0 <= k < l < i ==> config@[k] != config@[l],
            forall|v: int|
                0 <= v < n ==> (seen@[v] <==> exists|k: int|
                    0 <= k < i && (#[trigger] config@[k]) as int == v),
    {
        let p = config[i];
        if p >= n {
            return false;
        }
        if seen[p] {
            let ghost k = choose|k: int| 0 <= k < i && (#[trigger] config@[k]) as int == p as int;
            assert(config@[k] == config@[i as int]);
            return false;
        }
        seen.set(p, true);
        assert forall|v: int| 0 <= v < n implies (seen@[v] <==> exists|k: int|
            0 <= k < i + 1 && (#[trigger] config@[k]) as int == v) by {
            if v == p as int {
                assert(config@[i as int] as int == v);
            } else {
                if exists|k: int| 0 <= k < i + 1 && (#[trigger] config@[k]) as int == v {
                    let k = choose|k: int| 0 <= k < i + 1 && (#[trigger] config@[k]) as int == v;
                    assert(k < i);
                }
            }
        }
    }
    true
}

/// Decode a Lehmer code into a permutation of `0..n`.
///
/// Each element of `config` selects from the remaining items: `config[i]`
/// must be `< n - i`. Returns `None` if the code has the wrong length or an
/// out-of-range digit.
pub fn decode_lehmer(config: &[usize], n: usize) -> (r: Option<Vec<usize>>)
    ensures
        match r {
            Some(v) => lehmer_decode(config@, n) == Some(v@),
            None => lehmer_decode(config@, n) is None,
        },
{
    if config.len() != n {
        return None;
    }
    let mut available: Vec<usize> = Vec::new();
    for i in 0..n
        invariant
            i <= n,
            available@ =~= range_seq(i),
    {
        available.push(i);
    }
    let mut schedule: Vec<usize> = Vec::new();
    let ghost full = range_seq(n);
    assert(available@ =~= full);
    assert(config@.skip(0) =~= config@);
    proof {
        match lehmer_from(full, config@) {
            Some(rest) => {
                assert(schedule@.add(rest) =~= rest);
            },
            None => {},
        }
    }
    for i in 0..config.len()
        invariant
            config@.len() == n,
            full == range_seq(n),
            lehmer_from(full, config@) == (match lehmer_from(available@, config@.skip(i as int)) {
                Some(rest) => Some(schedule@.add(rest)),
                None => None::<Seq<usize>>,
            }),
    {
        let digit = config[i];
        let ghost tail = config@.skip(i as int);
        assert(tail[0] == digit);
        assert(tail.drop_first() =~= config@.skip(i + 1));
        if digit >= available.len() {
            assert(tail.len() > 0);
            assert(lehmer_from(available@, tail) is None);
            return None;
        }
        let ghost old_avail = available@;
        let x = available.remove(digit);
        schedule.push(x);
        proof {
            match lehmer_from(available@, config@.skip(i + 1)) {
                Some(rest) => {
                    assert(schedule@.add(rest) =~= schedule@.drop_last().add(
                        seq![x].add(rest),
                    ));
                },
                None => {},
            }
        }
    }
    assert(config@.skip(n as int) =~= Seq::<usize>::empty());
    assert(schedule@.add(Seq::<usize>::empty()) =~= schedule@);
    Some(schedule)
}

/// Return the Lehmer-code dimension vector `[n, n-1, ..., 1]`.
pub fn lehmer_dims(n: usize) -> (r: Vec<usize>)
    ensures
        r@.len() == n,
        forall|i: int| 0 <= i < n ==> r@[i] == n - i,
{
    let mut dims: Vec<usize> = Vec::new();
    for i in 0..n
        invariant
            dims@.len() == i,
            forall|k: int| 0 <= k < i ==> dims@[k] == n - k,
    {
        dims.push(n - i);
    }
    dims
}

/// Count the entries of `config` equal to `value`.
pub fn count_value(config: &[usize], value: usize) -> (r: usize)
    ensures
        r == count_of(config@, value),
{
    let mut count: usize = 0;
    for i in 0..config.len()
        invariant
            count == count_of(config@.take(i as int), value),
            count <= i,
    {
        proof {
            assert(config@.take(i + 1) =~= config@.take(i as int).push(config@[i as int]));
            lemma_count_of_push(config@.take(i as int), config@[i as int], value);
        }
        if config[i] == value {
            count = count + 1;
        }
    }
    assert(config@.take(config@.len() as int) =~= config@);
    count
}

/// For each value `g < q`, how many entries of `config` equal `g`.
pub fn value_counts(config: &[usize], q: usize) -> (r: Vec<usize>)
    requires
        all_below(config@, q as int),
    ensures
        r@.len() == q,
        forall|g: int| 0 <= g < q ==> #[trigger] r@[g] == count_of(config@, g as usize),
{
    let mut counts = vec![0usize; q];
    for i in 0..config.len()
        invariant
            counts@.len() == q,
            all_below(config@, q as int),
            forall|g: int| 0 <= g < q ==> #[trigger] counts@[g] == count_of(config@.take(i as int), g as usize),
    {
        let c = config[i];
        assert(config@[i as int] < q);
        proof {
            assert(config@.take(i + 1) =~= config@.take(i as int).push(c));
            assert forall|g: usize| g < q implies #[trigger] count_of(config@.take(i + 1), g)
                == count_of(config@.take(i as int), g) + (if c == g { 1nat } else { 0nat }) by {
                lemma_count_of_push(config@.take(i as int), c, g);
            }
            lemma_count_of_bound(config@.take(i as int), c);
        }
        counts.set(c, counts[c] + 1);
    }
    assert(config@.take(config@.len() as int) =~= config@);
    counts
}

/// Sum of the `i32` weights at the positions selected (value 1) by `config`,
/// accumulated without overflow.
pub fn selected_weight_i32(weights: &[i32], config: &[usize]) -> (r: i128)
    ensures
        r == selected_sum(ints_i32(weights@), config@),
{
    let mut total: i128 = 0;
    for i in 0..config.len()
        invariant
            total == selected_sum(ints_i32(weights@), config@.take(i as int)),
            -(i as int) * 0x8000_0000 <= total <= (i as int) * 0x8000_0000,
            i <= config@.len(),
    {
        assert(config@.take(i + 1).drop_last() =~= config@.take(i as int));
        if config[i] == 1 && i < weights.len() {
            total = total + weights[i] as i128;
        }
    }
    assert(config@.take(config@.len() as int) =~= config@);
    total
}

/// Sum of the `i64` values at the positions selected (value 1) by `config`,
/// accumulated without overflow.
pub fn selected_value_i64(values: &[i64], config: &[usize]) -> (r: i128)
    ensures
        r == selected_sum(ints_i64(values@), config@),
{
    let mut total: i128 = 0;
    for i in 0..config.len()
        invariant
            total == selected_sum(ints_i64(values@), config@.take(i as int)),
            -(i as int) * 0x8000_0000_0000_0000 <= total <= (i as int) * 0x8000_0000_0000_0000,
            i <= config@.len(),
    {
        assert(config@.take(i + 1).drop_last() =~= config@.take(i as int));
        if config[i] == 1 && i < values.len() {
            total = total + values[i] as i128;
        }
    }
    assert(config@.take(config@.len() as int) =~= config@);
    total
}

/// Flags `config[i] == 1` for every position.
pub open spec fn ones_of(config: Seq<usize>) -> Seq<bool> {
    Seq::new(config.len(), |i: int| config[i] == 1)
}

/// The flags `config[i] == 1`.
pub fn ones_flags(config: &[usize]) -> (r: Vec<bool>)
    ensures
        r@ == ones_of(config@),
{
    let mut r: Vec<bool> = Vec::new();
    for i in 0..config.len()
        invariant
            r@ =~= ones_of(config@.take(i as int)),
    {
        r.push(config[i] == 1);
    }
    assert(config@.take(config@.len() as int) =~= config@);
    r
}

/// Number of `true` entries.
pub fn count_true_flags(flags: &[bool]) -> (r: usize)
    ensures
        r == count_true(flags@),
{
    let mut count: usize = 0;
    for i in 0..flags.len()
        invariant
            count == count_true(flags@.take(i as int)),
            count <= i,
    {
        proof {
            assert(flags@.take(i + 1) =~= flags@.take(i as int).push(flags@[i as int]));
            lemma_count_true_push(flags@.take(i as int), flags@[i as int]);
        }
        if flags[i] {
            count = count + 1;
        }
    }
    assert(flags@.take(flags@.len() as int) =~= flags@);
    count
}

/// Whether every flag is set.
pub fn all_true(flags: &[bool]) -> (r: bool)
    ensures
        r == forall|i: int| 0 <= i < flags@.len() ==> #[trigger] flags@[i],
{
    for i in 0..flags.len()
        invariant
            forall|k: int| 0 <= k < i ==> #[trigger] flags@[k],
    {
        if !flags[i] {
            return false;
        }
    }
    true
}

/// An element-by-element copy of a vector of index pairs.
pub fn copy_pairs(v: &Vec<(usize, usize)>) -> (r: Vec<(usize, usize)>)
    ensures
        r@ == v@,
{
    let mut r: Vec<(usize, usize)> = Vec::new();
    for i in 0..v.len()
        invariant
            r@ =~= v@.take(i as int),
    {
        r.push(v[i]);
    }
    assert(r@ =~= v@);
    r
}

/// An element-by-element copy of a slice of `i64`.
pub fn copy_i64s(v: &[i64]) -> (r: Vec<i64>)
    ensures
        r@ == v@,
{
    let mut r: Vec<i64> = Vec::new();
    for i in 0..v.len()
        invariant
            r@ =~= v@.take(i as int),
    {
        r.push(v[i]);
    }
    assert(r@ =~= v@);
    r
}

/// An element-by-element copy of a vector of `usize`.
pub fn copy_usizes(v: &[usize]) -> (r: Vec<usize>)
    ensures
        r@ == v@,
{
    let mut r: Vec<usize> = Vec::new();
    for i in 0..v.len()
        invariant
            r@ =~= v@.take(i as int),
    {
        r.push(v[i]);
    }
    assert(r@ =~= v@);
    r
}

/// A vector of `n` copies of `value`.
pub fn repeat_usize(value: usize, n: usize) -> (r: Vec<usize>)
    ensures
        r@ == Seq::new(n as nat, |i: int| value),
{
    let v = vec![value; n];
    assert(v@ =~= Seq::new(n as nat, |i: int| value));
    v
}

/// Whether every entry is below `bound`.
pub fn check_all_below(config: &[usize], bound: usize) -> (r: bool)
    ensures
        r == all_below(config@, bound as int),
{
    for i in 0..config.len()
        invariant
            forall|k: int| 0 <= k < i ==> (#[trigger] config@[k]) < bound,
    {
        if config[i] >= bound {
            assert(!(config@[i as int] < bound));
            return false;
        }
    }
    true
}

/// Every entry of `s` is strictly positive.
pub open spec fn all_positive_i32(s: Seq<i32>) -> bool {
    forall|i: int| 0 <= i < s.len() ==> (#[trigger] s[i]) > 0
}

/// Sum of all entries.
pub open spec fn sum_usize(s: Seq<usize>) -> nat
    decreases s.len(),
{
    if s.len() == 0 {
        0
    } else {
        sum_usize(s.drop_last()) + s.last() as nat
    }
}

/// Product of all entries.
pub open spec fn product_usize(s: Seq<usize>) -> nat
    decreases s.len(),
{
    if s.len() == 0 {
        1
    } else {
        product_usize(s.drop_last()) * (s.last() as nat)
    }
}

/// A prefix sum never exceeds the whole sum.
pub proof fn lemma_sum_usize_prefix(s: Seq<usize>, i: int)
    requires
        0 <= i <= s.len(),
    ensures
        sum_usize(s.take(i)) <= sum_usize(s),
    decreases s.len() - i,
{
    if i < s.len() {
        lemma_sum_usize_prefix(s, i + 1);
        assert(s.take(i + 1).drop_last() =~= s.take(i));
    } else {
        assert(s.take(i) =~= s);
    }
}

/// With positive factors, a prefix product never exceeds the whole product.
pub proof fn lemma_product_usize_prefix(s: Seq<usize>, i: int)
    requires
        0 <= i <= s.len(),
        forall|k: int| 0 <= k < s.len() ==> #[trigger] s[k] > 0,
    ensures
        1 <= product_usize(s.take(i)) <= product_usize(s),
    decreases s.len() - i,
{
    if i < s.len() {
        lemma_product_usize_prefix(s, i + 1);
        assert(s.take(i + 1).drop_last() =~= s.take(i));
        lemma_product_usize_positive(s.take(i));
        let p = product_usize(s.take(i));
        let x = s[i] as nat;
        assert(product_usize(s.take(i + 1)) == p * x);
        assert(p <= p * x) by (nonlinear_arith)
            requires
                x >= 1,
                p >= 0,
        ;
    } else {
        assert(s.take(i) =~= s);
        lemma_product_usize_positive(s);
    }
}

/// A product of positive factors is positive.
pub proof fn lemma_product_usize_positive(s: Seq<usize>)
    requires
        forall|k: int| 0 <= k < s.len() ==> #[trigger] s[k] > 0,
    ensures
        product_usize(s) >= 1,
    decreases s.len(),
{
    if s.len() > 0 {
        lemma_product_usize_positive(s.drop_last());
        let p = product_usize(s.drop_last());
        let x = s.last() as nat;
        assert(p * x >= 1) by (nonlinear_arith)
            requires
                p >= 1,
                x >= 1,
        ;
    }
}

/// Sum of all entries, when it fits in `usize`.
pub fn sum_usizes(values: &[usize]) -> (r: usize)
    requires
        sum_usize(values@) <= usize::MAX,
    ensures
        r == sum_usize(values@),
{
    let mut total: usize = 0;
    for i in 0..values.len()
        invariant
            total == sum_usize(values@.take(i as int)),
            sum_usize(values@) <= usize::MAX,
    {
        assert(values@.take(i + 1).drop_last() =~= values@.take(i as int));
        proof {
            lemma_sum_usize_prefix(values@, i + 1);
        }
        total = total + values[i];
    }
    assert(values@.take(values@.len() as int) =~= values@);
    total
}

/// Product of all (positive) entries, when it fits in `usize`.
pub fn product_usizes(values: &[usize]) -> (r: usize)
    requires
        product_usize(values@) <= usize::MAX,
        forall|k: int| 0 <= k < values@.len() ==> #[trigger] values@[k] > 0,
    ensures
        r == product_usize(values@),
{
    let mut total: usize = 1;
    for i in 0..values.len()
        invariant
            total == product_usize(values@.take(i as int)),
            product_usize(values@) <= usize::MAX,
            forall|k: int| 0 <= k < values@.len() ==> #[trigger] values@[k] > 0,
    {
        assert(values@.take(i + 1).drop_last() =~= values@.take(i as int));
        proof {
            lemma_product_usize_prefix(values@, i + 1);
        }
        total = total * values[i];
    }
    assert(values@.take(values@.len() as int) =~= values@);
    total
}

/// Sum of a sequence of naturals.
pub open spec fn sum_nat(s: Seq<nat>) -> nat
    decreases s.len(),
{
    if s.len() == 0 {
        0
    } else {
        sum_nat(s.drop_last()) + s.last()
    }
}

/// A prefix sum of naturals never exceeds the whole sum.
pub proof fn lemma_sum_nat_prefix(s: Seq<nat>, i: int)
    requires
        0 <= i <= s.len(),
    ensures
        sum_nat(s.take(i)) <= sum_nat(s),
    decreases s.len() - i,
{
    if i < s.len() {
        lemma_sum_nat_prefix(s, i + 1);
        assert(s.take(i + 1).drop_last() =~= s.take(i));
    } else {
        assert(s.take(i) =~= s);
    }
}

/// The rows of a matrix, each viewed as a sequence.
pub open spec fn rows_of(rows: Seq<Vec<usize>>) -> Seq<Seq<usize>> {
    rows.map_values(|row: Vec<usize>| row@)
}

/// Whether two slices hold the same entries.
pub fn same_entries(a: &[usize], b: &[usize]) -> (r: bool)
    ensures
        r == (a@ == b@),
{
    if a.len() != b.len() {
        return false;
    }
    for i in 0..a.len()
        invariant
            a@.len() == b@.len(),
            forall|k: int| 0 <= k < i ==> a@[k] == b@[k],
    {
        if a[i] != b[i] {
            return false;
        }
    }
    assert(a@ =~= b@);
    true
}

/// Whether `row` is one of the rows of `rows`.
pub fn contains_row(rows: &[Vec<usize>], row: &[usize]) -> (r: bool)
    ensures
        r == rows_of(rows@).contains(row@),
{
    for j in 0..rows.len()
        invariant
            forall|k: int| 0 <= k < j ==> rows@[k]@ != row@,
    {
        if same_entries(rows[j].as_slice(), row) {
            assert(rows_of(rows@)[j as int] == row@);
            return true;
        }
    }
    assert(!rows_of(rows@).contains(row@)) by {
        if rows_of(rows@).contains(row@) {
            let k = choose|k: int| 0 <= k < rows_of(rows@).len() && rows_of(rows@)[k] == row@;
            assert(rows@[k]@ == row@);
        }
    }
    false
}

/// The entries of `s` that are below `n`, in ascending order: each value
/// `v < n` repeated as often as it occurs in `s`.
pub open spec fn ascending(s: Seq<usize>, n: nat) -> Seq<usize>
    decreases n,
{
    if n == 0 {
        Seq::empty()
    } else {
        ascending(s, (n - 1) as nat) + Seq::new(count_of(s, (n - 1) as usize), |i: int| (n - 1) as usize)
    }
}

/// Sort entries that are all below `n` into ascending order.
pub fn sort_ascending(s: &[usize], n: usize) -> (r: Vec<usize>)
    requires
        all_below(s@, n as int),
    ensures
        r@ == ascending(s@, n as nat),
{
    let counts = value_counts(s, n);
    let mut r: Vec<usize> = Vec::new();
    for v in 0..n
        invariant
            counts@.len() == n,
            forall|g: int| 0 <= g < n ==> #[trigger] counts@[g] == count_of(s@, g as usize),
            r@ == ascending(s@, v as nat),
    {
        let ghost base = r@;
        let c = counts[v];
        assert(c == count_of(s@, v));
        for j in 0..c
            invariant
                r@ == base + Seq::new(j as nat, |i: int| v),
        {
            r.push(v);
            assert(r@ =~= base + Seq::new((j + 1) as nat, |i: int| v));
        }
        assert(ascending(s@, (v + 1) as nat) =~= base + Seq::new(c as nat, |i: int| v));
    }
    r
}

/// An element-by-element copy of a slice of flags.
pub fn copy_bools(v: &[bool]) -> (r: Vec<bool>)
    ensures
        r@ == v@,
{
    let mut r: Vec<bool> = Vec::new();
    for i in 0..v.len()
        invariant
            r@ =~= v@.take(i as int),
    {
        r.push(v[i]);
    }
    assert(r@ =~= v@);
    r
}

/// The entries of `attrs` whose variable in `config` is 1, in order.
pub open spec fn selected_attrs(attrs: Seq<usize>, config: Seq<usize>) -> Seq<usize>
    decreases config.len(),
{
    if config.len() == 0 {
        Seq::empty()
    } else {
        let i = config.len() - 1;
        selected_attrs(attrs, config.drop_last()) + (if config[i] == 1 {
            seq![attrs[i]]
        } else {
            Seq::empty()
        })
    }
}

/// Membership flags over `0..n` of the listed values.
pub open spec fn membership(n: nat, attrs: Seq<usize>) -> Seq<bool> {
    Seq::new(n, |a: int| attrs.contains(a as usize))
}

/// The entries of `attrs` whose variable in `config` is 1, in order.
pub fn select_attrs(attrs: &[usize], config: &[usize], n: usize) -> (r: Vec<usize>)
    requires
        config@.len() == attrs@.len(),
        all_below(attrs@, n as int),
    ensures
        r@ == selected_attrs(attrs@, config@),
        all_below(r@, n as int),
{
    let mut selected: Vec<usize> = Vec::new();
    for i in 0..config.len()
        invariant
            config@.len() == attrs@.len(),
            all_below(attrs@, n as int),
            selected@ == selected_attrs(attrs@, config@.take(i as int)),
            all_below(selected@, n as int),
    {
        assert(config@.take(i + 1).drop_last() =~= config@.take(i as int));
        if config[i] == 1 {
            assert(attrs@[i as int] < n);
            selected.push(attrs[i]);
        }
        assert(selected@ =~= selected_attrs(attrs@, config@.take(i + 1)));
    }
    assert(config@.take(config@.len() as int) =~= config@);
    selected
}

/// Membership flags over `0..n` of the listed values.
pub fn membership_flags(n: usize, attrs: &[usize]) -> (r: Vec<bool>)
    requires
        all_below(attrs@, n as int),
    ensures
        r@ == membership(n as nat, attrs@),
{
    let ghost sel = attrs@;
    let mut flags = vec![false; n];
    for j in 0..attrs.len()
        invariant
            sel == attrs@,
            all_below(sel, n as int),
            flags@ =~= membership(n as nat, sel.take(j as int)),
    {
        let a = attrs[j];
        flags.set(a, true);
        assert forall|x: int| 0 <= x < n implies #[trigger] flags@[x] == sel.take(j + 1).contains(
            x as usize,
        ) by {
            let t1 = sel.take(j + 1);
            let t0 = sel.take(j as int);
            assert(t1 =~= t0.push(a));
            if x == a as int {
                assert(t1[j as int] == a);
            } else {
                if t0.contains(x as usize) {
                    let i = choose|i: int| 0 <= i < t0.len() && t0[i] == x as usize;
                    assert(t1[i] == x as usize);
                }
                if t1.contains(x as usize) {
                    let i = choose|i: int| 0 <= i < t1.len() && t1[i] == x as usize;
                    assert(t0[i] == x as usize);
                }
            }
        }
    }
    assert(sel.take(sel.len() as int) =~= sel);
    flags
}

/// The distinct entries of `s` that are below `n`, in ascending order.
pub open spec fn distinct_ascending(s: Seq<usize>, n: nat) -> Seq<usize>
    decreases n,
{
    if n == 0 {
        Seq::empty()
    } else {
        distinct_ascending(s, (n - 1) as nat) + (if s.contains((n - 1) as usize) {
            seq![(n - 1) as usize]
        } else {
            Seq::empty()
        })
    }
}

/// Sort entries that are all below `n` into ascending order, dropping repeats.
pub fn sort_dedup(s: &[usize], n: usize) -> (r: Vec<usize>)
    requires
        all_below(s@, n as int),
    ensures
        r@ == distinct_ascending(s@, n as nat),
{
    let flags = membership_flags(n, s);
    let mut r: Vec<usize> = Vec::new();
    for v in 0..n
        invariant
            flags@ == membership(n as nat, s@),
            r@ == distinct_ascending(s@, v as nat),
    {
        if flags[v] {
            r.push(v);
        }
        assert(r@ =~= distinct_ascending(s@, (v + 1) as nat));
    }
    r
}

/// Distinct ascending entries stay below `n`, and hold exactly the values
/// below `n` that occur in `s`.
pub proof fn lemma_distinct_ascending(s: Seq<usize>, n: nat)
    ensures
        all_below(distinct_ascending(s, n), n as int),
        forall|v: usize| v < n ==> (#[trigger] distinct_ascending(s, n).contains(v) <==> s.contains(v)),
    decreases n,
{
    if n > 0 {
        let m = (n - 1) as nat;
        lemma_distinct_ascending(s, m);
        let prev = distinct_ascending(s, m);
        let cur = distinct_ascending(s, n);
        assert forall|v: usize| v < n implies (#[trigger] cur.contains(v) <==> s.contains(v)) by {
            if v < m {
                if cur.contains(v) {
                    let i = choose|i: int| 0 <= i < cur.len() && cur[i] == v;
                    if i < prev.len() {
                        assert(prev[i] == v);
                    }
                }
                if prev.contains(v) {
                    let i = choose|i: int| 0 <= i < prev.len() && prev[i] == v;
                    assert(cur[i] == v);
                }
            } else {
                if s.contains(v) {
                    assert(cur[prev.len() as int] == v);
                }
                if cur.contains(v) {
                    let i = choose|i: int| 0 <= i < cur.len() && cur[i] == v;
                    if i < prev.len() {
                        assert(prev[i] < m);
                    }
                }
            }
        }
    }
}

/// Sum of all `u64` entries, accumulated without overflow.
pub fn sum_u64s(values: &[u64]) -> (r: u128)
    ensures
        r == sum_u64(values@),
        r <= values@.len() * 0xffff_ffff_ffff_ffff,
{
    let mut total: u128 = 0;
    for i in 0..values.len()
        invariant
            total == sum_u64(values@.take(i as int)),
            total <= i * 0xffff_ffff_ffff_ffff,
            i <= values@.len(),
    {
        assert(values@.take(i + 1).drop_last() =~= values@.take(i as int));
        total = total + values[i] as u128;
    }
    assert(values@.take(values@.len() as int) =~= values@);
    total
}

/// Sum of the `u64` values at the positions selected (value 1) by `config`,
/// accumulated without overflow.
pub fn selected_value_u64(values: &[u64], config: &[usize]) -> (r: u128)
    ensures
        r == selected_sum(ints_u64(values@), config@),
        r <= config@.len() * 0xffff_ffff_ffff_ffff,
{
    let mut total: u128 = 0;
    for i in 0..config.len()
        invariant
            total == selected_sum(ints_u64(values@), config@.take(i as int)),
            total <= i * 0xffff_ffff_ffff_ffff,
            i <= config@.len(),
    {
        assert(config@.take(i + 1).drop_last() =~= config@.take(i as int));
        if config[i] == 1 && i < values.len() {
            total = total + values[i] as u128;
        }
    }
    assert(config@.take(config@.len() as int) =~= config@);
    total
}

/// Some entry of `s` equals `t`.
pub open spec fn occurs(s: Seq<usize>, t: int) -> bool {
    exists|k: int| 0 <= k < s.len() && s[k] as int == t
}

/// A permutation of `0..n` takes every value below `n`.
pub proof fn lemma_permutation_covers(s: Seq<usize>, n: nat)
    requires
        is_permutation(s, n),
    ensures
        forall|t: int| 0 <= t < n ==> #[trigger] occurs(s, t),
{
    broadcast use vstd::seq_lib::seq_to_set_is_finite;

    let ms = s.map_values(|x: usize| x as int);
    assert(ms.no_duplicates()) by {
        assert forall|i: int, j: int| 0 <= i < ms.len() && 0 <= j < ms.len() && i != j implies ms[i] != ms[j] by {
            if i < j {
                assert(s[i] != s[j]);
            } else {
                assert(s[j] != s[i]);
            }
        }
    }
    ms.unique_seq_to_set();
    let range = vstd::set_lib::set_int_range(0, n as int);
    vstd::set_lib::lemma_int_range(0, n as int);
    assert(ms.to_set().subset_of(range)) by {
        assert forall|v: int| ms.to_set().contains(v) implies range.contains(v) by {
            let k = choose|k: int| 0 <= k < ms.len() && ms[k] == v;
            assert(s[k] < n);
        }
    }
    vstd::set_lib::lemma_subset_equality(ms.to_set(), range);
    assert forall|t: int| 0 <= t < n implies #[trigger] occurs(s, t) by {
        assert(range.contains(t));
        assert(ms.to_set().contains(t));
        let k = choose|k: int| 0 <= k < ms.len() && ms[k] == t;
        assert(s[k] as int == t);
    }
}

/// The position of every item in an order that is a permutation of `0..n`:
/// `r[order[k]] == k`.
pub fn inverse_positions(order: &[usize], n: usize) -> (r: Vec<usize>)
    requires
        is_permutation(order@, n as nat),
    ensures
        r@.len() == n,
        forall|k: int| 0 <= k < n ==> r@[order@[k] as int] == k,
        forall|t: int| 0 <= t < n ==> (#[trigger] r@[t]) < n && order@[r@[t] as int] == t,
{
    let mut pos: Vec<usize> = vec![0; n];
    for k in 0..n
        invariant
            is_permutation(order@, n as nat),
            pos@.len() == n,
            forall|j: int| 0 <= j < k ==> pos@[order@[j] as int] == j,
    {
        let t = order[k];
        pos.set(t, k);
        assert forall|j: int| 0 <= j < k + 1 implies pos@[order@[j] as int] == j by {
            if j < k {
                assert(order@[j] != order@[k as int]);
            }
        }
    }
    proof {
        lemma_permutation_covers(order@, n as nat);
        assert forall|t: int| 0 <= t < n implies (#[trigger] pos@[t]) < n && order@[pos@[t] as int] == t by {
            assert(occurs(order@, t));
            let k = choose|k: int| 0 <= k < order@.len() && order@[k] as int == t;
            assert(pos@[order@[k] as int] == k);
        }
    }
    pos
}

/// Item `a` comes strictly before item `b` in `order`.
pub open spec fn precedes_in(order: Seq<usize>, a: usize, b: usize) -> bool {
    exists|i: int, j: int| 0 <= i < j < order.len() && order[i] == a && order[j] == b
}

/// Every pair `(p, s)` of `precedences` has `p` strictly before `s` in `order`.
pub open spec fn order_respects(order: Seq<usize>, precedences: Seq<(usize, usize)>) -> bool {
    forall|k: int| 0 <= k < precedences.len() ==> #[trigger] precedes_in(order, precedences[k].0, precedences[k].1)
}

/// Every pair of `precedences` names items below `n`.
pub open spec fn pairs_below(precedences: Seq<(usize, usize)>, n: nat) -> bool {
    forall|k: int| 0 <= k < precedences.len() ==> (#[trigger] precedences[k]).0 < n && precedences[k].1 < n
}

/// Whether `order`, a permutation of `0..n`, respects every precedence pair.
pub fn check_order_respects(order: &[usize], precedences: &[(usize, usize)], n: usize) -> (r: bool)
    requires
        is_permutation(order@, n as nat),
        pairs_below(precedences@, n as nat),
    ensures
        r == order_respects(order@, precedences@),
{
    let pos = inverse_positions(order, n);
    for k in 0..precedences.len()
        invariant
            is_permutation(order@, n as nat),
            pairs_below(precedences@, n as nat),
            pos@.len() == n,
            forall|q: int| 0 <= q < n ==> pos@[order@[q] as int] == q,
            forall|t: int| 0 <= t < n ==> (#[trigger] pos@[t]) < n && order@[pos@[t] as int] == t,
            forall|q: int| 0 <= q < k ==> #[trigger] precedes_in(order@, precedences@[q].0, precedences@[q].1),
    {
        let (a, b) = precedences[k];
        assert(precedences@[k as int] == (a, b));
        assert(pos@[a as int] < n && pos@[b as int] < n);
        if pos[a] >= pos[b] {
            proof {
                if precedes_in(order@, a, b) {
                    let (i, j) = choose|i: int, j: int| 0 <= i < j < order@.len() && order@[i] == a && order@[j] == b;
                    assert(pos@[order@[i] as int] == i);
                    assert(pos@[order@[j] as int] == j);
                }
                assert(!precedes_in(order@, precedences@[k as int].0, precedences@[k as int].1));
            }
            return false;
        }
        proof {
            let i = pos@[a as int] as int;
            let j = pos@[b as int] as int;
            assert(order@[i] == a && order@[j] == b);
            assert(precedes_in(order@, a, b));
        }
    }
    true
}

/// Some entry of `s` is zero.
pub open spec fn has_zero(s: Seq<u64>) -> bool {
    exists|i: int| 0 <= i < s.len() && s[i] == 0
}

/// Whether some entry is zero.
pub fn contains_zero(s: &[u64]) -> (r: bool)
    ensures
        r == has_zero(s@),
{
    for i in 0..s.len()
        invariant
            forall|k: int| 0 <= k < i ==> (#[trigger] s@[k]) != 0,
    {
        if s[i] == 0 {
            return true;
        }
    }
    false
}

/// The rows of a `u64` matrix, each viewed as a sequence.
pub open spec fn rows_u64(rows: Seq<Vec<u64>>) -> Seq<Seq<u64>> {
    rows.map_values(|row: Vec<u64>| row@)
}

/// The indices `i` with `0 <= i < k` at which `p` holds.
pub open spec fn indices_where(p: spec_fn(int) -> bool, k: int) -> Set<int> {
    Set::new(|i: int| 0 <= i < k && p(i))
}

/// The index sets are finite, and going from `k` to `k + 1` adds one index
/// exactly when `p(k)` holds.
pub proof fn lemma_indices_where_step(p: spec_fn(int) -> bool, k: int)
    requires
        0 <= k,
    ensures
        indices_where(p, k).finite(),
        indices_where(p, k + 1).finite(),
        indices_where(p, k + 1).len() == indices_where(p, k).len() + (if p(k) { 1int } else { 0int }),
    decreases k,
{
    if k > 0 {
        lemma_indices_where_step(p, k - 1);
    } else {
        assert(indices_where(p, 0) =~= Set::<int>::empty());
    }
    if p(k) {
        assert(indices_where(p, k + 1) =~= indices_where(p, k).insert(k));
    } else {
        assert(indices_where(p, k + 1) =~= indices_where(p, k));
    }
}

} // verus!
