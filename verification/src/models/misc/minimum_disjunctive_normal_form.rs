//! Minimum Disjunctive Normal Form.
//!
//! Given a Boolean function of `n` variables by its truth table, find a
//! smallest set of prime implicants whose disjunction is the function. The
//! prime implicants are precomputed, in increasing pattern order; a
//! configuration selects a subset of them.
use crate::util::{count_of, count_value};
use crate::types::Min;
use vstd::arithmetic::power2::pow2;
use vstd::prelude::*;

verus! {

/// A product term: per variable, `Some(v)` requires the value `v`, `None`
/// leaves it free. Variable `i` is bit `n - 1 - i` of an assignment.
#[derive(Debug, Clone, PartialEq, Eq, Hash)]
pub struct PrimeImplicant {
    pub pattern: Vec<Option<bool>>,
}

/// The patterns of a list of prime implicants.
pub open spec fn patterns_of(pis: Seq<PrimeImplicant>) -> Seq<Seq<Option<bool>>> {
    pis.map_values(|pi: PrimeImplicant| pi.pattern@)
}

/// Bit `k` of `m`.
pub open spec fn bit(m: nat, k: nat) -> bool {
    (m / pow2(k)) % 2 == 1
}

/// The pattern's term is true on assignment `m`.
pub open spec fn pattern_covers(p: Seq<Option<bool>>, m: nat) -> bool {
    forall|i: int| 0 <= i < p.len() ==> (#[trigger] p[i] matches Some(v) ==> bit(m, (p.len() - 1 - i) as nat) == v)
}

/// The term implies the function: every assignment it is true on is a minterm.
pub open spec fn is_implicant(tt: Seq<bool>, n: nat, p: Seq<Option<bool>>) -> bool {
    &&& p.len() == n
    &&& forall|m: nat| m < tt.len() && #[trigger] pattern_covers(p, m) ==> tt[m as int]
}

/// An implicant that no longer is one when any fixed variable is freed.
pub open spec fn is_prime(tt: Seq<bool>, n: nat, p: Seq<Option<bool>>) -> bool {
    &&& is_implicant(tt, n, p)
    &&& forall|i: int| 0 <= i < n && (#[trigger] p[i]) is Some ==> !is_implicant(tt, n, p.update(i, None))
}

/// Rank of a variable setting in pattern order: `None < Some(false) < Some(true)`.
pub open spec fn digit(o: Option<bool>) -> nat {
    match o {
        None => 0,
        Some(false) => 1,
        Some(true) => 2,
    }
}

/// Lexicographic pattern order: at the first difference `p` has the lower rank.
pub open spec fn pattern_lt(p: Seq<Option<bool>>, q: Seq<Option<bool>>) -> bool {
    exists|i: int|
        0 <= i < p.len() && i < q.len() && (forall|j: int| 0 <= j < i ==> p[j] == q[j]) && digit(#[trigger] p[i])
            < digit(q[i])
}

/// `pats` lists exactly the prime implicants, in increasing pattern order.
pub open spec fn lists_primes(tt: Seq<bool>, n: nat, pats: Seq<Seq<Option<bool>>>) -> bool {
    &&& forall|i: int, j: int| 0 <= i < j < pats.len() ==> pattern_lt(#[trigger] pats[i], #[trigger] pats[j])
    &&& forall|p: Seq<Option<bool>>| #![trigger pats.contains(p)] #![trigger is_prime(tt, n, p)] pats.contains(p) <==> is_prime(tt, n, p)
}

/// Powers of three.
pub open spec fn pow3(k: nat) -> nat
    decreases k,
{
    if k == 0 {
        1
    } else {
        3 * pow3((k - 1) as nat)
    }
}

/// The pattern's number in base three, first variable most significant.
pub open spec fn pattern_code(p: Seq<Option<bool>>) -> nat
    decreases p.len(),
{
    if p.len() == 0 {
        0
    } else {
        pattern_code(p.drop_last()) * 3 + digit(p.last())
    }
}

/// The setting of a rank.
pub open spec fn undigit(d: nat) -> Option<bool> {
    if d == 0 {
        None
    } else if d == 1 {
        Some(false)
    } else {
        Some(true)
    }
}

/// The pattern of `n` variables numbered `c`.
pub open spec fn pattern_of(c: nat, n: nat) -> Seq<Option<bool>>
    decreases n,
{
    if n == 0 {
        Seq::empty()
    } else {
        pattern_of(c / 3, (n - 1) as nat).push(undigit(c % 3))
    }
}

proof fn lemma_code_bound(p: Seq<Option<bool>>)
    ensures
        pattern_code(p) < pow3(p.len()),
    decreases p.len(),
{
    if p.len() > 0 {
        lemma_code_bound(p.drop_last());
    }
}

proof fn lemma_pattern_of_code(p: Seq<Option<bool>>)
    ensures
        pattern_of(pattern_code(p), p.len()) == p,
    decreases p.len(),
{
    if p.len() > 0 {
        lemma_pattern_of_code(p.drop_last());
        let c = pattern_code(p);
        assert(c / 3 == pattern_code(p.drop_last()));
        assert(c % 3 == digit(p.last()));
        assert(pattern_of(c, p.len()) =~= p.drop_last().push(p.last()));
    }
}

proof fn lemma_code_of_pattern(c: nat, n: nat)
    requires
        c < pow3(n),
    ensures
        pattern_of(c, n).len() == n,
        pattern_code(pattern_of(c, n)) == c,
    decreases n,
{
    if n > 0 {
        lemma_code_of_pattern(c / 3, (n - 1) as nat);
        let p = pattern_of(c, n);
        assert(p.drop_last() =~= pattern_of(c / 3, (n - 1) as nat));
    }
}

/// A smaller number means a smaller pattern.
proof fn lemma_code_order(p: Seq<Option<bool>>, q: Seq<Option<bool>>)
    requires
        p.len() == q.len(),
        pattern_code(p) < pattern_code(q),
    ensures
        pattern_lt(p, q),
    decreases p.len(),
{
    let n = p.len();
    let (p1, q1) = (p.drop_last(), q.drop_last());
    if pattern_code(p1) < pattern_code(q1) {
        lemma_code_order(p1, q1);
        let i = choose|i: int|
            0 <= i < p1.len() && i < q1.len() && (forall|j: int| 0 <= j < i ==> p1[j] == q1[j]) && digit(
                #[trigger] p1[i],
            ) < digit(q1[i]);
        assert(p[i] == p1[i] && q[i] == q1[i]);
        assert forall|j: int| 0 <= j < i implies p[j] == q[j] by {
            assert(p[j] == p1[j] && q[j] == q1[j]);
        }
    } else if pattern_code(p1) == pattern_code(q1) {
        lemma_pattern_of_code(p1);
        lemma_pattern_of_code(q1);
        assert forall|j: int| 0 <= j < n - 1 implies p[j] == q[j] by {
            assert(p[j] == p1[j] && q[j] == q1[j]);
        }
        assert(digit(p[n - 1]) < digit(q[n - 1]));
    } else {
        assert(false);
    }
}

/// `pats` lists, in increasing order, exactly the prime implicants numbered
/// below `c`.
pub open spec fn lists_primes_below(tt: Seq<bool>, n: nat, pats: Seq<Seq<Option<bool>>>, c: nat) -> bool {
    &&& forall|i: int, j: int| 0 <= i < j < pats.len() ==> pattern_lt(#[trigger] pats[i], #[trigger] pats[j])
    &&& forall|i: int| 0 <= i < pats.len() ==> pattern_code(#[trigger] pats[i]) < c && pats[i].len() == n
    &&& forall|p: Seq<Option<bool>>| #![trigger pats.contains(p)] #![trigger is_prime(tt, n, p)] pats.contains(p) <==> is_prime(tt, n, p) && pattern_code(p) < c
}

proof fn lemma_push_prime(tt: Seq<bool>, n: nat, pats: Seq<Seq<Option<bool>>>, p: Seq<Option<bool>>, c: nat)
    requires
        lists_primes_below(tt, n, pats, c),
        is_prime(tt, n, p),
        p.len() == n,
        pattern_code(p) == c,
    ensures
        lists_primes_below(tt, n, pats.push(p), c + 1),
{
    let np = pats.push(p);
    assert forall|i: int, j: int| 0 <= i < j < np.len() implies pattern_lt(#[trigger] np[i], #[trigger] np[j]) by {
        if j == pats.len() {
            assert(np[i] == pats[i]);
            lemma_code_order(pats[i], p);
        } else {
            assert(np[i] == pats[i] && np[j] == pats[j]);
        }
    }
    assert forall|i: int| 0 <= i < np.len() implies pattern_code(#[trigger] np[i]) < c + 1 && np[i].len() == n by {
        if i < pats.len() {
            assert(np[i] == pats[i]);
        }
    }
    assert forall|q: Seq<Option<bool>>| np.contains(q) <==> is_prime(tt, n, q) && pattern_code(q) < c + 1 by {
        if np.contains(q) {
            let k = choose|k: int| 0 <= k < np.len() && np[k] == q;
            if k < pats.len() {
                assert(pats[k] == q);
                assert(pats.contains(q));
            }
        }
        if is_prime(tt, n, q) && pattern_code(q) < c + 1 {
            if pattern_code(q) == c {
                lemma_pattern_of_code(q);
                lemma_pattern_of_code(p);
                assert(np[pats.len() as int] == q);
            } else {
                assert(pats.contains(q));
                let k = choose|k: int| 0 <= k < pats.len() && pats[k] == q;
                assert(np[k] == q);
            }
        }
    }
}

proof fn lemma_skip_pattern(tt: Seq<bool>, n: nat, pats: Seq<Seq<Option<bool>>>, p: Seq<Option<bool>>, c: nat)
    requires
        lists_primes_below(tt, n, pats, c),
        !is_prime(tt, n, p),
        p.len() == n,
        pattern_code(p) == c,
    ensures
        lists_primes_below(tt, n, pats, c + 1),
{
    assert forall|q: Seq<Option<bool>>| pats.contains(q) <==> is_prime(tt, n, q) && pattern_code(q) < c + 1 by {
        if is_prime(tt, n, q) && pattern_code(q) == c {
            lemma_pattern_of_code(q);
            lemma_pattern_of_code(p);
        }
    }
}

/// Shifting right and masking reads bit `k`.
fn read_bit(m: usize, k: usize) -> (b: bool)
    requires
        k < usize::BITS,
    ensures
        b == bit(m as nat, k as nat),
{
    proof {
        vstd::bits::lemma_usize_shr_is_div(m, k);
    }
    let y = m >> k;
    assert(y & 1 == y % 2) by (bit_vector);
    (y & 1) == 1
}

/// Whether the pattern's term is true on assignment `minterm`.
fn covers_minterm(pattern: &[Option<bool>], minterm: usize) -> (b: bool)
    requires
        pattern@.len() <= usize::BITS,
    ensures
        b == pattern_covers(pattern@, minterm as nat),
{
    let len = pattern.len();
    for i in 0..len
        invariant
            len == pattern@.len(),
            len <= usize::BITS,
            forall|j: int|
                0 <= j < i ==> (#[trigger] pattern@[j] matches Some(v) ==> bit(minterm as nat, (len - 1 - j) as nat)
                    == v),
    {
        if let Some(val) = pattern[i] {
            let b = read_bit(minterm, len - 1 - i);
            if b != val {
                assert(pattern@[i as int] == Some(val));
                return false;
            }
        }
    }
    true
}

impl PrimeImplicant {
    /// Whether the term is true on assignment `minterm`.
    pub fn covers(&self, minterm: usize) -> (b: bool)
        requires
            self.pattern@.len() <= usize::BITS,
        ensures
            b == pattern_covers(self.pattern@, minterm as nat),
    {
        covers_minterm(self.pattern.as_slice(), minterm)
    }
}

/// Whether the pattern's term implies the function.
fn check_implicant(tt: &Vec<bool>, n: usize, pattern: &Vec<Option<bool>>) -> (b: bool)
    requires
        pattern@.len() == n,
        n <= usize::BITS,
    ensures
        b == is_implicant(tt@, n as nat, pattern@),
{
    for m in 0..tt.len()
        invariant
            pattern@.len() == n,
            n <= usize::BITS,
            forall|q: nat| q < m && #[trigger] pattern_covers(pattern@, q) ==> tt@[q as int],
    {
        if covers_minterm(pattern.as_slice(), m) && !tt[m] {
            assert(pattern_covers(pattern@, (m as int) as nat) && !tt@[m as int]);
            return false;
        }
    }
    true
}

/// Whether the pattern is a prime implicant.
fn check_prime(tt: &Vec<bool>, n: usize, pattern: &Vec<Option<bool>>) -> (b: bool)
    requires
        pattern@.len() == n,
        n <= usize::BITS,
    ensures
        b == is_prime(tt@, n as nat, pattern@),
{
    if !check_implicant(tt, n, pattern) {
        return false;
    }
    for i in 0..n
        invariant
            pattern@.len() == n,
            n <= usize::BITS,
            forall|j: int| 0 <= j < i && (#[trigger] pattern@[j]) is Some ==> !is_implicant(tt@, n as nat, pattern@.update(j, None)),
    {
        if pattern[i].is_some() {
            let mut freed = pattern.clone();
            freed.set(i, None);
            assert(freed@ == pattern@.update(i as int, None));
            if check_implicant(tt, n, &freed) {
                return false;
            }
        }
    }
    true
}

/// The pattern of `n` variables numbered `c`.
fn decode_pattern(c: u128, n: usize) -> (r: Vec<Option<bool>>)
    ensures
        r@ == pattern_of(c as nat, n as nat),
{
    let mut digits: Vec<Option<bool>> = Vec::new();
    let mut x = c;
    let mut k = n;
    let ghost mut tail: Seq<Option<bool>> = Seq::empty();
    while k > 0
        invariant
            k <= n,
            pattern_of(c as nat, n as nat) == pattern_of(x as nat, k as nat) + tail,
            digits@ == tail.reverse(),
        decreases k,
    {
        let d = x % 3;
        let o = if d == 0 {
            None
        } else if d == 1 {
            Some(false)
        } else {
            Some(true)
        };
        proof {
            assert(o == undigit(x as nat % 3));
            assert(pattern_of(x as nat, k as nat) == pattern_of((x / 3) as nat, (k - 1) as nat).push(o));
            assert(pattern_of((x / 3) as nat, (k - 1) as nat).push(o) + tail =~= pattern_of((x / 3) as nat, (k - 1) as nat) + (seq![o] + tail));
            assert((seq![o] + tail).reverse() =~= tail.reverse().push(o));
            tail = seq![o] + tail;
        }
        digits.push(o);
        x = x / 3;
        k = k - 1;
    }
    assert(pattern_of(x as nat, 0) + tail =~= tail);
    let mut r: Vec<Option<bool>> = Vec::new();
    let len = digits.len();
    for i in 0..len
        invariant
            len == digits@.len(),
            r@ =~= digits@.reverse().take(i as int),
    {
        r.push(digits[len - 1 - i]);
        assert(digits@.reverse().take(i + 1) =~= digits@.reverse().take(i as int).push(digits@[len - 1 - i]));
    }
    assert(digits@.reverse().take(len as int) =~= digits@.reverse());
    assert(tail.reverse().reverse() =~= tail);
    r
}

proof fn lemma_pow3_mono(a: nat, b: nat)
    requires
        a <= b,
    ensures
        pow3(a) <= pow3(b),
    decreases b,
{
    if a < b {
        lemma_pow3_mono(a, (b - 1) as nat);
    }
}

proof fn lemma_pow3_add(a: nat, b: nat)
    ensures
        pow3(a + b) == pow3(a) * pow3(b),
    decreases b,
{
    if b > 0 {
        let b1 = (b - 1) as nat;
        lemma_pow3_add(a, b1);
        assert((a + b - 1) as nat == a + b1);
        assert(pow3(a + b) == 3 * pow3(a + b1));
        assert(pow3(b) == 3 * pow3(b1));
        let (x, y) = (pow3(a), pow3(b1));
        assert(x * (3 * y) == 3 * (x * y)) by (nonlinear_arith);
        assert(pow3(a + b) == x * pow3(b));
    } else {
        assert(pow3(b) == 1);
        assert(a + b == a);
        let x = pow3(a);
        assert(x * 1 == x) by (nonlinear_arith);
    }
}

proof fn lemma_pow3_63()
    ensures
        pow3(63) == 1144561273430837494885949696427,
{
    assert(pow3(9) == 19683) by {
        reveal_with_fuel(pow3, 10);
    }
    lemma_pow3_add(9, 9);
    lemma_pow3_add(18, 18);
    lemma_pow3_add(36, 18);
    lemma_pow3_add(54, 9);
    let p9 = pow3(9);
    let p18 = pow3(18);
    let p36 = pow3(36);
    let p54 = pow3(54);
    assert(p18 == 387420489) by (nonlinear_arith)
        requires
            p9 == 19683,
            p18 == p9 * p9,
    ;
    assert(p36 == 150094635296999121) by (nonlinear_arith)
        requires
            p18 == 387420489,
            p36 == p18 * p18,
    ;
    assert(p54 == 58149737003040059690390169) by (nonlinear_arith)
        requires
            p18 == 387420489,
            p36 == 150094635296999121,
            p54 == p36 * p18,
    ;
    assert(pow3(63) == 1144561273430837494885949696427) by (nonlinear_arith)
        requires
            p9 == 19683,
            p54 == 58149737003040059690390169,
            pow3(63) == p54 * p9,
    ;
}

/// Three to the power `n`.
fn pow3_u128(n: usize) -> (r: u128)
    requires
        n <= 63,
    ensures
        r == pow3(n as nat),
{
    proof {
        lemma_pow3_mono(n as nat, 63);
        lemma_pow3_63();
    }
    let mut total: u128 = 1;
    for i in 0..n
        invariant
            n <= 63,
            pow3(n as nat) <= 1144561273430837494885949696427,
            total == pow3(i as nat),
    {
        proof {
            lemma_pow3_mono((i + 1) as nat, n as nat);
        }
        total = total * 3;
    }
    total
}

/// Listing every prime numbered below `3^n` lists them all.
proof fn lemma_all_listed(tt: Seq<bool>, n: nat, pats: Seq<Seq<Option<bool>>>, total: nat)
    requires
        total == pow3(n),
        lists_primes_below(tt, n, pats, total),
    ensures
        lists_primes(tt, n, pats),
{
    assert forall|p: Seq<Option<bool>>| pats.contains(p) <==> is_prime(tt, n, p) by {
        if is_prime(tt, n, p) {
            lemma_code_bound(p);
        }
    }
}

/// The prime implicants in increasing pattern order.
fn compute_prime_implicants(n: usize, tt: &Vec<bool>) -> (r: Vec<PrimeImplicant>)
    requires
        n <= 63,
        n < usize::BITS,
    ensures
        lists_primes(tt@, n as nat, patterns_of(r@)),
        forall|i: int| 0 <= i < r@.len() ==> (#[trigger] r@[i]).pattern@.len() == n,
{
    let total = pow3_u128(n);
    let mut result: Vec<PrimeImplicant> = Vec::new();
    let ghost mut pats: Seq<Seq<Option<bool>>> = Seq::empty();
    let mut c: u128 = 0;
    while c < total
        invariant
            n <= 63,
            n < usize::BITS,
            total == pow3(n as nat),
            c <= total,
            patterns_of(result@) == pats,
            forall|i: int| 0 <= i < result@.len() ==> (#[trigger] result@[i]).pattern@.len() == n,
            lists_primes_below(tt@, n as nat, pats, c as nat),
        decreases total - c,
    {
        let pattern = decode_pattern(c, n);
        proof {
            lemma_code_of_pattern(c as nat, n as nat);
        }
        if check_prime(tt, n, &pattern) {
            proof {
                lemma_push_prime(tt@, n as nat, pats, pattern@, c as nat);
                pats = pats.push(pattern@);
            }
            result.push(PrimeImplicant { pattern });
            assert(patterns_of(result@) =~= pats);
        } else {
            proof {
                lemma_skip_pattern(tt@, n as nat, pats, pattern@, c as nat);
            }
        }
        c = c + 1;
    }
    proof {
        lemma_all_listed(tt@, n as nat, pats, total as nat);
    }
    result
}

/// A table of `2^n` entries that fits in memory has fewer than
/// `usize::BITS` variables.
proof fn lemma_variables_fit(n: nat, len: nat)
    requires
        len == pow2(n),
        len <= usize::MAX,
    ensures
        n < usize::BITS,
        n <= 63,
{
    vstd::arithmetic::power2::lemma2_to64();
    if n >= 32 {
        if n > 32 {
            vstd::arithmetic::power2::lemma_pow2_strictly_increases(32, n);
        }
        assert(usize::BITS == 64);
    }
    if n >= 64 {
        if n > 64 {
            vstd::arithmetic::power2::lemma_pow2_strictly_increases(64, n);
        }
    }
}

/// Mathematical model of a [`MinimumDisjunctiveNormalForm`] instance.
pub struct DnfView {
    pub num_variables: nat,
    pub truth_table: Seq<bool>,
    pub prime_implicants: Seq<Seq<Option<bool>>>,
    pub minterms: Seq<usize>,
}

/// The assignments among the first `k` on which the function is true, in
/// increasing order.
pub open spec fn true_indices(tt: Seq<bool>, k: int) -> Seq<usize>
    decreases k,
{
    if k <= 0 {
        Seq::empty()
    } else if tt[k - 1] {
        true_indices(tt, k - 1).push((k - 1) as usize)
    } else {
        true_indices(tt, k - 1)
    }
}

/// Some selected prime implicant is true on assignment `m`.
pub open spec fn selection_covers(pats: Seq<Seq<Option<bool>>>, config: Seq<usize>, m: nat) -> bool {
    exists|i: int| 0 <= i < config.len() && config[i] == 1 && #[trigger] pattern_covers(pats[i], m)
}

/// Number of selected prime implicants, when at least one is selected and
/// together they are true on every minterm; `None` otherwise.
pub open spec fn dnf_size(m: DnfView, config: Seq<usize>) -> Option<nat> {
    if config.len() != m.prime_implicants.len() {
        None
    } else if count_of(config, 1) == 0 {
        None
    } else if exists|t: nat| t < m.truth_table.len() && m.truth_table[t as int] && !#[trigger] selection_covers(m.prime_implicants, config, t) {
        None
    } else {
        Some(count_of(config, 1))
    }
}

/// A valid selection of prime implicants expresses exactly the function: an
/// assignment is a minterm if and only if some selected implicant is true on
/// it.
pub proof fn lemma_selection_expresses_function(m: DnfView, config: Seq<usize>, t: nat)
    requires
        lists_primes(m.truth_table, m.num_variables, m.prime_implicants),
        dnf_size(m, config) is Some,
        t < m.truth_table.len(),
    ensures
        m.truth_table[t as int] <==> selection_covers(m.prime_implicants, config, t),
{
    if selection_covers(m.prime_implicants, config, t) {
        let i = choose|i: int| 0 <= i < config.len() && config[i] == 1 && #[trigger] pattern_covers(m.prime_implicants[i], t);
        assert(m.prime_implicants.contains(m.prime_implicants[i]));
        assert(is_prime(m.truth_table, m.num_variables, m.prime_implicants[i]));
    }
}

/// The Minimum Disjunctive Normal Form problem.
#[derive(Debug)]
pub struct MinimumDisjunctiveNormalForm {
    num_variables: usize,
    truth_table: Vec<bool>,
    prime_implicants: Vec<PrimeImplicant>,
    minterms: Vec<usize>,
}

impl View for MinimumDisjunctiveNormalForm {
    type V = DnfView;

    closed spec fn view(&self) -> DnfView {
        DnfView {
            num_variables: self.num_variables as nat,
            truth_table: self.truth_table@,
            prime_implicants: patterns_of(self.prime_implicants@),
            minterms: self.minterms@,
        }
    }
}

/// A function of at least one variable, given by `2^n` values, true somewhere.
pub open spec fn valid_function(n: nat, tt: Seq<bool>) -> bool {
    &&& n >= 1
    &&& tt.len() == pow2(n)
    &&& exists|m: int| 0 <= m < tt.len() && tt[m]
}

impl MinimumDisjunctiveNormalForm {
    /// The prime implicants and minterms are those of the truth table.
    #[verifier::type_invariant]
    pub closed spec fn inv(self) -> bool {
        &&& valid_function(self.num_variables as nat, self.truth_table@)
        &&& self.num_variables <= 63
        &&& self.num_variables < usize::BITS
        &&& lists_primes(self@.truth_table, self@.num_variables, self@.prime_implicants)
        &&& forall|i: int| 0 <= i < self.prime_implicants@.len() ==> (#[trigger] self.prime_implicants@[i]).pattern@.len() == self.num_variables
        &&& self.minterms@ == true_indices(self.truth_table@, self.truth_table@.len() as int)
    }

    /// Create a new instance, computing the minterms and prime implicants.
    pub fn new(num_variables: usize, truth_table: Vec<bool>) -> (r: Self)
        requires
            valid_function(num_variables as nat, truth_table@),
        ensures
            r@.num_variables == num_variables,
            r@.truth_table == truth_table@,
            lists_primes(truth_table@, num_variables as nat, r@.prime_implicants),
            r@.minterms == true_indices(truth_table@, truth_table@.len() as int),
    {
        let tlen = truth_table.len();
        proof {
            lemma_variables_fit(num_variables as nat, tlen as nat);
        }
        let mut minterms: Vec<usize> = Vec::new();
        for m in 0..truth_table.len()
            invariant
                minterms@ == true_indices(truth_table@, m as int),
        {
            if truth_table[m] {
                minterms.push(m);
            }
        }
        let prime_implicants = compute_prime_implicants(num_variables, &truth_table);
        MinimumDisjunctiveNormalForm { num_variables, truth_table, prime_implicants, minterms }
    }

    /// Get the number of variables.
    pub fn num_variables(&self) -> (r: usize)
        ensures
            r == self@.num_variables,
    {
        self.num_variables
    }

    /// Get the truth table.
    pub fn truth_table(&self) -> (r: &[bool])
        ensures
            r@ == self@.truth_table,
    {
        self.truth_table.as_slice()
    }

    /// Get the prime implicants, in increasing pattern order.
    pub fn prime_implicants(&self) -> (r: &[PrimeImplicant])
        ensures
            patterns_of(r@) == self@.prime_implicants,
    {
        self.prime_implicants.as_slice()
    }

    /// Get the number of prime implicants.
    pub fn num_prime_implicants(&self) -> (r: usize)
        ensures
            r == self@.prime_implicants.len(),
    {
        self.prime_implicants.len()
    }

    /// Get the minterms (assignments where the function is true), ascending.
    pub fn minterms(&self) -> (r: &[usize])
        ensures
            r@ == self@.minterms,
    {
        self.minterms.as_slice()
    }

    /// Each prime implicant is selected or not.
    pub fn dims(&self) -> (r: Vec<usize>)
        ensures
            r@ == Seq::new(self@.prime_implicants.len(), |i: int| 2usize),
    {
        crate::util::repeat_usize(2, self.prime_implicants.len())
    }

    /// Whether some selected prime implicant is true on assignment `t`.
    fn covered_by_selection(&self, config: &[usize], t: usize) -> (b: bool)
        requires
            config@.len() == self@.prime_implicants.len(),
        ensures
            b == selection_covers(self@.prime_implicants, config@, t as nat),
    {
        proof {
            use_type_invariant(self);
        }
        let ghost m = self@;
        let k = self.prime_implicants.len();
        for i in 0..k
            invariant
                m == self@,
                self.inv(),
                config@.len() == k,
                k == m.prime_implicants.len(),
                forall|j: int| 0 <= j < i ==> !(config@[j] == 1 && #[trigger] pattern_covers(m.prime_implicants[j], t as nat)),
        {
            assert(m.prime_implicants[i as int] == self.prime_implicants@[i as int].pattern@);
            if config[i] == 1 && self.prime_implicants[i].covers(t) {
                assert(pattern_covers(m.prime_implicants[i as int], t as nat));
                return true;
            }
        }
        false
    }

    /// Number of selected prime implicants when they cover every minterm;
    /// `Min(None)` otherwise.
    pub fn evaluate(&self, config: &[usize]) -> (r: Min<usize>)
        ensures
            match r.0 {
                Some(c) => dnf_size(self@, config@) == Some(c as nat),
                None => dnf_size(self@, config@) is None,
            },
    {
        proof {
            use_type_invariant(self);
        }
        let ghost m = self@;
        let k = self.prime_implicants.len();
        if config.len() != k {
            return Min(None);
        }
        let selected = count_value(config, 1);
        if selected == 0 {
            return Min(None);
        }
        let tlen = self.truth_table.len();
        for t in 0..tlen
            invariant
                m == self@,
                self.inv(),
                tlen == m.truth_table.len(),
                config@.len() == k,
                k == m.prime_implicants.len(),
                forall|q: nat| q < t && m.truth_table[q as int] ==> #[trigger] selection_covers(m.prime_implicants, config@, q),
        {
            if self.truth_table[t] && !self.covered_by_selection(config, t) {
                assert(m.truth_table[t as int] && !selection_covers(m.prime_implicants, config@, (t as int) as nat));
                return Min(None);
            }
        }
        Min(Some(selected))
    }
}

} // verus!
