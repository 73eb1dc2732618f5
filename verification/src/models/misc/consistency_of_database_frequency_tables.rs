//! Consistency of Database Frequency Tables.
//!
//! Given a number of objects, the domain size of each attribute, published
//! pairwise frequency tables and some known attribute values, decide whether
//! there is an assignment of a value to every object-attribute pair that
//! agrees with every table and every known value.
//!
//! A configuration lists the objects one after the other: entry
//! `object * num_attributes + attribute` is that object's value for that
//! attribute.
use crate::util::{
    lemma_sum_nat_prefix, rows_of, product_usize, product_usizes, sum_nat, sum_usize, sum_usizes,
};
use vstd::prelude::*;

verus! {

/// Mathematical model of a [`FrequencyTable`].
pub struct FrequencyTableView {
    pub attribute_a: usize,
    pub attribute_b: usize,
    pub counts: Seq<Seq<usize>>,
}

/// The length of every row.
pub open spec fn row_lengths(counts: Seq<Seq<usize>>) -> Seq<nat> {
    counts.map_values(|row: Seq<usize>| row.len())
}

/// Number of cells of a (possibly ragged) table.
pub open spec fn cell_count(counts: Seq<Seq<usize>>) -> nat {
    sum_nat(row_lengths(counts))
}

/// Sum of all cells of a table.
pub open spec fn table_total(counts: Seq<Seq<usize>>) -> nat {
    sum_nat(counts.map_values(|row: Seq<usize>| sum_usize(row)))
}

/// A published frequency table for an ordered pair of attributes:
/// `counts[x][y]` objects have value `x` for the first attribute and `y` for
/// the second.
#[derive(Debug, Clone, PartialEq, Eq)]
pub struct FrequencyTable {
    attribute_a: usize,
    attribute_b: usize,
    counts: Vec<Vec<usize>>,
}

impl View for FrequencyTable {
    type V = FrequencyTableView;

    closed spec fn view(&self) -> FrequencyTableView {
        FrequencyTableView {
            attribute_a: self.attribute_a,
            attribute_b: self.attribute_b,
            counts: rows_of(self.counts@),
        }
    }
}

impl FrequencyTable {
    /// Create a new pairwise frequency table.
    pub fn new(attribute_a: usize, attribute_b: usize, counts: Vec<Vec<usize>>) -> (r: Self)
        ensures
            r@ == (FrequencyTableView { attribute_a, attribute_b, counts: rows_of(counts@) }),
    {
        FrequencyTable { attribute_a, attribute_b, counts }
    }

    /// Returns the first attribute index.
    pub fn attribute_a(&self) -> (r: usize)
        ensures
            r == self@.attribute_a,
    {
        self.attribute_a
    }

    /// Returns the second attribute index.
    pub fn attribute_b(&self) -> (r: usize)
        ensures
            r == self@.attribute_b,
    {
        self.attribute_b
    }

    /// Returns the table counts.
    pub fn counts(&self) -> (r: &[Vec<usize>])
        ensures
            rows_of(r@) == self@.counts,
    {
        self.counts.as_slice()
    }

    /// Returns the number of table cells.
    pub fn num_cells(&self) -> (r: usize)
        requires
            cell_count(self@.counts) <= usize::MAX,
        ensures
            r == cell_count(self@.counts),
    {
        let ghost lens = row_lengths(self@.counts);
        let mut total: usize = 0;
        for i in 0..self.counts.len()
            invariant
                lens == row_lengths(rows_of(self.counts@)),
                lens.len() == self.counts@.len(),
                total == sum_nat(lens.take(i as int)),
                sum_nat(lens) <= usize::MAX,
        {
            assert(lens.take(i + 1).drop_last() =~= lens.take(i as int));
            assert(lens[i as int] == self.counts@[i as int]@.len());
            proof {
                lemma_sum_nat_prefix(lens, i + 1);
            }
            total = total + self.counts[i].len();
        }
        assert(lens.take(lens.len() as int) =~= lens);
        total
    }
}

/// Mathematical model of a [`KnownValue`].
pub struct KnownValueView {
    pub object: usize,
    pub attribute: usize,
    pub value: usize,
}

/// A known value: the given object has the given value for the given
/// attribute.
#[derive(Debug, Clone, PartialEq, Eq)]
pub struct KnownValue {
    object: usize,
    attribute: usize,
    value: usize,
}

impl View for KnownValue {
    type V = KnownValueView;

    closed spec fn view(&self) -> KnownValueView {
        KnownValueView { object: self.object, attribute: self.attribute, value: self.value }
    }
}

impl KnownValue {
    /// Create a new known object-attribute value.
    pub fn new(object: usize, attribute: usize, value: usize) -> (r: Self)
        ensures
            r@ == (KnownValueView { object, attribute, value }),
    {
        KnownValue { object, attribute, value }
    }

    /// Returns the object index.
    pub fn object(&self) -> (r: usize)
        ensures
            r == self@.object,
    {
        self.object
    }

    /// Returns the attribute index.
    pub fn attribute(&self) -> (r: usize)
        ensures
            r == self@.attribute,
    {
        self.attribute
    }

    /// Returns the fixed categorical value.
    pub fn value(&self) -> (r: usize)
        ensures
            r == self@.value,
    {
        self.value
    }
}

/// Mathematical model of a [`ConsistencyOfDatabaseFrequencyTables`] instance.
pub struct DatabaseTablesView {
    pub num_objects: nat,
    pub attribute_domains: Seq<usize>,
    pub frequency_tables: Seq<FrequencyTableView>,
    pub known_values: Seq<KnownValueView>,
}

/// A table refers to two distinct attributes, has one row per value of the
/// first and one column per value of the second, and counts every object once.
pub open spec fn table_fits(domains: Seq<usize>, num_objects: nat, t: FrequencyTableView) -> bool {
    &&& t.attribute_a < domains.len()
    &&& t.attribute_b < domains.len()
    &&& t.attribute_a != t.attribute_b
    &&& t.counts.len() == domains[t.attribute_a as int]
    &&& forall|x: int| 0 <= x < t.counts.len() ==> (#[trigger] t.counts[x]).len() == domains[t.attribute_b as int]
    &&& table_total(t.counts) == num_objects
}

/// Two tables are about the same unordered pair of attributes.
pub open spec fn same_pair(t: FrequencyTableView, u: FrequencyTableView) -> bool {
    (t.attribute_a == u.attribute_a && t.attribute_b == u.attribute_b) || (t.attribute_a == u.attribute_b
        && t.attribute_b == u.attribute_a)
}

/// A known value names an existing object, attribute and value.
pub open spec fn known_fits(domains: Seq<usize>, num_objects: nat, k: KnownValueView) -> bool {
    &&& k.object < num_objects
    &&& k.attribute < domains.len()
    &&& k.value < domains[k.attribute as int]
}

impl DatabaseTablesView {
    /// The instance is well formed.
    pub open spec fn wf(self) -> bool {
        &&& forall|a: int| 0 <= a < self.attribute_domains.len() ==> #[trigger] self.attribute_domains[a] > 0
        &&& forall|t: int|
            0 <= t < self.frequency_tables.len() ==> table_fits(
                self.attribute_domains,
                self.num_objects,
                #[trigger] self.frequency_tables[t],
            )
        &&& forall|t: int, u: int|
            0 <= t < u < self.frequency_tables.len() ==> !same_pair(
                #[trigger] self.frequency_tables[t],
                #[trigger] self.frequency_tables[u],
            )
        &&& forall|k: int|
            0 <= k < self.known_values.len() ==> known_fits(
                self.attribute_domains,
                self.num_objects,
                #[trigger] self.known_values[k],
            )
    }
}

/// The value that `config` gives object `o` for attribute `a`.
pub open spec fn value_at(config: Seq<usize>, num_attributes: nat, o: int, a: int) -> usize {
    config[o * num_attributes + a]
}

/// Number of the first `objects` objects whose values for attributes `a` and
/// `b` are `x` and `y`.
pub open spec fn pair_count(
    config: Seq<usize>,
    num_attributes: nat,
    a: usize,
    b: usize,
    x: int,
    y: int,
    objects: nat,
) -> nat
    decreases objects,
{
    if objects == 0 {
        0
    } else {
        let o = objects - 1;
        pair_count(config, num_attributes, a, b, x, y, (objects - 1) as nat) + (if value_at(
            config,
            num_attributes,
            o,
            a as int,
        ) == x && value_at(config, num_attributes, o, b as int) == y {
            1nat
        } else {
            0nat
        })
    }
}

/// The assignment reproduces every count of the table.
pub open spec fn table_matches(config: Seq<usize>, num_attributes: nat, num_objects: nat, t: FrequencyTableView) -> bool {
    forall|x: int, y: int|
        0 <= x < t.counts.len() && 0 <= y < t.counts[x].len() ==> #[trigger] pair_count(
            config,
            num_attributes,
            t.attribute_a,
            t.attribute_b,
            x,
            y,
            num_objects,
        ) == t.counts[x][y]
}

/// The assignment agrees with the known value.
pub open spec fn known_holds(config: Seq<usize>, num_attributes: nat, k: KnownValueView) -> bool {
    value_at(config, num_attributes, k.object as int, k.attribute as int) == k.value
}

/// `config` assigns every object a value in each attribute's domain and
/// agrees with every known value and every frequency table.
pub open spec fn is_consistent_assignment(m: DatabaseTablesView, config: Seq<usize>) -> bool {
    let na = m.attribute_domains.len();
    &&& config.len() == m.num_objects * na
    &&& forall|o: int, a: int|
        0 <= o < m.num_objects && 0 <= a < na ==> #[trigger] value_at(config, na, o, a)
            < m.attribute_domains[a]
    &&& forall|k: int| 0 <= k < m.known_values.len() ==> #[trigger] known_holds(config, na, m.known_values[k])
    &&& forall|t: int|
        0 <= t < m.frequency_tables.len() ==> #[trigger] table_matches(
            config,
            na,
            m.num_objects,
            m.frequency_tables[t],
        )
}

/// Total number of cells over all tables.
pub open spec fn total_cells(tables: Seq<FrequencyTableView>) -> nat {
    sum_nat(tables.map_values(|t: FrequencyTableView| cell_count(t.counts)))
}

/// Index of `(o, a)` in the object-major layout lies below `n * na`.
proof fn lemma_index_bound(o: int, a: int, n: int, na: int)
    requires
        0 <= o < n,
        0 <= a < na,
    ensures
        0 <= o * na + a < n * na,
{
    assert(0 <= o * na + a < n * na) by (nonlinear_arith)
        requires
            0 <= o < n,
            0 <= a < na,
    ;
}

/// The Consistency of Database Frequency Tables decision problem.
#[derive(Debug, PartialEq, Eq)]
pub struct ConsistencyOfDatabaseFrequencyTables {
    num_objects: usize,
    attribute_domains: Vec<usize>,
    frequency_tables: Vec<FrequencyTable>,
    known_values: Vec<KnownValue>,
}

impl View for ConsistencyOfDatabaseFrequencyTables {
    type V = DatabaseTablesView;

    closed spec fn view(&self) -> DatabaseTablesView {
        DatabaseTablesView {
            num_objects: self.num_objects as nat,
            attribute_domains: self.attribute_domains@,
            frequency_tables: self.frequency_tables@.map_values(|t: FrequencyTable| t@),
            known_values: self.known_values@.map_values(|k: KnownValue| k@),
        }
    }
}

impl ConsistencyOfDatabaseFrequencyTables {
    /// The stored instance is well formed.
    #[verifier::type_invariant]
    pub closed spec fn inv(self) -> bool {
        self@.wf()
    }

    /// Create a new instance.
    pub fn new(
        num_objects: usize,
        attribute_domains: Vec<usize>,
        frequency_tables: Vec<FrequencyTable>,
        known_values: Vec<KnownValue>,
    ) -> (r: Self)
        requires
            (DatabaseTablesView {
                num_objects: num_objects as nat,
                attribute_domains: attribute_domains@,
                frequency_tables: frequency_tables@.map_values(|t: FrequencyTable| t@),
                known_values: known_values@.map_values(|k: KnownValue| k@),
            }).wf(),
        ensures
            r@ == (DatabaseTablesView {
                num_objects: num_objects as nat,
                attribute_domains: attribute_domains@,
                frequency_tables: frequency_tables@.map_values(|t: FrequencyTable| t@),
                known_values: known_values@.map_values(|k: KnownValue| k@),
            }),
    {
        ConsistencyOfDatabaseFrequencyTables { num_objects, attribute_domains, frequency_tables, known_values }
    }

    /// Returns the number of objects.
    pub fn num_objects(&self) -> (r: usize)
        ensures
            r == self@.num_objects,
    {
        self.num_objects
    }

    /// Returns the number of attributes.
    pub fn num_attributes(&self) -> (r: usize)
        ensures
            r == self@.attribute_domains.len(),
    {
        self.attribute_domains.len()
    }

    /// Returns the attribute-domain sizes.
    pub fn attribute_domains(&self) -> (r: &[usize])
        ensures
            r@ == self@.attribute_domains,
    {
        self.attribute_domains.as_slice()
    }

    /// Returns the published frequency tables.
    pub fn frequency_tables(&self) -> (r: &[FrequencyTable])
        ensures
            r@.map_values(|t: FrequencyTable| t@) == self@.frequency_tables,
    {
        self.frequency_tables.as_slice()
    }

    /// Returns the known values.
    pub fn known_values(&self) -> (r: &[KnownValue])
        ensures
            r@.map_values(|k: KnownValue| k@) == self@.known_values,
    {
        self.known_values.as_slice()
    }

    /// Returns the product of attribute domain sizes.
    pub fn domain_size_product(&self) -> (r: usize)
        requires
            product_usize(self@.attribute_domains) <= usize::MAX,
        ensures
            r == product_usize(self@.attribute_domains),
    {
        proof {
            use_type_invariant(self);
        }
        product_usizes(&self.attribute_domains)
    }

    /// Returns the number of object-attribute assignment variables.
    pub fn num_assignment_variables(&self) -> (r: usize)
        requires
            self@.num_objects * self@.attribute_domains.len() <= usize::MAX,
        ensures
            r == self@.num_objects * self@.attribute_domains.len(),
    {
        self.num_objects * self.attribute_domains.len()
    }

    /// Returns the number of published frequency tables.
    pub fn num_frequency_tables(&self) -> (r: usize)
        ensures
            r == self@.frequency_tables.len(),
    {
        self.frequency_tables.len()
    }

    /// Returns the number of known value constraints.
    pub fn num_known_values(&self) -> (r: usize)
        ensures
            r == self@.known_values.len(),
    {
        self.known_values.len()
    }

    /// Returns the number of one-hot assignment indicators.
    pub fn num_assignment_indicators(&self) -> (r: usize)
        requires
            sum_usize(self@.attribute_domains) <= usize::MAX,
            self@.num_objects * sum_usize(self@.attribute_domains) <= usize::MAX,
        ensures
            r == self@.num_objects * sum_usize(self@.attribute_domains),
    {
        self.num_objects * sum_usizes(&self.attribute_domains)
    }

    /// Returns the total number of published frequency-table cells.
    pub fn num_frequency_cells(&self) -> (r: usize)
        requires
            total_cells(self@.frequency_tables) <= usize::MAX,
        ensures
            r == total_cells(self@.frequency_tables),
    {
        let ghost cells = self@.frequency_tables.map_values(|t: FrequencyTableView| cell_count(t.counts));
        let mut total: usize = 0;
        for i in 0..self.frequency_tables.len()
            invariant
                cells == self@.frequency_tables.map_values(|t: FrequencyTableView| cell_count(t.counts)),
                cells.len() == self.frequency_tables@.len(),
                self@.frequency_tables == self.frequency_tables@.map_values(|t: FrequencyTable| t@),
                total == sum_nat(cells.take(i as int)),
                sum_nat(cells) <= usize::MAX,
        {
            assert(cells.take(i + 1).drop_last() =~= cells.take(i as int));
            proof {
                lemma_sum_nat_prefix(cells, i + 1);
            }
            assert(cells[i as int] == cell_count(self.frequency_tables@[i as int]@.counts));
            total = total + self.frequency_tables[i].num_cells();
        }
        assert(cells.take(cells.len() as int) =~= cells);
        total
    }

    /// Returns the number of auxiliary frequency-cell indicators.
    pub fn num_auxiliary_frequency_indicators(&self) -> (r: usize)
        requires
            total_cells(self@.frequency_tables) <= usize::MAX,
            self@.num_objects * total_cells(self@.frequency_tables) <= usize::MAX,
        ensures
            r == self@.num_objects * total_cells(self@.frequency_tables),
    {
        self.num_objects * self.num_frequency_cells()
    }

    /// Position of `(object, attribute)` in a configuration.
    fn config_index(&self, object: usize, attribute: usize) -> (r: usize)
        requires
            object < self@.num_objects,
            attribute < self@.attribute_domains.len(),
            self@.num_objects * self@.attribute_domains.len() <= usize::MAX,
        ensures
            r == object * self@.attribute_domains.len() + attribute,
            r < self@.num_objects * self@.attribute_domains.len(),
    {
        proof {
            lemma_index_bound(
                object as int,
                attribute as int,
                self.num_objects as int,
                self.attribute_domains@.len() as int,
            );
        }
        object * self.attribute_domains.len() + attribute
    }

    /// Number of objects with values `x` and `y` for attributes `a` and `b`.
    fn count_pair(&self, config: &[usize], a: usize, b: usize, x: usize, y: usize) -> (r: usize)
        requires
            config@.len() == self@.num_objects * self@.attribute_domains.len(),
            self@.num_objects * self@.attribute_domains.len() <= usize::MAX,
            a < self@.attribute_domains.len(),
            b < self@.attribute_domains.len(),
        ensures
            r == pair_count(config@, self@.attribute_domains.len(), a, b, x as int, y as int, self@.num_objects),
    {
        let mut count: usize = 0;
        for o in 0..self.num_objects
            invariant
                config@.len() == self@.num_objects * self@.attribute_domains.len(),
                self@.num_objects * self@.attribute_domains.len() <= usize::MAX,
                a < self@.attribute_domains.len(),
                b < self@.attribute_domains.len(),
                count == pair_count(config@, self@.attribute_domains.len(), a, b, x as int, y as int, o as nat),
                count <= o,
        {
            let ia = self.config_index(o, a);
            let ib = self.config_index(o, b);
            if config[ia] == x && config[ib] == y {
                count = count + 1;
            }
        }
        count
    }

    /// Each object has one variable per attribute, ranging over its domain.
    pub fn dims(&self) -> (r: Vec<usize>)
        requires
            self@.num_objects * self@.attribute_domains.len() <= usize::MAX,
        ensures
            r@.len() == self@.num_objects * self@.attribute_domains.len(),
            forall|o: int, a: int|
                0 <= o < self@.num_objects && 0 <= a < self@.attribute_domains.len() ==> #[trigger] value_at(
                    r@,
                    self@.attribute_domains.len(),
                    o,
                    a,
                ) == self@.attribute_domains[a],
    {
        let na = self.attribute_domains.len();
        let mut dims: Vec<usize> = Vec::new();
        assert(0 * na == 0);
        for o in 0..self.num_objects
            invariant
                na == self@.attribute_domains.len(),
                self@.num_objects * na <= usize::MAX,
                dims@.len() == o * na,
                forall|p: int, a: int|
                    0 <= p < o && 0 <= a < na ==> #[trigger] value_at(dims@, na as nat, p, a)
                        == self@.attribute_domains[a],
        {
            let ghost before = dims@;
            assert(forall|p: int, a: int|
                0 <= p < o && 0 <= a < na ==> #[trigger] value_at(before, na as nat, p, a)
                    == self@.attribute_domains[a]);
            for a in 0..na
                invariant
                    na == self@.attribute_domains.len(),
                    o < self@.num_objects,
                    self@.num_objects * na <= usize::MAX,
                    dims@.len() == o * na + a,
                    dims@.take(o * na) == before,
                    before.len() == o * na,
                    forall|b: int| 0 <= b < a ==> #[trigger] dims@[o * na + b] == self@.attribute_domains[b],
            {
                proof {
                    lemma_index_bound(o as int, a as int, self@.num_objects as int, na as int);
                }
                dims.push(self.attribute_domains[a]);
                assert(dims@.take(o * na) =~= before);
            }
            assert(dims@.len() == (o + 1) * na) by (nonlinear_arith)
                requires
                    dims@.len() == o * na + na,
            ;
            assert forall|p: int, a: int| 0 <= p < o + 1 && 0 <= a < na implies #[trigger] value_at(
                dims@,
                na as nat,
                p,
                a,
            ) == self@.attribute_domains[a] by {
                if p < o {
                    lemma_index_bound(p, a, o as int, na as int);
                    assert(dims@[p * na + a] == before[p * na + a]);
                    assert(value_at(before, na as nat, p, a) == self@.attribute_domains[a]);
                } else {
                    assert(p == o);
                    assert(dims@[o * na + a] == self@.attribute_domains[a]);
                }
            }
        }
        dims
    }

    /// Whether the assignment is consistent with every domain, known value
    /// and frequency table.
    pub fn evaluate(&self, config: &[usize]) -> (r: bool)
        requires
            self@.num_objects * self@.attribute_domains.len() <= usize::MAX,
        ensures
            r == is_consistent_assignment(self@, config@),
    {
        proof {
            use_type_invariant(self);
        }
        let na = self.attribute_domains.len();
        let n = self.num_objects;
        if config.len() != n * na {
            return false;
        }
        for o in 0..n
            invariant
                na == self@.attribute_domains.len(),
                n == self@.num_objects,
                n * na <= usize::MAX,
                config@.len() == n * na,
                forall|p: int, a: int|
                    0 <= p < o && 0 <= a < na ==> #[trigger] value_at(config@, na as nat, p, a)
                        < self@.attribute_domains[a],
        {
            for a in 0..na
                invariant
                    na == self@.attribute_domains.len(),
                    n == self@.num_objects,
                    o < n,
                    n * na <= usize::MAX,
                    config@.len() == n * na,
                    forall|p: int, b: int|
                        0 <= p < o && 0 <= b < na ==> #[trigger] value_at(config@, na as nat, p, b)
                            < self@.attribute_domains[b],
                    forall|b: int| 0 <= b < a ==> #[trigger] value_at(config@, na as nat, o as int, b)
                        < self@.attribute_domains[b],
            {
                let idx = self.config_index(o, a);
                if config[idx] >= self.attribute_domains[a] {
                    assert(!(value_at(config@, na as nat, o as int, a as int) < self@.attribute_domains[a as int]));
                    return false;
                }
            }
        }
        for k in 0..self.known_values.len()
            invariant
                na == self@.attribute_domains.len(),
                n == self@.num_objects,
                n * na <= usize::MAX,
                config@.len() == n * na,
                self@.wf(),
                self@.known_values == self.known_values@.map_values(|k: KnownValue| k@),
                forall|j: int| 0 <= j < k ==> #[trigger] known_holds(config@, na as nat, self@.known_values[j]),
        {
            let kv = &self.known_values[k];
            assert(self@.known_values[k as int] == kv@);
            let idx = self.config_index(kv.object, kv.attribute);
            if config[idx] != kv.value {
                assert(!known_holds(config@, na as nat, self@.known_values[k as int]));
                return false;
            }
        }
        for t in 0..self.frequency_tables.len()
            invariant
                na == self@.attribute_domains.len(),
                n == self@.num_objects,
                n * na <= usize::MAX,
                config@.len() == n * na,
                self@.wf(),
                self@.frequency_tables == self.frequency_tables@.map_values(|t: FrequencyTable| t@),
                forall|j: int|
                    0 <= j < t ==> #[trigger] table_matches(config@, na as nat, n as nat, self@.frequency_tables[j]),
        {
            let table = &self.frequency_tables[t];
            assert(self@.frequency_tables[t as int] == table@);
            let a = table.attribute_a;
            let b = table.attribute_b;
            assert(table_fits(self@.attribute_domains, self@.num_objects, table@));
            for x in 0..table.counts.len()
                invariant
                    na == self@.attribute_domains.len(),
                    n == self@.num_objects,
                    n * na <= usize::MAX,
                    config@.len() == n * na,
                    a < na,
                    b < na,
                    a == table@.attribute_a,
                    b == table@.attribute_b,
                    table@.counts == rows_of(table.counts@),
                    forall|x2: int, y2: int|
                        0 <= x2 < x && 0 <= y2 < table@.counts[x2].len() ==> #[trigger] pair_count(
                            config@,
                            na as nat,
                            a,
                            b,
                            x2,
                            y2,
                            n as nat,
                        ) == table@.counts[x2][y2],
            {
                let row = &table.counts[x];
                assert(table@.counts[x as int] == row@);
                for y in 0..row.len()
                    invariant
                        na == self@.attribute_domains.len(),
                        n == self@.num_objects,
                        n * na <= usize::MAX,
                        config@.len() == n * na,
                        a < na,
                        b < na,
                        table@.counts[x as int] == row@,
                        forall|x2: int, y2: int|
                            0 <= x2 < x && 0 <= y2 < table@.counts[x2].len() ==> #[trigger] pair_count(
                                config@,
                                na as nat,
                                a,
                                b,
                                x2,
                                y2,
                                n as nat,
                            ) == table@.counts[x2][y2],
                        forall|y2: int|
                            0 <= y2 < y ==> #[trigger] pair_count(config@, na as nat, a, b, x as int, y2, n as nat)
                                == row@[y2],
                {
                    let c = self.count_pair(config, a, b, x, y);
                    if c != row[y] {
                        assert(!table_matches(config@, na as nat, n as nat, table@));
                        return false;
                    }
                }
            }
            assert(table_matches(config@, na as nat, n as nat, self@.frequency_tables[t as int]));
        }
        true
    }
}

} // verus!
