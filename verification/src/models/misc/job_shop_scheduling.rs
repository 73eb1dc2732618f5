//! Job Shop Scheduling.
//!
//! Every job is a sequence of tasks, each on a given processor for a given
//! time; a processor runs one task at a time. A configuration fixes the order
//! of the tasks on every processor (one Lehmer code per processor, in
//! processor order); every task then starts as early as its job predecessor
//! and its processor predecessor allow. The objective is the makespan.
use crate::dag::{earliest_start, earliest_starts, has_topological_order};
use crate::types::Min;
use crate::util::{decode_lehmer, lehmer_decode, lehmer_dims, pairs_below};
use vstd::prelude::*;

verus! {

/// Mathematical model of a [`JobShopScheduling`] instance.
pub struct JobShopView {
    pub num_processors: nat,
    pub jobs: Seq<Seq<(usize, u64)>>,
}

/// The tasks of the first `j` jobs, job after job: task ids are positions here.
pub open spec fn flat_upto(jobs: Seq<Seq<(usize, u64)>>, j: int) -> Seq<(usize, u64)>
    decreases j,
{
    if j <= 0 {
        Seq::empty()
    } else {
        flat_upto(jobs, j - 1) + jobs[j - 1]
    }
}

/// All tasks, job after job.
pub open spec fn flat_tasks(jobs: Seq<Seq<(usize, u64)>>) -> Seq<(usize, u64)> {
    flat_upto(jobs, jobs.len() as int)
}

/// Consecutive tasks of a job use different processors.
pub open spec fn alternates_processors(job: Seq<(usize, u64)>) -> bool {
    forall|i: int| 0 <= i < job.len() - 1 ==> (#[trigger] job[i]).0 != job[i + 1].0
}

impl JobShopView {
    /// Processors exist (there is one whenever there is a task), consecutive
    /// tasks of a job use different processors, and the task count fits.
    pub open spec fn wf(self) -> bool {
        &&& flat_tasks(self.jobs).len() <= usize::MAX
        &&& flat_tasks(self.jobs).len() > 0 ==> self.num_processors > 0
        &&& forall|t: int| 0 <= t < flat_tasks(self.jobs).len() ==> (#[trigger] flat_tasks(self.jobs)[t]).0 < self.num_processors
        &&& forall|j: int| 0 <= j < self.jobs.len() ==> alternates_processors(#[trigger] self.jobs[j])
    }
}

/// The arcs `(off, off + 1), ..., (off + len - 2, off + len - 1)` chaining
/// `len` consecutive ids.
pub open spec fn id_chain(off: int, len: int) -> Seq<(usize, usize)> {
    Seq::new(if len > 0 { (len - 1) as nat } else { 0 }, |i: int| ((off + i) as usize, (off + i + 1) as usize))
}

/// The within-job precedence arcs of the first `j` jobs.
pub open spec fn job_arcs(jobs: Seq<Seq<(usize, u64)>>, j: int) -> Seq<(usize, usize)>
    decreases j,
{
    if j <= 0 {
        Seq::empty()
    } else {
        job_arcs(jobs, j - 1) + id_chain(flat_upto(jobs, j - 1).len() as int, jobs[j - 1].len() as int)
    }
}

/// The ids, in increasing order, of the tasks among the first `k` that run on
/// processor `p`.
pub open spec fn machine_tasks(flat: Seq<(usize, u64)>, p: usize, k: int) -> Seq<usize>
    decreases k,
{
    if k <= 0 {
        Seq::empty()
    } else if flat[k - 1].0 == p {
        machine_tasks(flat, p, k - 1).push((k - 1) as usize)
    } else {
        machine_tasks(flat, p, k - 1)
    }
}

/// The processor orders decoded from the Lehmer codes of processors `p`
/// onwards, the code of processor `p` starting at `off` in `config`.
pub open spec fn orders_from(flat: Seq<(usize, u64)>, num_processors: nat, config: Seq<usize>, p: int, off: int) -> Option<
    Seq<Seq<usize>>,
>
    decreases num_processors - p,
{
    if p < 0 || p >= num_processors {
        Some(Seq::empty())
    } else {
        let tasks = machine_tasks(flat, p as usize, flat.len() as int);
        let k = tasks.len() as int;
        if off + k > config.len() {
            None
        } else {
            match lehmer_decode(config.subrange(off, off + k), k as usize) {
                None => None,
                Some(perm) => match orders_from(flat, num_processors, config, p + 1, off + k) {
                    None => None,
                    Some(rest) => Some(seq![perm.map_values(|i: usize| tasks[i as int])] + rest),
                },
            }
        }
    }
}

/// The task order on every processor a configuration encodes.
pub open spec fn machine_orders(m: JobShopView, config: Seq<usize>) -> Option<Seq<Seq<usize>>> {
    if config.len() != flat_tasks(m.jobs).len() {
        None
    } else {
        orders_from(flat_tasks(m.jobs), m.num_processors, config, 0, 0)
    }
}

/// The arcs between consecutive entries of `order`.
pub open spec fn order_chain(order: Seq<usize>) -> Seq<(usize, usize)> {
    Seq::new(if order.len() > 0 { (order.len() - 1) as nat } else { 0 }, |i: int| (order[i], order[i + 1]))
}

/// The processor precedence arcs of the first `p` processor orders.
pub open spec fn machine_arcs(orders: Seq<Seq<usize>>, p: int) -> Seq<(usize, usize)>
    decreases p,
{
    if p <= 0 {
        Seq::empty()
    } else {
        machine_arcs(orders, p - 1) + order_chain(orders[p - 1])
    }
}

/// All precedence arcs for the given processor orders.
pub open spec fn precedence_arcs(m: JobShopView, orders: Seq<Seq<usize>>) -> Seq<(usize, usize)> {
    job_arcs(m.jobs, m.jobs.len() as int) + machine_arcs(orders, orders.len() as int)
}

/// The task lengths by id.
pub open spec fn task_lengths(m: JobShopView) -> Seq<u64> {
    flat_tasks(m.jobs).map_values(|t: (usize, u64)| t.1)
}

/// The configuration decodes and its precedence arcs admit an order of the
/// tasks in which every task finishes within `u64`.
pub open spec fn schedulable(m: JobShopView, config: Seq<usize>) -> bool {
    machine_orders(m, config) matches Some(orders) && {
        let arcs = precedence_arcs(m, orders);
        let n = flat_tasks(m.jobs).len();
        &&& has_topological_order(n, arcs)
        &&& forall|t: int| 0 <= t < n ==> #[trigger] earliest_start(arcs, task_lengths(m), t as usize, n) + task_lengths(m)[t] <= u64::MAX
    }
}

/// The earliest start of task `t` under the configuration.
pub open spec fn start_of(m: JobShopView, config: Seq<usize>, t: int) -> nat {
    earliest_start(
        precedence_arcs(m, machine_orders(m, config).unwrap()),
        task_lengths(m),
        t as usize,
        flat_tasks(m.jobs).len(),
    )
}

/// Latest finish among the first `k` tasks (zero when `k == 0`).
pub open spec fn latest_finish(m: JobShopView, config: Seq<usize>, k: int) -> nat
    decreases k,
{
    if k <= 0 {
        0
    } else {
        let prev = latest_finish(m, config, k - 1);
        let f = start_of(m, config, k - 1) + task_lengths(m)[k - 1] as nat;
        if f > prev {
            f
        } else {
            prev
        }
    }
}

proof fn lemma_flat_upto_len(jobs: Seq<Seq<(usize, u64)>>, j: int, k: int)
    requires
        0 <= j <= k <= jobs.len(),
    ensures
        flat_upto(jobs, j).len() + jobs[j].len() <= flat_upto(jobs, k).len() || j == k,
        flat_upto(jobs, j).len() <= flat_upto(jobs, k).len(),
    decreases k - j,
{
    if j < k {
        lemma_flat_upto_len(jobs, j, k - 1);
        if j < k - 1 {
            lemma_flat_upto_len(jobs, j + 1, k - 1);
        }
    }
}

proof fn lemma_machine_tasks_members(flat: Seq<(usize, u64)>, p: usize, k: int)
    requires
        0 <= k <= flat.len(),
    ensures
        machine_tasks(flat, p, k).len() <= k,
        forall|i: int|
            0 <= i < machine_tasks(flat, p, k).len() ==> (#[trigger] machine_tasks(flat, p, k)[i]) < k,
    decreases k,
{
    if k > 0 {
        lemma_machine_tasks_members(flat, p, k - 1);
        let prev = machine_tasks(flat, p, k - 1);
        if flat[k - 1].0 == p {
            assert forall|i: int| 0 <= i < machine_tasks(flat, p, k).len() implies (#[trigger] machine_tasks(
                flat,
                p,
                k,
            )[i]) < k by {
                if i < prev.len() {
                    assert(machine_tasks(flat, p, k)[i] == prev[i]);
                }
            }
        }
    }
}

/// The Job Shop Scheduling problem.
#[derive(Debug)]
pub struct JobShopScheduling {
    num_processors: usize,
    jobs: Vec<Vec<(usize, u64)>>,
}

/// The rows of a job list, each viewed as a sequence.
pub open spec fn job_rows(jobs: Seq<Vec<(usize, u64)>>) -> Seq<Seq<(usize, u64)>> {
    jobs.map_values(|job: Vec<(usize, u64)>| job@)
}

impl View for JobShopScheduling {
    type V = JobShopView;

    closed spec fn view(&self) -> JobShopView {
        JobShopView { num_processors: self.num_processors as nat, jobs: job_rows(self.jobs@) }
    }
}

impl JobShopScheduling {
    /// The stored instance is well formed.
    #[verifier::type_invariant]
    pub closed spec fn inv(self) -> bool {
        self@.wf()
    }

    /// Create a new instance.
    pub fn new(num_processors: usize, jobs: Vec<Vec<(usize, u64)>>) -> (r: Self)
        requires
            (JobShopView { num_processors: num_processors as nat, jobs: job_rows(jobs@) }).wf(),
        ensures
            r@ == (JobShopView { num_processors: num_processors as nat, jobs: job_rows(jobs@) }),
    {
        JobShopScheduling { num_processors, jobs }
    }

    /// Get the number of processors.
    pub fn num_processors(&self) -> (r: usize)
        ensures
            r == self@.num_processors,
    {
        self.num_processors
    }

    /// Get the jobs.
    pub fn jobs(&self) -> (r: &[Vec<(usize, u64)>])
        ensures
            job_rows(r@) == self@.jobs,
    {
        self.jobs.as_slice()
    }

    /// Get the number of jobs.
    pub fn num_jobs(&self) -> (r: usize)
        ensures
            r == self@.jobs.len(),
    {
        self.jobs.len()
    }

    /// All tasks, job after job.
    fn flatten(&self) -> (r: Vec<(usize, u64)>)
        ensures
            r@ == flat_tasks(self@.jobs),
    {
        let ghost jobs = self@.jobs;
        let mut flat: Vec<(usize, u64)> = Vec::new();
        for j in 0..self.jobs.len()
            invariant
                jobs == self@.jobs,
                jobs.len() == self.jobs@.len(),
                flat@ == flat_upto(jobs, j as int),
        {
            let job = &self.jobs[j];
            assert(jobs[j as int] == job@);
            for i in 0..job.len()
                invariant
                    jobs == self@.jobs,
                    jobs[j as int] == job@,
                    flat@ == flat_upto(jobs, j as int) + job@.take(i as int),
            {
                flat.push(job[i]);
                assert(job@.take(i + 1) =~= job@.take(i as int).push(job@[i as int]));
                assert(flat@ =~= flat_upto(jobs, j as int) + job@.take(i + 1));
            }
            assert(job@.take(job@.len() as int) =~= job@);
        }
        flat
    }

    /// Get the total number of tasks.
    pub fn num_tasks(&self) -> (r: usize)
        ensures
            r == flat_tasks(self@.jobs).len(),
    {
        self.flatten().len()
    }

    /// The ids of the tasks on processor `p`, in increasing order.
    fn tasks_on(flat: &Vec<(usize, u64)>, p: usize) -> (r: Vec<usize>)
        ensures
            r@ == machine_tasks(flat@, p, flat@.len() as int),
    {
        let mut ids: Vec<usize> = Vec::new();
        for t in 0..flat.len()
            invariant
                ids@ == machine_tasks(flat@, p, t as int),
        {
            if flat[t].0 == p {
                ids.push(t);
            }
        }
        ids
    }

    /// Lehmer-code dimensions for every processor, in processor order.
    pub fn dims(&self) -> (r: Vec<usize>)
        ensures
            r@ == dims_from(flat_tasks(self@.jobs), self@.num_processors as int),
    {
        let flat = self.flatten();
        let mut dims: Vec<usize> = Vec::new();
        for p in 0..self.num_processors
            invariant
                flat@ == flat_tasks(self@.jobs),
                dims@ == dims_from(flat@, p as int),
        {
            let k = Self::tasks_on(&flat, p).len();
            let d = lehmer_dims(k);
            let ghost before = dims@;
            for i in 0..d.len()
                invariant
                    dims@ == before + d@.take(i as int),
            {
                dims.push(d[i]);
                assert(d@.take(i + 1) =~= d@.take(i as int).push(d@[i as int]));
            }
            assert(d@.take(d@.len() as int) =~= d@);
            assert(d@ =~= lehmer_dims_seq(k as int));
        }
        dims
    }

    /// The task order on every processor, decoded from the configuration.
    fn decode_machine_orders(&self, config: &[usize], flat: &Vec<(usize, u64)>) -> (r: Option<Vec<Vec<usize>>>)
        requires
            flat@ == flat_tasks(self@.jobs),
        ensures
            match r {
                Some(orders) => machine_orders(self@, config@) == Some(order_rows(orders@)),
                None => machine_orders(self@, config@) is None,
            },
    {
        if config.len() != flat.len() {
            return None;
        }
        let ghost np = self@.num_processors;
        let mut offset: usize = 0;
        let mut orders: Vec<Vec<usize>> = Vec::new();
        assert(order_rows(orders@) + Seq::<Seq<usize>>::empty() =~= Seq::<Seq<usize>>::empty());
        for p in 0..self.num_processors
            invariant
                flat@ == flat_tasks(self@.jobs),
                np == self@.num_processors,
                config@.len() == flat@.len(),
                offset <= config@.len(),
                orders_from(flat@, np, config@, 0, 0) == (match orders_from(flat@, np, config@, p as int, offset as int) {
                    Some(rest) => Some(order_rows(orders@) + rest),
                    None => None::<Seq<Seq<usize>>>,
                }),
        {
            let tasks = Self::tasks_on(flat, p);
            let k = tasks.len();
            if k > config.len() - offset {
                return None;
            }
            let digits = vstd::slice::slice_subrange(config, offset, offset + k);
            let perm = match decode_lehmer(digits, k) {
                Some(perm) => perm,
                None => return None,
            };
            proof {
                crate::util::lemma_lehmer_decode_permutation(digits@, k);
            }
            let mut order: Vec<usize> = Vec::new();
            for i in 0..perm.len()
                invariant
                    crate::util::is_permutation(perm@, k as nat),
                    tasks@.len() == k,
                    order@ =~= perm@.take(i as int).map_values(|q: usize| tasks@[q as int]),
            {
                assert(perm@[i as int] < k);
                order.push(tasks[perm[i]]);
            }
            assert(perm@.take(perm@.len() as int) =~= perm@);
            let ghost old_orders = orders@;
            orders.push(order);
            proof {
                assert(order_rows(orders@) =~= order_rows(old_orders).push(order@));
                match orders_from(flat@, np, config@, p + 1, (offset + k) as int) {
                    Some(rest) => {
                        assert(order_rows(orders@) + rest =~= order_rows(old_orders) + (seq![order@] + rest));
                    },
                    None => {},
                }
            }
            offset = offset + k;
        }
        assert(order_rows(orders@) + Seq::<Seq<usize>>::empty() =~= order_rows(orders@));
        Some(orders)
    }

    /// The within-job precedence arcs.
    fn build_job_arcs(&self, flat: &Vec<(usize, u64)>) -> (r: Vec<(usize, usize)>)
        requires
            self@.wf(),
            flat@ == flat_tasks(self@.jobs),
        ensures
            r@ == job_arcs(self@.jobs, self@.jobs.len() as int),
            pairs_below(r@, flat@.len() as nat),
    {
        let ghost jobs = self@.jobs;
        let ghost n = flat@.len();
        let mut arcs: Vec<(usize, usize)> = Vec::new();
        let mut offset: usize = 0;
        for j in 0..self.jobs.len()
            invariant
                jobs == self@.jobs,
                jobs.len() == self.jobs@.len(),
                flat@ == flat_tasks(jobs),
                n == flat@.len(),
                n <= usize::MAX,
                offset == flat_upto(jobs, j as int).len(),
                arcs@ == job_arcs(jobs, j as int),
                pairs_below(arcs@, n as nat),
        {
            let len = self.jobs[j].len();
            proof {
                assert(jobs[j as int].len() == len);
                lemma_flat_upto_len(jobs, j as int, jobs.len() as int);
                lemma_flat_upto_len(jobs, j + 1, jobs.len() as int);
            }
            let ghost before = arcs@;
            let ghost chain = id_chain(offset as int, len as int);
            if len > 0 {
                for i in 1..len
                    invariant
                        offset + len <= n,
                        n <= usize::MAX,
                        chain == id_chain(offset as int, len as int),
                        arcs@ == before + chain.take(i - 1),
                        pairs_below(arcs@, n as nat),
                {
                    arcs.push((offset + i - 1, offset + i));
                    assert(chain.take(i as int) =~= chain.take(i - 1).push(chain[i - 1]));
                }
                assert(chain.take(len - 1) =~= chain);
            } else {
                assert(chain =~= Seq::<(usize, usize)>::empty());
                assert(before + chain =~= before);
            }
            offset = offset + len;
        }
        arcs
    }

    /// Append the processor precedence arcs of the given orders.
    fn append_machine_arcs(arcs: &mut Vec<(usize, usize)>, orders: &Vec<Vec<usize>>, Ghost(n): Ghost<nat>)
        requires
            pairs_below(old(arcs)@, n),
            forall|p: int, i: int|
                0 <= p < orders@.len() && 0 <= i < orders@[p]@.len() ==> (#[trigger] orders@[p]@[i]) < n,
        ensures
            final(arcs)@ == old(arcs)@ + machine_arcs(order_rows(orders@), orders@.len() as int),
            pairs_below(final(arcs)@, n),
    {
        let ghost rows = order_rows(orders@);
        let ghost jarcs = arcs@;
        assert(jarcs + machine_arcs(rows, 0) =~= jarcs);
        for p in 0..orders.len()
            invariant
                rows == order_rows(orders@),
                forall|q: int, i: int|
                    0 <= q < orders@.len() && 0 <= i < orders@[q]@.len() ==> (#[trigger] orders@[q]@[i]) < n,
                arcs@ == jarcs + machine_arcs(rows, p as int),
                pairs_below(arcs@, n),
        {
            let order = &orders[p];
            assert(rows[p as int] == order@);
            let ghost before = arcs@;
            let ghost chain = order_chain(order@);
            if order.len() > 0 {
                for i in 1..order.len()
                    invariant
                        chain == order_chain(order@),
                        order@ == orders@[p as int]@,
                        p < orders@.len(),
                        forall|q: int, i: int|
                            0 <= q < orders@.len() && 0 <= i < orders@[q]@.len() ==> (#[trigger] orders@[q]@[i]) < n,
                        arcs@ == before + chain.take(i - 1),
                        pairs_below(arcs@, n),
                {
                    assert(orders@[p as int]@[i - 1] < n && orders@[p as int]@[i as int] < n);
                    arcs.push((order[i - 1], order[i]));
                    assert(chain.take(i as int) =~= chain.take(i - 1).push(chain[i - 1]));
                }
                assert(chain.take(order@.len() - 1) =~= chain);
            } else {
                assert(chain =~= Seq::<(usize, usize)>::empty());
            }
            assert(jarcs + machine_arcs(rows, p + 1) =~= before + chain);
        }
    }

    /// The task lengths by id.
    fn lengths_of(flat: &Vec<(usize, u64)>) -> (r: Vec<u64>)
        ensures
            r@ == flat@.map_values(|t: (usize, u64)| t.1),
    {
        let mut lens: Vec<u64> = Vec::new();
        for t in 0..flat.len()
            invariant
                lens@ =~= flat@.take(t as int).map_values(|x: (usize, u64)| x.1),
        {
            lens.push(flat[t].1);
        }
        assert(flat@.take(flat@.len() as int) =~= flat@);
        lens
    }

    /// Earliest start times of all tasks, or `None` when the configuration is
    /// not a valid code, its precedences form a cycle, or a task would finish
    /// beyond `u64`.
    pub fn schedule_from_config(&self, config: &[usize]) -> (r: Option<Vec<u64>>)
        ensures
            match r {
                Some(st) => schedulable(self@, config@) && st@.len() == flat_tasks(self@.jobs).len() && forall|t: int|
                    0 <= t < st@.len() ==> #[trigger] st@[t] == start_of(self@, config@, t),
                None => !schedulable(self@, config@),
            },
    {
        proof {
            use_type_invariant(self);
        }
        let flat = self.flatten();
        let orders = match self.decode_machine_orders(config, &flat) {
            Some(orders) => orders,
            None => return None,
        };
        proof {
            lemma_orders_in_range(flat@, self@.num_processors, config@, 0, 0);
            let all = orders_from(flat@, self@.num_processors, config@, 0, 0).unwrap();
            assert(all == order_rows(orders@));
            assert forall|p: int, i: int| 0 <= p < orders@.len() && 0 <= i < orders@[p]@.len() implies (
            #[trigger] orders@[p]@[i]) < flat@.len() by {
                assert(order_rows(orders@)[p] == orders@[p]@);
                assert(all[p][i] < flat@.len());
            }
        }
        let n = flat.len();
        let mut arcs = self.build_job_arcs(&flat);
        Self::append_machine_arcs(&mut arcs, &orders, Ghost(n as nat));
        let lens = Self::lengths_of(&flat);
        let r = earliest_starts(n, arcs.as_slice(), lens.as_slice());
        proof {
            match &r {
                Some(st) => {
                    assert(lens@ =~= task_lengths(self@));
                    assert forall|t: int| 0 <= t < st@.len() implies #[trigger] st@[t] == start_of(self@, config@, t) by {
                        assert(st@[t] == earliest_start(arcs@, lens@, t as usize, n as nat));
                    }
                    assert forall|t: int| 0 <= t < n implies #[trigger] earliest_start(arcs@, task_lengths(self@), t as usize, n as nat) + task_lengths(self@)[t] <= u64::MAX by {
                        assert(st@[t] == earliest_start(arcs@, lens@, t as usize, n as nat));
                    }
                },
                None => {
                    assert(lens@ =~= task_lengths(self@));
                    if schedulable(self@, config@) {
                        if has_topological_order(n as nat, arcs@) {
                            let t = choose|t: int|
                                0 <= t < n && #[trigger] earliest_start(arcs@, lens@, t as usize, n as nat) + lens@[t]
                                    > u64::MAX;
                            assert(earliest_start(arcs@, task_lengths(self@), t as usize, n as nat) + task_lengths(self@)[t]
                                <= u64::MAX);
                        }
                    }
                },
            }
        }
        r
    }

    /// The makespan of the schedule the configuration gives; `Min(None)` when
    /// there is none.
    pub fn evaluate(&self, config: &[usize]) -> (r: Min<u64>)
        ensures
            match r.0 {
                Some(c) => schedulable(self@, config@) && c == latest_finish(
                    self@,
                    config@,
                    flat_tasks(self@.jobs).len() as int,
                ),
                None => !schedulable(self@, config@),
            },
    {
        proof {
            use_type_invariant(self);
        }
        let flat = self.flatten();
        let lens = Self::lengths_of(&flat);
        match self.schedule_from_config(config) {
            Some(st) => {
                let mut best: u64 = 0;
                for t in 0..st.len()
                    invariant
                        schedulable(self@, config@),
                        lens@ == task_lengths(self@),
                        st@.len() == lens@.len(),
                        forall|q: int| 0 <= q < st@.len() ==> #[trigger] st@[q] == start_of(self@, config@, q),
                        best == latest_finish(self@, config@, t as int),
                {
                    proof {
                        let arcs = precedence_arcs(self@, machine_orders(self@, config@).unwrap());
                        assert(earliest_start(arcs, task_lengths(self@), t as usize, lens@.len()) + task_lengths(self@)[t as int]
                            <= u64::MAX);
                    }
                    let f = st[t] + lens[t];
                    if f > best {
                        best = f;
                    }
                }
                Min(Some(best))
            },
            None => Min(None),
        }
    }
}

/// The rows of a list of orders, each viewed as a sequence.
pub open spec fn order_rows(orders: Seq<Vec<usize>>) -> Seq<Seq<usize>> {
    orders.map_values(|o: Vec<usize>| o@)
}

/// The Lehmer dimensions `k, k - 1, ..., 1`.
pub open spec fn lehmer_dims_seq(k: int) -> Seq<usize> {
    Seq::new(if k > 0 { k as nat } else { 0 }, |i: int| (k - i) as usize)
}

/// The Lehmer dimensions of processors `0..p`, concatenated.
pub open spec fn dims_from(flat: Seq<(usize, u64)>, p: int) -> Seq<usize>
    decreases p,
{
    if p <= 0 {
        Seq::empty()
    } else {
        dims_from(flat, p - 1) + lehmer_dims_seq(machine_tasks(flat, (p - 1) as usize, flat.len() as int).len() as int)
    }
}

/// In the schedule a configuration gives, every task starts no earlier than
/// its job predecessor and its processor predecessor finish.
pub proof fn lemma_schedule_respects_precedences(m: JobShopView, config: Seq<usize>, k: int)
    requires
        m.wf(),
        schedulable(m, config),
        0 <= k < precedence_arcs(m, machine_orders(m, config).unwrap()).len(),
    ensures
        ({
            let arcs = precedence_arcs(m, machine_orders(m, config).unwrap());
            start_of(m, config, arcs[k].1 as int) >= start_of(m, config, arcs[k].0 as int) + task_lengths(m)[arcs[k].0 as int]
        }),
{
    let arcs = precedence_arcs(m, machine_orders(m, config).unwrap());
    let n = flat_tasks(m.jobs).len();
    lemma_arcs_below(m, config);
    crate::dag::lemma_earliest_start_respects_arcs(arcs, task_lengths(m), n, k);
}

/// The precedence arcs of a decodable configuration name existing tasks.
proof fn lemma_arcs_below(m: JobShopView, config: Seq<usize>)
    requires
        m.wf(),
        machine_orders(m, config) is Some,
    ensures
        pairs_below(precedence_arcs(m, machine_orders(m, config).unwrap()), flat_tasks(m.jobs).len()),
{
    let flat = flat_tasks(m.jobs);
    let n = flat.len();
    let orders = machine_orders(m, config).unwrap();
    lemma_orders_in_range(flat, m.num_processors, config, 0, 0);
    lemma_job_arcs_below(m.jobs, m.jobs.len() as int);
    lemma_machine_arcs_below(orders, orders.len() as int, n);
    let ja = job_arcs(m.jobs, m.jobs.len() as int);
    let ma = machine_arcs(orders, orders.len() as int);
    assert forall|q: int| 0 <= q < (ja + ma).len() implies (#[trigger] (ja + ma)[q]).0 < n && (ja + ma)[q].1 < n by {
        if q < ja.len() {
            assert((ja + ma)[q] == ja[q]);
        } else {
            assert((ja + ma)[q] == ma[q - ja.len()]);
        }
    }
}

proof fn lemma_job_arcs_below(jobs: Seq<Seq<(usize, u64)>>, j: int)
    requires
        0 <= j <= jobs.len(),
        flat_upto(jobs, jobs.len() as int).len() <= usize::MAX,
    ensures
        pairs_below(job_arcs(jobs, j), flat_upto(jobs, jobs.len() as int).len()),
    decreases j,
{
    if j > 0 {
        lemma_job_arcs_below(jobs, j - 1);
        lemma_flat_upto_len(jobs, j - 1, jobs.len() as int);
        lemma_flat_upto_len(jobs, j, jobs.len() as int);
        let prev = job_arcs(jobs, j - 1);
        let chain = id_chain(flat_upto(jobs, j - 1).len() as int, jobs[j - 1].len() as int);
        assert(flat_upto(jobs, j).len() == flat_upto(jobs, j - 1).len() + jobs[j - 1].len());
        assert forall|q: int| 0 <= q < (prev + chain).len() implies (#[trigger] (prev + chain)[q]).0 < flat_upto(
            jobs,
            jobs.len() as int,
        ).len() && (prev + chain)[q].1 < flat_upto(jobs, jobs.len() as int).len() by {
            if q < prev.len() {
                assert((prev + chain)[q] == prev[q]);
            } else {
                assert((prev + chain)[q] == chain[q - prev.len()]);
            }
        }
    }
}

proof fn lemma_machine_arcs_below(orders: Seq<Seq<usize>>, p: int, n: nat)
    requires
        0 <= p <= orders.len(),
        forall|q: int, i: int| 0 <= q < orders.len() && 0 <= i < orders[q].len() ==> #[trigger] orders[q][i] < n,
    ensures
        pairs_below(machine_arcs(orders, p), n),
    decreases p,
{
    if p > 0 {
        lemma_machine_arcs_below(orders, p - 1, n);
        let prev = machine_arcs(orders, p - 1);
        let chain = order_chain(orders[p - 1]);
        assert forall|q: int| 0 <= q < (prev + chain).len() implies (#[trigger] (prev + chain)[q]).0 < n && (prev
            + chain)[q].1 < n by {
            if q < prev.len() {
                assert((prev + chain)[q] == prev[q]);
            } else {
                let r = q - prev.len();
                assert((prev + chain)[q] == chain[r]);
                assert(orders[p - 1][r] < n && orders[p - 1][r + 1] < n);
            }
        }
    }
}

/// Decoded processor orders name existing tasks.
proof fn lemma_orders_in_range(flat: Seq<(usize, u64)>, num_processors: nat, config: Seq<usize>, p: int, off: int)
    requires
        orders_from(flat, num_processors, config, p, off) is Some,
    ensures
        forall|q: int, i: int|
            0 <= q < orders_from(flat, num_processors, config, p, off).unwrap().len() && 0 <= i < orders_from(
                flat,
                num_processors,
                config,
                p,
                off,
            ).unwrap()[q].len() ==> #[trigger] orders_from(flat, num_processors, config, p, off).unwrap()[q][i]
                < flat.len(),
    decreases num_processors - p,
{
    if 0 <= p < num_processors {
        let tasks = machine_tasks(flat, p as usize, flat.len() as int);
        let k = tasks.len() as int;
        lemma_machine_tasks_members(flat, p as usize, flat.len() as int);
        let perm = lehmer_decode(config.subrange(off, off + k), k as usize).unwrap();
        crate::util::lemma_lehmer_decode_permutation(config.subrange(off, off + k), k as usize);
        lemma_orders_in_range(flat, num_processors, config, p + 1, off + k);
        let rest = orders_from(flat, num_processors, config, p + 1, off + k).unwrap();
        let all = orders_from(flat, num_processors, config, p, off).unwrap();
        assert(all == seq![perm.map_values(|i: usize| tasks[i as int])] + rest);
        assert forall|q: int, i: int| 0 <= q < all.len() && 0 <= i < all[q].len() implies #[trigger] all[q][i] < flat.len() by {
            if q == 0 {
                assert(perm[i] < k);
            } else {
                assert(all[q] == rest[q - 1]);
            }
        }
    }
}

} // verus!
