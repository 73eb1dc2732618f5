//! Clustering.
//!
//! Given a symmetric distance matrix, a number of clusters and a diameter
//! bound, decide whether the elements can be split into at most that many
//! clusters so that any two elements of the same cluster are within the
//! bound. A configuration gives each element its cluster.
use crate::types::Or;
use crate::util::{all_below, check_all_below};
use crate::util::rows_u64;
use vstd::prelude::*;

verus! {

/// Mathematical model of a [`Clustering`] instance.
pub struct ClusteringView {
    pub distances: Seq<Seq<u64>>,
    pub num_clusters: nat,
    pub diameter_bound: u64,
}

impl ClusteringView {
    /// The instance is well formed: a non-empty square symmetric matrix with
    /// zero diagonal, and at least one cluster.
    pub open spec fn wf(self) -> bool {
        let n = self.distances.len();
        &&& n > 0
        &&& self.num_clusters > 0
        &&& forall|i: int| 0 <= i < n ==> (#[trigger] self.distances[i]).len() == n && self.distances[i][i] == 0
        &&& forall|i: int, j: int| 0 <= i < n && 0 <= j < n ==> #[trigger] self.distances[i][j] == self.distances[j][i]
    }
}

/// Every element has a cluster and elements sharing a cluster are within
/// the diameter bound.
pub open spec fn is_valid_clustering(m: ClusteringView, config: Seq<usize>) -> bool {
    let n = m.distances.len();
    &&& config.len() == n
    &&& all_below(config, m.num_clusters as int)
    &&& forall|i: int, j: int|
        0 <= i < j < n && config[i] == config[j] ==> #[trigger] m.distances[i][j] <= m.diameter_bound
}

/// The Clustering problem.
#[derive(Debug)]
pub struct Clustering {
    distances: Vec<Vec<u64>>,
    num_clusters: usize,
    diameter_bound: u64,
}

impl View for Clustering {
    type V = ClusteringView;

    closed spec fn view(&self) -> ClusteringView {
        ClusteringView {
            distances: rows_u64(self.distances@),
            num_clusters: self.num_clusters as nat,
            diameter_bound: self.diameter_bound,
        }
    }
}

impl Clustering {
    /// The stored instance is well formed.
    #[verifier::type_invariant]
    pub closed spec fn inv(self) -> bool {
        self@.wf()
    }

    /// Create a new instance.
    pub fn new(distances: Vec<Vec<u64>>, num_clusters: usize, diameter_bound: u64) -> (r: Self)
        requires
            (ClusteringView { distances: rows_u64(distances@), num_clusters: num_clusters as nat, diameter_bound }).wf(),
        ensures
            r@ == (ClusteringView { distances: rows_u64(distances@), num_clusters: num_clusters as nat, diameter_bound }),
    {
        Clustering { distances, num_clusters, diameter_bound }
    }

    /// Get the distance matrix.
    pub fn distances(&self) -> (r: &[Vec<u64>])
        ensures
            rows_u64(r@) == self@.distances,
    {
        self.distances.as_slice()
    }

    /// Get the number of elements.
    pub fn num_elements(&self) -> (r: usize)
        ensures
            r == self@.distances.len(),
    {
        self.distances.len()
    }

    /// Get the number of clusters.
    pub fn num_clusters(&self) -> (r: usize)
        ensures
            r == self@.num_clusters,
    {
        self.num_clusters
    }

    /// Get the diameter bound.
    pub fn diameter_bound(&self) -> (r: u64)
        ensures
            r == self@.diameter_bound,
    {
        self.diameter_bound
    }

    fn is_valid_partition(&self, config: &[usize]) -> (r: bool)
        ensures
            r == is_valid_clustering(self@, config@),
    {
        proof {
            use_type_invariant(self);
        }
        let n = self.distances.len();
        if config.len() != n {
            return false;
        }
        if !check_all_below(config, self.num_clusters) {
            return false;
        }
        for i in 0..n
            invariant
                self@.wf(),
                n == self@.distances.len(),
                config@.len() == n,
                forall|a: int, b: int|
                    0 <= a < b < n && a < i && config@[a] == config@[b] ==> #[trigger] self@.distances[a][b]
                        <= self@.diameter_bound,
        {
            let row = &self.distances[i];
            assert(self@.distances[i as int] == row@);
            for j in i + 1..n
                invariant
                    self@.wf(),
                    n == self@.distances.len(),
                    config@.len() == n,
                    i < n,
                    self@.distances[i as int] == row@,
                    row@.len() == n,
                    forall|a: int, b: int|
                        0 <= a < b < n && a < i && config@[a] == config@[b] ==> #[trigger] self@.distances[a][b]
                            <= self@.diameter_bound,
                    forall|b: int|
                        i < b < j && config@[i as int] == config@[b] ==> #[trigger] self@.distances[i as int][b]
                            <= self@.diameter_bound,
            {
                if config[i] == config[j] && row[j] > self.diameter_bound {
                    return false;
                }
            }
        }
        true
    }

    /// Each element chooses one of the clusters.
    pub fn dims(&self) -> (r: Vec<usize>)
        ensures
            r@ == Seq::new(self@.distances.len(), |i: int| self@.num_clusters as usize),
    {
        crate::util::repeat_usize(self.num_clusters, self.distances.len())
    }

    /// Whether the configuration is a clustering within the diameter bound.
    pub fn evaluate(&self, config: &[usize]) -> (r: Or)
        ensures
            r == Or(is_valid_clustering(self@, config@)),
    {
        Or(self.is_valid_partition(config))
    }
}

} // verus!
