//! The k-nearest-neighbour classifier: its training state, the guards on
//! training and querying, and prediction by majority vote over the labels of
//! the neighbours that a nearest-neighbour index hands back, nearest first.
use crate::error::ExtendedError;
use crate::performance::{agree_count, lemma_agree_when_equal, MeasurePerformance};
use crate::vote::{count_of, is_majority, lemma_majority_unique, majority, majority_label};
use vstd::prelude::*;

verus! {

/// The labels of the neighbours `idx`, in the same order.
pub open spec fn neighbour_labels(labels: Seq<u64>, idx: Seq<usize>) -> Seq<u64> {
    idx.map_values(|i: usize| labels[i as int])
}

/// How many of `n` neighbours take part in a vote with parameter `k`.
pub open spec fn voters(k: nat, n: nat) -> nat {
    if k < n {
        k
    } else {
        n
    }
}

/// The label predicted from the neighbours `idx` (nearest first): the
/// majority among the labels of the first `k` of them.
pub open spec fn vote_of(labels: Seq<u64>, idx: Seq<usize>, k: nat) -> u64 {
    majority(neighbour_labels(labels, idx.take(voters(k, idx.len()) as int)))
}

/// `idx` is a nonempty list of neighbours, each a position in `labels`.
pub open spec fn valid_neighbours(labels: Seq<u64>, idx: Seq<usize>) -> bool {
    &&& idx.len() >= 1
    &&& forall|j: int| 0 <= j < idx.len() ==> #[trigger] idx[j] < labels.len()
}

/// The prediction for each row, from that row's neighbours.
pub open spec fn predictions(labels: Seq<u64>, lists: Seq<Vec<usize>>, k: nat) -> Seq<u64> {
    Seq::new(lists.len(), |i: int| vote_of(labels, lists[i]@, k))
}

/// What a trained classifier keeps of its training set: the label of each
/// point, indexed as the points were given, and their common dimension.
#[derive(Debug)]
struct TrainingSet {
    labels: Vec<u64>,
    dim: usize,
}

/// A k-nearest-neighbour classifier, untrained until `train` succeeds.
#[derive(Debug)]
pub struct KNNClassifier {
    data: Option<TrainingSet>,
    k: usize,
}

impl KNNClassifier {
    /// The number of neighbours that vote.
    pub closed spec fn spec_k(&self) -> nat {
        self.k as nat
    }

    /// Whether training has succeeded.
    pub closed spec fn is_trained(&self) -> bool {
        self.data is Some
    }

    /// The labels of the training points, in their order (when trained).
    pub closed spec fn training_labels(&self) -> Seq<u64> {
        self.data.unwrap().labels@
    }

    /// The dimension shared by the training points (when trained).
    pub closed spec fn dimension(&self) -> nat {
        self.data.unwrap().dim as nat
    }

    /// At least one neighbour votes, and a training set is never empty.
    pub open spec fn wf(&self) -> bool {
        &&& self.spec_k() >= 1
        &&& self.is_trained() ==> self.training_labels().len() >= 1
    }

    /// An untrained classifier in which `k` neighbours vote.
    pub fn new(k: usize) -> (r: KNNClassifier)
        requires
            k >= 1,
        ensures
            r.wf(),
            !r.is_trained(),
            r.spec_k() == k,
    {
        KNNClassifier { data: None, k }
    }

    /// An untrained classifier in which `k` neighbours vote; fails when
    /// `k` is zero.
    pub fn try_new(k: usize) -> (r: Result<KNNClassifier, ExtendedError>)
        ensures
            k == 0 <==> r is Err,
            r matches Err(e) ==> e == ExtendedError::InvalidNeighbourCount,
            r matches Ok(c) ==> c.wf() && !c.is_trained() && c.spec_k() == k,
    {
        if k == 0 {
            Err(ExtendedError::InvalidNeighbourCount)
        } else {
            Ok(KNNClassifier::new(k))
        }
    }

    /// The number of neighbours that vote.
    pub fn k(&self) -> (r: usize)
        ensures
            r == self.spec_k(),
    {
        self.k
    }

    /// Whether training has succeeded.
    pub fn trained(&self) -> (r: bool)
        ensures
            r == self.is_trained(),
    {
        self.data.is_some()
    }

    /// Trains on points of dimensions `point_dims` labelled `labels`
    /// (`labels[i]` belongs to the point `i`). On failure nothing changes.
    pub fn train(&mut self, point_dims: &Vec<usize>, labels: &Vec<u64>) -> (r: Result<
        (),
        ExtendedError,
    >)
        requires
            old(self).wf(),
        ensures
            final(self).wf(),
            final(self).spec_k() == old(self).spec_k(),
            point_dims@.len() != labels@.len() ==> r == Err::<(), _>(ExtendedError::InvalidSizes),
            point_dims@.len() == labels@.len() && labels@.len() == 0 ==> r == Err::<(), _>(
                ExtendedError::InvalidTrainingSize,
            ),
            point_dims@.len() == labels@.len() && labels@.len() > 0 && (exists|i: int|
                0 <= i < point_dims@.len() && #[trigger] point_dims@[i] != point_dims@[0])
                ==> r == Err::<(), _>(ExtendedError::DimensionMismatch),
            point_dims@.len() == labels@.len() && labels@.len() > 0 && (forall|i: int|
                0 <= i < point_dims@.len() ==> #[trigger] point_dims@[i] == point_dims@[0]) ==> {
                &&& r is Ok
                &&& final(self).is_trained()
                &&& final(self).training_labels() == labels@
                &&& final(self).dimension() == point_dims@[0]
            },
            r is Err ==> *final(self) == *old(self),
    {
        if point_dims.len() != labels.len() {
            return Err(ExtendedError::InvalidSizes);
        }
        if labels.len() == 0 {
            return Err(ExtendedError::InvalidTrainingSize);
        }
        let dim = point_dims[0];
        let mut i: usize = 1;
        while i < point_dims.len()
            invariant
                1 <= i <= point_dims.len(),
                point_dims@.len() == labels@.len(),
                *self == *old(self),
                self.wf(),
                dim == point_dims@[0],
                forall|j: int| 0 <= j < i ==> #[trigger] point_dims@[j] == dim,
            decreases point_dims.len() - i,
        {
            if point_dims[i] != dim {
                return Err(ExtendedError::DimensionMismatch);
            }
            i = i + 1;
        }
        self.data = Some(TrainingSet { labels: labels.clone(), dim });
        Ok(())
    }

    /// Whether a point of dimension `dim` may be queried.
    pub fn check_query(&self, dim: usize) -> (r: Result<(), ExtendedError>)
        ensures
            !self.is_trained() ==> r == Err::<(), _>(ExtendedError::ModelNotTrained),
            self.is_trained() && dim != self.dimension() ==> r == Err::<(), _>(
                ExtendedError::DimensionMismatch,
            ),
            self.is_trained() && dim == self.dimension() ==> r is Ok,
    {
        match &self.data {
            None => Err(ExtendedError::ModelNotTrained),
            Some(d) => if d.dim != dim {
                Err(ExtendedError::DimensionMismatch)
            } else {
                Ok(())
            },
        }
    }

    /// Predicts a label for a query point of dimension `query_dim` from
    /// `neighbours`, the training indices of its neighbours, nearest first:
    /// the most frequent label among the first `k`, the smallest such label
    /// on a tie.
    pub fn test_individual(&self, query_dim: usize, neighbours: &Vec<usize>) -> (r: Result<
        u64,
        ExtendedError,
    >)
        requires
            self.wf(),
            self.is_trained() && query_dim == self.dimension() ==> valid_neighbours(
                self.training_labels(),
                neighbours@,
            ),
        ensures
            !self.is_trained() ==> r == Err::<u64, _>(ExtendedError::ModelNotTrained),
            self.is_trained() && query_dim != self.dimension() ==> r == Err::<u64, _>(
                ExtendedError::DimensionMismatch,
            ),
            self.is_trained() && query_dim == self.dimension() ==> r == Ok::<u64, ExtendedError>(
                vote_of(self.training_labels(), neighbours@, self.spec_k()),
            ),
    {
        match &self.data {
            None => Err(ExtendedError::ModelNotTrained),
            Some(d) => {
                if d.dim != query_dim {
                    return Err(ExtendedError::DimensionMismatch);
                }
                let n: usize = if self.k < neighbours.len() {
                    self.k
                } else {
                    neighbours.len()
                };
                let ghost first = neighbours@.take(n as int);
                let mut votes: Vec<u64> = Vec::new();
                let mut i: usize = 0;
                while i < n
                    invariant
                        i <= n,
                        n <= neighbours@.len(),
                        first == neighbours@.take(n as int),
                        forall|j: int|
                            0 <= j < neighbours@.len() ==> #[trigger] neighbours@[j]
                                < d.labels@.len(),
                        votes@ == neighbour_labels(d.labels@, first.take(i as int)),
                    decreases n - i,
                {
                    votes.push(d.labels[neighbours[i]]);
                    i = i + 1;
                    assert(votes@ =~= neighbour_labels(d.labels@, first.take(i as int)));
                }
                assert(first.take(n as int) =~= first);
                match majority_label(&votes) {
                    Some(l) => Ok(l),
                    None => Err(ExtendedError::InvalidSizes),
                }
            },
        }
    }

    /// Scores the classifier on test rows: row `i` has dimension
    /// `query_dims[i]`, its neighbours, nearest first, in `neighbour_lists[i]`
    /// (looked up only for rows of the training dimension), and the true
    /// label `labels[i]`.
    pub fn test(
        &self,
        query_dims: &Vec<usize>,
        neighbour_lists: &Vec<Vec<usize>>,
        labels: &Vec<u64>,
    ) -> (r: Result<MeasurePerformance, ExtendedError>)
        requires
            self.wf(),
            query_dims@.len() == neighbour_lists@.len(),
            self.is_trained() ==> forall|i: int|
                0 <= i < neighbour_lists@.len() && query_dims@[i] == self.dimension()
                    ==> valid_neighbours(self.training_labels(), #[trigger] neighbour_lists@[i]@),
        ensures
            !self.is_trained() ==> r == Err::<MeasurePerformance, _>(
                ExtendedError::ModelNotTrained,
            ),
            self.is_trained() && (exists|i: int|
                0 <= i < query_dims@.len() && #[trigger] query_dims@[i] != self.dimension())
                ==> r == Err::<MeasurePerformance, _>(ExtendedError::DimensionMismatch),
            self.is_trained() && (forall|i: int|
                0 <= i < query_dims@.len() ==> #[trigger] query_dims@[i] == self.dimension())
                && neighbour_lists@.len() != labels@.len() ==> r == Err::<MeasurePerformance, _>(
                ExtendedError::InvalidSizes,
            ),
            self.is_trained() && (forall|i: int|
                0 <= i < query_dims@.len() ==> #[trigger] query_dims@[i] == self.dimension())
                && neighbour_lists@.len() == labels@.len() ==> r == Ok::<
                MeasurePerformance,
                ExtendedError,
            >(
                MeasurePerformance {
                    correct: agree_count(
                        predictions(self.training_labels(), neighbour_lists@, self.spec_k()),
                        labels@,
                    ) as usize,
                    total: labels@.len() as usize,
                },
            ),
    {
        if self.data.is_none() {
            return Err(ExtendedError::ModelNotTrained);
        }
        let ghost want = predictions(self.training_labels(), neighbour_lists@, self.spec_k());
        let mut predicted: Vec<u64> = Vec::new();
        let mut i: usize = 0;
        while i < neighbour_lists.len()
            invariant
                i <= neighbour_lists@.len(),
                query_dims@.len() == neighbour_lists@.len(),
                self.wf(),
                self.is_trained(),
                want == predictions(self.training_labels(), neighbour_lists@, self.spec_k()),
                forall|j: int|
                    0 <= j < neighbour_lists@.len() && query_dims@[j] == self.dimension()
                        ==> valid_neighbours(
                        self.training_labels(),
                        #[trigger] neighbour_lists@[j]@,
                    ),
                forall|j: int| 0 <= j < i ==> #[trigger] query_dims@[j] == self.dimension(),
                predicted@ == want.take(i as int),
            decreases neighbour_lists@.len() - i,
        {
            match self.test_individual(query_dims[i], &neighbour_lists[i]) {
                Ok(l) => predicted.push(l),
                Err(e) => return Err(e),
            }
            i = i + 1;
            assert(predicted@ =~= want.take(i as int));
        }
        assert(want.take(i as int) =~= want);
        match MeasurePerformance::new(&predicted, labels) {
            Some(m) => Ok(m),
            None => Err(ExtendedError::InvalidSizes),
        }
    }
}

/// When each test row is a training point whose nearest neighbour is itself,
/// the single nearest neighbour votes, and the true labels are the training
/// labels, every prediction is right: the accuracy is exactly one.
pub proof fn lemma_self_prediction_is_perfect(
    labels: Seq<u64>,
    lists: Seq<Vec<usize>>,
)
    requires
        lists.len() == labels.len(),
        forall|i: int| 0 <= i < lists.len() ==> valid_neighbours(labels, #[trigger] lists[i]@),
        forall|i: int| 0 <= i < lists.len() ==> #[trigger] lists[i]@[0] == i,
    ensures
        agree_count(predictions(labels, lists, 1), labels) == labels.len(),
{
    let p = predictions(labels, lists, 1);
    assert forall|i: int| 0 <= i < p.len() implies #[trigger] p[i] == labels[i] by {
        let one = neighbour_labels(labels, lists[i]@.take(1));
        assert(one =~= seq![labels[i]]);
        assert(one.drop_last() =~= Seq::<u64>::empty());
        assert(is_majority(one, labels[i])) by {
            assert(one[0] == labels[i]);
            assert forall|m: u64| #[trigger] count_of(one, m) <= count_of(one, labels[i])
                && (count_of(one, m) == count_of(one, labels[i]) ==> labels[i] <= m) by {
                assert(count_of(one.drop_last(), m) == 0);
                assert(count_of(one.drop_last(), labels[i]) == 0);
                assert(one.last() == labels[i]);
            }
        }
        lemma_majority_unique(one, labels[i], majority(one));
    }
    lemma_agree_when_equal(p, labels);
}

impl Default for KNNClassifier {
    /// An untrained classifier in which the single nearest neighbour decides.
    fn default() -> (r: KNNClassifier)
        ensures
            r.wf(),
            !r.is_trained(),
            r.spec_k() == 1,
    {
        KNNClassifier::new(1)
    }
}

} // verus!
