use ball_tree::{BallTree, Point};
use k_nn::classifier::KNNClassifier;
use k_nn::error::ExtendedError;
use k_nn::performance::MeasurePerformance;
use std::collections::BTreeMap;

/// Builds an index over `points` whose values are the points' positions.
fn index<const D: usize>(points: &[[f64; D]]) -> BallTree<[f64; D], usize> {
    BallTree::new(points.to_vec(), (0..points.len()).collect())
}

/// All neighbours of `q` as (distance, position), nearest first.
fn neighbours<const D: usize>(tree: &BallTree<[f64; D], usize>, q: &[f64; D]) -> Vec<(f64, usize)> {
    let mut query = tree.query();
    query.nn(q).map(|(_, d, i)| (d, *i)).collect()
}

fn positions(ns: &[(f64, usize)]) -> Vec<usize> {
    ns.iter().map(|(_, i)| *i).collect()
}

/// Pseudo-random coordinates in [0, 10), reproducible from `seed`.
fn sample_points<const D: usize>(n: usize, seed: u64) -> Vec<[f64; D]> {
    let mut state = seed;
    let mut next = move || {
        state = state.wrapping_mul(6364136223846793005).wrapping_add(1442695040888963407);
        ((state >> 11) as f64) / ((1u64 << 53) as f64) * 10.0
    };
    (0..n).map(|_| {
        let mut p = [0.0; D];
        for c in p.iter_mut() {
            *c = next();
        }
        p
    }).collect()
}

fn labels_above<const D: usize>(points: &[[f64; D]], limit: f64) -> Vec<u64> {
    points.iter().map(|p| if p.iter().sum::<f64>() > limit { 1 } else { 0 }).collect()
}

fn distribution(labels: &[u64]) -> BTreeMap<u64, usize> {
    let mut m = BTreeMap::new();
    for l in labels {
        *m.entry(*l).or_insert(0) += 1;
    }
    m
}

fn train_on<const D: usize>(k: usize, points: &[[f64; D]], labels: &[u64]) -> (KNNClassifier, BallTree<[f64; D], usize>) {
    let mut class = KNNClassifier::new(k);
    let dims = vec![D; points.len()];
    class.train(&dims, &labels.to_vec()).expect("Should parse data");
    (class, index(points))
}

#[test]
fn create_k_nn() {
    let class = KNNClassifier::new(3);
    println!("KNN classifier {:?}", class);
    assert_eq!(class.k(), 3);
    assert!(!class.trained());
}

#[test]
fn test_items() {
    let points = sample_points::<2>(5, 21);
    let labels = labels_above(&points, 5.);
    let dist_given = distribution(&labels);
    let (class, tree) = train_on(1, &points, &labels);
    assert!(class.trained());
    let found: Vec<u64> = positions(&neighbours(&tree, &[0., 0.])).iter().map(|i| labels[*i]).collect();
    assert_eq!(distribution(&found), dist_given, "Labels do not match");
}

#[test]
fn test_labels() {
    let points = sample_points::<30>(5000, 62);
    let labels = labels_above(&points, 20.);
    let (class, tree) = train_on(1, &points, &labels);
    let lists: Vec<Vec<usize>> = points.iter().map(|p| {
        let mut query = tree.query();
        query.nn(p).take(class.k()).map(|(_, _, i)| *i).collect()
    }).collect();
    let score = class.test(&vec![30; lists.len()], &lists, &labels).unwrap();
    assert_eq!(score.total, 5000);
    assert_eq!(score.correct, 5000);
    assert!(score.is_perfect());
}

#[test]
fn default_classifier_uses_one_neighbour() {
    let class = KNNClassifier::default();
    assert_eq!(class.k(), 1);
    assert!(!class.trained());
}

#[test]
fn train_rejects_mismatched_sizes() {
    let mut class = KNNClassifier::new(1);
    assert_eq!(class.train(&vec![2; 5], &vec![0, 1, 0, 1]), Err(ExtendedError::InvalidSizes));
    assert!(!class.trained());
    assert_eq!(class.test_individual(2, &vec![0]), Err(ExtendedError::ModelNotTrained));
}

#[test]
fn test_on_untrained_classifier_fails() {
    let class = KNNClassifier::new(2);
    assert_eq!(class.test(&vec![2], &vec![vec![0]], &vec![1]), Err(ExtendedError::ModelNotTrained));
}

#[test]
fn test_with_mismatched_labels_fails() {
    let mut class = KNNClassifier::new(1);
    class.train(&vec![2, 2], &vec![4, 5]).unwrap();
    assert_eq!(class.test(&vec![2, 2], &vec![vec![0], vec![1]], &vec![4]), Err(ExtendedError::InvalidSizes));
}

#[test]
fn train_rejects_empty_set() {
    let mut class = KNNClassifier::new(1);
    assert_eq!(class.train(&vec![], &vec![]), Err(ExtendedError::InvalidTrainingSize));
}

#[test]
fn train_rejects_mixed_dimensions() {
    let mut class = KNNClassifier::new(1);
    assert_eq!(class.train(&vec![2, 3, 2], &vec![0, 0, 1]), Err(ExtendedError::DimensionMismatch));
    assert!(!class.trained());
}

#[test]
fn failed_training_keeps_previous_model() {
    let mut class = KNNClassifier::new(1);
    class.train(&vec![2, 2], &vec![7, 8]).unwrap();
    assert_eq!(class.train(&vec![2], &vec![]), Err(ExtendedError::InvalidSizes));
    assert_eq!(class.test_individual(2, &vec![1, 0]), Ok(8));
    assert_eq!(class.check_query(2), Ok(()));
}

#[test]
fn query_dimension_guard() {
    let mut class = KNNClassifier::new(1);
    assert_eq!(class.check_query(2), Err(ExtendedError::ModelNotTrained));
    class.train(&vec![2, 2, 2], &vec![0, 1, 1]).unwrap();
    assert_eq!(class.check_query(3), Err(ExtendedError::DimensionMismatch));
    assert_eq!(class.check_query(2), Ok(()));
}

#[test]
fn tie_breaks_toward_smaller_label() {
    let mut class = KNNClassifier::new(4);
    class.train(&vec![1; 4], &vec![9, 9, 3, 3]).unwrap();
    for _ in 0..3 {
        assert_eq!(class.test_individual(1, &vec![0, 2, 1, 3]), Ok(3));
        assert_eq!(class.test_individual(1, &vec![2, 3, 0, 1]), Ok(3));
    }
}

#[test]
fn only_first_k_neighbours_vote() {
    let mut class = KNNClassifier::new(3);
    class.train(&vec![1; 5], &vec![5, 5, 2, 2, 2]).unwrap();
    assert_eq!(class.test_individual(1, &vec![0, 1, 2, 3, 4]), Ok(5));
    assert_eq!(class.test_individual(1, &vec![2, 0, 3, 1, 4]), Ok(2));
    // fewer neighbours than k: all of them vote
    assert_eq!(class.test_individual(1, &vec![0, 3]), Ok(2));
}

#[test]
fn end_to_end_low_and_high() {
    // "high" < "low", so "high" is 0 and "low" is 1
    let points = [[0., 0.], [1., 1.], [10., 10.], [11., 11.]];
    let labels = vec![1, 1, 0, 0];
    let (class, tree) = train_on(1, &points, &labels);
    let near_low = positions(&neighbours(&tree, &[0.5, 0.5]));
    let near_high = positions(&neighbours(&tree, &[10.5, 10.5]));
    assert_eq!(class.test_individual(2, &near_low), Ok(1));
    assert_eq!(class.test_individual(2, &near_high), Ok(0));
}

#[test]
fn accuracy_on_training_set_is_one() {
    let points = [[0., 0.], [1., 1.], [10., 10.], [11., 11.], [3., 7.]];
    let labels = vec![1, 1, 0, 0, 2];
    let (class, tree) = train_on(1, &points, &labels);
    let lists: Vec<Vec<usize>> = points.iter().map(|p| positions(&neighbours(&tree, p))).collect();
    let score = class.test(&vec![2; lists.len()], &lists, &labels).unwrap();
    assert_eq!(score, MeasurePerformance { correct: 5, total: 5 });
}

#[test]
fn query_returns_point_itself_first() {
    let points = sample_points::<3>(200, 7);
    let tree = index(&points);
    for (i, p) in points.iter().enumerate() {
        let ns = neighbours(&tree, p);
        assert_eq!(ns[0].1, i);
        assert_eq!(ns[0].0, 0.0);
    }
}

#[test]
fn query_distances_do_not_decrease() {
    let points = sample_points::<2>(300, 3);
    let tree = index(&points);
    for q in sample_points::<2>(20, 99) {
        let ns = neighbours(&tree, &q);
        assert_eq!(ns.len(), points.len());
        for w in ns.windows(2) {
            assert!(w[0].0 <= w[1].0);
        }
    }
}

#[test]
fn distance_is_symmetric() {
    let points = sample_points::<4>(30, 11);
    for a in &points {
        for b in &points {
            assert_eq!(a.distance(b), b.distance(a));
        }
    }
}

#[test]
fn coincident_points_all_returned() {
    let points = [[2., 2.], [2., 2.], [2., 2.]];
    let tree = index(&points);
    let mut found = positions(&neighbours(&tree, &[0., 0.]));
    found.sort();
    assert_eq!(found, vec![0, 1, 2]);
}

#[test]
fn classifier_without_voters_is_refused() {
    assert_eq!(KNNClassifier::try_new(0).err(), Some(ExtendedError::InvalidNeighbourCount));
    let class = KNNClassifier::try_new(5).unwrap();
    assert_eq!(class.k(), 5);
    assert!(!class.trained());
}

#[test]
fn prediction_with_wrong_dimension_fails() {
    let points = [[0., 0.], [1., 1.]];
    let (class, _tree) = train_on(1, &points, &[0, 1]);
    assert_eq!(class.test_individual(3, &vec![]), Err(ExtendedError::DimensionMismatch));
    assert_eq!(class.test_individual(2, &vec![1]), Ok(1));
}

#[test]
fn batch_test_with_wrong_dimension_fails() {
    let points = [[0., 0.], [1., 1.]];
    let (class, tree) = train_on(1, &points, &[0, 1]);
    let first = positions(&neighbours(&tree, &[0., 0.]));
    assert_eq!(
        class.test(&vec![2, 3], &vec![first, vec![]], &vec![0, 1]),
        Err(ExtendedError::DimensionMismatch)
    );
}
