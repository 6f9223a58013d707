use cica::kmeans::{
    assign_points, build_clusters, centroids_converged, check_parameters, choose_by_threshold,
    are_finite, group_indices, nearest_centroid, nearest_distance, nearest_distances, KMeansError,
    KMeansResult, Point, EPSILON_BITS, INFINITY_BITS,
};
use cica::session::{kmeans_pp, Reply, Request};
use rand::rngs::StdRng;
use rand::{Rng, SeedableRng};
use std::collections::HashSet;

fn bits(p: &[f32; 4]) -> Point {
    [p[0].to_bits(), p[1].to_bits(), p[2].to_bits(), p[3].to_bits()]
}

fn numbers(p: &Point) -> [f32; 4] {
    [
        f32::from_bits(p[0]),
        f32::from_bits(p[1]),
        f32::from_bits(p[2]),
        f32::from_bits(p[3]),
    ]
}

fn distance_sq(a: &[f32; 4], b: &[f32; 4]) -> f32 {
    (0..4).map(|d| (a[d] - b[d]).powi(2)).sum()
}

fn measure(points: &[[f32; 4]], centroids: &[[f32; 4]]) -> Vec<Vec<u32>> {
    points
        .iter()
        .map(|p| centroids.iter().map(|c| distance_sq(p, c).to_bits()).collect())
        .collect()
}

fn mean(points: &[[f32; 4]], group: &[usize]) -> [f32; 4] {
    let mut sum = [0.0f32; 4];
    for &i in group {
        for d in 0..4 {
            sum[d] += points[i][d];
        }
    }
    if !group.is_empty() {
        for d in 0..4 {
            sum[d] /= group.len() as f32;
        }
    }
    sum
}

struct Run {
    result: KMeansResult,
    averages: usize,
}

fn run(points: &[[f32; 4]], k: usize, seed: u64) -> Result<Run, KMeansError> {
    let (mut session, mut request) = kmeans_pp(points.iter().map(bits).collect(), k, seed)?;
    let mut averages = 0;
    loop {
        let reply = match request {
            Request::MeasureSeeds { seeds } => {
                let chosen: Vec<[f32; 4]> = seeds.iter().map(|&s| points[s]).collect();
                Reply::Distances { rows: measure(points, &chosen) }
            }
            Request::DrawThreshold { weights, mut generator } => {
                let weights: Vec<f32> = weights.iter().map(|&w| f32::from_bits(w)).collect();
                let total: f32 = weights.iter().sum();
                let threshold: f32 = generator.random_range(0.0..=total);
                let mut running = 0.0f32;
                let cumulative = weights
                    .iter()
                    .map(|w| {
                        running += w;
                        running.to_bits()
                    })
                    .collect();
                Reply::Threshold { cumulative, threshold: threshold.to_bits(), generator }
            }
            Request::Measure { centroids } => {
                let centroids: Vec<[f32; 4]> = centroids.iter().map(numbers).collect();
                Reply::Distances { rows: measure(points, &centroids) }
            }
            Request::Average { groups, previous } => {
                averages += 1;
                let means: Vec<[f32; 4]> = groups.iter().map(|g| mean(points, g)).collect();
                let shifts = previous
                    .iter()
                    .zip(means.iter())
                    .map(|(old, new)| distance_sq(&numbers(old), new).to_bits())
                    .collect();
                Reply::Means { centroids: means.iter().map(bits).collect(), shifts }
            }
            Request::Finished { result } => return Ok(Run { result, averages }),
        };
        let next = session.step(reply)?;
        session = next.0;
        request = next.1;
    }
}

fn two_pairs() -> Vec<[f32; 4]> {
    vec![
        [0.0, 0.0, 0.0, 1.0],
        [0.1, 0.1, 0.1, 1.0],
        [10.0, 10.0, 10.0, 1.0],
        [10.1, 10.1, 10.1, 1.0],
    ]
}

#[test]
fn test_kmeans_pp_basic() {
    let points = two_pairs();

    let result = run(&points, 2, 42).unwrap().result;

    assert_eq!(result.clusters.len(), 2);
    assert_eq!(result.centroids.len(), 2);

    let total_points: usize = result.clusters.iter().map(|c| c.len()).sum();
    assert_eq!(total_points, 4);
}

#[test]
fn test_kmeans_pp_single_cluster() {
    let points = vec![
        [1.0, 2.0, 3.0, 4.0],
        [1.1, 2.1, 3.1, 4.1],
        [0.9, 1.9, 2.9, 3.9],
    ];

    let result = run(&points, 1, 42).unwrap().result;

    assert_eq!(result.clusters.len(), 1);
    assert_eq!(result.clusters[0].len(), 3);
}

#[test]
fn parameters_are_checked_in_order() {
    assert_eq!(check_parameters(0, 0), Err(KMeansError::ZeroClusters));
    assert_eq!(check_parameters(5, 0), Err(KMeansError::ZeroClusters));
    assert_eq!(check_parameters(0, 1), Err(KMeansError::NoPoints));
    assert_eq!(check_parameters(2, 3), Err(KMeansError::TooManyClusters));
    assert_eq!(check_parameters(3, 3), Ok(()));
    assert_eq!(check_parameters(3, 1), Ok(()));
}

#[test]
fn a_run_with_bad_parameters_is_refused() {
    let points = two_pairs();
    assert_eq!(run(&points, 0, 1).err(), Some(KMeansError::ZeroClusters));
    assert_eq!(run(&[], 1, 1).err(), Some(KMeansError::NoPoints));
    assert_eq!(run(&[], 0, 1).err(), Some(KMeansError::ZeroClusters));
    assert_eq!(run(&points, 5, 1).err(), Some(KMeansError::TooManyClusters));
    assert!(run(&points, 4, 1).is_ok());
}

#[test]
fn a_run_starts_with_one_of_the_points_as_its_first_seed() {
    let points: Vec<Point> = two_pairs().iter().map(bits).collect();
    let mut drawn = HashSet::new();
    for seed in 0..64u64 {
        let (_, request) = kmeans_pp(points.clone(), 2, seed).unwrap();
        match request {
            Request::MeasureSeeds { seeds } => {
                assert_eq!(seeds.len(), 1);
                assert!(seeds[0] < 4);
                drawn.insert(seeds[0]);
            }
            other => panic!("unexpected request {:?}", other),
        }
        let (_, request) = kmeans_pp(points.clone(), 1, seed).unwrap();
        match request {
            Request::Measure { centroids } => {
                assert_eq!(centroids.len(), 1);
                assert!(points.contains(&centroids[0]));
            }
            other => panic!("unexpected request {:?}", other),
        }
    }
    assert_eq!(drawn.len(), 4);
    let (_, request) = kmeans_pp(vec![points[2]], 1, 9).unwrap();
    assert!(matches!(request, Request::Measure { centroids } if centroids == vec![points[2]]));
}

#[test]
fn the_first_seed_follows_the_generator_of_the_seed() {
    let points: Vec<Point> = (0..1000u32).map(|i| [i, 0, 0, 0]).collect();
    for seed in [0u64, 1, 42, 12345] {
        let expected = StdRng::seed_from_u64(seed).random_range(0..points.len());
        let (_, request) = kmeans_pp(points.clone(), 2, seed).unwrap();
        assert!(matches!(request, Request::MeasureSeeds { seeds } if seeds == vec![expected]));
    }
}

#[test]
fn same_seed_gives_the_same_result() {
    let points = two_pairs();
    for seed in 0..10u64 {
        let first = run(&points, 2, seed).unwrap().result;
        let second = run(&points, 2, seed).unwrap().result;
        assert_eq!(first.clusters, second.clusters);
        assert_eq!(first.centroids, second.centroids);
    }
}

#[test]
fn every_point_is_in_exactly_one_cluster() {
    let points: Vec<[f32; 4]> = (0..40)
        .map(|i| {
            let x = ((i * 37) % 17) as f32;
            let y = ((i * 11) % 5) as f32;
            [x, y, i as f32, 1.0]
        })
        .collect();
    for k in 1..=6 {
        let result = run(&points, k, 7).unwrap().result;
        assert_eq!(result.clusters.len(), k);
        assert_eq!(result.centroids.len(), k);
        let total: usize = result.clusters.iter().map(|c| c.len()).sum();
        assert_eq!(total, points.len());
        for p in &points {
            let holders = result
                .clusters
                .iter()
                .map(|c| c.iter().filter(|q| **q == bits(p)).count())
                .sum::<usize>();
            assert_eq!(holders, 1);
        }
    }
}

#[test]
fn two_pairs_are_found_whatever_the_seed() {
    let points = two_pairs();
    for seed in 0..25u64 {
        let result = run(&points, 2, seed).unwrap().result;
        let mut clusters = result.clusters.clone();
        let mut centroids: Vec<[f32; 4]> = result.centroids.iter().map(numbers).collect();
        if centroids[0][0] > centroids[1][0] {
            clusters.swap(0, 1);
            centroids.swap(0, 1);
        }
        assert_eq!(clusters[0], vec![bits(&points[0]), bits(&points[1])]);
        assert_eq!(clusters[1], vec![bits(&points[2]), bits(&points[3])]);
        for d in 0..3 {
            assert!((centroids[0][d] - 0.05).abs() < 1e-4);
            assert!((centroids[1][d] - 10.05).abs() < 1e-4);
        }
        assert_eq!(centroids[0][3], 1.0);
        assert_eq!(centroids[1][3], 1.0);
    }
}

#[test]
fn one_cluster_settles_after_one_more_iteration() {
    let points = two_pairs();
    for seed in 0..5u64 {
        let done = run(&points, 1, seed).unwrap();
        assert!(done.averages <= 2);
        assert_eq!(done.result.clusters[0], points.iter().map(bits).collect::<Vec<Point>>());
        let centre = numbers(&done.result.centroids[0]);
        assert!((centre[0] - 5.05).abs() < 1e-4);
    }
}

#[test]
fn as_many_clusters_as_points_settle_at_once() {
    let points = two_pairs();
    for seed in 0..5u64 {
        let done = run(&points, 4, seed).unwrap();
        assert!(done.averages <= 2);
        for cluster in &done.result.clusters {
            assert_eq!(cluster.len(), 1);
        }
    }
}

#[test]
fn nearest_centroid_takes_the_first_of_equals() {
    let row: Vec<u32> = [3.0f32, 1.0, 1.0, 2.0].iter().map(|d| d.to_bits()).collect();
    assert_eq!(nearest_centroid(&row), 1);
    let row: Vec<u32> = [0.5f32].iter().map(|d| d.to_bits()).collect();
    assert_eq!(nearest_centroid(&row), 0);
    let row: Vec<u32> = [f32::INFINITY, 4.0, 0.0].iter().map(|d| d.to_bits()).collect();
    assert_eq!(nearest_centroid(&row), 2);
}

#[test]
fn assignment_follows_the_distances() {
    let rows: Vec<Vec<u32>> = vec![
        vec![1.0f32.to_bits(), 2.0f32.to_bits()],
        vec![5.0f32.to_bits(), 0.25f32.to_bits()],
        vec![7.0f32.to_bits(), 7.0f32.to_bits()],
    ];
    assert_eq!(assign_points(&rows, 2), Ok(vec![0, 1, 0]));
    assert_eq!(assign_points(&Vec::new(), 3), Ok(vec![]));
}

#[test]
fn assignment_refuses_a_wrong_shape() {
    let rows: Vec<Vec<u32>> = vec![vec![0, 0], vec![0]];
    assert_eq!(assign_points(&rows, 2), Err(KMeansError::Malformed));
    assert_eq!(assign_points(&rows, 0), Err(KMeansError::Malformed));
    let rows: Vec<Vec<u32>> = vec![vec![f32::NAN.to_bits()], vec![0, 0]];
    assert_eq!(assign_points(&rows, 1), Err(KMeansError::Malformed));
}

#[test]
fn assignment_refuses_what_is_not_a_number() {
    let rows: Vec<Vec<u32>> = vec![vec![1.0f32.to_bits(), f32::NAN.to_bits()]];
    assert_eq!(assign_points(&rows, 2), Err(KMeansError::NotANumber));
    let rows: Vec<Vec<u32>> = vec![vec![1.0f32.to_bits(), (-f32::NAN).to_bits()]];
    assert_eq!(assign_points(&rows, 2), Err(KMeansError::NotANumber));
    let rows: Vec<Vec<u32>> = vec![vec![1.0f32.to_bits(), f32::INFINITY.to_bits()]];
    assert_eq!(assign_points(&rows, 2), Ok(vec![0]));
}

#[test]
fn nearest_distance_passes_over_what_is_not_a_number() {
    let fold = |row: &[f32]| row.iter().copied().fold(f32::INFINITY, f32::min).to_bits();
    let cases: Vec<Vec<f32>> = vec![
        vec![],
        vec![2.0],
        vec![2.0, 0.5, 9.0],
        vec![f32::NAN, 3.0],
        vec![3.0, f32::NAN],
        vec![f32::NAN],
        vec![f32::INFINITY, f32::NAN],
        vec![0.0, 1e-30],
    ];
    for row in cases {
        let patterns: Vec<u32> = row.iter().map(|d| d.to_bits()).collect();
        assert_eq!(nearest_distance(&patterns), fold(&row));
    }
    assert_eq!(nearest_distance(&Vec::new()), INFINITY_BITS);
    let rows = vec![vec![4.0f32.to_bits(), 1.0f32.to_bits()], vec![]];
    assert_eq!(nearest_distances(&rows), vec![1.0f32.to_bits(), INFINITY_BITS]);
}

#[test]
fn the_seed_is_the_first_point_that_reaches_the_threshold() {
    let sums: Vec<u32> = [0.0f32, 1.0, 1.0, 4.5].iter().map(|d| d.to_bits()).collect();
    assert_eq!(choose_by_threshold(&sums, 0.0f32.to_bits()), 0);
    assert_eq!(choose_by_threshold(&sums, 0.5f32.to_bits()), 1);
    assert_eq!(choose_by_threshold(&sums, 1.0f32.to_bits()), 1);
    assert_eq!(choose_by_threshold(&sums, 1.5f32.to_bits()), 3);
    assert_eq!(choose_by_threshold(&sums, 4.5f32.to_bits()), 3);
    assert_eq!(choose_by_threshold(&sums, 5.0f32.to_bits()), 0);
    assert_eq!(choose_by_threshold(&sums, f32::NAN.to_bits()), 0);
    assert_eq!(choose_by_threshold(&Vec::new(), 0), 0);
    let sums: Vec<u32> = [f32::NAN, 2.0].iter().map(|d| d.to_bits()).collect();
    assert_eq!(choose_by_threshold(&sums, 1.0f32.to_bits()), 1);
}

#[test]
fn all_points_on_the_seeds_choose_point_zero() {
    let sums: Vec<u32> = vec![0, 0, 0];
    assert_eq!(choose_by_threshold(&sums, 0), 0);
}

#[test]
fn convergence_is_below_one_millionth() {
    assert_eq!(EPSILON_BITS, 1e-6f32.to_bits());
    assert_eq!(INFINITY_BITS, f32::INFINITY.to_bits());
    assert!(centroids_converged(&Vec::new()));
    assert!(centroids_converged(&vec![0, 9.9e-7f32.to_bits()]));
    assert!(centroids_converged(&vec![EPSILON_BITS - 1]));
    assert!(!centroids_converged(&vec![EPSILON_BITS]));
    assert!(!centroids_converged(&vec![0, 1.0f32.to_bits()]));
    assert!(!centroids_converged(&vec![f32::NAN.to_bits()]));
    assert!(!centroids_converged(&vec![(-f32::NAN).to_bits()]));
}

#[test]
fn groups_keep_input_order_and_may_be_empty() {
    let assignment = vec![2usize, 0, 2, 2, 0];
    assert_eq!(group_indices(&assignment, 3), vec![vec![1, 4], vec![], vec![0, 2, 3]]);
    assert_eq!(group_indices(&Vec::new(), 2), vec![Vec::<usize>::new(), Vec::new()]);
    let points: Vec<Point> = (0..5u32).map(|i| [i, i + 10, i + 20, i + 30]).collect();
    let clusters = build_clusters(&points, &assignment, 3);
    assert_eq!(clusters[0], vec![points[1], points[4]]);
    assert!(clusters[1].is_empty());
    assert_eq!(clusters[2], vec![points[0], points[2], points[3]]);
}

#[test]
fn an_empty_group_gets_the_zero_point() {
    let points = vec![[1.0f32, 1.0, 1.0, 1.0], [1.0, 1.0, 1.0, 1.0]];
    let (session, request) = kmeans_pp(points.iter().map(bits).collect(), 2, 3).unwrap();
    assert!(matches!(request, Request::MeasureSeeds { seeds } if seeds.len() == 1));
    let (session, request) = session.step(Reply::Distances { rows: vec![vec![0], vec![0]] }).unwrap();
    let generator = match request {
        Request::DrawThreshold { weights, generator } => {
            assert_eq!(weights, vec![0, 0]);
            generator
        }
        other => panic!("unexpected request {:?}", other),
    };
    let (session, request) = session
        .step(Reply::Threshold { cumulative: vec![0, 0], threshold: 0, generator })
        .unwrap();
    match request {
        Request::Measure { centroids } => {
            assert_eq!(centroids, vec![bits(&points[0]), bits(&points[0])])
        }
        other => panic!("unexpected request {:?}", other),
    }
    let (_, request) =
        session.step(Reply::Distances { rows: vec![vec![0, 0], vec![0, 0]] }).unwrap();
    match request {
        Request::Average { groups, previous } => {
            assert_eq!(groups, vec![vec![0, 1], vec![]]);
            assert_eq!(previous.len(), 2);
            assert_eq!(mean(&points, &groups[1]), [0.0; 4]);
        }
        other => panic!("unexpected request {:?}", other),
    }
}

#[test]
fn a_reply_of_the_wrong_kind_is_refused() {
    let start = || kmeans_pp(two_pairs().iter().map(bits).collect(), 2, 5).unwrap().0;
    assert_eq!(
        start().step(Reply::Means { centroids: vec![], shifts: vec![] }).err(),
        Some(KMeansError::Malformed)
    );
    assert_eq!(
        start()
            .step(Reply::Threshold {
                cumulative: vec![0; 4],
                threshold: 0,
                generator: StdRng::seed_from_u64(0)
            })
            .err(),
        Some(KMeansError::Malformed)
    );
    assert_eq!(
        start().step(Reply::Distances { rows: vec![vec![0]; 3] }).err(),
        Some(KMeansError::Malformed)
    );
    assert_eq!(
        start().step(Reply::Distances { rows: vec![vec![0, 0]; 4] }).err(),
        Some(KMeansError::Malformed)
    );
    let (session, request) = start().step(Reply::Distances { rows: vec![vec![0]; 4] }).unwrap();
    let generator = match request {
        Request::DrawThreshold { generator, .. } => generator,
        other => panic!("unexpected request {:?}", other),
    };
    assert_eq!(
        session.step(Reply::Threshold { cumulative: vec![0; 3], threshold: 0, generator }).err(),
        Some(KMeansError::Malformed)
    );
    let (session, _) = kmeans_pp(two_pairs().iter().map(bits).collect(), 1, 5).unwrap();
    let (session, _) = session.step(Reply::Distances { rows: vec![vec![0]; 4] }).unwrap();
    assert_eq!(
        session.step(Reply::Means { centroids: vec![[0; 4]; 2], shifts: vec![0] }).err(),
        Some(KMeansError::Malformed)
    );
}

#[test]
fn a_distance_that_is_not_a_number_ends_the_run() {
    let (session, _) = kmeans_pp(two_pairs().iter().map(bits).collect(), 1, 0).unwrap();
    let rows = vec![vec![0], vec![f32::NAN.to_bits()], vec![0], vec![0]];
    assert_eq!(session.step(Reply::Distances { rows }).err(), Some(KMeansError::NotANumber));
}

#[test]
fn points_that_all_coincide_still_cluster() {
    let points = vec![[2.0f32, 2.0, 2.0, 1.0]; 5];
    for seed in 0..5u64 {
        let done = run(&points, 3, seed).unwrap();
        assert_eq!(done.result.clusters.len(), 3);
        assert_eq!(done.result.clusters[0].len(), 5);
        assert!(done.result.clusters[1].is_empty());
        assert!(done.result.clusters[2].is_empty());
        assert_eq!(numbers(&done.result.centroids[0]), [2.0, 2.0, 2.0, 1.0]);
        assert_eq!(numbers(&done.result.centroids[1]), [0.0; 4]);
        assert_eq!(numbers(&done.result.centroids[2]), [0.0; 4]);
    }
}

#[test]
fn a_run_on_points_that_are_not_finite_is_refused() {
    let mut points = two_pairs();
    assert!(are_finite(&points.iter().map(bits).collect()));
    points[2][1] = f32::INFINITY;
    assert!(!are_finite(&points.iter().map(bits).collect()));
    assert_eq!(run(&points, 2, 1).err(), Some(KMeansError::NotFinite));
    points[2][1] = f32::NAN;
    assert_eq!(run(&points, 2, 1).err(), Some(KMeansError::NotFinite));
    points[2][1] = -f32::NAN;
    assert_eq!(run(&points, 2, 1).err(), Some(KMeansError::NotFinite));
    points[2][1] = 0.0;
    points[0][3] = f32::NEG_INFINITY;
    assert_eq!(run(&points, 2, 1).err(), Some(KMeansError::NotFinite));
    assert_eq!(run(&points, 0, 1).err(), Some(KMeansError::ZeroClusters));
    assert_eq!(run(&points, 9, 1).err(), Some(KMeansError::TooManyClusters));
    points[0][3] = 1.0e6;
    assert!(run(&points, 4, 1).is_ok());
}
