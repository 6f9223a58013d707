//! The decisions of k-means++ clustering over four-dimensional points.
//!
//! The library never does arithmetic on coordinates. A coordinate is carried as
//! the bit pattern of a single-precision number, and a squared distance or a
//! running sum of squared distances is read as such a pattern too. Squared
//! distances are never negative, and on the patterns of non-negative numbers
//! (positive infinity included) the unsigned order is the numeric order. Every
//! other pattern is above that of positive infinity and counts as not a number.

use crate::single::{finite, is_finite, is_less, is_nan, is_negative};
use vstd::prelude::*;

verus! {

/// A point: the bit patterns of its four coordinates.
pub type Point = [u32; 4];

/// The bit pattern of positive infinity, the largest pattern that is a number.
pub const INFINITY_BITS: u32 = 0x7F80_0000;

/// The bit pattern of the convergence bound, one millionth.
pub const EPSILON_BITS: u32 = 0x3586_37BD;

/// Why a clustering run was refused or could not go on.
#[derive(Debug, Clone, Copy, PartialEq, Eq, Structural)]
pub enum KMeansError {
    /// The number of clusters asked for is zero.
    ZeroClusters,
    /// There are no points.
    NoPoints,
    /// More clusters were asked for than there are points.
    TooManyClusters,
    /// A coordinate of a point is infinite or not a number.
    NotFinite,
    /// A squared distance is not a number.
    NotANumber,
    /// The values handed in do not have the shape that was asked for.
    Malformed,
}

/// What the result of a clustering run holds.
#[derive(Debug, Clone)]
pub struct KMeansResult {
    /// `clusters[i]` holds the points of the i-th cluster, in input order.
    pub clusters: Vec<Vec<Point>>,
    /// `centroids[i]` is the centre of the i-th cluster.
    pub centroids: Vec<Point>,
}

/// A pattern that stands for a non-negative number.
pub open spec fn is_number(bits: u32) -> bool {
    bits <= INFINITY_BITS
}

/// The patterns that count as numbers here are those of the numbers that are
/// not negative, and among them the order of the patterns is the order of the
/// numbers.
pub proof fn lemma_distances_compare_as_numbers(a: u32, b: u32)
    ensures
        is_number(a) <==> !is_negative(a) && !is_nan(a),
        is_number(a) && is_number(b) ==> (a < b <==> is_less(a, b)),
{
}

/// Every coordinate of every point is a number that is not infinite.
pub open spec fn all_finite(points: Seq<Point>) -> bool {
    forall|p: int, d: int|
        0 <= p < points.len() && 0 <= d < 4 ==> is_finite(#[trigger] points[p][d])
}

/// Whether every coordinate of every point is a number that is not infinite.
pub fn are_finite(points: &Vec<Point>) -> (b: bool)
    ensures
        b == all_finite(points@),
{
    let mut p: usize = 0;
    while p < points.len()
        invariant
            0 <= p <= points.len(),
            forall|i: int, d: int| 0 <= i < p && 0 <= d < 4 ==> is_finite(#[trigger] points[i][d]),
        decreases points.len() - p,
    {
        let point = &points[p];
        if !(finite(point[0]) && finite(point[1]) && finite(point[2]) && finite(point[3])) {
            return false;
        }
        p += 1;
    }
    true
}

/// The fault in the parameters of a run, if there is one.
pub open spec fn parameter_error(n_points: usize, k: usize) -> Option<KMeansError> {
    if k == 0 {
        Some(KMeansError::ZeroClusters)
    } else if n_points == 0 {
        Some(KMeansError::NoPoints)
    } else if k > n_points {
        Some(KMeansError::TooManyClusters)
    } else {
        None
    }
}

/// Accepts exactly the runs with at least one cluster and at least as many
/// points as clusters; names the first fault otherwise.
pub fn check_parameters(n_points: usize, k: usize) -> (r: Result<(), KMeansError>)
    ensures
        r is Ok <==> 1 <= k <= n_points,
        r is Ok <==> parameter_error(n_points, k) is None,
        r is Err ==> parameter_error(n_points, k) == Some(r->Err_0),
{
    if k == 0 {
        Err(KMeansError::ZeroClusters)
    } else if n_points == 0 {
        Err(KMeansError::NoPoints)
    } else if k > n_points {
        Err(KMeansError::TooManyClusters)
    } else {
        Ok(())
    }
}

/// `c` is the first index at which `row` is least.
pub open spec fn is_nearest(row: Seq<u32>, c: int) -> bool {
    &&& 0 <= c < row.len()
    &&& forall|j: int| 0 <= j < row.len() ==> row[c] <= #[trigger] row[j]
    &&& forall|j: int| 0 <= j < c ==> row[c] < #[trigger] row[j]
}

/// The index of the least squared distance in `row`; of equal ones, the first.
pub fn nearest_centroid(row: &Vec<u32>) -> (c: usize)
    requires
        row.len() > 0,
    ensures
        is_nearest(row@, c as int),
{
    let mut best: usize = 0;
    let mut j: usize = 1;
    while j < row.len()
        invariant
            1 <= j <= row.len(),
            0 <= best < j,
            forall|i: int| 0 <= i < j ==> row[best as int] <= #[trigger] row[i],
            forall|i: int| 0 <= i < best ==> row[best as int] < #[trigger] row[i],
        decreases row.len() - j,
    {
        if row[j] < row[best] {
            best = j;
        }
        j += 1;
    }
    best
}

/// Every row has `k` entries, and `k` is not zero.
pub open spec fn well_shaped(distances: Seq<Vec<u32>>, k: usize) -> bool {
    k > 0 && forall|p: int| 0 <= p < distances.len() ==> (#[trigger] distances[p]).len() == k
}

/// Every entry of `row` is a number.
pub open spec fn row_of_numbers(row: Seq<u32>) -> bool {
    forall|j: int| 0 <= j < row.len() ==> is_number(#[trigger] row[j])
}

/// Every entry of every row is a number.
pub open spec fn all_numbers(distances: Seq<Vec<u32>>) -> bool {
    forall|p: int| 0 <= p < distances.len() ==> row_of_numbers((#[trigger] distances[p])@)
}

/// Whether every entry of `row` is a number.
pub fn is_row_of_numbers(row: &Vec<u32>) -> (b: bool)
    ensures
        b == row_of_numbers(row@),
{
    let mut j: usize = 0;
    while j < row.len()
        invariant
            0 <= j <= row.len(),
            forall|i: int| 0 <= i < j ==> is_number(#[trigger] row[i]),
        decreases row.len() - j,
    {
        if row[j] > INFINITY_BITS {
            return false;
        }
        j += 1;
    }
    true
}

/// Whether every row of `distances` has `k` entries and `k` is not zero.
pub fn is_well_shaped(distances: &Vec<Vec<u32>>, k: usize) -> (b: bool)
    ensures
        b == well_shaped(distances@, k),
{
    if k == 0 {
        return false;
    }
    let mut p: usize = 0;
    while p < distances.len()
        invariant
            0 <= p <= distances.len(),
            k > 0,
            forall|i: int| 0 <= i < p ==> (#[trigger] distances[i]).len() == k,
        decreases distances.len() - p,
    {
        if distances[p].len() != k {
            return false;
        }
        p += 1;
    }
    true
}

/// `a` assigns every point to its nearest centroid: `distances[p][c]` is the
/// squared distance from point `p` to centroid `c`.
pub open spec fn is_assignment(distances: Seq<Vec<u32>>, a: Seq<usize>) -> bool {
    &&& a.len() == distances.len()
    &&& forall|p: int| 0 <= p < a.len() ==> is_nearest(distances[p]@, #[trigger] a[p] as int)
}

/// Assigns every point to the centroid at the least squared distance, the
/// first of them where several are equally near.
///
/// Fails with `Malformed` exactly when `k` is zero or some row has not `k`
/// entries, and with `NotANumber` exactly when the shape is right and some
/// entry is not a number.
pub fn assign_points(distances: &Vec<Vec<u32>>, k: usize) -> (r: Result<Vec<usize>, KMeansError>)
    ensures
        r is Ok <==> well_shaped(distances@, k) && all_numbers(distances@),
        r is Ok ==> is_assignment(distances@, r->Ok_0@),
        r is Ok ==> forall|p: int| 0 <= p < distances.len() ==> (#[trigger] r->Ok_0@[p]) < k,
        r is Err ==> r->Err_0 == (if well_shaped(distances@, k) {
            KMeansError::NotANumber
        } else {
            KMeansError::Malformed
        }),
{
    if !is_well_shaped(distances, k) {
        return Err(KMeansError::Malformed);
    }
    let mut a: Vec<usize> = Vec::new();
    let mut p: usize = 0;
    while p < distances.len()
        invariant
            0 <= p <= distances.len(),
            well_shaped(distances@, k),
            a.len() == p,
            forall|i: int| 0 <= i < p ==> row_of_numbers((#[trigger] distances[i])@),
            forall|i: int| 0 <= i < p ==> is_nearest(distances[i]@, #[trigger] a[i] as int),
        decreases distances.len() - p,
    {
        if !is_row_of_numbers(&distances[p]) {
            return Err(KMeansError::NotANumber);
        }
        let c = nearest_centroid(&distances[p]);
        a.push(c);
        p += 1;
    }
    Ok(a)
}

/// `r` is the least of positive infinity and the entries of `row`. An entry
/// that is not a number is above positive infinity and so never the least.
pub open spec fn is_nearest_distance(row: Seq<u32>, r: u32) -> bool {
    &&& r <= INFINITY_BITS
    &&& forall|j: int| 0 <= j < row.len() ==> r <= #[trigger] row[j]
    &&& (r == INFINITY_BITS || exists|j: int| 0 <= j < row.len() && #[trigger] row[j] == r)
}

/// The squared distance from a point to the nearest of the centroids chosen so
/// far, given its squared distance to each of them: the least entry that is a
/// number, or positive infinity where there is none.
pub fn nearest_distance(row: &Vec<u32>) -> (r: u32)
    ensures
        is_nearest_distance(row@, r),
{
    let mut least: u32 = INFINITY_BITS;
    let mut j: usize = 0;
    while j < row.len()
        invariant
            0 <= j <= row.len(),
            least <= INFINITY_BITS,
            forall|i: int| 0 <= i < j ==> least <= #[trigger] row[i],
            least == INFINITY_BITS || exists|i: int| 0 <= i < j && #[trigger] row[i] == least,
        decreases row.len() - j,
    {
        if row[j] < least {
            least = row[j];
        }
        j += 1;
    }
    least
}

/// For every point, its squared distance to the nearest chosen centroid.
pub fn nearest_distances(distances: &Vec<Vec<u32>>) -> (weights: Vec<u32>)
    ensures
        weights.len() == distances.len(),
        forall|p: int|
            0 <= p < weights.len() ==> is_nearest_distance(distances[p]@, #[trigger] weights[p]),
{
    let mut weights: Vec<u32> = Vec::new();
    let mut p: usize = 0;
    while p < distances.len()
        invariant
            0 <= p <= distances.len(),
            weights.len() == p,
            forall|i: int|
                0 <= i < p ==> is_nearest_distance(distances[i]@, #[trigger] weights[i]),
        decreases distances.len() - p,
    {
        let w = nearest_distance(&distances[p]);
        weights.push(w);
        p += 1;
    }
    weights
}

/// The running sum `sum` has come up to `threshold`. Where either is not a
/// number it has not.
pub open spec fn reaches(sum: u32, threshold: u32) -> bool {
    is_number(sum) && is_number(threshold) && sum >= threshold
}

/// `i` is the first index whose running sum reaches `threshold`, or zero where
/// none does.
pub open spec fn is_chosen(cumulative: Seq<u32>, threshold: u32, i: int) -> bool {
    if exists|j: int| 0 <= j < cumulative.len() && reaches(#[trigger] cumulative[j], threshold) {
        &&& 0 <= i < cumulative.len()
        &&& reaches(cumulative[i], threshold)
        &&& forall|j: int| 0 <= j < i ==> !reaches(#[trigger] cumulative[j], threshold)
    } else {
        i == 0
    }
}

/// Picks the next seed: `cumulative[i]` is the sum of the squared distances of
/// the points up to and including `i` to their nearest chosen centroid, and
/// `threshold` was drawn between zero and the last of them. The seed is the
/// first point whose running sum reaches the threshold, and point zero where
/// none does.
pub fn choose_by_threshold(cumulative: &Vec<u32>, threshold: u32) -> (i: usize)
    ensures
        is_chosen(cumulative@, threshold, i as int),
        cumulative.len() > 0 ==> i < cumulative.len(),
{
    if threshold > INFINITY_BITS {
        return 0;
    }
    let mut j: usize = 0;
    while j < cumulative.len()
        invariant
            0 <= j <= cumulative.len(),
            is_number(threshold),
            forall|i: int| 0 <= i < j ==> !reaches(#[trigger] cumulative[i], threshold),
        decreases cumulative.len() - j,
    {
        if cumulative[j] <= INFINITY_BITS && cumulative[j] >= threshold {
            return j;
        }
        j += 1;
    }
    0
}

/// Every centroid moved by less than the convergence bound.
pub open spec fn converged(shifts: Seq<u32>) -> bool {
    forall|i: int| 0 <= i < shifts.len() ==> #[trigger] shifts[i] < EPSILON_BITS
}

/// Whether the centroids have settled: `shifts[i]` is the squared distance
/// between the old and the new i-th centroid, and each must be below one
/// millionth. A shift that is not a number is not below it.
pub fn centroids_converged(shifts: &Vec<u32>) -> (b: bool)
    ensures
        b == converged(shifts@),
{
    let mut i: usize = 0;
    while i < shifts.len()
        invariant
            0 <= i <= shifts.len(),
            forall|j: int| 0 <= j < i ==> #[trigger] shifts[j] < EPSILON_BITS,
        decreases shifts.len() - i,
    {
        if shifts[i] >= EPSILON_BITS {
            return false;
        }
        i += 1;
    }
    true
}

/// The indices of the points assigned to cluster `c`, in rising order.
pub open spec fn members(a: Seq<usize>, c: usize) -> Seq<usize>
    decreases a.len(),
{
    if a.len() == 0 {
        Seq::empty()
    } else if a.last() == c {
        members(a.drop_last(), c).push((a.len() - 1) as usize)
    } else {
        members(a.drop_last(), c)
    }
}

/// Every point is assigned to one of `k` clusters.
pub open spec fn in_range(a: Seq<usize>, k: usize) -> bool {
    forall|i: int| 0 <= i < a.len() ==> (#[trigger] a[i]) < k
}

/// The number of points in the clusters below `k`, taken together.
pub open spec fn total_members(a: Seq<usize>, k: usize) -> nat
    decreases k,
{
    if k == 0 {
        0
    } else {
        total_members(a, (k - 1) as usize) + members(a, (k - 1) as usize).len()
    }
}

/// The points at the indices `m`.
pub open spec fn points_at(points: Seq<Point>, m: Seq<usize>) -> Seq<Point> {
    Seq::new(m.len(), |i: int| points[m[i] as int])
}

/// The groups of an assignment: for every cluster the indices of its points,
/// in rising order.
pub fn group_indices(a: &Vec<usize>, k: usize) -> (groups: Vec<Vec<usize>>)
    requires
        in_range(a@, k),
    ensures
        groups.len() == k,
        forall|c: int| 0 <= c < k ==> (#[trigger] groups[c])@ == members(a@, c as usize),
{
    let mut groups: Vec<Vec<usize>> = Vec::new();
    let mut c: usize = 0;
    while c < k
        invariant
            0 <= c <= k,
            groups.len() == c,
            forall|d: int| 0 <= d < c ==> (#[trigger] groups[d])@ == Seq::<usize>::empty(),
        decreases k - c,
    {
        groups.push(Vec::new());
        c += 1;
    }
    let mut i: usize = 0;
    while i < a.len()
        invariant
            0 <= i <= a.len(),
            in_range(a@, k),
            groups.len() == k,
            forall|d: int|
                0 <= d < k ==> (#[trigger] groups[d])@ == members(a@.take(i as int), d as usize),
        decreases a.len() - i,
    {
        let c = a[i];
        proof {
            assert(a@.take(i + 1).drop_last() == a@.take(i as int));
        }
        groups[c].push(i);
        i += 1;
    }
    proof {
        assert(a@.take(a.len() as int) == a@);
    }
    groups
}

/// The clusters of an assignment: for every cluster its points, in input
/// order.
pub fn build_clusters(points: &Vec<Point>, a: &Vec<usize>, k: usize) -> (clusters: Vec<Vec<Point>>)
    requires
        a.len() == points.len(),
        in_range(a@, k),
    ensures
        clusters.len() == k,
        forall|c: int|
            0 <= c < k ==> (#[trigger] clusters[c])@ == points_at(points@, members(a@, c as usize)),
{
    let groups = group_indices(a, k);
    let mut clusters: Vec<Vec<Point>> = Vec::new();
    let mut c: usize = 0;
    while c < k
        invariant
            0 <= c <= k,
            groups.len() == k,
            a.len() == points.len(),
            forall|d: int| 0 <= d < k ==> (#[trigger] groups[d])@ == members(a@, d as usize),
            clusters.len() == c,
            forall|d: int|
                0 <= d < c ==> (#[trigger] clusters[d])@ == points_at(
                    points@,
                    members(a@, d as usize),
                ),
        decreases k - c,
    {
        let group = &groups[c];
        let mut cluster: Vec<Point> = Vec::new();
        let mut i: usize = 0;
        proof {
            lemma_members_are_indices(a@, c);
        }
        while i < group.len()
            invariant
                0 <= i <= group.len(),
                a.len() == points.len(),
                group@ == members(a@, c),
                forall|j: int| 0 <= j < group.len() ==> (#[trigger] group[j]) < a.len(),
                cluster.len() == i,
                forall|j: int| 0 <= j < i ==> #[trigger] cluster[j] == points[group[j] as int],
            decreases group.len() - i,
        {
            cluster.push(points[group[i]]);
            i += 1;
        }
        proof {
            assert(cluster@ =~= points_at(points@, members(a@, c)));
        }
        clusters.push(cluster);
        c += 1;
    }
    clusters
}

/// The members of a cluster are indices of points assigned to it, each once
/// and in rising order, and no such index is missing.
pub proof fn lemma_members_are_indices(a: Seq<usize>, c: usize)
    requires
        a.len() <= usize::MAX,
    ensures
        forall|j: int|
            0 <= j < members(a, c).len() ==> (#[trigger] members(a, c)[j]) < a.len() && a[members(
                a,
                c,
            )[j] as int] == c,
        forall|i: int, j: int|
            0 <= i < j < members(a, c).len() ==> (#[trigger] members(a, c)[i]) < (
            #[trigger] members(a, c)[j]),
        forall|p: int|
            0 <= p < a.len() ==> (a[p] == c <==> members(a, c).contains(p as usize)),
    decreases a.len(),
{
    if a.len() > 0 {
        let front = a.drop_last();
        lemma_members_are_indices(front, c);
        let m = members(a, c);
        let mf = members(front, c);
        assert forall|p: int| 0 <= p < a.len() implies (a[p] == c <==> m.contains(p as usize)) by {
            if a.last() == c {
                if p == a.len() - 1 {
                    assert(m[m.len() - 1] == p as usize);
                } else if a[p] == c {
                    assert(front[p] == c);
                    let j = choose|j: int| 0 <= j < mf.len() && mf[j] == p as usize;
                    assert(m[j] == p as usize);
                } else if m.contains(p as usize) {
                    let j = choose|j: int| 0 <= j < m.len() && m[j] == p as usize;
                    assert(mf[j] == p as usize);
                    assert(front[mf[j] as int] == c);
                }
            } else if p < a.len() - 1 {
                assert(front[p] == a[p]);
            } else if m.contains(p as usize) {
                let j = choose|j: int| 0 <= j < mf.len() && mf[j] == p as usize;
                assert(mf[j] < front.len());
            }
        }
    }
}

proof fn lemma_total_members_step(a: Seq<usize>, k: usize)
    requires
        a.len() > 0,
    ensures
        total_members(a, k) == total_members(a.drop_last(), k) + (if a.last() < k {
            1nat
        } else {
            0nat
        }),
    decreases k,
{
    if k > 0 {
        lemma_total_members_step(a, (k - 1) as usize);
    }
}

/// Completeness: where every point is assigned to one of `k` clusters, the
/// clusters together hold as many members as there are points, a point is a
/// member of the cluster it is assigned to and of no other, and no cluster
/// holds a point twice.
pub proof fn lemma_clusters_partition_points(a: Seq<usize>, k: usize)
    requires
        a.len() <= usize::MAX,
        in_range(a, k),
    ensures
        total_members(a, k) == a.len(),
        forall|p: int, c: usize|
            0 <= p < a.len() ==> (#[trigger] members(a, c).contains(p as usize) <==> a[p] == c),
        forall|c: usize, i: int, j: int|
            0 <= i < j < members(a, c).len() ==> #[trigger] members(a, c)[i] != #[trigger] members(
                a,
                c,
            )[j],
    decreases a.len(),
{
    if a.len() == 0 {
        lemma_total_members_empty(a, k);
    } else {
        lemma_clusters_partition_points(a.drop_last(), k);
        lemma_total_members_step(a, k);
    }
    assert forall|p: int, c: usize| 0 <= p < a.len() implies (#[trigger] members(a, c).contains(
        p as usize,
    ) <==> a[p] == c) by {
        lemma_members_are_indices(a, c);
    }
    assert forall|c: usize, i: int, j: int| 0 <= i < j < members(a, c).len() implies #[trigger] members(
        a,
        c,
    )[i] != #[trigger] members(a, c)[j] by {
        lemma_members_are_indices(a, c);
    }
}

proof fn lemma_total_members_empty(a: Seq<usize>, k: usize)
    requires
        a.len() == 0,
    ensures
        total_members(a, k) == 0,
    decreases k,
{
    if k > 0 {
        lemma_total_members_empty(a, (k - 1) as usize);
    }
}

/// Determinism of the assignment: the squared distances leave no choice, so
/// two assignments of the same distances are the same assignment.
pub proof fn lemma_assignment_is_unique(distances: Seq<Vec<u32>>, a: Seq<usize>, b: Seq<usize>)
    requires
        is_assignment(distances, a),
        is_assignment(distances, b),
    ensures
        a == b,
{
    assert forall|p: int| 0 <= p < a.len() implies a[p] == b[p] by {
        let row = distances[p]@;
        assert(is_nearest(row, a[p] as int));
        assert(is_nearest(row, b[p] as int));
        if a[p] < b[p] {
            assert(row[b[p] as int] < row[a[p] as int]);
        } else if b[p] < a[p] {
            assert(row[a[p] as int] < row[b[p] as int]);
        }
    }
    assert(a =~= b);
}

/// Determinism of the seeding: the running sums and the threshold leave no
/// choice of the next seed.
pub proof fn lemma_seed_is_unique(cumulative: Seq<u32>, threshold: u32, i: int, j: int)
    requires
        is_chosen(cumulative, threshold, i),
        is_chosen(cumulative, threshold, j),
    ensures
        i == j,
{
    if i < j {
        assert(!reaches(cumulative[i], threshold));
    } else if j < i {
        assert(!reaches(cumulative[j], threshold));
    }
}

/// The squared distances of a point to the chosen centroids leave no choice
/// of its distance to the nearest of them.
pub proof fn lemma_nearest_distance_is_unique(row: Seq<u32>, r: u32, s: u32)
    requires
        is_nearest_distance(row, r),
        is_nearest_distance(row, s),
    ensures
        r == s,
{
}

/// With a single cluster every point is assigned to it, and its members are
/// all the points in input order.
pub proof fn lemma_single_cluster_holds_all(distances: Seq<Vec<u32>>, a: Seq<usize>)
    requires
        a.len() <= usize::MAX,
        well_shaped(distances, 1),
        is_assignment(distances, a),
    ensures
        in_range(a, 1),
        members(a, 0) == Seq::new(a.len(), |i: int| i as usize),
    decreases a.len(),
{
    assert forall|p: int| 0 <= p < a.len() implies (#[trigger] a[p]) < 1 by {
        assert(is_nearest(distances[p]@, a[p] as int));
    }
    if a.len() > 0 {
        let front = a.drop_last();
        let fewer = distances.drop_last();
        assert forall|p: int| 0 <= p < front.len() implies is_nearest(
            fewer[p]@,
            #[trigger] front[p] as int,
        ) by {
            assert(is_nearest(distances[p]@, a[p] as int));
        }
        lemma_single_cluster_holds_all(fewer, front);
    }
    assert(members(a, 0) =~= Seq::new(a.len(), |i: int| i as usize));
}

/// The number of points in the clusters below `k`, taken together.
pub open spec fn total_len(clusters: Seq<Vec<Point>>, k: int) -> int
    decreases k,
{
    if k <= 0 {
        0
    } else {
        total_len(clusters, k - 1) + clusters[k - 1].len()
    }
}

/// The point `p` stands in the cluster it was assigned to, at the place of
/// its index among the members of that cluster.
pub open spec fn is_held(points: Seq<Point>, a: Seq<usize>, clusters: Seq<Vec<Point>>, p: int) -> bool {
    exists|i: int|
        0 <= i < clusters[a[p] as int].len() && #[trigger] members(a, a[p])[i] == p
            && clusters[a[p] as int][i] == points[p]
}

/// Completeness of a result: the clusters of an assignment hold, taken
/// together, as many points as were assigned, and every point stands in the
/// cluster it was assigned to.
pub proof fn lemma_clusters_hold_every_point(
    points: Seq<Point>,
    a: Seq<usize>,
    clusters: Seq<Vec<Point>>,
)
    requires
        a.len() == points.len(),
        a.len() <= usize::MAX,
        in_range(a, clusters.len() as usize),
        clusters.len() <= usize::MAX,
        forall|c: int|
            0 <= c < clusters.len() ==> (#[trigger] clusters[c])@ == points_at(
                points,
                members(a, c as usize),
            ),
    ensures
        total_len(clusters, clusters.len() as int) == points.len(),
        forall|p: int| 0 <= p < points.len() ==> #[trigger] is_held(points, a, clusters, p),
{
    lemma_clusters_partition_points(a, clusters.len() as usize);
    lemma_total_len_is_total_members(points, a, clusters, clusters.len() as int);
    assert forall|p: int| 0 <= p < points.len() implies #[trigger] is_held(
        points,
        a,
        clusters,
        p,
    ) by {
        let m = members(a, a[p]);
        assert(m.contains(p as usize));
        let i = choose|i: int| 0 <= i < m.len() && m[i] == p as usize;
        assert(clusters[a[p] as int]@ == points_at(points, m));
        assert(clusters[a[p] as int][i] == points[p]);
    }
}

proof fn lemma_total_len_is_total_members(
    points: Seq<Point>,
    a: Seq<usize>,
    clusters: Seq<Vec<Point>>,
    k: int,
)
    requires
        0 <= k <= clusters.len() <= usize::MAX,
        forall|c: int|
            0 <= c < clusters.len() ==> (#[trigger] clusters[c])@ == points_at(
                points,
                members(a, c as usize),
            ),
    ensures
        total_len(clusters, k) == total_members(a, k as usize),
    decreases k,
{
    if k > 0 {
        lemma_total_len_is_total_members(points, a, clusters, k - 1);
        assert(clusters[k - 1]@ == points_at(points, members(a, (k - 1) as usize)));
    }
}

} // verus!
