//! A clustering run as a dialogue. The library decides; its caller computes.
//!
//! A run starts with `kmeans_pp`, which draws the first seed and hands out the
//! first request. The caller answers each request with a reply, and
//! `Session::step` turns the reply into the next request, until the request is
//! `Finished` and holds the result. Arithmetic on coordinates is the caller's
//! part: squared distances, running sums, thresholds and means come in as
//! replies. The random generator of the run travels with the request that
//! needs a draw from it and comes back with the reply.

use crate::kmeans::{
    all_finite, all_numbers, are_finite, assign_points, build_clusters, centroids_converged,
    check_parameters, choose_by_threshold, converged, group_indices, in_range, is_assignment,
    is_chosen, is_held, is_nearest, is_nearest_distance, is_well_shaped,
    lemma_assignment_is_unique, lemma_clusters_hold_every_point, lemma_nearest_distance_is_unique,
    lemma_seed_is_unique, lemma_single_cluster_holds_all, members, nearest_distances,
    parameter_error, points_at, row_of_numbers, total_len, well_shaped, KMeansError, KMeansResult,
    Point,
};
use crate::random::{draw_below, seeded};
use rand::rngs::StdRng;
use vstd::prelude::*;

verus! {

/// What a session waits for.
#[derive(Debug, Clone, Copy, PartialEq, Eq, Structural)]
pub enum Stage {
    /// The squared distances of the points to the seeds chosen so far.
    SeedDistances,
    /// The running sums of the nearest distances, and a threshold.
    SeedThreshold,
    /// The squared distances of the points to the centroids.
    Assign,
    /// The means of the groups.
    Update,
    /// The squared distances of the points to the settled centroids.
    Final,
    /// Nothing: the result was handed out.
    Done,
}

/// What the caller is asked to compute next.
#[derive(Debug)]
pub enum Request {
    /// For every point, in input order, the squared distance to each of the
    /// points at `seeds`, in the order of `seeds`.
    MeasureSeeds { seeds: Vec<usize> },
    /// The running sums of `weights`, and a threshold drawn from `generator`
    /// between zero and their total, ends included.
    DrawThreshold { weights: Vec<u32>, generator: StdRng },
    /// For every point, in input order, the squared distance to each of
    /// `centroids`, in their order.
    Measure { centroids: Vec<Point> },
    /// For every group the mean of the points at its indices, the zero point
    /// for a group without indices; and for every group the squared distance
    /// between its entry in `previous` and that mean.
    Average { groups: Vec<Vec<usize>>, previous: Vec<Point> },
    /// The run is over.
    Finished { result: KMeansResult },
}

/// What the caller computed.
#[derive(Debug)]
pub enum Reply {
    /// Answers `MeasureSeeds` and `Measure`: one row for every point.
    Distances { rows: Vec<Vec<u32>> },
    /// Answers `DrawThreshold`, and hands the generator back.
    Threshold { cumulative: Vec<u32>, threshold: u32, generator: StdRng },
    /// Answers `Average`.
    Means { centroids: Vec<Point>, shifts: Vec<u32> },
}

/// A clustering run between two requests.
#[derive(Debug)]
pub struct Session {
    points: Vec<Point>,
    k: usize,
    stage: Stage,
    seeds: Vec<usize>,
    centroids: Vec<Point>,
    generator: Option<StdRng>,
}

/// `groups` holds, for each of `k` clusters, the indices of the points that
/// `a` assigns to it, in rising order.
pub open spec fn are_groups_of(groups: Seq<Vec<usize>>, a: Seq<usize>, k: usize) -> bool {
    &&& groups.len() == k
    &&& forall|c: int| 0 <= c < groups.len() ==> (#[trigger] groups[c])@ == members(a, c as usize)
}

/// `clusters` holds, for each of `k` clusters, the points that `a` assigns to
/// it, in input order.
pub open spec fn are_clusters_of(
    clusters: Seq<Vec<Point>>,
    points: Seq<Point>,
    a: Seq<usize>,
    k: usize,
) -> bool {
    &&& clusters.len() == k
    &&& forall|c: int|
        0 <= c < clusters.len() ==> (#[trigger] clusters[c])@ == points_at(
            points,
            members(a, c as usize),
        )
}

/// Two tables hold the same numbers.
pub open spec fn same_rows(a: Seq<Vec<u32>>, b: Seq<Vec<u32>>) -> bool {
    &&& a.len() == b.len()
    &&& forall|i: int| 0 <= i < a.len() ==> (#[trigger] a[i])@ == b[i]@
}

/// Two lists of groups hold the same indices.
pub open spec fn same_groups(a: Seq<Vec<usize>>, b: Seq<Vec<usize>>) -> bool {
    &&& a.len() == b.len()
    &&& forall|i: int| 0 <= i < a.len() ==> (#[trigger] a[i])@ == b[i]@
}

/// Two lists of clusters hold the same points.
pub open spec fn same_clusters(a: Seq<Vec<Point>>, b: Seq<Vec<Point>>) -> bool {
    &&& a.len() == b.len()
    &&& forall|i: int| 0 <= i < a.len() ==> (#[trigger] a[i])@ == b[i]@
}

impl Reply {
    /// Two replies say the same.
    pub open spec fn agrees(self, other: Reply) -> bool {
        match (self, other) {
            (Reply::Distances { rows: a }, Reply::Distances { rows: b }) => same_rows(a@, b@),
            (
                Reply::Threshold { cumulative: a, threshold: s, generator: _ },
                Reply::Threshold { cumulative: b, threshold: t, generator: _ },
            ) => a@ == b@ && s == t,
            (
                Reply::Means { centroids: a, shifts: s },
                Reply::Means { centroids: b, shifts: t },
            ) => a@ == b@ && s@ == t@,
            _ => false,
        }
    }
}

impl Request {
    /// Two requests ask for the same.
    pub open spec fn agrees(self, other: Request) -> bool {
        match (self, other) {
            (Request::MeasureSeeds { seeds: a }, Request::MeasureSeeds { seeds: b }) => a@ == b@,
            (
                Request::DrawThreshold { weights: a, generator: _ },
                Request::DrawThreshold { weights: b, generator: _ },
            ) => a@ == b@,
            (Request::Measure { centroids: a }, Request::Measure { centroids: b }) => a@ == b@,
            (
                Request::Average { groups: a, previous: p },
                Request::Average { groups: b, previous: q },
            ) => same_groups(a@, b@) && p@ == q@,
            (Request::Finished { result: a }, Request::Finished { result: b }) => same_clusters(
                a.clusters@,
                b.clusters@,
            ) && a.centroids@ == b.centroids@,
            _ => false,
        }
    }
}

fn copy_points(v: &Vec<Point>) -> (r: Vec<Point>)
    ensures
        r@ == v@,
{
    let mut r: Vec<Point> = Vec::new();
    let mut i: usize = 0;
    while i < v.len()
        invariant
            0 <= i <= v.len(),
            r@ == v@.take(i as int),
        decreases v.len() - i,
    {
        r.push(v[i]);
        proof {
            assert(v@.take(i + 1) =~= v@.take(i as int).push(v[i as int]));
        }
        i += 1;
    }
    proof {
        assert(v@.take(v.len() as int) =~= v@);
    }
    r
}

fn copy_indices(v: &Vec<usize>) -> (r: Vec<usize>)
    ensures
        r@ == v@,
{
    let mut r: Vec<usize> = Vec::new();
    let mut i: usize = 0;
    while i < v.len()
        invariant
            0 <= i <= v.len(),
            r@ == v@.take(i as int),
        decreases v.len() - i,
    {
        r.push(v[i]);
        proof {
            assert(v@.take(i + 1) =~= v@.take(i as int).push(v[i as int]));
        }
        i += 1;
    }
    proof {
        assert(v@.take(v.len() as int) =~= v@);
    }
    r
}

fn select_points(points: &Vec<Point>, indices: &Vec<usize>) -> (r: Vec<Point>)
    requires
        forall|i: int| 0 <= i < indices.len() ==> (#[trigger] indices[i]) < points.len(),
    ensures
        r@ == points_at(points@, indices@),
{
    let mut r: Vec<Point> = Vec::new();
    let mut i: usize = 0;
    while i < indices.len()
        invariant
            0 <= i <= indices.len(),
            forall|j: int| 0 <= j < indices.len() ==> (#[trigger] indices[j]) < points.len(),
            r.len() == i,
            forall|j: int| 0 <= j < i ==> #[trigger] r[j] == points[indices[j] as int],
        decreases indices.len() - i,
    {
        r.push(points[indices[i]]);
        i += 1;
    }
    proof {
        assert(r@ =~= points_at(points@, indices@));
    }
    r
}

impl Session {
    /// The points of the run.
    pub closed spec fn points(&self) -> Seq<Point> {
        self.points@
    }

    /// The number of clusters.
    pub closed spec fn k(&self) -> usize {
        self.k
    }

    /// What the session waits for.
    pub closed spec fn stage(&self) -> Stage {
        self.stage
    }

    /// The indices of the seeds chosen so far.
    pub closed spec fn seeds(&self) -> Seq<usize> {
        self.seeds@
    }

    /// The centroids as they stand.
    pub closed spec fn centroids(&self) -> Seq<Point> {
        self.centroids@
    }

    /// The session holds the generator of the run.
    pub closed spec fn holds_generator(&self) -> bool {
        self.generator is Some
    }

    /// The session is one that `kmeans_pp` and `step` can have made. Every
    /// session is.
    #[verifier::type_invariant]
    pub open spec fn wf(&self) -> bool {
        &&& 1 <= self.k() <= self.points().len()
        &&& match self.stage() {
            Stage::SeedDistances | Stage::SeedThreshold => {
                &&& 1 <= self.seeds().len() < self.k()
                &&& forall|i: int|
                    0 <= i < self.seeds().len() ==> (#[trigger] self.seeds()[i])
                        < self.points().len()
                &&& self.stage() == Stage::SeedDistances ==> self.holds_generator()
            },
            Stage::Assign | Stage::Update | Stage::Final => self.centroids().len() == self.k(),
            Stage::Done => true,
        }
    }

    /// Why `reply` is refused at this stage, if it is.
    pub open spec fn refusal(&self, reply: Reply) -> Option<KMeansError> {
        match (self.stage(), reply) {
            (Stage::SeedDistances, Reply::Distances { rows }) => if rows.len()
                == self.points().len() && well_shaped(rows@, self.seeds().len() as usize) {
                None
            } else {
                Some(KMeansError::Malformed)
            },
            (
                Stage::SeedThreshold,
                Reply::Threshold { cumulative, threshold, generator },
            ) => if cumulative.len() == self.points().len() {
                None
            } else {
                Some(KMeansError::Malformed)
            },
            (Stage::Assign, Reply::Distances { rows }) | (Stage::Final, Reply::Distances { rows }) => if rows.len()
                != self.points().len() || !well_shaped(rows@, self.k()) {
                Some(KMeansError::Malformed)
            } else if !all_numbers(rows@) {
                Some(KMeansError::NotANumber)
            } else {
                None
            },
            (Stage::Update, Reply::Means { centroids, shifts }) => if centroids.len() == self.k()
                && shifts.len() == self.k() {
                None
            } else {
                Some(KMeansError::Malformed)
            },
            _ => Some(KMeansError::Malformed),
        }
    }

    /// What an accepted `reply` leads to: the session `next` and the request
    /// `request`.
    pub open spec fn leads_to(&self, reply: Reply, next: Session, request: Request) -> bool {
        &&& next.wf()
        &&& next.points() == self.points()
        &&& next.k() == self.k()
        &&& match (self.stage(), reply) {
            (Stage::SeedDistances, Reply::Distances { rows }) => {
                &&& next.stage() == Stage::SeedThreshold
                &&& next.seeds() == self.seeds()
                &&& request matches Request::DrawThreshold { weights, generator }
                &&& weights.len() == rows.len()
                &&& forall|p: int|
                    0 <= p < weights.len() ==> is_nearest_distance(
                        rows[p]@,
                        #[trigger] weights[p],
                    )
            },
            (Stage::SeedThreshold, Reply::Threshold { cumulative, threshold, generator }) => {
                exists|i: usize|
                    is_chosen(cumulative@, threshold, i as int) && #[trigger] after_seed(
                        self.points(),
                        self.k(),
                        self.seeds().push(i),
                        next,
                        request,
                    )
            },
            (Stage::Assign, Reply::Distances { rows }) => {
                &&& next.stage() == Stage::Update
                &&& next.centroids() == self.centroids()
                &&& request matches Request::Average { groups, previous }
                &&& previous@ == self.centroids()
                &&& exists|a: Seq<usize>|
                    #[trigger] is_assignment(rows@, a) && are_groups_of(groups@, a, self.k())
            },
            (Stage::Update, Reply::Means { centroids, shifts }) => {
                &&& next.stage() == (if converged(shifts@) {
                    Stage::Final
                } else {
                    Stage::Assign
                })
                &&& next.centroids() == centroids@
                &&& request matches Request::Measure { centroids: asked }
                &&& asked@ == centroids@
            },
            (Stage::Final, Reply::Distances { rows }) => {
                &&& next.stage() == Stage::Done
                &&& request matches Request::Finished { result }
                &&& result.centroids@ == self.centroids()
                &&& exists|a: Seq<usize>|
                    #[trigger] is_assignment(rows@, a) && are_clusters_of(
                        result.clusters@,
                        self.points(),
                        a,
                        self.k(),
                    )
            },
            _ => false,
        }
    }

    /// Two sessions stand at the same place of the same run.
    pub open spec fn agrees(&self, other: &Session) -> bool {
        &&& self.points() == other.points()
        &&& self.k() == other.k()
        &&& self.stage() == other.stage()
        &&& match self.stage() {
            Stage::SeedDistances | Stage::SeedThreshold => self.seeds() == other.seeds(),
            Stage::Assign | Stage::Update | Stage::Final => self.centroids()
                == other.centroids(),
            Stage::Done => true,
        }
    }
}

/// With the points at `seeds` chosen as the first centroids, the run goes on
/// to Lloyd's iteration where there are `k` of them: the session `next` waits
/// for the first assignment, and `request` asks for the distances to them.
/// Where there are fewer, `next` waits for the distances to the seeds, and
/// `request` asks for those.
pub open spec fn after_seed(
    points: Seq<Point>,
    k: usize,
    seeds: Seq<usize>,
    next: Session,
    request: Request,
) -> bool {
    if seeds.len() == k {
        &&& next.stage() == Stage::Assign
        &&& next.centroids() == points_at(points, seeds)
        &&& request matches Request::Measure { centroids }
        &&& centroids@ == next.centroids()
    } else {
        &&& next.stage() == Stage::SeedDistances
        &&& next.seeds() == seeds
        &&& request matches Request::MeasureSeeds { seeds: asked }
        &&& asked@ == seeds
    }
}

fn next_after_seed(points: Vec<Point>, k: usize, seeds: Vec<usize>, generator: StdRng) -> (r: (
    Session,
    Request,
))
    requires
        1 <= seeds.len() <= k <= points.len(),
        forall|i: int| 0 <= i < seeds.len() ==> (#[trigger] seeds[i]) < points.len(),
    ensures
        r.0.wf(),
        r.0.points() == points@,
        r.0.k() == k,
        after_seed(points@, k, seeds@, r.0, r.1),
{
    if seeds.len() == k {
        let centroids = select_points(&points, &seeds);
        let asked = copy_points(&centroids);
        (
            Session { points, k, stage: Stage::Assign, seeds, centroids, generator: None },
            Request::Measure { centroids: asked },
        )
    } else {
        let asked = copy_indices(&seeds);
        (
            Session {
                points,
                k,
                stage: Stage::SeedDistances,
                seeds,
                centroids: Vec::new(),
                generator: Some(generator),
            },
            Request::MeasureSeeds { seeds: asked },
        )
    }
}

impl Session {
    /// Takes the reply to the request that is open and hands out the next
    /// request.
    ///
    /// A reply is refused, with the error that `refusal` names, where it is
    /// not of the kind that the stage waits for, where it has not the shape
    /// that was asked for, and where a squared distance to a centroid is not a
    /// number. Every other reply is accepted, and `leads_to` says what
    /// follows.
    pub fn step(self, reply: Reply) -> (r: Result<(Session, Request), KMeansError>)
        ensures
            match r {
                Ok((next, request)) => self.refusal(reply) is None && self.leads_to(
                    reply,
                    next,
                    request,
                ),
                Err(e) => self.refusal(reply) == Some(e),
            },
    {
        proof {
            use_type_invariant(&self);
        }
        let Session { points, k, stage, seeds, centroids, generator } = self;
        match (stage, reply) {
            (Stage::SeedDistances, Reply::Distances { rows }) => {
                if rows.len() != points.len() || !is_well_shaped(&rows, seeds.len()) {
                    return Err(KMeansError::Malformed);
                }
                let weights = nearest_distances(&rows);
                match generator {
                    Some(generator) => Ok(
                        (
                            Session {
                                points,
                                k,
                                stage: Stage::SeedThreshold,
                                seeds,
                                centroids,
                                generator: None,
                            },
                            Request::DrawThreshold { weights, generator },
                        ),
                    ),
                    None => Err(KMeansError::Malformed),
                }
            },
            (Stage::SeedThreshold, Reply::Threshold { cumulative, threshold, generator }) => {
                if cumulative.len() != points.len() {
                    return Err(KMeansError::Malformed);
                }
                let i = choose_by_threshold(&cumulative, threshold);
                let ghost before = seeds@;
                let mut seeds = seeds;
                seeds.push(i);
                let r = next_after_seed(points, k, seeds, generator);
                proof {
                    assert(after_seed(self.points(), self.k(), before.push(i), r.0, r.1));
                }
                Ok(r)
            },
            (Stage::Assign, Reply::Distances { rows }) => {
                if rows.len() != points.len() {
                    return Err(KMeansError::Malformed);
                }
                let a = assign_points(&rows, k)?;
                let groups = group_indices(&a, k);
                let previous = copy_points(&centroids);
                proof {
                    assert(is_assignment(rows@, a@) && are_groups_of(groups@, a@, k));
                }
                Ok(
                    (
                        Session { points, k, stage: Stage::Update, seeds, centroids, generator },
                        Request::Average { groups, previous },
                    ),
                )
            },
            (Stage::Update, Reply::Means { centroids: means, shifts }) => {
                if means.len() != k || shifts.len() != k {
                    return Err(KMeansError::Malformed);
                }
                let stage = if centroids_converged(&shifts) {
                    Stage::Final
                } else {
                    Stage::Assign
                };
                let asked = copy_points(&means);
                Ok(
                    (
                        Session { points, k, stage, seeds, centroids: means, generator },
                        Request::Measure { centroids: asked },
                    ),
                )
            },
            (Stage::Final, Reply::Distances { rows }) => {
                if rows.len() != points.len() {
                    return Err(KMeansError::Malformed);
                }
                let a = assign_points(&rows, k)?;
                let clusters = build_clusters(&points, &a, k);
                let settled = copy_points(&centroids);
                proof {
                    assert(is_assignment(rows@, a@) && are_clusters_of(
                        clusters@,
                        points@,
                        a@,
                        k,
                    ));
                }
                Ok(
                    (
                        Session { points, k, stage: Stage::Done, seeds, centroids, generator },
                        Request::Finished { result: KMeansResult { clusters, centroids: settled } },
                    ),
                )
            },
            _ => Err(KMeansError::Malformed),
        }
    }
}

/// Starts a clustering run of `points` into `k` clusters, with a random
/// generator made from `seed`.
///
/// The run is refused, before anything is computed, where `k` is zero, where
/// there are no points, where there are fewer points than clusters, and, with
/// parameters that pass, where a coordinate is infinite or not a number.
/// Every other run starts: one of the points is drawn as the first seed, and
/// the request asks for what the next step needs.
pub fn kmeans_pp(points: Vec<Point>, k: usize, seed: u64) -> (r: Result<
    (Session, Request),
    KMeansError,
>)
    ensures
        r is Ok <==> 1 <= k <= points.len() && all_finite(points@),
        match r {
            Ok((session, request)) => {
                &&& session.wf()
                &&& session.points() == points@
                &&& session.k() == k
                &&& exists|i: usize|
                    i < points.len() && #[trigger] after_seed(
                        points@,
                        k,
                        seq![i],
                        session,
                        request,
                    )
            },
            Err(e) => e == (match parameter_error(points.len(), k) {
                Some(fault) => fault,
                None => KMeansError::NotFinite,
            }),
        },
{
    match check_parameters(points.len(), k) {
        Err(e) => Err(e),
        Ok(_) => {
            if !are_finite(&points) {
                return Err(KMeansError::NotFinite);
            }
            let mut generator = seeded(seed);
            let i = draw_below(&mut generator, points.len());
            let mut seeds: Vec<usize> = Vec::new();
            seeds.push(i);
            proof {
                assert(seeds@ =~= seq![i]);
            }
            let r = next_after_seed(points, k, seeds, generator);
            proof {
                assert(after_seed(points@, k, seq![i], r.0, r.1));
            }
            Ok(r)
        },
    }
}

/// Determinism of a run: from the same place of the same run, replies that
/// say the same are refused alike, and where they are accepted they lead to
/// the same place and to requests that ask for the same. So two runs on the
/// same points whose arithmetic and random draws give the same replies ask
/// the same requests throughout and end with the same clusters and
/// centroids.
pub proof fn lemma_step_is_deterministic(
    first: Session,
    reply: Reply,
    next: Session,
    request: Request,
    second: Session,
    other_reply: Reply,
    other_next: Session,
    other_request: Request,
)
    requires
        first.agrees(&second),
        reply.agrees(other_reply),
        first.leads_to(reply, next, request),
        second.leads_to(other_reply, other_next, other_request),
    ensures
        first.refusal(reply) == second.refusal(other_reply),
        next.agrees(&other_next),
        request.agrees(other_request),
{
    match (first.stage(), reply, other_reply) {
        (Stage::SeedDistances, Reply::Distances { rows }, Reply::Distances { rows: others }) => {
            lemma_same_rows_same_shape(rows@, others@, first.seeds().len() as usize);
            let weights = request->weights;
            let other_weights = other_request->weights;
            assert forall|p: int| 0 <= p < weights.len() implies weights[p] == other_weights[p] by {
                assert(rows@[p]@ == others@[p]@);
                lemma_nearest_distance_is_unique(rows@[p]@, weights[p], other_weights[p]);
            }
            assert(weights@ =~= other_weights@);
        },
        (
            Stage::SeedThreshold,
            Reply::Threshold { cumulative, threshold, generator },
            Reply::Threshold { cumulative: others, threshold: other, generator: other_generator },
        ) => {
            let i = choose|i: usize|
                is_chosen(cumulative@, threshold, i as int) && #[trigger] after_seed(
                    first.points(),
                    first.k(),
                    first.seeds().push(i),
                    next,
                    request,
                );
            let j = choose|j: usize|
                is_chosen(others@, other, j as int) && #[trigger] after_seed(
                    second.points(),
                    second.k(),
                    second.seeds().push(j),
                    other_next,
                    other_request,
                );
            lemma_seed_is_unique(cumulative@, threshold, i as int, j as int);
        },
        (Stage::Assign, Reply::Distances { rows }, Reply::Distances { rows: others }) => {
            lemma_same_rows_same_shape(rows@, others@, first.k());
            let groups = request->groups;
            let other_groups = other_request->groups;
            let a = choose|a: Seq<usize>|
                #[trigger] is_assignment(rows@, a) && are_groups_of(groups@, a, first.k());
            let b = choose|b: Seq<usize>|
                #[trigger] is_assignment(others@, b) && are_groups_of(
                    other_groups@,
                    b,
                    second.k(),
                );
            lemma_same_rows_same_assignment(rows@, others@, a, b);
        },
        (Stage::Final, Reply::Distances { rows }, Reply::Distances { rows: others }) => {
            lemma_same_rows_same_shape(rows@, others@, first.k());
            let result = request->result;
            let other_result = other_request->result;
            let a = choose|a: Seq<usize>|
                #[trigger] is_assignment(rows@, a) && are_clusters_of(
                    result.clusters@,
                    first.points(),
                    a,
                    first.k(),
                );
            let b = choose|b: Seq<usize>|
                #[trigger] is_assignment(others@, b) && are_clusters_of(
                    other_result.clusters@,
                    second.points(),
                    b,
                    second.k(),
                );
            lemma_same_rows_same_assignment(rows@, others@, a, b);
        },
        _ => {},
    }
}

proof fn lemma_same_rows_same_shape(rows: Seq<Vec<u32>>, others: Seq<Vec<u32>>, k: usize)
    requires
        same_rows(rows, others),
    ensures
        well_shaped(rows, k) == well_shaped(others, k),
        all_numbers(rows) == all_numbers(others),
{
    if well_shaped(rows, k) {
        assert forall|p: int| 0 <= p < others.len() implies (#[trigger] others[p]).len() == k by {
            assert(rows[p]@ == others[p]@);
        }
    }
    if well_shaped(others, k) {
        assert forall|p: int| 0 <= p < rows.len() implies (#[trigger] rows[p]).len() == k by {
            assert(rows[p]@ == others[p]@);
        }
    }
    if all_numbers(rows) {
        assert forall|p: int| 0 <= p < others.len() implies row_of_numbers(
            (#[trigger] others[p])@,
        ) by {
            assert(rows[p]@ == others[p]@);
        }
    }
    if all_numbers(others) {
        assert forall|p: int| 0 <= p < rows.len() implies row_of_numbers((#[trigger] rows[p])@) by {
            assert(rows[p]@ == others[p]@);
        }
    }
}

proof fn lemma_same_rows_same_assignment(
    rows: Seq<Vec<u32>>,
    others: Seq<Vec<u32>>,
    a: Seq<usize>,
    b: Seq<usize>,
)
    requires
        same_rows(rows, others),
        is_assignment(rows, a),
        is_assignment(others, b),
    ensures
        a == b,
{
    assert forall|p: int| 0 <= p < b.len() implies is_nearest(rows[p]@, #[trigger] b[p] as int) by {
        assert(rows[p]@ == others[p]@);
    }
    lemma_assignment_is_unique(rows, a, b);
}

/// An assignment of well-shaped distances assigns every point to one of the
/// `k` clusters.
proof fn lemma_assignment_is_in_range(rows: Seq<Vec<u32>>, a: Seq<usize>, k: usize)
    requires
        well_shaped(rows, k),
        is_assignment(rows, a),
    ensures
        in_range(a, k),
{
    assert forall|p: int| 0 <= p < a.len() implies (#[trigger] a[p]) < k by {
        assert(is_nearest(rows[p]@, a[p] as int));
        assert(rows[p].len() == k);
    }
}

/// Completeness of a run: the clusters of the result hold, taken together, as
/// many points as the run was started on, and every one of those points
/// stands in the cluster that the last assignment gave it, and so in one
/// cluster only.
pub proof fn lemma_result_is_complete(
    session: Session,
    reply: Reply,
    next: Session,
    request: Request,
)
    requires
        session.wf(),
        session.stage() == Stage::Final,
        session.refusal(reply) is None,
        session.leads_to(reply, next, request),
    ensures
        request is Finished,
        total_len(request->result.clusters@, session.k() as int) == session.points().len(),
        exists|a: Seq<usize>|
            #![trigger is_assignment(reply->rows@, a)]
            {
                &&& is_assignment(reply->rows@, a)
                &&& in_range(a, session.k())
                &&& forall|p: int|
                    0 <= p < session.points().len() ==> #[trigger] is_held(
                        session.points(),
                        a,
                        request->result.clusters@,
                        p,
                    )
            },
{
    let rows = reply->rows;
    let clusters = request->result.clusters@;
    let a = choose|a: Seq<usize>|
        #[trigger] is_assignment(rows@, a) && are_clusters_of(
            clusters,
            session.points(),
            a,
            session.k(),
        );
    lemma_assignment_is_in_range(rows@, a, session.k());
    lemma_clusters_hold_every_point(session.points(), a, clusters);
}

/// A run with one cluster keeps all the points together: every assignment
/// asks for the mean of all the points, and the result's one cluster holds
/// the points as they came in.
pub proof fn lemma_one_cluster_holds_all_points(
    session: Session,
    reply: Reply,
    next: Session,
    request: Request,
)
    requires
        session.wf(),
        session.k() == 1,
        session.stage() == Stage::Assign || session.stage() == Stage::Final,
        session.refusal(reply) is None,
        session.leads_to(reply, next, request),
    ensures
        session.stage() == Stage::Assign ==> request is Average && request->groups.len() == 1
            && request->groups[0]@ == Seq::new(session.points().len(), |i: int| i as usize),
        session.stage() == Stage::Final ==> request is Finished && request->result.clusters.len()
            == 1 && request->result.clusters[0]@ == session.points(),
{
    let rows = reply->rows;
    let n = session.points().len();
    if session.stage() == Stage::Assign {
        let groups = request->groups;
        let a = choose|a: Seq<usize>|
            #[trigger] is_assignment(rows@, a) && are_groups_of(groups@, a, session.k());
        lemma_single_cluster_holds_all(rows@, a);
    } else {
        let clusters = request->result.clusters;
        let a = choose|a: Seq<usize>|
            #[trigger] is_assignment(rows@, a) && are_clusters_of(
                clusters@,
                session.points(),
                a,
                session.k(),
            );
        lemma_single_cluster_holds_all(rows@, a);
        assert(clusters[0]@ == points_at(session.points(), members(a, 0)));
        assert(clusters[0]@ =~= session.points());
    }
}

} // verus!
