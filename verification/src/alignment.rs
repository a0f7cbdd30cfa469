use vstd::prelude::*;

use crate::errors::PipelineError;

verus! {

/// Coordinates live in fixed-point pixel units (the caller picks the scale,
/// e.g. thousandths of a pixel).  Keeping every coordinate strictly inside
/// this bound guarantees that a squared distance between two points fits in
/// an `i64`/`u64` without overflow.
pub const COORD_LIMIT: i64 = 0x4000_0000;

/// A detected star centroid of one frame, as fixed-point pixel coordinates.
/// Its index inside its feature set is the identity that matches refer to.
#[derive(Clone, Copy, Debug, PartialEq, Eq, Structural)]
pub struct FeaturePoint {
    pub x: i64,
    pub y: i64,
}

/// A claimed pairing of one source feature with one target feature:
/// `query_idx` indexes the source set, `train_idx` the target set, and
/// `dist_sq` is the squared fixed-point pixel distance between the two.
#[derive(Clone, Copy, Debug, PartialEq, Eq, Structural)]
pub struct Match {
    pub query_idx: usize,
    pub train_idx: usize,
    pub dist_sq: u64,
}

pub open spec fn point_in_range(p: FeaturePoint) -> bool {
    &&& -COORD_LIMIT < p.x < COORD_LIMIT
    &&& -COORD_LIMIT < p.y < COORD_LIMIT
}

pub open spec fn points_in_range(s: Seq<FeaturePoint>) -> bool {
    forall|i: int| 0 <= i < s.len() ==> point_in_range(#[trigger] s[i])
}

/// Squared Euclidean distance between two feature points.
pub open spec fn sq_dist(a: FeaturePoint, b: FeaturePoint) -> int {
    (a.x - b.x) * (a.x - b.x) + (a.y - b.y) * (a.y - b.y)
}

/// Index of the point among the first `n` of `target` nearest to `p`;
/// ties go to the lowest index encountered first.
pub open spec fn nearest_upto(p: FeaturePoint, target: Seq<FeaturePoint>, n: int) -> int
    decreases n,
{
    if n <= 1 {
        0
    } else {
        let prev = nearest_upto(p, target, n - 1);
        if sq_dist(p, target[n - 1]) < sq_dist(p, target[prev]) {
            n - 1
        } else {
            prev
        }
    }
}

/// Index of the target point nearest to `p`, lowest index winning ties.
pub open spec fn nearest_index(p: FeaturePoint, target: Seq<FeaturePoint>) -> int {
    nearest_upto(p, target, target.len() as int)
}

/// The candidate correspondence of source point `i`: its nearest target
/// point, with the squared distance between the two.
pub open spec fn candidate_at(
    source: Seq<FeaturePoint>,
    target: Seq<FeaturePoint>,
    i: int,
) -> Match {
    Match {
        query_idx: i as usize,
        train_idx: nearest_index(source[i], target) as usize,
        dist_sq: sq_dist(source[i], target[nearest_index(source[i], target)]) as u64,
    }
}

/// One candidate per source point, in source index order.
pub open spec fn candidate_matches(
    source: Seq<FeaturePoint>,
    target: Seq<FeaturePoint>,
) -> Seq<Match> {
    Seq::new(source.len(), |i: int| candidate_at(source, target, i))
}

/// Does `m` claim a source or target index that an earlier accepted match
/// already claimed?
pub open spec fn conflicts(accepted: Seq<Match>, m: Match) -> bool {
    exists|j: int|
        0 <= j < accepted.len() && ((#[trigger] accepted[j]).query_idx == m.query_idx
            || accepted[j].train_idx == m.train_idx)
}

/// Single-pass greedy uniqueness filter over the first `n` candidates:
/// a candidate is accepted only if neither of its indices has been claimed
/// by an earlier accepted candidate.
pub open spec fn greedy_unique(cands: Seq<Match>, n: int) -> Seq<Match>
    decreases n,
{
    if n <= 0 {
        Seq::empty()
    } else {
        let prev = greedy_unique(cands, n - 1);
        if conflicts(prev, cands[n - 1]) {
            prev
        } else {
            prev.push(cands[n - 1])
        }
    }
}

/// Keeps, in order, the matches whose squared distance is below the squared
/// precision threshold.
pub open spec fn within_precision(ms: Seq<Match>, precision_sq: u64) -> Seq<Match>
    decreases ms.len(),
{
    if ms.len() == 0 {
        Seq::empty()
    } else {
        let prev = within_precision(ms.drop_last(), precision_sq);
        if ms.last().dist_sq < precision_sq {
            prev.push(ms.last())
        } else {
            prev
        }
    }
}

/// The full matching pass: nearest-neighbour candidates, greedy uniqueness,
/// then the precision filter.
pub open spec fn matched(
    source: Seq<FeaturePoint>,
    target: Seq<FeaturePoint>,
    precision_sq: u64,
) -> Seq<Match> {
    within_precision(
        greedy_unique(candidate_matches(source, target), source.len() as int),
        precision_sq,
    )
}

/// Squared distance in executable code, proven free of overflow for
/// in-range coordinates.
fn sq_dist_exec(a: FeaturePoint, b: FeaturePoint) -> (r: u64)
    requires
        point_in_range(a),
        point_in_range(b),
    ensures
        r == sq_dist(a, b),
{
    let dx: i64 = a.x - b.x;
    let dy: i64 = a.y - b.y;
    assert(dx * dx < 0x4000_0000_0000_0000 && dx * dx >= 0) by (nonlinear_arith)
        requires
            -0x8000_0000i64 < dx < 0x8000_0000i64,
    ;
    assert(dy * dy < 0x4000_0000_0000_0000 && dy * dy >= 0) by (nonlinear_arith)
        requires
            -0x8000_0000i64 < dy < 0x8000_0000i64,
    ;
    let dx2: i64 = dx * dx;
    let dy2: i64 = dy * dy;
    (dx2 + dy2) as u64
}

/// Finds the target point nearest to `p`: the index of the first point
/// attaining the minimal squared distance, and that distance.
fn find_nearest(p: FeaturePoint, target: &Vec<FeaturePoint>) -> (r: (usize, u64))
    requires
        target@.len() > 0,
        point_in_range(p),
        points_in_range(target@),
    ensures
        r.0 == nearest_index(p, target@),
        r.0 < target@.len(),
        r.1 == sq_dist(p, target@[nearest_index(p, target@)]),
{
    let mut lowest_idx: usize = 0;
    let mut lowest_dist: u64 = sq_dist_exec(p, target[0]);
    let mut i: usize = 1;
    while i < target.len()
        invariant
            1 <= i <= target@.len(),
            point_in_range(p),
            points_in_range(target@),
            lowest_idx == nearest_upto(p, target@, i as int),
            lowest_idx < i,
            lowest_dist == sq_dist(p, target@[lowest_idx as int]),
        decreases target@.len() - i,
    {
        let dist = sq_dist_exec(p, target[i]);
        if dist < lowest_dist {
            lowest_idx = i;
            lowest_dist = dist;
        }
        i = i + 1;
    }
    (lowest_idx, lowest_dist)
}

/// Pairs each source point with its nearest target point and keeps, in
/// source order, the candidates whose indices are both still unclaimed.
pub fn min_pos_delta_match(source: &Vec<FeaturePoint>, target: &Vec<FeaturePoint>) -> (r: Vec<
    Match,
>)
    requires
        target@.len() > 0,
        points_in_range(source@),
        points_in_range(target@),
    ensures
        r@ == greedy_unique(candidate_matches(source@, target@), source@.len() as int),
        forall|k: int|
            0 <= k < r@.len() ==> (#[trigger] r@[k]).query_idx < source@.len()
                && r@[k].train_idx < target@.len(),
{
    let ghost cands = candidate_matches(source@, target@);
    let mut accepted: Vec<Match> = Vec::new();
    let mut claimed: Vec<bool> = Vec::new();
    let mut t: usize = 0;
    while t < target.len()
        invariant
            claimed@.len() == t <= target@.len(),
            forall|tt: int| 0 <= tt < t ==> !(#[trigger] claimed@[tt]),
        decreases target@.len() - t,
    {
        claimed.push(false);
        t = t + 1;
    }
    let mut i: usize = 0;
    while i < source.len()
        invariant
            0 <= i <= source@.len(),
            target@.len() > 0,
            points_in_range(source@),
            points_in_range(target@),
            cands == candidate_matches(source@, target@),
            claimed@.len() == target@.len(),
            accepted@ == greedy_unique(cands, i as int),
            forall|k: int|
                0 <= k < accepted@.len() ==> (#[trigger] accepted@[k]).query_idx < i
                    && accepted@[k].train_idx < target@.len(),
            forall|tt: int|
                0 <= tt < claimed@.len() ==> ((#[trigger] claimed@[tt]) <==> exists|j: int|
                    0 <= j < accepted@.len() && (#[trigger] accepted@[j]).train_idx == tt),
        decreases source@.len() - i,
    {
        let (tr, d) = find_nearest(source[i], target);
        let m = Match { query_idx: i, train_idx: tr, dist_sq: d };
        proof {
            assert(cands[i as int] == m);
        }
        if claimed[tr] {
            proof {
                let j = choose|j: int|
                    0 <= j < accepted@.len() && (#[trigger] accepted@[j]).train_idx == tr as int;
                assert(accepted@[j].train_idx == m.train_idx);
                assert(conflicts(accepted@, m));
            }
        } else {
            proof {
                assert forall|j: int| 0 <= j < accepted@.len() implies !((
                #[trigger] accepted@[j]).query_idx == m.query_idx || accepted@[j].train_idx
                    == m.train_idx) by {
                    assert(accepted@[j].query_idx < i);
                    assert(!claimed@[tr as int]);
                }
                assert(!conflicts(accepted@, m));
            }
            let ghost old_accepted = accepted@;
            accepted.push(m);
            claimed.set(tr, true);
            proof {
                assert forall|tt: int| 0 <= tt < claimed@.len() implies ((#[trigger] claimed@[tt])
                    <==> exists|j: int|
                    0 <= j < accepted@.len() && (#[trigger] accepted@[j]).train_idx == tt) by {
                    if tt == tr as int {
                        assert(accepted@[accepted@.len() - 1].train_idx == tt);
                    } else {
                        if claimed@[tt] {
                            let j = choose|j: int|
                                0 <= j < old_accepted.len() && (#[trigger] old_accepted[j]).train_idx
                                    == tt;
                            assert(accepted@[j].train_idx == tt);
                        } else {
                            assert forall|j: int|
                                0 <= j < accepted@.len() implies (#[trigger] accepted@[j]).train_idx
                                != tt by {
                                if j < old_accepted.len() {
                                    assert(old_accepted[j].train_idx != tt);
                                }
                            }
                        }
                    }
                }
            }
        }
        i = i + 1;
    }
    accepted
}

/// Have two accepted matches claimed a common source or target index?
/// (They never do: the greedy pass accepts a bijective subset.)
pub open spec fn distinct_indices(ms: Seq<Match>) -> bool {
    forall|i: int, j: int|
        0 <= i < j < ms.len() ==> (#[trigger] ms[i]).query_idx != (#[trigger] ms[j]).query_idx
            && ms[i].train_idx != ms[j].train_idx
}

proof fn lemma_greedy_unique_distinct(cands: Seq<Match>, n: int)
    ensures
        distinct_indices(greedy_unique(cands, n)),
    decreases n,
{
    if n <= 0 {
    } else {
        lemma_greedy_unique_distinct(cands, n - 1);
        let prev = greedy_unique(cands, n - 1);
        let m = cands[n - 1];
        if !conflicts(prev, m) {
            let cur = prev.push(m);
            assert forall|i: int, j: int| 0 <= i < j < cur.len() implies (
            #[trigger] cur[i]).query_idx != (#[trigger] cur[j]).query_idx && cur[i].train_idx
                != cur[j].train_idx by {
                if j == prev.len() {
                    assert(cur[i] == prev[i]);
                    if prev[i].query_idx == m.query_idx || prev[i].train_idx == m.train_idx {
                        assert(conflicts(prev, m));
                    }
                } else {
                    assert(cur[i] == prev[i]);
                    assert(cur[j] == prev[j]);
                }
            }
        }
    }
}

proof fn lemma_within_precision_contains(ms: Seq<Match>, precision_sq: u64, x: Match)
    requires
        within_precision(ms, precision_sq).contains(x),
    ensures
        ms.contains(x),
        x.dist_sq < precision_sq,
    decreases ms.len(),
{
    if ms.len() == 0 {
    } else {
        let prev = within_precision(ms.drop_last(), precision_sq);
        if ms.last().dist_sq < precision_sq && x == ms.last() {
            assert(ms[ms.len() - 1] == x);
        } else {
            assert(prev.contains(x));
            lemma_within_precision_contains(ms.drop_last(), precision_sq, x);
            let k = choose|k: int| 0 <= k < ms.drop_last().len() && ms.drop_last()[k] == x;
            assert(ms[k] == x);
        }
    }
}

proof fn lemma_within_precision_distinct(ms: Seq<Match>, precision_sq: u64)
    requires
        distinct_indices(ms),
    ensures
        distinct_indices(within_precision(ms, precision_sq)),
    decreases ms.len(),
{
    if ms.len() == 0 {
    } else {
        assert forall|i: int, j: int| 0 <= i < j < ms.drop_last().len() implies (
        #[trigger] ms.drop_last()[i]).query_idx != (#[trigger] ms.drop_last()[j]).query_idx
            && ms.drop_last()[i].train_idx != ms.drop_last()[j].train_idx by {
            assert(ms.drop_last()[i] == ms[i]);
            assert(ms.drop_last()[j] == ms[j]);
        }
        lemma_within_precision_distinct(ms.drop_last(), precision_sq);
        let prev = within_precision(ms.drop_last(), precision_sq);
        let m = ms.last();
        if m.dist_sq < precision_sq {
            let cur = prev.push(m);
            assert forall|i: int, j: int| 0 <= i < j < cur.len() implies (
            #[trigger] cur[i]).query_idx != (#[trigger] cur[j]).query_idx && cur[i].train_idx
                != cur[j].train_idx by {
                if j == prev.len() {
                    assert(cur[i] == prev[i]);
                    assert(prev.contains(prev[i]));
                    lemma_within_precision_contains(ms.drop_last(), precision_sq, prev[i]);
                    let k = choose|k: int|
                        0 <= k < ms.drop_last().len() && ms.drop_last()[k] == prev[i];
                    assert(ms[k] == prev[i]);
                    assert(ms[k].query_idx != ms[ms.len() - 1].query_idx);
                } else {
                    assert(cur[i] == prev[i]);
                    assert(cur[j] == prev[j]);
                }
            }
        }
    }
}

proof fn lemma_greedy_unique_membership(cands: Seq<Match>, n: int, x: Match)
    requires
        greedy_unique(cands, n).contains(x),
    ensures
        exists|t: int| 0 <= t < n && cands[t] == x,
    decreases n,
{
    if n <= 0 {
    } else {
        let prev = greedy_unique(cands, n - 1);
        let m = cands[n - 1];
        if !conflicts(prev, m) {
            let cur = prev.push(m);
            let i = choose|i: int| 0 <= i < cur.len() && cur[i] == x;
            if i < prev.len() {
                assert(prev[i] == x);
                lemma_greedy_unique_membership(cands, n - 1, x);
            } else {
                assert(cands[n - 1] == x);
            }
        } else {
            lemma_greedy_unique_membership(cands, n - 1, x);
        }
    }
}

/// Matcher correctness law: every match one pass accepts is the
/// nearest-neighbour candidate of its source point -- it pairs that point
/// with the nearest target point (lowest index winning ties) and records
/// their squared distance.
pub proof fn lemma_matches_are_nearest(
    source: Seq<FeaturePoint>,
    target: Seq<FeaturePoint>,
    precision_sq: u64,
)
    requires
        source.len() <= usize::MAX,
    ensures
        forall|k: int|
            0 <= k < matched(source, target, precision_sq).len() ==> {
                let m = #[trigger] matched(source, target, precision_sq)[k];
                &&& m.query_idx < source.len()
                &&& m == candidate_at(source, target, m.query_idx as int)
            },
{
    let cands = candidate_matches(source, target);
    let g = greedy_unique(cands, source.len() as int);
    let w = within_precision(g, precision_sq);
    assert forall|k: int| 0 <= k < w.len() implies {
        let m = #[trigger] w[k];
        &&& m.query_idx < source.len()
        &&& m == candidate_at(source, target, m.query_idx as int)
    } by {
        let m = w[k];
        assert(w.contains(m));
        lemma_within_precision_contains(g, precision_sq, m);
        lemma_greedy_unique_membership(cands, source.len() as int, m);
        let t = choose|t: int| 0 <= t < source.len() && cands[t] == m;
        assert(cands[t] == candidate_at(source, target, t));
        assert(m.query_idx == t);
    }
}

/// Matcher bijection law: among the matches one pass accepts, no source
/// index is claimed twice and no target index is claimed twice.
pub proof fn lemma_match_bijection(
    source: Seq<FeaturePoint>,
    target: Seq<FeaturePoint>,
    precision_sq: u64,
)
    ensures
        distinct_indices(matched(source, target, precision_sq)),
{
    lemma_greedy_unique_distinct(candidate_matches(source, target), source.len() as int);
    lemma_within_precision_distinct(
        greedy_unique(candidate_matches(source, target), source.len() as int),
        precision_sq,
    );
}

/// The matching pass of one frame pair: nearest-neighbour candidates,
/// greedy uniqueness, then the precision filter (`precision_sq` is the
/// squared threshold, in squared fixed-point pixel units).  Rejects an
/// empty feature set on either side.
pub fn get_matches(
    source: &Vec<FeaturePoint>,
    target: &Vec<FeaturePoint>,
    precision_sq: u64,
) -> (r: Result<Vec<Match>, PipelineError>)
    requires
        points_in_range(source@),
        points_in_range(target@),
    ensures
        match r {
            Ok(ms) => {
                &&& source@.len() > 0
                &&& target@.len() > 0
                &&& ms@ == matched(source@, target@, precision_sq)
                &&& forall|k: int|
                    0 <= k < ms@.len() ==> (#[trigger] ms@[k]).query_idx < source@.len()
                        && ms@[k].train_idx < target@.len() && ms@[k].dist_sq < precision_sq
                &&& distinct_indices(ms@)
            },
            Err(e) => {
                &&& e == PipelineError::InvalidInput
                &&& (source@.len() == 0 || target@.len() == 0)
            },
        },
{
    if source.len() == 0 || target.len() == 0 {
        return Err(PipelineError::InvalidInput);
    }
    let candidates = min_pos_delta_match(source, target);
    let mut out: Vec<Match> = Vec::new();
    let mut j: usize = 0;
    while j < candidates.len()
        invariant
            0 <= j <= candidates@.len(),
            out@ == within_precision(candidates@.take(j as int), precision_sq),
            forall|k: int|
                0 <= k < candidates@.len() ==> (#[trigger] candidates@[k]).query_idx
                    < source@.len() && candidates@[k].train_idx < target@.len(),
            forall|k: int|
                0 <= k < out@.len() ==> (#[trigger] out@[k]).query_idx < source@.len()
                    && out@[k].train_idx < target@.len() && out@[k].dist_sq < precision_sq,
        decreases candidates@.len() - j,
    {
        proof {
            assert(candidates@.take(j + 1).drop_last() =~= candidates@.take(j as int));
            assert(candidates@.take(j + 1).last() == candidates@[j as int]);
        }
        if candidates[j].dist_sq < precision_sq {
            out.push(candidates[j]);
        }
        j = j + 1;
    }
    proof {
        assert(candidates@.take(candidates@.len() as int) =~= candidates@);
        lemma_match_bijection(source@, target@, precision_sq);
    }
    Ok(out)
}

/// The source-side points of a match list, in match order.
pub open spec fn match_sources(ms: Seq<Match>, pts: Seq<FeaturePoint>) -> Seq<FeaturePoint> {
    Seq::new(ms.len(), |j: int| pts[ms[j].query_idx as int])
}

/// The target-side points of a match list, in match order.
pub open spec fn match_targets(ms: Seq<Match>, pts: Seq<FeaturePoint>) -> Seq<FeaturePoint> {
    Seq::new(ms.len(), |j: int| pts[ms[j].train_idx as int])
}

/// Resolves a match list into the two index-aligned point lists that the
/// external transform solver consumes.
pub fn correspondence_points(
    matches: &Vec<Match>,
    source_kp: &Vec<FeaturePoint>,
    dest_kp: &Vec<FeaturePoint>,
) -> (r: (Vec<FeaturePoint>, Vec<FeaturePoint>))
    requires
        forall|k: int|
            0 <= k < matches@.len() ==> (#[trigger] matches@[k]).query_idx < source_kp@.len()
                && matches@[k].train_idx < dest_kp@.len(),
    ensures
        r.0@ == match_sources(matches@, source_kp@),
        r.1@ == match_targets(matches@, dest_kp@),
{
    let mut src: Vec<FeaturePoint> = Vec::new();
    let mut dst: Vec<FeaturePoint> = Vec::new();
    let mut k: usize = 0;
    while k < matches.len()
        invariant
            0 <= k <= matches@.len(),
            src@.len() == k,
            dst@.len() == k,
            forall|k: int|
                0 <= k < matches@.len() ==> (#[trigger] matches@[k]).query_idx < source_kp@.len()
                    && matches@[k].train_idx < dest_kp@.len(),
            forall|t: int| 0 <= t < k ==> #[trigger] src@[t] == source_kp@[matches@[t].query_idx as int],
            forall|t: int| 0 <= t < k ==> #[trigger] dst@[t] == dest_kp@[matches@[t].train_idx as int],
        decreases matches@.len() - k,
    {
        src.push(source_kp[matches[k].query_idx]);
        dst.push(dest_kp[matches[k].train_idx]);
        k = k + 1;
    }
    proof {
        assert(src@ =~= match_sources(matches@, source_kp@));
        assert(dst@ =~= match_targets(matches@, dest_kp@));
    }
    (src, dst)
}

/// The accepted correspondences between frame `frame_idx` and frame
/// `frame_idx - 1`, resolved to points: input for one pairwise transform fit.
#[derive(Clone, Debug)]
pub struct PairCorrespondences {
    pub frame_idx: usize,
    pub source_pts: Vec<FeaturePoint>,
    pub target_pts: Vec<FeaturePoint>,
}

/// The views of a list of feature sets.
pub open spec fn sets_view(sets: Seq<Vec<FeaturePoint>>) -> Seq<Seq<FeaturePoint>> {
    Seq::new(sets.len(), |i: int| sets[i]@)
}

/// Why the pair (i, i-1) cannot produce a transform fit, if it cannot:
/// an empty feature set, or fewer than the four accepted matches a
/// projective fit needs.
pub open spec fn pair_error(
    sets: Seq<Seq<FeaturePoint>>,
    precision_sq: u64,
    i: int,
) -> Option<PipelineError> {
    if sets[i].len() == 0 || sets[i - 1].len() == 0 {
        Some(PipelineError::InvalidInput)
    } else if matched(sets[i], sets[i - 1], precision_sq).len() < 4 {
        Some(PipelineError::InsufficientCorrespondences)
    } else {
        None
    }
}

/// The first failure the planner meets, working from the pair
/// (i, i-1) down towards (1, 0); `None` when every pair fits.
pub open spec fn first_pair_error(
    sets: Seq<Seq<FeaturePoint>>,
    precision_sq: u64,
    i: int,
) -> Option<PipelineError>
    decreases i,
{
    if i < 1 {
        None
    } else if pair_error(sets, precision_sq, i) is Some {
        pair_error(sets, precision_sq, i)
    } else {
        first_pair_error(sets, precision_sq, i - 1)
    }
}

/// Plans one alignment run: for each adjacent frame pair, from the last
/// frame down to the first, the matching pass and the resolved
/// correspondences for the external transform solver.  Fails on the first
/// pair with an empty feature set or fewer than four accepted matches.
pub fn plan_alignment(feature_sets: &Vec<Vec<FeaturePoint>>, precision_sq: u64) -> (r: Result<
    Vec<PairCorrespondences>,
    PipelineError,
>)
    requires
        feature_sets@.len() >= 1,
        forall|i: int| 0 <= i < feature_sets@.len() ==> points_in_range(#[trigger] feature_sets@[i]@),
    ensures
        match r {
            Ok(plan) => {
                let vsets = sets_view(feature_sets@);
                let n = feature_sets@.len() as int;
                &&& first_pair_error(vsets, precision_sq, n - 1) is None
                &&& plan@.len() == n - 1
                &&& forall|k: int|
                    0 <= k < plan@.len() ==> {
                        let i = n - 1 - k;
                        let ms = matched(vsets[i], vsets[i - 1], precision_sq);
                        &&& (#[trigger] plan@[k]).frame_idx == i
                        &&& ms.len() >= 4
                        &&& plan@[k].source_pts@ == match_sources(ms, vsets[i])
                        &&& plan@[k].target_pts@ == match_targets(ms, vsets[i - 1])
                    }
            },
            Err(e) => first_pair_error(
                sets_view(feature_sets@),
                precision_sq,
                feature_sets@.len() - 1,
            ) == Some(e),
        },
{
    let ghost vsets = sets_view(feature_sets@);
    let ghost n = feature_sets@.len() as int;
    let mut plan: Vec<PairCorrespondences> = Vec::new();
    let mut i: usize = feature_sets.len() - 1;
    while i >= 1
        invariant
            0 <= i < n,
            n == feature_sets@.len(),
            vsets == sets_view(feature_sets@),
            forall|t: int| 0 <= t < feature_sets@.len() ==> points_in_range(#[trigger] feature_sets@[t]@),
            first_pair_error(vsets, precision_sq, n - 1) == first_pair_error(
                vsets,
                precision_sq,
                i as int,
            ),
            plan@.len() == n - 1 - i,
            forall|k: int|
                0 <= k < plan@.len() ==> {
                    let t = n - 1 - k;
                    let ms = matched(vsets[t], vsets[t - 1], precision_sq);
                    &&& (#[trigger] plan@[k]).frame_idx == t
                    &&& ms.len() >= 4
                    &&& plan@[k].source_pts@ == match_sources(ms, vsets[t])
                    &&& plan@[k].target_pts@ == match_targets(ms, vsets[t - 1])
                },
        decreases i,
    {
        proof {
            assert(vsets[i as int] == feature_sets@[i as int]@);
            assert(vsets[i - 1] == feature_sets@[i - 1]@);
        }
        match get_matches(&feature_sets[i], &feature_sets[i - 1], precision_sq) {
            Err(e) => {
                proof {
                    assert(pair_error(vsets, precision_sq, i as int) == Some(
                        PipelineError::InvalidInput,
                    ));
                }
                return Err(e);
            },
            Ok(ms) => {
                if ms.len() < 4 {
                    proof {
                        assert(pair_error(vsets, precision_sq, i as int) == Some(
                            PipelineError::InsufficientCorrespondences,
                        ));
                    }
                    return Err(PipelineError::InsufficientCorrespondences);
                }
                proof {
                    assert(pair_error(vsets, precision_sq, i as int) is None);
                }
                let (src, dst) = correspondence_points(
                    &ms,
                    &feature_sets[i],
                    &feature_sets[i - 1],
                );
                let ghost old_plan = plan@;
                plan.push(PairCorrespondences { frame_idx: i, source_pts: src, target_pts: dst });
                proof {
                    assert forall|k: int|
                        0 <= k < plan@.len() implies {
                        let t = n - 1 - k;
                        let msk = matched(vsets[t], vsets[t - 1], precision_sq);
                        &&& (#[trigger] plan@[k]).frame_idx == t
                        &&& msk.len() >= 4
                        &&& plan@[k].source_pts@ == match_sources(msk, vsets[t])
                        &&& plan@[k].target_pts@ == match_targets(msk, vsets[t - 1])
                    } by {
                        if k < old_plan.len() {
                            assert(plan@[k] == old_plan[k]);
                        } else {
                            assert(plan@[k].frame_idx == i);
                            assert(ms@ == matched(vsets[i as int], vsets[i - 1], precision_sq));
                        }
                    }
                }
                i = i - 1;
            },
        }
    }
    Ok(plan)
}

/// The chained-application plan for the output frame at `frame_idx`: the
/// indices of the pairwise transforms to apply, in order, on the frame's
/// way back to the reference frame -- `frame_idx` first, then each lower
/// index down to 1.  The reference frame itself gets the empty chain.
pub fn warp_chain(frame_idx: usize) -> (r: Vec<usize>)
    ensures
        r@.len() == frame_idx,
        forall|k: int| 0 <= k < r@.len() ==> #[trigger] r@[k] == frame_idx - k,
{
    let mut chain: Vec<usize> = Vec::new();
    let mut t: usize = frame_idx;
    while t >= 1
        invariant
            0 <= t <= frame_idx,
            chain@.len() == frame_idx - t,
            forall|k: int| 0 <= k < chain@.len() ==> #[trigger] chain@[k] == frame_idx - k,
        decreases t,
    {
        chain.push(t);
        t = t - 1;
    }
    chain
}

/// Guards the external transform solver's outcome: a fit that did not
/// converge surfaces as EstimationFailure instead of being skipped.
pub fn check_estimation(converged: bool) -> (r: Result<(), PipelineError>)
    ensures
        converged ==> r is Ok,
        !converged ==> r == Err::<(), PipelineError>(PipelineError::EstimationFailure),
{
    if converged {
        Ok(())
    } else {
        Err(PipelineError::EstimationFailure)
    }
}

} // verus!
