use star_stacker::alignment::{
    check_estimation, correspondence_points, get_matches, min_pos_delta_match, plan_alignment,
    warp_chain, FeaturePoint, Match,
};
use star_stacker::errors::PipelineError;

fn pt(x: i64, y: i64) -> FeaturePoint {
    FeaturePoint { x, y }
}

#[test]
fn test_pos_delta_match() {
    let kp1 = vec![pt(10, 10), pt(0, 10)];
    let kp2 = vec![pt(0, 9), pt(10, 9)];

    let result = min_pos_delta_match(&kp1, &kp2);

    assert_eq!(result[0].train_idx, 1);
    assert_eq!(result[1].train_idx, 0);
}

// The crossed fixture at a fixed-point scale of 10 units per pixel: each
// source point sits one pixel (10 units) above the opposite target point.
// A precision of 2 pixels (squared: 400) accepts both matches, each with a
// squared distance of one pixel (100).
#[test]
fn crossed_pair_within_two_pixels() {
    let source = vec![pt(100, 100), pt(0, 100)];
    let target = vec![pt(0, 90), pt(100, 90)];

    let matches = get_matches(&source, &target, 400).unwrap();

    assert_eq!(matches.len(), 2);
    assert_eq!(matches[0].query_idx, 0);
    assert_eq!(matches[0].train_idx, 1);
    assert_eq!(matches[0].dist_sq, 100);
    assert_eq!(matches[1].query_idx, 1);
    assert_eq!(matches[1].train_idx, 0);
    assert_eq!(matches[1].dist_sq, 100);
}

// The same fixture with a precision of half a pixel (squared: 25) keeps
// nothing.
#[test]
fn crossed_pair_half_pixel_precision_empty() {
    let source = vec![pt(100, 100), pt(0, 100)];
    let target = vec![pt(0, 90), pt(100, 90)];

    let matches = get_matches(&source, &target, 25).unwrap();

    assert!(matches.is_empty());
}

#[test]
fn empty_feature_set_rejected() {
    let target = vec![pt(0, 0)];
    assert_eq!(
        get_matches(&Vec::new(), &target, 100).unwrap_err(),
        PipelineError::InvalidInput
    );
    assert_eq!(
        get_matches(&target, &Vec::new(), 100).unwrap_err(),
        PipelineError::InvalidInput
    );
}

// Two source points share one nearest target: the greedy pass keeps only
// the earlier candidate.
#[test]
fn greedy_pass_drops_claimed_target() {
    let source = vec![pt(0, 0), pt(1, 0)];
    let target = vec![pt(0, 0), pt(1000, 1000)];

    let result = min_pos_delta_match(&source, &target);

    assert_eq!(result.len(), 1);
    assert_eq!(result[0].query_idx, 0);
    assert_eq!(result[0].train_idx, 0);
    assert_eq!(result[0].dist_sq, 0);
}

// No source index and no target index repeats among accepted matches.
#[test]
fn accepted_matches_are_bijective() {
    let source = vec![pt(0, 0), pt(7, 3), pt(2, 9), pt(5, 5), pt(1, 1)];
    let target = vec![pt(6, 4), pt(1, 0), pt(4, 6), pt(3, 8)];

    let matches = get_matches(&source, &target, u64::MAX).unwrap();

    for a in 0..matches.len() {
        for b in 0..matches.len() {
            if a != b {
                assert_ne!(matches[a].query_idx, matches[b].query_idx);
                assert_ne!(matches[a].train_idx, matches[b].train_idx);
            }
        }
    }
}

#[test]
fn correspondence_points_resolve_indices() {
    let source_kp = vec![pt(1, 2), pt(3, 4), pt(5, 6)];
    let dest_kp = vec![pt(7, 8), pt(9, 10)];
    let matches = vec![
        Match { query_idx: 2, train_idx: 0, dist_sq: 4 },
        Match { query_idx: 0, train_idx: 1, dist_sq: 9 },
    ];

    let (src, dst) = correspondence_points(&matches, &source_kp, &dest_kp);

    assert_eq!(src, vec![pt(5, 6), pt(1, 2)]);
    assert_eq!(dst, vec![pt(7, 8), pt(9, 10)]);
}

// A pure translation between well-separated star fields: every point of the
// later frame is matched to its counterpart, and the planner pairs frames
// from the last one downwards.
#[test]
fn plan_alignment_pure_translation() {
    let mut sets: Vec<Vec<FeaturePoint>> = Vec::new();
    for frame in 0..3i64 {
        let mut set = Vec::new();
        for k in 0..5i64 {
            set.push(pt(1000 * k + 10 * frame, 500 * k));
        }
        sets.push(set);
    }

    let plan = plan_alignment(&sets, 40 * 40).unwrap();

    assert_eq!(plan.len(), 2);
    assert_eq!(plan[0].frame_idx, 2);
    assert_eq!(plan[1].frame_idx, 1);
    for (step, i) in plan.iter().zip([2i64, 1i64]) {
        assert_eq!(step.source_pts.len(), 5);
        assert_eq!(step.target_pts.len(), 5);
        for k in 0..5usize {
            assert_eq!(step.source_pts[k], pt(1000 * k as i64 + 10 * i, 500 * k as i64));
            assert_eq!(step.target_pts[k], pt(1000 * k as i64 + 10 * (i - 1), 500 * k as i64));
        }
    }
}

// Fewer than four accepted correspondences fail the fit, explicitly.
#[test]
fn plan_alignment_too_few_matches() {
    let sets = vec![
        vec![pt(0, 0), pt(1000, 0), pt(0, 1000)],
        vec![pt(0, 0), pt(1000, 0), pt(0, 1000)],
    ];

    assert_eq!(
        plan_alignment(&sets, 100).unwrap_err(),
        PipelineError::InsufficientCorrespondences
    );
}

#[test]
fn plan_alignment_empty_set_rejected() {
    let sets = vec![vec![pt(0, 0), pt(1, 1), pt(2, 2), pt(3, 3)], Vec::new()];

    assert_eq!(plan_alignment(&sets, 100).unwrap_err(), PipelineError::InvalidInput);
}

#[test]
fn plan_alignment_single_frame_is_empty_plan() {
    let sets = vec![vec![pt(0, 0)]];
    let plan = plan_alignment(&sets, 100).unwrap();
    assert!(plan.is_empty());
}

#[test]
fn warp_chain_descends_to_one() {
    assert_eq!(warp_chain(3), vec![3, 2, 1]);
    assert_eq!(warp_chain(1), vec![1]);
    assert_eq!(warp_chain(0), Vec::<usize>::new());
}

#[test]
fn estimation_outcome_guard() {
    assert!(check_estimation(true).is_ok());
    assert_eq!(check_estimation(false).unwrap_err(), PipelineError::EstimationFailure);
}
