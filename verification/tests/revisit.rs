use video_to_3d_core::revisit::{
    mutual_match_positions, order_by_frame, preselect_pairs, recovery_correspondences, recovery_targets,
    revisit_frames, MAX_REVISIT_PAIR_EVALUATIONS,
};
use video_to_3d_core::tracks::MatchPair;

#[test]
fn revisit_analysis_bounds_pair_evaluations_before_matching() {
    let frames: Vec<usize> = (0..18).collect();
    let pairs = preselect_pairs(&frames, Some(0));

    assert_eq!(pairs.len(), MAX_REVISIT_PAIR_EVALUATIONS);
    assert!(pairs.iter().all(|(from, to)| *to > *from + 1));
    assert!(pairs.iter().all(|(from, to)| *from == 0 || *to == 0));
}

#[test]
fn preselected_pairs_prefer_seed_then_width_then_frames() {
    let frames = vec![0, 2, 3, 6];
    let pairs = preselect_pairs(&frames, Some(2));
    // Pairs through frame 2 first (widest first), then the others (widest first).
    assert_eq!(pairs, vec![(2, 6), (0, 2), (0, 6), (0, 3), (3, 6)]);
}

#[test]
fn preselected_pairs_without_seed_order_by_width() {
    let frames = vec![1, 4, 9];
    let pairs = preselect_pairs(&frames, None);
    assert_eq!(pairs, vec![(1, 9), (4, 9), (1, 4)]);
}

#[test]
fn adjacent_frames_give_no_pairs() {
    assert!(preselect_pairs(&vec![3, 4, 5], Some(3)).iter().all(|(a, b)| *b > *a + 1));
    assert_eq!(preselect_pairs(&vec![3, 4], Some(3)), Vec::<(usize, usize)>::new());
}

#[test]
fn revisit_frames_are_sorted_and_distinct_with_seed_pair() {
    assert_eq!(revisit_frames(&vec![5, 1, 5, 3], Some(3)), vec![1, 3, 4, 5]);
    assert_eq!(revisit_frames(&vec![2, 0], None), vec![0, 2]);
}

#[test]
fn mutual_matches_keep_only_confirmed_pairs() {
    let forward = vec![MatchPair { a: 0, b: 1 }, MatchPair { a: 1, b: 2 }, MatchPair { a: 2, b: 0 }];
    let reverse = vec![MatchPair { a: 1, b: 0 }, MatchPair { a: 0, b: 2 }];
    assert_eq!(mutual_match_positions(&forward, &reverse), vec![0, 2]);
}

#[test]
fn recovery_targets_skip_registered_and_non_candidate_frames() {
    let targets = vec![3, 5, 7, 9];
    assert_eq!(recovery_targets(&targets, &vec![3, 7, 9], &vec![7]), vec![0, 3]);
}

#[test]
fn recovery_correspondences_use_last_seed_point_and_existing_features() {
    let matches = vec![MatchPair { a: 4, b: 0 }, MatchPair { a: 9, b: 1 }, MatchPair { a: 4, b: 7 }];
    // Seed points 0 and 2 both come from feature 4; the later one is used.
    let seed_features = vec![4, 5, 4];
    assert_eq!(recovery_correspondences(&matches, &seed_features, 5), vec![(2, 0)]);
}

#[test]
fn order_by_frame_is_stable() {
    assert_eq!(order_by_frame(&vec![5, 2, 5, 1]), vec![3, 1, 0, 2]);
}
