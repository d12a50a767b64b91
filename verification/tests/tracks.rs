use video_to_3d_core::tracks::{
    analyze, build_feature_tracks, collect_seed_track_indices, landmark_observations, new_landmark_candidate,
    registration_candidates, MatchPair, SeedLandmark,
};

fn feature_match(a: usize, b: usize) -> MatchPair {
    MatchPair { a, b }
}

fn seed_landmarks(count: usize) -> Vec<SeedLandmark> {
    (0..count)
        .map(|index| SeedLandmark {
            point_index: index,
            source_feature_index: index,
        })
        .collect()
}

#[test]
fn chains_adjacent_matches_into_multi_frame_tracks() {
    let matches = vec![
        vec![feature_match(0, 0), feature_match(1, 1), feature_match(2, 2)],
        vec![feature_match(0, 0), feature_match(1, 1), feature_match(3, 3)],
    ];
    let tracks = build_feature_tracks(&matches);
    let mut lengths: Vec<usize> = tracks.tracks.iter().map(|track| track.len()).collect();
    lengths.sort_unstable();

    assert_eq!(lengths, vec![2, 2, 3, 3]);
}

#[test]
fn reports_registration_ready_keyframes_from_seed_landmark_tracks() {
    let seed_matches: Vec<MatchPair> = (0..10).map(|index| feature_match(index, index)).collect();
    let next_matches: Vec<MatchPair> = (0..9).map(|index| feature_match(index, index)).collect();
    let final_matches: Vec<MatchPair> = (0..8).map(|index| feature_match(index, index)).collect();
    let matches = vec![seed_matches, next_matches, final_matches];
    let tracks = build_feature_tracks(&matches);
    let seeds = seed_landmarks(10);

    let candidates = registration_candidates(&vec![0, 2, 3], &tracks, 0, &seeds);

    assert_eq!(candidates.len(), 2);
    assert_eq!(candidates[0].frame_index, 2);
    assert_eq!(candidates[0].correspondences.len(), 9);
    assert_eq!(candidates[0].correspondences[4].seed_point_index, 4);
    assert_eq!(candidates[0].correspondences[4].feature_index, 4);
    assert_eq!(candidates[1].frame_index, 3);
    assert_eq!(candidates[1].correspondences.len(), 8);
}

#[test]
fn does_not_mark_sparse_track_overlap_as_pnp_ready() {
    let seed_matches: Vec<MatchPair> = (0..8).map(|index| feature_match(index, index)).collect();
    let next_matches: Vec<MatchPair> = (0..5).map(|index| feature_match(index, index)).collect();
    let matches = vec![seed_matches, next_matches];
    // The two strong adjacent pairs (0, 1) and (1, 2) make frames 0 and 2 keyframes.
    let seeds = seed_landmarks(8);
    let analysis = analyze(vec![0, 2], &matches, Some((0, &seeds)));

    assert_eq!(analysis.stats.registration_candidates.len(), 1);
    assert_eq!(analysis.stats.registration_candidates[0].seed_landmark_correspondences, 5);
    assert!(!analysis.stats.registration_candidates[0].pnp_ready);
}

#[test]
fn conflicting_targets_are_not_merged() {
    // Feature 1 of frame 1 is claimed by the first match; the second match to it is ignored.
    let matches = vec![vec![feature_match(0, 1), feature_match(2, 1)]];
    let tracks = build_feature_tracks(&matches);
    assert_eq!(tracks.tracks, vec![vec![(0, 0), (1, 1)]]);
    assert_eq!(tracks.membership.len(), 2);
}

#[test]
fn analysis_counts_tracks_and_links() {
    let matches = vec![
        vec![feature_match(0, 0), feature_match(1, 1)],
        vec![],
        vec![feature_match(0, 5)],
    ];
    let analysis = analyze(vec![0, 3], &matches, None);
    assert_eq!(analysis.stats.track_count, 3);
    assert_eq!(analysis.stats.tracks_three_plus, 0);
    assert_eq!(analysis.stats.longest_track, 2);
    assert_eq!(analysis.stats.observations, 6);
    assert_eq!(analysis.stats.linked_pairs, 2);
    assert!(analysis.registration_candidates.is_empty());
    assert!(analysis.seed_track_indices.is_empty());
    assert_eq!(analysis.seed_pair_index, None);
}

#[test]
fn ready_candidates_need_eight_correspondences() {
    let matches = vec![
        (0..8).map(|index| feature_match(index, index)).collect::<Vec<_>>(),
        (0..8).map(|index| feature_match(index, index)).collect::<Vec<_>>(),
    ];
    let seeds = seed_landmarks(8);
    let analysis = analyze(vec![0, 2], &matches, Some((0, &seeds)));
    assert_eq!(analysis.stats.registration_candidates[0].seed_landmark_correspondences, 8);
    assert!(analysis.stats.registration_candidates[0].pnp_ready);
    assert_eq!(analysis.stats.tracks_three_plus, 8);
    assert_eq!(analysis.stats.longest_track, 3);
}

#[test]
fn seed_track_indices_are_distinct() {
    let matches = vec![vec![feature_match(0, 0), feature_match(1, 1)]];
    let tracks = build_feature_tracks(&matches);
    let seeds = vec![
        SeedLandmark { point_index: 0, source_feature_index: 1 },
        SeedLandmark { point_index: 1, source_feature_index: 1 },
        SeedLandmark { point_index: 2, source_feature_index: 7 },
    ];
    let mut indices = collect_seed_track_indices(&tracks, 0, &seeds);
    indices.sort_unstable();
    assert_eq!(indices, vec![1]);
}

#[test]
fn landmark_observations_need_a_camera_and_a_feature() {
    let track = vec![(0, 1), (1, 4), (2, 0)];
    // Cameras see frames 0 and 2 (frame 2 twice: the later camera is used).
    let camera_frames = vec![0, 2, 2];
    let feature_counts = vec![2, 10, 0];
    assert_eq!(landmark_observations(&track, &camera_frames, &feature_counts), vec![(0, 0, 1)]);
    let counts = vec![2, 10, 3];
    assert_eq!(landmark_observations(&track, &camera_frames, &counts), vec![(0, 0, 1), (2, 2, 0)]);
}

#[test]
fn landmark_candidates_need_a_view_outside_the_seed_pair() {
    assert!(!new_landmark_candidate(&vec![(0, 0, 1), (1, 1, 1)], 0));
    assert!(new_landmark_candidate(&vec![(0, 0, 1), (2, 2, 1)], 0));
    assert!(!new_landmark_candidate(&vec![(2, 2, 1)], 0));
}
