use video_to_3d_core::camera_state::{
    frame_camera_states, partition_cameras, validate_browser_contract, validate_dense_registered_count, CameraKind,
    DenseFacts, PairFacts, ReconstructionFacts, RegisteredViewFacts, RegistrationStatus, SeedPairFacts,
    FEWER_THAN_TWO_REGISTERED_CAMERAS,
};

fn dense_skipped() -> DenseFacts {
    DenseFacts {
        attempted: false,
        skip_reason: None,
        reference_frame: None,
        source_views: 0,
        source_frames: Vec::new(),
    }
}

fn uncalibrated_facts() -> ReconstructionFacts {
    ReconstructionFacts {
        calibrated_pair: None,
        camera_frames: vec![0, 1],
        registered_views: Vec::new(),
        registration_candidates: Vec::new(),
        recoveries: Vec::new(),
        pairs: vec![PairFacts { from_frame: 0, to_frame: 1, low_parallax: true }],
        dense: dense_skipped(),
        bundle_adjustment_attempted: false,
        bundle_adjustment_accepted: false,
    }
}

#[test]
fn browser_contract_keeps_uncalibrated_motion_separate() {
    // Two flat 48x32 frames give no calibrated pair: two approximate motion samples.
    let facts = uncalibrated_facts();
    let state = partition_cameras(&facts);
    let frames = frame_camera_states(&facts, 2);

    assert!(facts.calibrated_pair.is_none());
    assert_eq!(state.approximate_motion.len(), 2);
    assert!(state.calibrated_seed.is_empty());
    assert!(state.registered.is_empty());
    assert!(state.dense_eligible.is_empty());
    assert_eq!(frames.len(), 2);
    assert!(frames.iter().all(|frame| frame.camera_kind == CameraKind::ApproximateMotion));
    assert!(validate_browser_contract(&facts, &state, frames.len(), 2).is_ok());
}

#[test]
fn dense_registered_count_contradiction_fails_closed() {
    let dense = DenseFacts {
        skip_reason: Some(FEWER_THAN_TWO_REGISTERED_CAMERAS.to_string()),
        ..dense_skipped()
    };

    let error = validate_dense_registered_count(2, &dense).expect_err("contradictory camera counts must be rejected");
    assert!(error.contains("invariant violated"));
    assert!(validate_dense_registered_count(1, &dense).is_ok());
}

#[test]
fn calibrated_pair_splits_seed_and_registered_cameras() {
    let facts = ReconstructionFacts {
        calibrated_pair: Some(SeedPairFacts { from_frame: 0, to_frame: 1, matches: 40, inliers: 30 }),
        camera_frames: vec![0, 1, 3],
        registered_views: vec![RegisteredViewFacts {
            frame_index: 3,
            correspondences: 12,
            inliers: 10,
            recovered_from_revisit: false,
        }],
        ..uncalibrated_facts()
    };
    let state = partition_cameras(&facts);
    assert!(state.approximate_motion.is_empty());
    assert_eq!(state.calibrated_seed, vec![0, 1]);
    assert_eq!(state.registered, vec![2]);
    let frames = frame_camera_states(&facts, 4);
    assert_eq!(frames[0].camera_kind, CameraKind::Seed);
    assert_eq!(frames[0].registration_status, RegistrationStatus::Seed);
    assert_eq!(frames[3].camera_kind, CameraKind::Registered);
    assert_eq!(frames[3].correspondences, 12);
    assert_eq!(frames[2].camera_kind, CameraKind::Absent);
}

#[test]
fn frame_state_count_must_match_frames() {
    let facts = uncalibrated_facts();
    let state = partition_cameras(&facts);
    let error = validate_browser_contract(&facts, &state, 1, 2).expect_err("frame count mismatch");
    assert!(error.contains("frame-state count does not match input frames"));
}
