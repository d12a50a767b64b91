use video_to_3d_core::dense::{
    combine_patches, dense_warning, fallback_analysis, from_legacy, merge_fallback_attempts, reference_attempt_stats,
    reference_camera_order, remap_source_frames, split_patch, DenseGridSite, DensePatchSelection,
    DenseReferenceAttemptStats, DenseStats, ReferenceDenseAnalysis, ReferenceDenseStats,
};

fn stats(attempted: bool) -> ReferenceDenseStats<u8> {
    ReferenceDenseStats {
        attempted,
        skip_reason: None,
        reference_frame: None,
        source_views: 0,
        source_frames: Vec::new(),
        sampled_pixels: 0,
        depth_hypotheses: 0,
        accepted_points: 0,
        surface_completion_proposals: 0,
        surface_completed_points: 0,
        surface_completion_rejected_texture: 0,
        surface_completion_rejected_cross_view: 0,
        surface_completion_rejected_reciprocal: 0,
        surface_completion_rejected_fusion: 0,
        surface_completion_rejected_footprint: 0,
        grid_stride: 0,
        grid_border: 0,
        reciprocal_checked_points: 0,
        reciprocal_rejected_points: 0,
        reciprocal_consistent_points: 0,
        fusion_input_observations: 0,
        fusion_rejected_observations: 0,
        fusion_rejected_points: 0,
        measures: 0,
    }
}

fn attempt(reference_frame: usize, accepted: bool, skip_reason: Option<&str>, accepted_points: usize) -> DenseReferenceAttemptStats {
    DenseReferenceAttemptStats {
        reference_frame,
        attempted: true,
        accepted,
        skip_reason: skip_reason.map(|reason| reason.to_string()),
        sampled_pixels: 0,
        accepted_points,
        reciprocal_checked_points: 0,
        reciprocal_rejected_points: 0,
        reciprocal_consistent_points: 0,
        surface_completion_proposals: 0,
        surface_completed_points: 0,
        surface_completion_rejected_texture: 0,
        surface_completion_rejected_cross_view: 0,
        surface_completion_rejected_reciprocal: 0,
        surface_completion_rejected_fusion: 0,
        surface_completion_rejected_footprint: 0,
    }
}

fn sites(n: u32) -> Vec<DenseGridSite> {
    (0..n).map(|i| DenseGridSite { x: i, y: i + 1 }).collect()
}

#[test]
fn rejected_reference_attempt_keeps_its_diagnostics() {
    let stats = ReferenceDenseStats {
        attempted: true,
        sampled_pixels: 41,
        reciprocal_checked_points: 2,
        reciprocal_rejected_points: 1,
        reciprocal_consistent_points: 1,
        surface_completion_proposals: 3,
        surface_completed_points: 1,
        surface_completion_rejected_cross_view: 2,
        ..stats(true)
    };

    let attempt = reference_attempt_stats(7, &stats, 2, false);

    assert!(attempt.attempted);
    assert!(!attempt.accepted);
    assert_eq!(attempt.reference_frame, 7);
    assert_eq!(attempt.sampled_pixels, 41);
    assert_eq!(attempt.accepted_points, 2);
    assert_eq!(attempt.reciprocal_checked_points, 2);
    assert_eq!(attempt.reciprocal_rejected_points, 1);
    assert_eq!(attempt.reciprocal_consistent_points, 1);
    assert_eq!(attempt.surface_completion_proposals, 3);
    assert_eq!(attempt.surface_completed_points, 1);
    assert_eq!(attempt.surface_completion_rejected_cross_view, 2);
    assert!(attempt
        .skip_reason
        .as_deref()
        .is_some_and(|reason| reason.contains("at least 3")));
}

#[test]
fn attempt_reasons_follow_the_estimation() {
    let ran = reference_attempt_stats(1, &stats(true), 2, false);
    assert_eq!(
        ran.skip_reason.as_deref(),
        Some("reference produced 2 accepted dense points; at least 3 are required for a surface patch")
    );
    let not_run = reference_attempt_stats(1, &stats(false), 0, false);
    assert_eq!(not_run.skip_reason.as_deref(), Some("dense estimation did not run for this reference"));
    let skipped = ReferenceDenseStats { skip_reason: Some("too few views".to_string()), ..stats(true) };
    assert_eq!(reference_attempt_stats(1, &skipped, 0, false).skip_reason.as_deref(), Some("too few views"));
    assert_eq!(reference_attempt_stats(1, &skipped, 5, true).skip_reason, None);
}

#[test]
fn successful_fallback_evidence_replaces_rejected_attempt_for_same_reference() {
    let rejected = attempt(3, false, Some("remapped reference rejected"), 1);
    let other_rejected = attempt(5, false, Some("another reference rejected"), 0);
    let fallback_accepted = attempt(3, true, None, 9);

    let merged = merge_fallback_attempts(vec![rejected, other_rejected], vec![fallback_accepted]);

    assert_eq!(merged.len(), 2);
    let accepted = merged
        .iter()
        .find(|attempt| attempt.reference_frame == 3)
        .expect("fallback reference evidence");
    assert!(accepted.accepted);
    assert_eq!(accepted.accepted_points, 9);
    assert!(accepted.skip_reason.is_none());
    assert!(merged.iter().any(|attempt| attempt.reference_frame == 5 && !attempt.accepted));
}

#[test]
fn accepted_attempts_are_never_replaced_and_new_frames_are_appended() {
    let merged = merge_fallback_attempts(
        vec![attempt(3, true, None, 4)],
        vec![attempt(3, false, Some("late rejection"), 0), attempt(8, false, Some("new frame"), 0)],
    );
    assert_eq!(merged.len(), 2);
    assert!(merged[0].accepted);
    assert_eq!(merged[0].accepted_points, 4);
    assert_eq!(merged[1].reference_frame, 8);
}

#[test]
fn split_patch_keeps_completions_last() {
    let analysis = ReferenceDenseAnalysis {
        stats: ReferenceDenseStats { surface_completed_points: 2, ..stats(true) },
        points: vec![10, 11, 12, 13, 14],
        grid_sites: sites(5),
    };
    let patch = split_patch(4, analysis);
    assert_eq!(patch.reference_frame, 4);
    assert_eq!(patch.primary_points, vec![10, 11, 12]);
    assert_eq!(patch.completion_points, vec![13, 14]);
    assert_eq!(patch.primary_sites.len(), 3);
    assert_eq!(patch.completion_sites, sites(5)[3..].to_vec());
}

#[test]
fn split_patch_caps_completions_at_the_points() {
    let analysis = ReferenceDenseAnalysis {
        stats: ReferenceDenseStats { surface_completed_points: 9, ..stats(true) },
        points: vec![1, 2],
        grid_sites: sites(2),
    };
    let patch = split_patch(0, analysis);
    assert!(patch.primary_points.is_empty());
    assert_eq!(patch.completion_points, vec![1, 2]);
}

#[test]
fn combined_patches_place_primary_points_before_completions() {
    let first = split_patch(
        2,
        ReferenceDenseAnalysis {
            stats: ReferenceDenseStats {
                surface_completed_points: 1,
                source_frames: vec![1, 3],
                sampled_pixels: 10,
                depth_hypotheses: 5,
                grid_stride: 4,
                grid_border: 3,
                measures: 7,
                ..stats(true)
            },
            points: vec![1, 2, 3],
            grid_sites: sites(3),
        },
    );
    let second = split_patch(
        5,
        ReferenceDenseAnalysis {
            stats: ReferenceDenseStats {
                surface_completed_points: 1,
                source_frames: vec![4, 2],
                sampled_pixels: 20,
                depth_hypotheses: 9,
                measures: 8,
                ..stats(true)
            },
            points: vec![4, 5],
            grid_sites: sites(2),
        },
    );
    let combined = combine_patches(vec![first, second], vec![attempt(2, true, None, 3)]);
    assert_eq!(combined.points, vec![1, 2, 4, 3, 5]);
    assert_eq!(combined.grid_sites.len(), 5);
    let stats = &combined.stats;
    assert!(stats.attempted);
    assert_eq!(stats.reference_frame, Some(2));
    assert_eq!(stats.source_frames, vec![1, 3, 4, 5]);
    assert_eq!(stats.source_views, 4);
    assert_eq!(stats.sampled_pixels, 30);
    assert_eq!(stats.depth_hypotheses, 9);
    assert_eq!(stats.accepted_points, 5);
    assert_eq!(stats.surface_completed_points, 2);
    assert_eq!(stats.grid_stride, 4);
    assert_eq!(stats.measures, None);
    assert_eq!(stats.reference_frames, vec![2, 5]);
    assert_eq!(stats.reference_attempts.len(), 1);
    let patches = &stats.reference_patches;
    assert_eq!((patches[0].primary_start, patches[0].primary_points), (0, 2));
    assert_eq!((patches[0].completion_start, patches[0].completed_points), (3, 1));
    assert_eq!((patches[1].primary_start, patches[1].primary_points), (2, 1));
    assert_eq!((patches[1].completion_start, patches[1].completed_points), (4, 1));
    assert_eq!(patches[1].accepted_points, 2);
    assert_eq!(patches[1].measures, 8);
}

#[test]
fn a_single_patch_keeps_its_measures() {
    let only = split_patch(1, ReferenceDenseAnalysis { stats: ReferenceDenseStats { measures: 3, ..stats(true) }, points: vec![9, 9, 9], grid_sites: sites(3) });
    let combined = combine_patches(vec![only], Vec::new());
    assert_eq!(combined.stats.measures, Some(3));
    assert!(combined.stats.source_frames.is_empty());
}

#[test]
fn single_reference_analysis_becomes_one_patch() {
    let analysis = ReferenceDenseAnalysis {
        stats: ReferenceDenseStats {
            reference_frame: Some(6),
            surface_completed_points: 1,
            sampled_pixels: 12,
            ..stats(true)
        },
        points: vec![1, 2, 3, 4],
        grid_sites: sites(4),
    };
    let dense = from_legacy(analysis);
    assert_eq!(dense.stats.reference_frames, vec![6]);
    assert_eq!(dense.stats.reference_attempts.len(), 1);
    assert!(dense.stats.reference_attempts[0].accepted);
    let patch = &dense.stats.reference_patches[0];
    assert_eq!((patch.primary_start, patch.primary_points, patch.completion_start, patch.completed_points), (0, 3, 3, 1));
    assert_eq!(dense.points, vec![1, 2, 3, 4]);
    assert_eq!(dense.stats.measures, Some(0));
}

#[test]
fn single_reference_analysis_without_reference_has_no_attempt() {
    let dense = from_legacy(ReferenceDenseAnalysis { stats: stats(false), points: Vec::<u8>::new(), grid_sites: Vec::new() });
    assert!(dense.stats.reference_frames.is_empty());
    assert!(dense.stats.reference_attempts.is_empty());
    assert!(dense.stats.reference_patches.is_empty());
}

#[test]
fn fallback_merges_its_attempt() {
    let fallback = ReferenceDenseAnalysis {
        stats: ReferenceDenseStats { reference_frame: Some(3), ..stats(true) },
        points: vec![1, 2, 3],
        grid_sites: sites(3),
    };
    let dense = fallback_analysis(vec![attempt(3, false, Some("remapped reference rejected"), 1)], fallback);
    assert_eq!(dense.stats.reference_attempts.len(), 1);
    assert!(dense.stats.reference_attempts[0].accepted);
    assert_eq!(dense.stats.reference_attempts[0].accepted_points, 3);
}

#[test]
fn selection_stops_after_three_patches() {
    let mut selection: DensePatchSelection<u8, u8> = DensePatchSelection::new();
    for frame in 0..3 {
        assert!(selection.wants_more());
        selection.offer(frame, Some(ReferenceDenseAnalysis { stats: stats(true), points: vec![1, 2, 3], grid_sites: sites(3) }));
    }
    assert!(!selection.wants_more());
    assert_eq!(selection.patches.len(), 3);
    assert_eq!(selection.attempts.len(), 3);
}

#[test]
fn selection_records_rejections_and_gives_up_after_six_tries() {
    let mut selection: DensePatchSelection<u8, u8> = DensePatchSelection::new();
    selection.offer(0, None);
    selection.offer(1, Some(ReferenceDenseAnalysis { stats: stats(true), points: vec![1, 2], grid_sites: sites(2) }));
    assert_eq!(selection.attempts.len(), 1);
    assert!(!selection.attempts[0].accepted);
    assert!(selection.patches.is_empty());
    for frame in 2..6 {
        selection.offer(frame, None);
    }
    assert!(!selection.wants_more());
}

#[test]
fn dense_warning_reports_successful_fusion_without_stale_future_claims() {
    let dense: DenseStats<()> = DenseStats {
        attempted: true,
        reference_frame: Some(1),
        source_views: 3,
        depth_hypotheses: 24,
        accepted_points: 17,
        reciprocal_consistent_points: 19,
        fusion_rejected_observations: 4,
        ..DenseStats::default()
    };

    let warning = dense_warning(&dense).expect("dense warning");
    assert!(warning.contains("17 fused scene points"));
    assert!(warning.contains("19 primary candidates passed reciprocal depth consistency"));
    assert!(warning.contains("spatial fusion rejected 4 reverse observations"));
    assert!(!warning.contains("fusion remain future"));
    assert!(!warning.contains("multi-view depth consistency"));
}

#[test]
fn dense_warning_distinguishes_fusion_rejection_from_earlier_gates() {
    let dense: DenseStats<()> = DenseStats {
        attempted: true,
        reference_frame: Some(0),
        source_views: 2,
        reciprocal_checked_points: 9,
        reciprocal_rejected_points: 3,
        reciprocal_consistent_points: 6,
        fusion_input_observations: 14,
        fusion_rejected_observations: 8,
        fusion_rejected_points: 6,
        ..DenseStats::default()
    };

    let warning = dense_warning(&dense).expect("dense warning");
    assert!(warning.contains("6 primary candidates passed reciprocal depth consistency"));
    assert!(warning.contains("no fused point survived"));
    assert!(warning.contains("8 reverse observations were rejected"));
    assert!(!warning.contains("no sampled pixel passed"));
}

#[test]
fn dense_warning_is_absent_when_dense_did_not_run_and_names_the_first_gate() {
    let idle: DenseStats<()> = DenseStats::default();
    assert!(dense_warning(&idle).is_none());
    let checked: DenseStats<()> = DenseStats { attempted: true, reciprocal_checked_points: 5, ..DenseStats::default() };
    assert_eq!(
        dense_warning(&checked).unwrap(),
        "Slice 4 coarse depth estimation ran from reference frame 0 with 0 registered source views. 5 primary candidates passed the texture, photometric-error, and ambiguity gates, but reciprocal depth consistency rejected all of them. No dense geometry was invented."
    );
    let nothing: DenseStats<()> = DenseStats { attempted: true, reference_frame: Some(4), source_views: 2, ..DenseStats::default() };
    assert_eq!(
        dense_warning(&nothing).unwrap(),
        "Slice 4 coarse depth estimation ran from reference frame 5 with 2 registered source views, but no sampled pixel passed the texture, photometric-error, and ambiguity gates. No dense geometry was invented."
    );
}

#[test]
fn reference_camera_order_puts_nearest_frames_first() {
    // Cameras of frames 4, 1, 6, 3, 9 (frame 9 does not exist among 8 frames).
    let order = reference_camera_order(&vec![4, 1, 6, 3, 9], 8, 0);
    assert_eq!(order, vec![0, 3, 2, 1]);
}

#[test]
fn source_frames_map_back_to_camera_frames() {
    let order = vec![0, 3, 2, 1];
    let frames = remap_source_frames(&vec![1, 3, 7], &order, &vec![4, 1, 6, 3, 9]);
    assert_eq!(frames, vec![3, 1]);
}
