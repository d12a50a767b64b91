use video_to_3d_core::evidence::{EvidenceOrigin, EvidenceRange, SurfaceEvidenceRegion};
use video_to_3d_core::surface::{
    evidence_support_membership, fusion_diagnostic, record_surface_fusion, remove_stale_surface_fusion_claim,
    FusionStats, POST_FUSION_WARNING_CLAIM, PRE_FUSION_WARNING_CLAIM,
};

fn region(
    origin: EvidenceOrigin,
    reference_frame: Option<usize>,
    source_frames: Vec<usize>,
    start: usize,
    count: usize,
) -> SurfaceEvidenceRegion {
    SurfaceEvidenceRegion {
        origin,
        reference_frame,
        source_frames,
        points: EvidenceRange::new(start, count),
    }
}

#[test]
fn groups_evidence_regions_by_camera_support_instead_of_dense_patch_identity() {
    let regions = vec![
        region(EvidenceOrigin::GeometricMultiView, Some(0), vec![2, 1], 0, 2),
        region(EvidenceOrigin::RevalidatedCompletion, Some(0), vec![1, 2], 2, 1),
        region(EvidenceOrigin::LearnedMultiView, Some(3), vec![4], 3, 1),
        region(EvidenceOrigin::GenerativeCompletion, None, Vec::new(), 4, 1),
    ];

    let (membership, groups) = evidence_support_membership(&regions, 5);

    assert_eq!(groups, 2);
    assert_eq!(membership, vec![Some(0), Some(0), Some(0), Some(1), None]);
}

#[test]
fn out_of_range_regions_still_form_a_group_but_mark_no_point() {
    let regions = vec![
        region(EvidenceOrigin::GeometricMultiView, Some(1), vec![], 2, 5),
        region(EvidenceOrigin::GeometricMultiView, Some(2), vec![3], 0, 1),
        region(EvidenceOrigin::GeometricMultiView, Some(1), vec![], usize::MAX, 2),
    ];
    let (membership, groups) = evidence_support_membership(&regions, 3);
    assert_eq!(groups, 2);
    assert_eq!(membership, vec![Some(1), None, None]);
}

#[test]
fn later_regions_mark_over_earlier_ones() {
    let regions = vec![
        region(EvidenceOrigin::GeometricMultiView, Some(1), vec![], 0, 3),
        region(EvidenceOrigin::GeometricMultiView, Some(2), vec![], 1, 1),
    ];
    let (membership, groups) = evidence_support_membership(&regions, 3);
    assert_eq!(groups, 2);
    assert_eq!(membership, vec![Some(0), Some(1), Some(0)]);
}

#[test]
fn removes_the_stale_not_claimed_warning_after_successful_fusion() {
    let mut warnings = vec![format!("Surface preview; {PRE_FUSION_WARNING_CLAIM}")];

    remove_stale_surface_fusion_claim(&mut warnings);

    assert!(!warnings[0].contains("arbitrary multi-reference surface fusion"));
    assert!(warnings[0].contains(POST_FUSION_WARNING_CLAIM));
}

#[test]
fn unrelated_warnings_stay_as_they_are() {
    let mut warnings = vec!["Dense preview only.".to_string()];
    remove_stale_surface_fusion_claim(&mut warnings);
    assert_eq!(warnings, vec!["Dense preview only.".to_string()]);
}

#[test]
fn fusion_diagnostic_reports_aligned_pairs() {
    let stats = FusionStats {
        eligible_vertices: 10,
        candidate_pairs: 7,
        rejected_normal_pairs: 2,
        rejected_topology_pairs: 1,
        fused_pairs: 4,
    };
    assert_eq!(
        fusion_diagnostic(stats, 3),
        "Cross-reference surface fusion aligned 4 mutually nearest seam vertex pairs across 3 validated camera-support groups (7 bounded cross-group candidates considered; 2 rejected for surface-normal disagreement and 1 because the complete proposed seam move set would weaken accepted triangle topology). No vertices or triangles were fabricated."
    );
}

#[test]
fn fusion_diagnostic_reports_separate_groups() {
    let stats = FusionStats {
        eligible_vertices: 12,
        candidate_pairs: 5,
        rejected_normal_pairs: 5,
        rejected_topology_pairs: 0,
        fused_pairs: 0,
    };
    assert_eq!(
        fusion_diagnostic(stats, 2),
        "Cross-reference surface fusion kept 2 validated camera-support groups separate: 12 mesh vertices were eligible and 5 bounded cross-group candidates were considered, but none passed the mutual-nearest, aligned-normal, and topology-preservation gates. No unsupported holes were closed."
    );
}

#[test]
fn recording_fusion_updates_claim_only_after_alignment() {
    let stats = FusionStats {
        eligible_vertices: 1,
        candidate_pairs: 0,
        rejected_normal_pairs: 0,
        rejected_topology_pairs: 0,
        fused_pairs: 0,
    };
    let mut warnings = vec![format!("Preview; {PRE_FUSION_WARNING_CLAIM}")];
    record_surface_fusion(&mut warnings, stats, 2);
    assert_eq!(warnings.len(), 2);
    assert!(warnings[0].contains(PRE_FUSION_WARNING_CLAIM));

    let fused = FusionStats { fused_pairs: 1, ..stats };
    let mut warnings = vec![format!("Preview; {PRE_FUSION_WARNING_CLAIM}")];
    record_surface_fusion(&mut warnings, fused, 2);
    assert_eq!(warnings[0], format!("Preview; {POST_FUSION_WARNING_CLAIM}"));
    assert!(warnings[1].starts_with("Cross-reference surface fusion aligned 1"));
}
