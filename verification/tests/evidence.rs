use video_to_3d_core::evidence::{
    classic_camera_evidence, classic_surface_regions, evidence_diagnostic, summarize, validate_evidence,
    EvidenceCameraCheck, EvidenceOrigin, EvidenceRange, EvidenceTriangleCheck, ReconstructionProviderClass,
    ReconstructionProviderDescriptor, SurfaceEvidenceRegion, RECONSTRUCTION_EVIDENCE_SCHEMA_VERSION,
};

fn camera(frame_index: usize) -> EvidenceCameraCheck {
    EvidenceCameraCheck {
        frame_index,
        finite_pose: true,
        valid_confidence: true,
        valid_reprojection_error: true,
    }
}

#[test]
fn provider_boundary_borrows_geometry_buffers() {
    let points = vec![true, true, true];
    let triangles = vec![EvidenceTriangleCheck { a: 0, b: 1, c: 2, valid_confidence: true }];
    let regions = vec![SurfaceEvidenceRegion {
        origin: EvidenceOrigin::LearnedMultiView,
        reference_frame: Some(0),
        source_frames: vec![1],
        points: EvidenceRange::new(0, 3),
    }];
    let provider = ReconstructionProviderDescriptor::new(
        "test/learned".to_string(),
        ReconstructionProviderClass::LearnedMultiView,
        Some("1".into()),
    )
    .expect("provider");
    validate_evidence(
        RECONSTRUCTION_EVIDENCE_SCHEMA_VERSION,
        &provider.id,
        &[camera(0), camera(1)],
        &points,
        &regions,
        &triangles,
    )
    .expect("valid evidence");

    assert_eq!(summarize(2, &regions, points.len(), triangles.len()).learned_points, 3);
}

#[test]
fn provenance_must_partition_the_shared_point_buffer() {
    let points = vec![true, true];
    let regions = vec![SurfaceEvidenceRegion {
        origin: EvidenceOrigin::LearnedMultiView,
        reference_frame: Some(0),
        source_frames: vec![1],
        points: EvidenceRange::new(1, 1),
    }];
    let provider = ReconstructionProviderDescriptor::new(
        "test/learned".to_string(),
        ReconstructionProviderClass::LearnedMultiView,
        None,
    )
    .expect("provider");
    let error = validate_evidence(
        RECONSTRUCTION_EVIDENCE_SCHEMA_VERSION,
        &provider.id,
        &[camera(0), camera(1)],
        &points,
        &regions,
        &[],
    )
    .expect_err("provenance gap must fail closed");
    assert!(error.contains("exact non-overlapping partition"));
}

#[test]
fn generative_completion_can_remain_explicitly_camera_free() {
    let points = vec![true];
    let regions = vec![SurfaceEvidenceRegion {
        origin: EvidenceOrigin::GenerativeCompletion,
        reference_frame: None,
        source_frames: Vec::new(),
        points: EvidenceRange::new(0, 1),
    }];
    let provider = ReconstructionProviderDescriptor::new(
        "test/completion".to_string(),
        ReconstructionProviderClass::GenerativeCompletion,
        None,
    )
    .expect("provider");
    validate_evidence(RECONSTRUCTION_EVIDENCE_SCHEMA_VERSION, &provider.id, &[], &points, &regions, &[])
        .expect("explicit generative completion provenance is valid");
    assert_eq!(summarize(0, &regions, 1, 0).generative_completion_points, 1);
}

#[test]
fn classic_uncalibrated_result_stays_empty_and_borrowed() {
    // Two flat frames: no seed pair, no registered views and no dense patches.
    let cameras = classic_camera_evidence(None, &Vec::new(), 0).expect("classic evidence");
    let regions = classic_surface_regions(&Vec::new());
    let provider = ReconstructionProviderDescriptor::classic();

    assert!(cameras.is_empty());
    assert!(regions.is_empty());
    assert_eq!(provider.id, "video-to-3d-core/classic");
}

#[test]
fn blank_provider_ids_are_refused() {
    let error = ReconstructionProviderDescriptor::new("  ".to_string(), ReconstructionProviderClass::LearnedMultiView, None)
        .expect_err("blank id");
    assert_eq!(error, "reconstruction evidence provider id must not be empty");
}

#[test]
fn duplicate_camera_frames_are_refused() {
    let error = validate_evidence(RECONSTRUCTION_EVIDENCE_SCHEMA_VERSION, "p", &[camera(2), camera(2)], &[], &Vec::new(), &[])
        .expect_err("duplicate frames");
    assert!(error.contains("2"));
}

#[test]
fn unsupported_schema_is_refused() {
    let error = validate_evidence(7, "p", &[], &[], &Vec::new(), &[]).expect_err("schema");
    assert_eq!(error, "unsupported reconstruction evidence schema version 7");
}

#[test]
fn triangles_must_join_distinct_points_of_the_buffer() {
    let regions = vec![SurfaceEvidenceRegion {
        origin: EvidenceOrigin::GenerativeCompletion,
        reference_frame: None,
        source_frames: Vec::new(),
        points: EvidenceRange::new(0, 2),
    }];
    let triangles = [EvidenceTriangleCheck { a: 0, b: 1, c: 1, valid_confidence: true }];
    assert!(validate_evidence(RECONSTRUCTION_EVIDENCE_SCHEMA_VERSION, "p", &[], &[true, true], &regions, &triangles).is_err());
}

#[test]
fn diagnostic_reports_the_counts() {
    let regions = vec![SurfaceEvidenceRegion {
        origin: EvidenceOrigin::GeometricMultiView,
        reference_frame: Some(0),
        source_frames: vec![1],
        points: EvidenceRange::new(0, 4),
    }];
    let summary = summarize(2, &regions, 4, 1);
    assert_eq!(
        evidence_diagnostic(RECONSTRUCTION_EVIDENCE_SCHEMA_VERSION, "video-to-3d-core/classic", &summary),
        "Provider-neutral reconstruction evidence v1 validated for video-to-3d-core/classic: 2 accepted cameras, 1 provenance regions, 4 shared dense points (4 geometric, 0 revalidated completion, 0 learned, 0 generative completion), and 1 accepted triangles. The evidence view borrows the existing geometry buffers instead of materializing a second point cloud or mesh."
    );
}
