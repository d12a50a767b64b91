use video_to_3d_core::bundle::{
    count_optimizable_cameras, count_optimizable_landmarks, observation_indices_by_camera,
    observation_indices_by_landmark,
};
use video_to_3d_core::dense::DenseReferencePatchStats;
use video_to_3d_core::depth::{check_anchor_count, check_relative_depth_frame, RelativeDepthFitKind};
use video_to_3d_core::mesh::{
    from_legacy, gather, patch_point_indices, MeshAssembly, MeshReferencePatchStats, MeshStats, MeshTriangle,
    ReferenceMeshAnalysis, ReferenceMeshStats,
};
use video_to_3d_core::sampling::deterministic_sample;
use video_to_3d_core::transport::{
    benchmark_triangle_corners, pack_mesh_triangle_indices, validate_geometry_benchmark_counts,
};

fn patch(primary_start: usize, primary_points: usize, completion_start: usize, completed_points: usize) -> DenseReferencePatchStats<()> {
    DenseReferencePatchStats {
        reference_frame: 1,
        source_frames: vec![0],
        primary_start,
        primary_points,
        completion_start,
        completed_points,
        sampled_pixels: 0,
        accepted_points: primary_points + completed_points,
        reciprocal_consistent_points: 0,
        grid_stride: 4,
        grid_border: 3,
        measures: (),
    }
}

fn mesh_stats(attempted: bool, reference_frame: Option<usize>) -> ReferenceMeshStats {
    ReferenceMeshStats {
        attempted,
        skip_reason: None,
        reference_frame,
        grid_vertices: 4,
        rejected_grid_vertices: 1,
        candidate_cells: 2,
        candidate_triangles: 4,
        accepted_triangles: 2,
        rejected_discontinuities: 1,
        rejected_degenerate: 1,
    }
}

fn triangle(a: usize, b: usize, c: usize) -> MeshTriangle<u8> {
    MeshTriangle { a, b, c, confidence: 9 }
}

#[test]
fn patch_indices_cover_primary_then_completion_ranges() {
    assert_eq!(patch_point_indices(&patch(4, 2, 8, 1), 9, 9), Some(vec![4, 5, 8]));
    assert_eq!(patch_point_indices(&patch(4, 2, 8, 2), 9, 9), None);
    assert_eq!(patch_point_indices(&patch(0, 1, 1, 0), 3, 2), None);
    assert_eq!(patch_point_indices(&patch(usize::MAX, 1, 0, 0), 3, 3), None);
}

#[test]
fn gather_reads_the_indices() {
    assert_eq!(gather(&vec![10, 20, 30], &vec![2, 0, 2]), vec![30, 10, 30]);
}

#[test]
fn combines_patch_meshes_over_global_indices() {
    let mut assembly: MeshAssembly<u8> = MeshAssembly::new();
    assembly.add_patch(
        0,
        &vec![0, 1, 2, 3],
        ReferenceMeshAnalysis { stats: mesh_stats(true, Some(0)), triangles: vec![triangle(0, 1, 2), triangle(1, 3, 2)] },
    );
    assembly.skip_patch(7, 5);
    assembly.add_patch(
        1,
        &vec![4, 5, 6, 7],
        ReferenceMeshAnalysis { stats: mesh_stats(false, Some(0)), triangles: vec![triangle(0, 1, 2), triangle(0, 1, 9)] },
    );
    let mesh = assembly.finish();
    assert!(mesh.stats.attempted);
    assert_eq!(mesh.stats.reference_frames, vec![0, 7, 1]);
    assert_eq!(mesh.stats.reference_frame, Some(0));
    assert_eq!(mesh.stats.reference_patches.len(), 3);
    assert_eq!(mesh.stats.accepted_triangles, 3);
    assert_eq!(mesh.stats.grid_vertices, 8);
    assert!(mesh.stats.skip_reason.is_none());
    let corners: Vec<(usize, usize, usize)> = mesh.triangles.iter().map(|t| (t.a, t.b, t.c)).collect();
    assert_eq!(corners, vec![(0, 1, 2), (1, 3, 2), (4, 5, 6)]);
    let skipped = &mesh.stats.reference_patches[1];
    assert_eq!(skipped.point_count, 5);
    assert_eq!(skipped.skip_reason.as_deref(), Some("dense patch ranges exceed the accepted point evidence"));
    assert_eq!(mesh.stats.reference_patches[2].accepted_triangles, 2);
}

#[test]
fn an_empty_assembly_reports_no_triangle() {
    let mesh = MeshAssembly::<u8>::new().finish();
    assert_eq!(mesh.stats.skip_reason.as_deref(), Some("no reference patch produced an accepted surface triangle"));
    assert_eq!(mesh.stats.reference_frame, None);
}

#[test]
fn single_reference_mesh_becomes_one_patch() {
    let mesh = from_legacy(ReferenceMeshAnalysis { stats: mesh_stats(true, Some(3)), triangles: vec![triangle(0, 1, 2)] });
    assert_eq!(mesh.stats.reference_frames, vec![3]);
    assert_eq!(mesh.stats.reference_patches[0].point_count, 5);
    assert_eq!(mesh.stats.accepted_triangles, 2);
    assert_eq!(mesh.triangles.len(), 1);
    let none = from_legacy(ReferenceMeshAnalysis::<u8> { stats: mesh_stats(false, None), triangles: Vec::new() });
    assert!(none.stats.reference_patches.is_empty());
}

#[test]
fn mesh_defaults_are_empty() {
    let stats = MeshStats::default();
    assert!(!stats.attempted && stats.reference_frames.is_empty());
    assert_eq!(MeshReferencePatchStats::default().point_count, 0);
}

#[test]
fn samples_are_distinct_and_in_range() {
    assert_eq!(deterministic_sample(0, 5), None);
    for trial in 0..32 {
        let sample = deterministic_sample(trial, 20).expect("sample");
        for (i, a) in sample.iter().enumerate() {
            assert!(*a < 20);
            assert!(sample[i + 1..].iter().all(|b| b != a));
        }
    }
    assert_eq!(deterministic_sample(3, 20), deterministic_sample(3, 20));
    if let Some(mut all) = deterministic_sample(0, 6) {
        all.sort_unstable();
        assert_eq!(all, [0, 1, 2, 3, 4, 5]);
    }
}

#[test]
fn packed_indices_are_little_endian() {
    let bytes = pack_mesh_triangle_indices(&vec![triangle(0, 1, 258)], 300).expect("packed");
    assert_eq!(bytes, vec![0, 0, 0, 0, 1, 0, 0, 0, 2, 1, 0, 0]);
    let read: Vec<u32> = bytes.chunks(4).map(|c| u32::from_le_bytes([c[0], c[1], c[2], c[3]])).collect();
    assert_eq!(read, vec![0, 1, 258]);
}

#[test]
fn packing_refuses_missing_points() {
    assert_eq!(
        pack_mesh_triangle_indices(&vec![triangle(0, 1, 2), triangle(0, 3, 1)], 3).unwrap_err(),
        "failed to serialize reconstruction: mesh triangle references a missing dense point"
    );
}

#[test]
fn packing_refuses_indices_beyond_u32() {
    let big = u32::MAX as usize + 1;
    assert_eq!(
        pack_mesh_triangle_indices(&vec![triangle(0, 1, big)], usize::MAX).unwrap_err(),
        "failed to serialize reconstruction: dense point index exceeds browser transport range"
    );
}

#[test]
fn benchmark_triangles_wrap_around() {
    assert_eq!(benchmark_triangle_corners(4, 5), (4, 0, 1));
    assert_eq!(benchmark_triangle_corners(7, 3), (1, 2, 0));
    assert_eq!(validate_geometry_benchmark_counts(3), Ok(3));
    assert_eq!(
        validate_geometry_benchmark_counts(2).unwrap_err(),
        "geometry boundary benchmark requires at least three points"
    );
}

#[test]
fn observations_are_grouped_by_landmark_and_camera() {
    let landmarks = vec![1, 0, 1, 1];
    let groups = observation_indices_by_landmark(3, &landmarks);
    assert_eq!(groups, vec![vec![1], vec![0, 2, 3], vec![]]);
    let cameras = vec![0, 0, 1, 0];
    assert_eq!(observation_indices_by_camera(2, &cameras), vec![vec![0, 1, 3], vec![2]]);
    assert_eq!(count_optimizable_landmarks(&groups), 1);
}

#[test]
fn seed_cameras_are_never_optimised() {
    let observations: Vec<Vec<usize>> = vec![(0..8).collect(), (0..8).collect(), (0..8).collect(), (0..7).collect()];
    assert_eq!(count_optimizable_cameras(&vec![0, 1, 2, 3], &observations, 0), 1);
}

#[test]
fn relative_depth_frames_are_checked_before_fitting() {
    assert_eq!(
        check_relative_depth_frame(4, 0, 3, 0, true, &vec![4]).unwrap_err(),
        "relative-depth dimensions are inconsistent"
    );
    assert_eq!(
        check_relative_depth_frame(4, 2, 3, 6, false, &vec![4]).unwrap_err(),
        "accepted focal length is unavailable"
    );
    assert_eq!(
        check_relative_depth_frame(4, 2, 3, 6, true, &vec![1, 2]).unwrap_err(),
        "relative depth does not correspond to an accepted final camera"
    );
    assert_eq!(check_relative_depth_frame(4, 2, 3, 6, true, &vec![1, 4, 4]), Ok(1));
    assert_eq!(
        check_anchor_count(11).as_deref(),
        Some("fewer than 12 valid geometric alignment anchors")
    );
    assert_eq!(check_anchor_count(12), None);
    assert_ne!(RelativeDepthFitKind::Direct, RelativeDepthFitKind::Inverse);
}
