use video_to_3d_core::colmap::{parse_cameras_text, parse_images_text, parse_points_text, ColmapError};

const CAMERAS: &str = "cameras.txt";
const IMAGES: &str = "images.txt";
const POINTS: &str = "points3D.txt";

#[test]
fn reads_sparse_colmap_text_directory() {
    let cameras = parse_cameras_text(CAMERAS, "# cameras\n1 PINHOLE 640 480 500 501 320 240\n").expect("camera fixture");
    let images = parse_images_text(
        IMAGES,
        "# images\n1 1 0 0 0 0 0 0 1 frame_000001.png\n10 20 7 30 40 -1\n2 1 0 0 0 1 0 0 1 frame with spaces.png\n\n",
    )
    .expect("image fixture");
    let points = parse_points_text(POINTS, "# points\n7 1 2 3 255 128 0 0.25 1 0 2 0\n").expect("point fixture");

    assert_eq!(cameras.len(), 1);
    assert_eq!(cameras[0].raw_model, "PINHOLE");
    assert_eq!(images.len(), 2);
    assert_eq!(images[0].points2d.len(), 2);
    assert_eq!(images[0].points2d[1].point3d_id, None);
    assert_eq!(images[1].name, "frame with spaces.png");
    assert!(images[1].points2d.is_empty());
    assert_eq!(points.len(), 1);
    let xyz: Vec<f32> = [&points[0].x, &points[0].y, &points[0].z]
        .iter()
        .map(|value| value.parse::<f32>().expect("coordinate"))
        .collect();
    assert_eq!(xyz, vec![1.0, 2.0, 3.0]);
    assert_eq!(points[0].track.len(), 2);
}

#[test]
fn preserves_full_u64_point_ids() {
    let images = parse_images_text(IMAGES, "1 1 0 0 0 0 0 0 1 frame.png\n10 20 18446744073709551615\n")
        .expect("u64 point id parses");
    assert_eq!(images[0].points2d[0].point3d_id, Some(u64::MAX));
}

#[test]
fn rejects_negative_point_ids_other_than_the_colmap_sentinel() {
    let error = parse_images_text(IMAGES, "1 1 0 0 0 0 0 0 1 frame.png\n10 20 -2\n").expect_err("-2 is not a sentinel");
    assert!(error.message().contains("point3D id"));
}

#[test]
fn rejects_malformed_point_track() {
    parse_cameras_text(CAMERAS, "1 PINHOLE 1 1 1 1 0 0\n").expect("camera fixture");
    parse_images_text(IMAGES, "").expect("image fixture");
    let error = parse_points_text(POINTS, "7 1 2 3 255 128 0 0.25 1\n").expect_err("track must be rejected");
    assert!(error.message().contains("track"));
}

#[test]
fn parse_errors_name_the_file_and_line() {
    let error = parse_cameras_text(CAMERAS, "# header\n1 PINHOLE 640\n").expect_err("too few fields");
    assert_eq!(error.message(), "parse error in cameras.txt:2: camera line requires at least 5 fields");
    match error {
        ColmapError::Parse { line, .. } => assert_eq!(line, 2),
        ColmapError::Io(_) => panic!("expected a parse error"),
    }
}

#[test]
fn camera_width_must_be_an_unsigned_integer() {
    let error = parse_cameras_text(CAMERAS, "1 PINHOLE -640 480 1\n").expect_err("negative width");
    assert!(error.message().contains("width"));
}

#[test]
fn point_colours_and_errors_are_kept() {
    let points = parse_points_text(POINTS, "9 0 0 0 1 2 3 1.5e-3 4 5\n").expect("point");
    assert_eq!(points[0].id, 9);
    assert_eq!(points[0].color, [1, 2, 3]);
    assert_eq!(points[0].error, "1.5e-3");
    assert_eq!(points[0].track[0].image_id, 4);
    assert_eq!(points[0].track[0].point2d_index, 5);
}

#[test]
fn io_errors_describe_themselves() {
    assert_eq!(ColmapError::Io("missing".to_string()).message(), "I/O error: missing");
}
