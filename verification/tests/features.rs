use video_to_3d_core::features::{
    brief_offset, fast9_strength, has_circular_run, hamming_distance, is_fast_local_maximum, patch_descriptor,
    patch_difference_total, rgba_to_luma, sample, sample_offset, validate_input, FeatureAlgorithm, FeatureOptionChecks,
    GrayImage,
};

fn checks() -> FeatureOptionChecks {
    FeatureOptionChecks {
        max_features: 400,
        fast_threshold: 18,
        orb_max_hamming: 82,
        pyramid_levels: 4,
        baseline_max_distance_valid: true,
        ratio_threshold_valid: true,
    }
}

fn flat(width: u32, height: u32, value: u8) -> GrayImage {
    GrayImage { width, height, pixels: vec![value; (width * height) as usize] }
}

#[test]
fn default_algorithm_is_the_baseline() {
    assert_eq!(FeatureAlgorithm::default(), FeatureAlgorithm::BaselineHarrisPatch);
}

#[test]
fn luma_of_rgba_pixels() {
    assert_eq!(rgba_to_luma(&[0, 0, 255, 9, 10, 20, 30, 0]), vec![28, 18]);
}

#[test]
fn sampling_clamps_to_the_image() {
    let image = GrayImage { width: 3, height: 2, pixels: vec![1, 2, 3, 4, 5, 6] };
    assert_eq!(sample(&image, 1, 1), 5);
    assert_eq!(sample_offset(&image, 0, 0, -5, -5), 1);
    assert_eq!(sample_offset(&image, 2, 1, 9, 9), 6);
    assert_eq!(sample_offset(&image, 1, 0, 1, 1), 6);
}

#[test]
fn circular_runs_may_wrap_around() {
    let mut values = [false; 16];
    for index in [12, 13, 14, 15, 0, 1, 2, 3, 4] {
        values[index] = true;
    }
    assert!(has_circular_run(&values, 9));
    assert!(!has_circular_run(&values, 10));
    assert!(has_circular_run(&[true; 16], 16));
    assert!(!has_circular_run(&[false; 16], 1));
}

#[test]
fn fast_segment_test_finds_a_bright_corner() {
    // A dark centre with a bright ring: every circle position is brighter.
    let mut image = flat(9, 9, 200);
    image.pixels[4 * 9 + 4] = 10;
    assert_eq!(fast9_strength(&image, 4, 4, 18), Some(16 * 190));
    let uniform = flat(9, 9, 50);
    assert_eq!(fast9_strength(&uniform, 4, 4, 18), None);
}

#[test]
fn fast_local_maximum_compares_neighbours() {
    let mut image = flat(11, 11, 200);
    image.pixels[5 * 11 + 5] = 10;
    let strength = fast9_strength(&image, 5, 5, 18).expect("corner");
    assert!(is_fast_local_maximum(&image, 5, 5, 18, strength));
    assert!(!is_fast_local_maximum(&image, 4, 5, 18, 0));
}

#[test]
fn brief_offsets_lie_in_the_patch_disc() {
    for seed in [0u32, 1, 0x9e37_79b9, 0x7f4a_7c15, u32::MAX] {
        let (x, y) = brief_offset(seed);
        assert!(x * x + y * y <= 49);
    }
    assert_eq!(brief_offset(0), brief_offset(0));
}

#[test]
fn brief_offset_of_a_known_seed() {
    // 0 -> 1013904223 -> 1196435762: coordinates (15470 % 15) - 7 = -2 and (18256 % 15) - 7 = -6.
    assert_eq!(brief_offset(0), (-2, -6));
}

#[test]
fn hamming_distance_counts_differing_bits() {
    assert_eq!(hamming_distance(&[0, 0, 0, 0], &[0, 0, 0, 0]), 0);
    assert_eq!(hamming_distance(&[u64::MAX, 1, 0, 0], &[0, 0, 0, 3]), 67);
}

#[test]
fn patch_difference_needs_equal_lengths() {
    assert_eq!(patch_difference_total(&vec![1, 2, 3], &vec![1, 0, 6]), Some(13));
    assert_eq!(patch_difference_total(&vec![1, 2], &vec![1]), None);
}

#[test]
fn patch_descriptor_centres_the_window() {
    let image = GrayImage { width: 3, height: 3, pixels: vec![0, 0, 0, 0, 9, 0, 0, 0, 0] };
    assert_eq!(patch_descriptor(&image, 1, 1, 1), vec![-1, -1, -1, -1, 8, -1, -1, -1, -1]);
}

#[test]
fn input_faults_come_in_order() {
    let frame = vec![0u8; 32 * 24 * 4];
    assert!(validate_input(&frame, &frame, 32, 24, checks()).is_ok());
    assert_eq!(
        validate_input(&frame, &frame, 31, 24, checks()).unwrap_err(),
        "feature analysis requires frames of at least 32x24 pixels"
    );
    assert_eq!(
        validate_input(&frame, &[0; 4], 32, 24, checks()).unwrap_err(),
        "invalid RGBA payload: expected 3072 bytes per frame, got 3072 and 4"
    );
    let mut options = checks();
    options.max_features = 0;
    assert_eq!(validate_input(&frame, &frame, 32, 24, options).unwrap_err(), "max_features must be positive");
    let mut options = checks();
    options.fast_threshold = 0;
    assert_eq!(validate_input(&frame, &frame, 32, 24, options).unwrap_err(), "fast_threshold must be positive");
    let mut options = checks();
    options.baseline_max_distance_valid = false;
    assert_eq!(
        validate_input(&frame, &frame, 32, 24, options).unwrap_err(),
        "baseline_max_distance must be finite and positive"
    );
    let mut options = checks();
    options.orb_max_hamming = 257;
    assert_eq!(validate_input(&frame, &frame, 32, 24, options).unwrap_err(), "orb_max_hamming must be between 1 and 256");
    let mut options = checks();
    options.ratio_threshold_valid = false;
    assert_eq!(validate_input(&frame, &frame, 32, 24, options).unwrap_err(), "ratio_threshold must be between 0 and 1");
    let mut options = checks();
    options.pyramid_levels = 0;
    assert_eq!(validate_input(&frame, &frame, 32, 24, options).unwrap_err(), "pyramid_levels must be positive");
}
