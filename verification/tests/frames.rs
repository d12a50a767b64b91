use video_to_3d_core::frames::{
    descriptor, descriptor_difference_total, first_target_uses, sample_luma, sample_rgb, select_spaced_candidates, to_luma,
    validate_request, within_match_radius, FrameInput,
};

fn synthetic_frame(width: u32, height: u32, shift_x: i32) -> FrameInput {
    let mut rgba = vec![18u8; width as usize * height as usize * 4];
    for pixel in rgba.chunks_exact_mut(4) {
        pixel[3] = 255;
    }

    for (index, (base_x, base_y)) in [
        (18, 16),
        (37, 21),
        (58, 15),
        (24, 39),
        (48, 44),
        (70, 36),
        (15, 58),
        (41, 62),
        (66, 57),
    ]
    .into_iter()
    .enumerate()
    {
        let depth_shift = (index as i32 % 3) * shift_x / 3;
        let x = base_x + shift_x + depth_shift;
        if x < 3 || x >= width as i32 - 4 || base_y < 3 || base_y >= height as i32 - 4 {
            continue;
        }
        let intensity = 90 + index as u8 * 16;
        for py in base_y - 2..=base_y + 2 {
            for px in x - 2..=x + 2 {
                let edge = px == x - 2 || px == x + 2 || py == base_y - 2 || py == base_y + 2;
                let value = if edge { 245 } else { intensity };
                let offset = (py as usize * width as usize + px as usize) * 4;
                rgba[offset] = value;
                rgba[offset + 1] = value.saturating_sub(index as u8 * 2);
                rgba[offset + 2] = value / 2;
            }
        }
    }

    FrameInput { width, height, rgba }
}

#[test]
fn rejects_invalid_focal_length() {
    // A focal length of 0 pixels is not finite and positive.
    let frames = vec![synthetic_frame(96, 80, 0), synthetic_frame(96, 80, 3)];
    assert!(validate_request(&frames, true, false).is_err());
}

#[test]
fn rejects_malformed_rgba_payloads() {
    let frames = vec![
        FrameInput { width: 96, height: 80, rgba: vec![0; 4] },
        synthetic_frame(96, 80, 0),
    ];
    assert!(validate_request(&frames, true, true).is_err());
}

#[test]
fn request_faults_come_in_order() {
    let frame = synthetic_frame(96, 80, 0);
    assert_eq!(validate_request(&vec![frame.clone()], true, true).unwrap_err(), "at least two sampled frames are required");
    let frames = vec![frame.clone(), frame.clone()];
    assert_eq!(validate_request(&frames, false, false).unwrap_err(), "max descriptor distance must be positive");
    assert_eq!(validate_request(&frames, true, false).unwrap_err(), "focal length in pixels must be finite and positive");
    assert!(validate_request(&frames, true, true).is_ok());
    let small = FrameInput { width: 16, height: 80, rgba: vec![0; 16 * 80 * 4] };
    assert_eq!(
        validate_request(&vec![small.clone(), small], true, true).unwrap_err(),
        "sampled frames are too small for reconstruction"
    );
    let other = synthetic_frame(96, 64, 0);
    assert_eq!(validate_request(&vec![frame.clone(), other], true, true).unwrap_err(), "all sampled frames must share dimensions");
    let short = FrameInput { width: 96, height: 80, rgba: vec![0; 4] };
    assert_eq!(
        validate_request(&vec![frame, short], true, true).unwrap_err(),
        "invalid RGBA payload: expected 30720 bytes, got 4"
    );
}

#[test]
fn luma_weights_the_channels() {
    let frame = FrameInput { width: 2, height: 1, rgba: vec![255, 255, 255, 255, 100, 0, 0, 7, 9] };
    // (77 + 150 + 29) * 255 / 256 = 255; 77 * 100 / 256 = 30; the trailing byte is ignored.
    assert_eq!(to_luma(&frame), vec![255, 30]);
}

#[test]
fn samples_read_row_major_pixels() {
    let luma = vec![1, 2, 3, 4, 5, 6];
    assert_eq!(sample_luma(&luma, 3, 2, 1), 6);
    let frame = FrameInput { width: 2, height: 1, rgba: vec![1, 2, 3, 4, 5, 6, 7, 8] };
    assert_eq!(sample_rgb(&frame, 1, 0), (5, 6, 7));
}

#[test]
fn descriptor_subtracts_the_window_mean() {
    let luma: Vec<u8> = (0..25).collect();
    // The 3x3 window around (2, 2) holds 6, 7, 8, 11, 12, 13, 16, 17, 18; its mean is 12.
    assert_eq!(descriptor(&luma, 5, 2, 2, 1), vec![-6, -5, -4, -1, 0, 1, 4, 5, 6]);
}

#[test]
fn descriptor_mean_rounds_toward_zero() {
    let luma = vec![0, 0, 0, 0, 1, 0, 0, 0, 0];
    assert_eq!(descriptor(&luma, 3, 1, 1, 1), vec![0, 0, 0, 0, 1, 0, 0, 0, 0]);
}

#[test]
fn descriptor_difference_total_sums_over_the_shorter() {
    assert_eq!(descriptor_difference_total(&[1, -2, 3], &[4, 2]), 7);
}

#[test]
fn spaced_selection_skips_close_candidates_and_stops_at_the_limit() {
    let candidates = vec![(10, 10), (12, 10), (30, 10), (10, 40), (50, 50)];
    assert_eq!(select_spaced_candidates(&candidates, 3, 7), vec![0, 2, 3]);
    assert_eq!(select_spaced_candidates(&candidates, 10, 7), vec![0, 2, 3, 4]);
    assert_eq!(select_spaced_candidates(&candidates, 0, 7), vec![0]);
    assert_eq!(select_spaced_candidates(&candidates, 10, 0), vec![0, 1, 2, 3, 4]);
}

#[test]
fn first_uses_keep_the_best_proposal_per_target() {
    assert_eq!(first_target_uses(&vec![4, 2, 4, 7, 2]), vec![0, 1, 3]);
}

#[test]
fn match_radius_is_inclusive() {
    assert!(within_match_radius((0, 0), (3, 4), 5));
    assert!(!within_match_radius((0, 0), (3, 5), 5));
    assert!(within_match_radius((u32::MAX, 0), (u32::MAX, 0), 0));
}
