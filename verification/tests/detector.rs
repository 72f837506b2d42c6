use wbphotogrammetry::fast::{
    detect_fast_corners, fast_circle_offset, fast_corner_score, has_contiguous_run,
    is_local_maximum, is_patch_inside, orb_fast_threshold_for_level, patch_average, GrayImage,
    FAST_EDGE_RADIUS_PX, NON_MAX_SUPPRESSION_RADIUS_PX,
};

#[test]
fn non_max_suppression_rejects_weaker_and_tie_keypoints() {
    let width = 7_u32;
    let height = 7_u32;
    let mut score_map = vec![0_u32; (width * height) as usize];

    // Stronger neighbor should suppress current point.
    score_map[(3 * width + 3) as usize] = 10;
    score_map[(3 * width + 4) as usize] = 12;
    assert!(!is_local_maximum(
        &score_map,
        width,
        height,
        3,
        3,
        10,
        NON_MAX_SUPPRESSION_RADIUS_PX,
    ));

    // Equal-score ties are broken deterministically by raster order.
    score_map[(3 * width + 4) as usize] = 10;
    assert!(is_local_maximum(
        &score_map,
        width,
        height,
        3,
        3,
        10,
        NON_MAX_SUPPRESSION_RADIUS_PX,
    ));
    assert!(!is_local_maximum(
        &score_map,
        width,
        height,
        4,
        3,
        10,
        NON_MAX_SUPPRESSION_RADIUS_PX,
    ));
}

fn checker_image() -> GrayImage {
    let mut img = GrayImage::from_pixel(96, 96, 0).expect("image");
    for y in 0..96 {
        for x in 0..96 {
            let value = if ((x / 8) + (y / 8)) % 2 == 0 { 20 } else { 230 };
            img.put_pixel(x, y, value);
        }
    }
    for y in 16..80 {
        img.put_pixel(20, y, 255);
        img.put_pixel(68, y, 0);
    }
    for x in 16..80 {
        img.put_pixel(x, 24, 255);
        img.put_pixel(x, 72, 0);
    }
    img
}

#[test]
fn full_detector_path_returns_only_local_maxima() {
    let img = checker_image();

    let threshold = 20_u8;
    let keypoints = detect_fast_corners(&img, threshold, 300);
    assert!(!keypoints.is_empty(), "expected detector to find corners");

    let width = img.width;
    let height = img.height;
    let mut score_map = vec![0_u32; (width * height) as usize];
    for y in FAST_EDGE_RADIUS_PX..(height - FAST_EDGE_RADIUS_PX) {
        for x in FAST_EDGE_RADIUS_PX..(width - FAST_EDGE_RADIUS_PX) {
            if let Some(score) = fast_corner_score(&img, x as i32, y as i32, threshold) {
                score_map[(y * width + x) as usize] = score;
            }
        }
    }

    for keypoint in keypoints {
        assert!(is_local_maximum(
            &score_map,
            width,
            height,
            keypoint.x as i32,
            keypoint.y as i32,
            keypoint.score,
            NON_MAX_SUPPRESSION_RADIUS_PX,
        ));
    }
}

#[test]
fn detected_corners_are_sorted_spaced_and_capped() {
    let img = checker_image();
    let keypoints = detect_fast_corners(&img, 20, 300);
    assert!(keypoints.len() <= 300);
    for w in keypoints.windows(2) {
        assert!(w[0].score >= w[1].score);
    }
    for (i, a) in keypoints.iter().enumerate() {
        assert!(a.x >= FAST_EDGE_RADIUS_PX && a.x < 96 - FAST_EDGE_RADIUS_PX);
        assert!(a.y >= FAST_EDGE_RADIUS_PX && a.y < 96 - FAST_EDGE_RADIUS_PX);
        for b in keypoints.iter().skip(i + 1) {
            let dx = a.x as i64 - b.x as i64;
            let dy = a.y as i64 - b.y as i64;
            assert!(dx * dx + dy * dy > 25);
        }
    }
    let capped = detect_fast_corners(&img, 20, 3);
    assert_eq!(capped.len(), 3);
    assert_eq!(&capped[..], &keypoints[..3]);
}

#[test]
fn flat_image_has_no_corners() {
    let img = GrayImage::from_pixel(64, 64, 128).expect("image");
    assert_eq!(fast_corner_score(&img, 32, 32, 10), None);
    assert!(detect_fast_corners(&img, 10, 100).is_empty());
}

#[test]
fn bright_spot_scores_sum_of_circle_differences() {
    let mut img = GrayImage::from_pixel(64, 64, 10).expect("image");
    img.put_pixel(32, 32, 200);
    // Every circle pixel is 190 darker than the centre.
    assert_eq!(fast_corner_score(&img, 32, 32, 20), Some(16 * 190));
    assert_eq!(fast_corner_score(&img, 32, 32, 195), None);
}

#[test]
fn contiguous_run_wraps_around_the_circle() {
    let mut flags = [false; 16];
    for i in 12..16 {
        flags[i] = true;
    }
    for i in 0..5 {
        flags[i] = true;
    }
    assert!(has_contiguous_run(&flags, 9));
    flags[0] = false;
    assert!(!has_contiguous_run(&flags, 9));
    assert!(has_contiguous_run(&flags, 4));
}

#[test]
fn circle_offsets_follow_bresenham_ring() {
    assert_eq!(fast_circle_offset(0), (0, -3));
    assert_eq!(fast_circle_offset(4), (3, 0));
    assert_eq!(fast_circle_offset(8), (0, 3));
    assert_eq!(fast_circle_offset(12), (-3, 0));
    assert_eq!(fast_circle_offset(15), (-1, -3));
}

#[test]
fn patch_average_is_truncated_box_mean() {
    let mut img = GrayImage::from_pixel(16, 16, 0).expect("image");
    img.put_pixel(8, 8, 250);
    assert_eq!(patch_average(&img, 8, 8), 10);
    assert_eq!(patch_average(&img, 1, 1), 0);
    let img2 = GrayImage::from_pixel(16, 16, 77).expect("image");
    assert_eq!(patch_average(&img2, 0, 0), 77);
}

#[test]
fn patch_inside_accounts_for_averaging_radius() {
    let img = GrayImage::from_pixel(40, 40, 0).expect("image");
    assert!(is_patch_inside(&img, 20, 20, 15));
    assert!(!is_patch_inside(&img, 20, 20, 18));
    assert!(!is_patch_inside(&img, 3, 20, 2));
}

#[test]
fn orb_threshold_drops_by_level_to_floor() {
    assert_eq!(orb_fast_threshold_for_level(16, 0), 16);
    assert_eq!(orb_fast_threshold_for_level(16, 3), 10);
    assert_eq!(orb_fast_threshold_for_level(16, 6), 6);
    assert_eq!(orb_fast_threshold_for_level(4, 0), 6);
}

#[test]
fn image_construction_rejects_oversized_buffers() {
    assert!(GrayImage::from_pixel(0x4000_0000, 1, 0).is_none());
    assert!(GrayImage::from_pixel(70_000, 70_000, 0).is_none());
    let img = GrayImage::from_pixel(3, 2, 9).expect("image");
    assert_eq!(img.pixels.len(), 6);
    assert_eq!(img.get_pixel(2, 1), 9);
}
