use wbphotogrammetry::dense::{
    census_mismatch_counts, square_window_candidates, suffixed_file_name, with_suffix_before_ext,
};
use wbphotogrammetry::fast::GrayImage;

#[test]
fn search_window_lists_interior_pixels_in_raster_order() {
    assert_eq!(
        square_window_candidates(5, 5, 1, 20, 20, 2),
        vec![(4, 4), (5, 4), (6, 4), (4, 5), (5, 5), (6, 5), (4, 6), (5, 6), (6, 6)]
    );
    assert_eq!(
        square_window_candidates(3, 3, 1, 20, 20, 2),
        vec![(3, 3), (4, 3), (3, 4), (4, 4)]
    );
    assert_eq!(square_window_candidates(7, 8, 0, 20, 20, 2), vec![(7, 8)]);
    assert!(square_window_candidates(7, 8, -1, 20, 20, 2).is_empty());
    assert!(square_window_candidates(1, 1, 0, 20, 20, 2).is_empty());
    let big = square_window_candidates(10, 10, 4, 14, 30, 2);
    assert_eq!(big.len(), 6 * 9);
    assert!(big.iter().all(|&(x, y)| (6..=11).contains(&x) && (6..=14).contains(&y)));
}

#[test]
fn census_counts_differing_bits_around_centres() {
    let flat = GrayImage::from_pixel(9, 9, 10).expect("image");
    assert_eq!(census_mismatch_counts(&flat, &flat, 4, 4, 4, 4, 1), (0, 8));
    let mut right = GrayImage::from_pixel(9, 9, 10).expect("image");
    right.put_pixel(5, 4, 5);
    assert_eq!(census_mismatch_counts(&flat, &right, 4, 4, 4, 4, 1), (1, 8));
    assert_eq!(census_mismatch_counts(&flat, &right, 4, 4, 4, 4, 2), (1, 24));
    assert_eq!(census_mismatch_counts(&flat, &right, 4, 4, 4, 4, 0), (0, 0));
}

#[test]
fn side_outputs_take_a_suffix_before_the_extension() {
    assert_eq!(with_suffix_before_ext("out/dsm.tif", "_support"), "out/dsm_support.tif");
    assert_eq!(with_suffix_before_ext("/data/run.1/dsm.v2.tif", "_u"), "/data/run.1/dsm.v2_u.tif");
    assert_eq!(with_suffix_before_ext("dsm", "_uncertainty"), "dsm_uncertainty.tif");
    assert_eq!(suffixed_file_name(None, None, "_s"), "output_s.tif");
    assert_eq!(suffixed_file_name(Some("a"), Some("png"), ""), "a.png");
}
