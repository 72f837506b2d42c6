use std::collections::HashSet;
use wbphotogrammetry::brief::{
    best_two_binary_matches, brief_descriptor_words, build_deterministic_test_pairs,
    compute_brief_descriptors, count_ones_u64, hamming_distance, match_binary_descriptors,
    mutual_best_matches, passes_ratio_test, select_test_pairs, BriefDescriptor, DescriptorMatch,
    TestPair,
};
use wbphotogrammetry::fast::{GrayImage, Keypoint};

#[test]
fn deterministic_brief_pattern_has_high_uniqueness() {
    let pairs = build_deterministic_test_pairs(256);
    assert_eq!(pairs.len(), 256);

    let mut seen = HashSet::new();
    for pair in &pairs {
        let key = (pair.p0.0, pair.p0.1, pair.p1.0, pair.p1.1);
        let reverse_key = (pair.p1.0, pair.p1.1, pair.p0.0, pair.p0.1);
        assert!(!seen.contains(&key), "duplicate BRIEF test pair generated");
        assert!(
            !seen.contains(&reverse_key),
            "mirror-duplicate BRIEF test pair generated"
        );
        seen.insert(key);
    }
}

#[test]
fn brief_pattern_starts_with_the_seeded_draws() {
    let pairs = build_deterministic_test_pairs(3);
    assert_eq!(pairs.len(), 3);
    assert_eq!((pairs[0].p0, pairs[0].p1), ((9, 9), (8, -7)));
    assert_eq!((pairs[1].p0, pairs[1].p1), ((-13, 0), (9, 15)));
    assert_eq!((pairs[2].p0, pairs[2].p1), ((-12, -1), (-7, 5)));
    for p in &build_deterministic_test_pairs(256) {
        for v in [p.p0.0, p.p0.1, p.p1.0, p.p1.1] {
            assert!((-15..=15).contains(&v));
        }
        let dx = p.p1.0 - p.p0.0;
        let dy = p.p1.1 - p.p0.1;
        assert!(dx * dx + dy * dy >= 9);
    }
}

fn pair(a: (i32, i32), b: (i32, i32)) -> TestPair {
    TestPair { p0: a, p1: b }
}

#[test]
fn candidate_selection_skips_short_repeated_and_mirrored_pairs() {
    let cands = vec![
        pair((0, 0), (0, 0)),
        pair((0, 0), (1, 2)),
        pair((0, 0), (3, 0)),
        pair((3, 0), (0, 0)),
        pair((0, 0), (3, 0)),
        pair((-5, 4), (6, -2)),
        pair((10, 10), (-10, -10)),
    ];
    let kept = select_test_pairs(&cands, 10);
    let got: Vec<_> = kept.iter().map(|p| (p.p0, p.p1)).collect();
    assert_eq!(
        got,
        vec![((0, 0), (3, 0)), ((-5, 4), (6, -2)), ((10, 10), (-10, -10))]
    );
    let capped = select_test_pairs(&cands, 2);
    assert_eq!(capped.len(), 2);
    assert!(select_test_pairs(&cands, 0).is_empty());
}

#[test]
fn popcount_counts_set_bits() {
    assert_eq!(count_ones_u64(0), 0);
    assert_eq!(count_ones_u64(u64::MAX), 64);
    assert_eq!(count_ones_u64(0b1011_0001), 4);
}

fn desc(words: [u64; 4], octave: u8) -> BriefDescriptor {
    BriefDescriptor {
        corner: Keypoint { x: 0, y: 0, score: 1 },
        words,
        octave,
    }
}

#[test]
fn hamming_distance_counts_differing_bits_symmetrically() {
    let a = desc([0, u64::MAX, 0b1111, 1], 0);
    let b = desc([1, u64::MAX, 0b0101, 0], 0);
    assert_eq!(hamming_distance(&a, &b), 4);
    assert_eq!(hamming_distance(&b, &a), 4);
    assert_eq!(hamming_distance(&a, &a), 0);
}

#[test]
fn best_two_matches_report_best_index_and_runner_up() {
    let q = desc([0, 0, 0, 0], 0);
    let cands = vec![
        desc([0b111, 0, 0, 0], 0),
        desc([0b1, 0, 0, 0], 0),
        desc([0b11, 0, 0, 0], 0),
    ];
    assert_eq!(best_two_binary_matches(&q, &cands, None), Some((1, 1, Some(2))));
    assert_eq!(best_two_binary_matches(&q, &Vec::new(), None), None);
    let single = vec![desc([0b11, 0, 0, 0], 0)];
    assert_eq!(best_two_binary_matches(&q, &single, None), Some((0, 2, None)));
}

#[test]
fn best_two_matches_respect_octave_window() {
    let q = desc([0, 0, 0, 0], 0);
    let cands = vec![desc([0, 0, 0, 0], 3), desc([0b1, 0, 0, 0], 1)];
    assert_eq!(best_two_binary_matches(&q, &cands, Some(1)), Some((1, 1, None)));
    assert_eq!(best_two_binary_matches(&q, &cands, None), Some((0, 0, Some(1))));
}

#[test]
fn mutual_matches_keep_only_reciprocal_pairs() {
    let left = vec![Some(1), Some(0), None, Some(1)];
    let right = vec![Some(1), Some(3)];
    assert_eq!(mutual_best_matches(&left, &right), vec![(1, 0), (3, 1)]);
}

#[test]
fn descriptor_bits_compare_box_means() {
    let mut img = GrayImage::from_pixel(40, 40, 50).expect("image");
    for y in 0..40 {
        for x in 20..40 {
            img.put_pixel(x, y, 200);
        }
    }
    let pairs = vec![pair((-5, 0), (5, 0)), pair((5, 0), (-5, 0))];
    let words = brief_descriptor_words(&img, 20, 20, &pairs);
    assert_eq!(words, [0b01, 0, 0, 0]);
}

#[test]
fn descriptors_are_built_for_flagged_keypoints_only() {
    let img = GrayImage::from_pixel(40, 40, 50).expect("image");
    let kps = vec![
        Keypoint { x: 5, y: 5, score: 5 },
        Keypoint { x: 20, y: 20, score: 3 },
    ];
    let pairs = build_deterministic_test_pairs(16);
    let d = compute_brief_descriptors(&img, &kps, &vec![false, true], &pairs, 2);
    assert_eq!(d.len(), 1);
    assert_eq!(d[0].corner, kps[1]);
    assert_eq!(d[0].octave, 2);
    // Every box mean is 50 away from the border, so no comparison is "darker".
    assert_eq!(d[0].words, [0, 0, 0, 0]);
    // Near the border a box falls outside the image and averages to 0.
    let edge = compute_brief_descriptors(&img, &kps, &vec![true, false], &pairs, 0);
    assert_ne!(edge[0].words, [0, 0, 0, 0]);
}

fn corner_desc(x: u32, words: [u64; 4]) -> BriefDescriptor {
    BriefDescriptor {
        corner: Keypoint { x, y: 0, score: 1 },
        words,
        octave: 0,
    }
}

#[test]
fn ratio_test_rejects_ambiguous_matches() {
    let query = corner_desc(0, [0, 0, 0, 0]);
    let left = vec![query];
    let ambiguous_right = vec![corner_desc(1, [0, 0, 0, 1]), corner_desc(2, [0, 0, 0, 2])];

    let strict = match_binary_descriptors(&left, &ambiguous_right, 32, 800, None);
    assert!(
        strict.is_empty(),
        "ambiguous duplicate best matches should fail ratio filtering"
    );

    let unambiguous_right = vec![
        corner_desc(1, [0, 0, 0, 0]),
        corner_desc(2, [u64::MAX, u64::MAX, u64::MAX, u64::MAX]),
    ];
    let accepted = match_binary_descriptors(&left, &unambiguous_right, 256, 800, None);
    assert_eq!(accepted.len(), 1, "clear nearest neighbor should be retained");

    let singleton_right = vec![corner_desc(3, [0, 0, 0, 0])];
    let accepted_singleton = match_binary_descriptors(&left, &singleton_right, 256, 800, None);
    assert_eq!(
        accepted_singleton.len(),
        1,
        "singleton exact match should be allowed only when distance is exact"
    );

    assert!(
        !passes_ratio_test(5, None, 800, 3),
        "missing second-best must fail ratio filtering when candidate set is not singleton"
    );
}

#[test]
fn ratio_limit_is_inclusive_in_thousandths() {
    assert!(!passes_ratio_test(12, Some(12), 960, 2));
    assert!(passes_ratio_test(12, Some(32), 960, 2));
    assert!(passes_ratio_test(0, None, 960, 1));
    assert!(!passes_ratio_test(3, None, 960, 1));
    assert!(!passes_ratio_test(0, None, 960, 2));
    assert!(passes_ratio_test(0, Some(0), 960, 2));
    assert!(!passes_ratio_test(1, Some(0), 960, 2));
    // 24 / 25 is exactly the limit 0.96.
    assert!(passes_ratio_test(24, Some(25), 960, 2));
    assert!(!passes_ratio_test(25, Some(26), 960, 2));
}

#[test]
fn binary_matching_keeps_cross_checked_pairs() {
    let left = vec![
        desc([0, 0, 0, 0], 0),
        desc([u64::MAX, 0, 0, 0], 0),
        desc([0xFFFF_FFFF, 0, 0, 0], 0),
    ];
    let right = vec![
        desc([u64::MAX, 0, 0, 1], 0),
        desc([1, 0, 0, 0], 0),
        desc([u64::MAX, u64::MAX, u64::MAX, u64::MAX], 0),
    ];
    let matches = match_binary_descriptors(&left, &right, 40, 960, None);
    assert_eq!(
        matches,
        vec![
            DescriptorMatch { left_idx: 0, right_idx: 1, best_dist: 1, second_dist: Some(65) },
            DescriptorMatch { left_idx: 1, right_idx: 0, best_dist: 1, second_dist: Some(63) },
        ]
    );
    // A tight distance gate removes everything.
    assert!(match_binary_descriptors(&left, &right, 0, 960, None).is_empty());
    // Matching the other way reports the same pairs reversed.
    let back = match_binary_descriptors(&right, &left, 40, 960, None);
    let pairs: Vec<_> = back.iter().map(|m| (m.right_idx, m.left_idx)).collect();
    assert_eq!(pairs, vec![(1, 0), (0, 1)]);
    assert!(match_binary_descriptors(&left, &Vec::new(), 40, 960, None).is_empty());
}
