use wbphotogrammetry::error::PhotogrammetryError;
use wbphotogrammetry::features::{
    distribute_orb_feature_budget, feature_algorithm_from_method, infer_failure_diagnostics,
    join_pair_label, pair_label_from_paths, FeatureAlgorithm,
    FeatureDistanceMetric, FeatureMatchingOptions, FeatureMethod, FeatureProfile,
};

#[test]
fn feature_method_parser_accepts_public_names() {
    assert_eq!(FeatureMethod::from_str("brief").unwrap(), FeatureMethod::Brief);
    assert_eq!(FeatureMethod::from_str("orb").unwrap(), FeatureMethod::Orb);
    assert_eq!(FeatureMethod::from_str("sift").unwrap(), FeatureMethod::Sift);
    assert_eq!(FeatureMethod::from_str("rootsift").unwrap(), FeatureMethod::RootSift);
    assert_eq!(
        FeatureMethod::from_str("super_point").unwrap(),
        FeatureMethod::SuperPoint
    );
}

#[test]
fn default_feature_matching_options_use_balanced_rootsift() {
    let options = FeatureMatchingOptions::default();
    assert_eq!(options.profile, "balanced");
    assert_eq!(options.method, FeatureMethod::RootSift);
}

#[test]
fn feature_method_parser_ignores_case_and_surrounding_space() {
    assert_eq!(FeatureMethod::from_str("  BRIEF\t").unwrap(), FeatureMethod::Brief);
    assert_eq!(FeatureMethod::from_str("Root_Sift").unwrap(), FeatureMethod::RootSift);
    assert_eq!(FeatureMethod::from_str("SuperPoint\n").unwrap(), FeatureMethod::SuperPoint);
    assert_eq!("orb".parse::<FeatureMethod>().unwrap(), FeatureMethod::Orb);
}

#[test]
fn feature_method_parser_rejects_unknown_names() {
    match FeatureMethod::from_str(" akaze ") {
        Err(PhotogrammetryError::FeatureMatching(msg)) => assert_eq!(
            msg,
            "unsupported feature method ' akaze '; expected one of: brief, orb, sift, rootsift, superpoint"
        ),
        other => panic!("unexpected result: {:?}", other),
    }
    assert!(FeatureMethod::from_str("sift2").is_err());
    assert!(FeatureMethod::from_str("").is_err());
}

#[test]
fn feature_method_names_round_trip() {
    for m in [
        FeatureMethod::Brief,
        FeatureMethod::Orb,
        FeatureMethod::Sift,
        FeatureMethod::RootSift,
        FeatureMethod::SuperPoint,
    ] {
        assert_eq!(FeatureMethod::from_str(m.as_str()).unwrap(), m);
    }
    assert_eq!(FeatureMethod::RootSift.as_str(), "rootsift");
    assert_eq!(FeatureMethod::SuperPoint.as_str(), "superpoint");
}

#[test]
fn feature_method_descriptor_families() {
    assert_eq!(FeatureMethod::Brief.descriptor_metric(), FeatureDistanceMetric::Hamming);
    assert_eq!(FeatureMethod::Orb.descriptor_metric(), FeatureDistanceMetric::Hamming);
    assert_eq!(FeatureMethod::Sift.descriptor_metric(), FeatureDistanceMetric::EuclideanL2);
    assert_eq!(FeatureMethod::RootSift.descriptor_metric(), FeatureDistanceMetric::EuclideanL2);
    assert_eq!(FeatureMethod::SuperPoint.descriptor_metric(), FeatureDistanceMetric::Cosine);
    assert!(!FeatureMethod::Orb.uses_floating_point_descriptors());
    assert!(FeatureMethod::RootSift.uses_floating_point_descriptors());
    assert!(FeatureMethod::SuperPoint.uses_floating_point_descriptors());
    assert!(FeatureMethod::Sift.is_implemented());
    assert!(!FeatureMethod::SuperPoint.is_implemented());
}

#[test]
fn superpoint_has_no_pipeline() {
    assert_eq!(
        feature_algorithm_from_method(FeatureMethod::Orb).unwrap(),
        FeatureAlgorithm::Orb
    );
    match feature_algorithm_from_method(FeatureMethod::SuperPoint) {
        Err(PhotogrammetryError::NotImplemented(message)) => {
            assert!(message.contains("superpoint"))
        }
        other => panic!("unexpected result: {:?}", other),
    }
    assert_eq!(FeatureAlgorithm::Brief.octave_constraint(), None);
    assert_eq!(FeatureAlgorithm::Orb.octave_constraint(), Some(2));
    assert_eq!(FeatureAlgorithm::RootSift.octave_constraint(), Some(1));
}

#[test]
fn options_keep_profile_and_method() {
    let o = FeatureMatchingOptions::new("survey", FeatureMethod::Orb);
    assert_eq!(o.profile, "survey");
    assert_eq!(o.method, FeatureMethod::Orb);
}

#[test]
fn profiles_have_documented_settings() {
    let fast = FeatureProfile::from_profile("fast");
    assert_eq!(
        (fast.max_features_per_image, fast.fast_threshold, fast.match_distance_threshold, fast.max_image_dimension_px),
        (450, 28, 96, 1200)
    );
    let survey = FeatureProfile::from_profile("survey");
    assert_eq!(
        (survey.max_features_per_image, survey.fast_threshold, survey.match_distance_threshold, survey.max_image_dimension_px),
        (1400, 13, 60, 1800)
    );
    let balanced = FeatureProfile::from_profile("balanced");
    assert_eq!(balanced, FeatureProfile::from_profile("anything else"));
    assert_eq!(
        (balanced.max_features_per_image, balanced.fast_threshold, balanced.match_distance_threshold, balanced.max_image_dimension_px),
        (1100, 16, 78, 1600)
    );
    assert_eq!(
        (fast.ratio_test_permille, survey.ratio_test_permille, balanced.ratio_test_permille),
        (980, 920, 960)
    );
}

#[test]
fn orb_and_sift_tuning_adjust_profiles() {
    let orb = FeatureProfile::from_profile("balanced").tuned_for_orb();
    assert_eq!(
        (orb.max_features_per_image, orb.fast_threshold, orb.match_distance_threshold, orb.max_image_dimension_px),
        (1485, 12, 114, 1900)
    );
    let orb_fast = FeatureProfile::from_profile("fast").tuned_for_orb();
    assert_eq!(
        (orb_fast.max_features_per_image, orb_fast.fast_threshold, orb_fast.match_distance_threshold, orb_fast.max_image_dimension_px),
        (650, 24, 132, 1500)
    );
    let orb_survey = FeatureProfile::from_profile("survey").tuned_for_orb();
    assert_eq!(
        (orb_survey.max_features_per_image, orb_survey.fast_threshold, orb_survey.match_distance_threshold, orb_survey.max_image_dimension_px),
        (1890, 9, 96, 2100)
    );
    let capped = FeatureProfile {
        max_features_per_image: 10,
        fast_threshold: 9,
        match_distance_threshold: 150,
        ratio_test_permille: 990,
        max_image_dimension_px: 2000,
    }
    .tuned_for_orb();
    assert_eq!(capped.ratio_test_permille, 995);
    assert_eq!(
        (capped.max_features_per_image, capped.fast_threshold, capped.match_distance_threshold, capped.max_image_dimension_px),
        (210, 8, 160, 2200)
    );
    let sift = FeatureProfile::from_profile("balanced").tuned_for_sift();
    assert_eq!(sift.max_features_per_image, 1350);
    assert_eq!(sift.fast_threshold, 16);
    assert_eq!(sift.ratio_test_permille, 860);
    assert_eq!(orb.ratio_test_permille, 980);
    assert_eq!(orb_fast.ratio_test_permille, 995);
    assert_eq!(orb_survey.ratio_test_permille, 940);
    let brief = FeatureProfile::from_profile("fast").tuned_for(FeatureAlgorithm::Brief);
    assert_eq!(brief, FeatureProfile::from_profile("fast"));
    assert_eq!(
        FeatureProfile::from_profile("fast").tuned_for(FeatureAlgorithm::RootSift),
        FeatureProfile::from_profile("fast").tuned_for_sift()
    );
}

#[test]
fn failure_diagnostics_explain_empty_runs() {
    let (reasons, codes) = infer_failure_diagnostics(1, 0, 0, false);
    assert_eq!(codes, vec!["insufficient_frames", "no_keypoints", "no_verified_matches"]);
    assert_eq!(reasons.len(), 3);
    assert_eq!(reasons[2], "No cross-image feature matches were verified.");

    let (reasons, codes) = infer_failure_diagnostics(3, 100, 5, true);
    assert_eq!(codes, vec!["low_keypoint_density", "weak_connectivity"]);
    assert_eq!(reasons[0], "Low keypoint density detected across frames.");

    let (reasons, codes) = infer_failure_diagnostics(3, 240, 5, false);
    assert!(reasons.is_empty() && codes.is_empty());
}

#[test]
fn orb_budget_hands_out_rounding_losses_from_the_finest_level() {
    assert_eq!(distribute_orb_feature_budget(10, 3, &vec![3, 3, 3]), vec![4, 3, 3]);
    assert_eq!(distribute_orb_feature_budget(10, 3, &vec![2, 2, 2]), vec![4, 3, 3]);
    assert_eq!(
        distribute_orb_feature_budget(1100, 4, &vec![354, 295, 245, 204]),
        vec![355, 296, 245, 204]
    );
    assert_eq!(distribute_orb_feature_budget(5, 2, &vec![4, 4]), vec![4, 4]);
    assert_eq!(distribute_orb_feature_budget(0, 3, &vec![1, 1, 1]), vec![0, 0, 0]);
    assert!(distribute_orb_feature_budget(10, 0, &Vec::new()).is_empty());
    let b = distribute_orb_feature_budget(1234, 4, &vec![400, 300, 200, 100]);
    assert_eq!(b.iter().sum::<usize>(), 1234);
}

#[test]
fn pair_labels_use_file_names() {
    assert_eq!(pair_label_from_paths("/data/run/a.jpg", "b.jpg"), "a.jpg|b.jpg");
    assert_eq!(pair_label_from_paths("/", "x/.."), "/|x/..");
    assert_eq!(join_pair_label(None, "p", Some("n"), "q"), "p|n");
}
