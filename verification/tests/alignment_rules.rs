use wbphotogrammetry::alignment::{
    build_intrinsics_refine_mask, count_supported_cameras, deterministic_sample_indices,
    group_observation_indices_by_point_id, reduced_camera_param_offset,
    reduced_camera_pose_param_offset, supported_cameras, AlignmentOptions, IntrinsicsRefineMask,
    IntrinsicsRefinementPolicy, ReducedCameraSolveMode,
};
use wbphotogrammetry::camera::CameraModel;
use wbphotogrammetry::graph::{estimate_aligned_count, largest_support_component_size, PairSupport};
use wbphotogrammetry::loop_closure::{select_loop_closure_links, LoopLink};

#[test]
fn fisheye_refine_mask_keeps_tangential_params_frozen() {
    let mask = build_intrinsics_refine_mask(
        IntrinsicsRefinementPolicy::All,
        true,
        256,
        6,
        6,
        false,
        CameraModel::Fisheye,
    );

    assert!(mask.params[0] && mask.params[1] && mask.params[4] && mask.params[5]);
    assert!(
        !mask.params[6] && !mask.params[7],
        "fisheye refinement should not expose pinhole tangential parameters"
    );
}

#[test]
fn refine_mask_policies_select_parameter_groups() {
    let fixed = build_intrinsics_refine_mask(
        IntrinsicsRefinementPolicy::Fixed, true, 1000, 6, 6, false, CameraModel::Pinhole);
    assert_eq!(fixed.params, [false; 8]);
    assert_eq!(IntrinsicsRefineMask::none().params, [false; 8]);
    let core = build_intrinsics_refine_mask(
        IntrinsicsRefinementPolicy::CoreOnly, true, 0, 0, 0, true, CameraModel::Pinhole);
    assert_eq!(core.params, [true, true, true, true, false, false, false, false]);
    let radial = build_intrinsics_refine_mask(
        IntrinsicsRefinementPolicy::CoreAndRadial, false, 0, 0, 0, true, CameraModel::Pinhole);
    assert_eq!(radial.params, [true, true, true, true, true, true, false, false]);
    let all = build_intrinsics_refine_mask(
        IntrinsicsRefinementPolicy::All, false, 0, 0, 0, true, CameraModel::Pinhole);
    assert_eq!(all.params, [true; 8]);
}

#[test]
fn auto_refine_mask_grows_with_support() {
    let off = build_intrinsics_refine_mask(
        IntrinsicsRefinementPolicy::Auto, false, 10_000, 6, 6, false, CameraModel::Pinhole);
    assert_eq!(off.params, [false; 8]);
    let sparse = build_intrinsics_refine_mask(
        IntrinsicsRefinementPolicy::Auto, true, 0, 6, 6, false, CameraModel::Pinhole);
    assert_eq!(sparse.params, [true, true, false, false, false, false, false, false]);
    let rich = build_intrinsics_refine_mask(
        IntrinsicsRefinementPolicy::Auto, true, 1000, 6, 6, false, CameraModel::Pinhole);
    assert_eq!(rich.params, [true; 8]);
    let weak = build_intrinsics_refine_mask(
        IntrinsicsRefinementPolicy::Auto, true, 1000, 6, 6, true, CameraModel::Pinhole);
    assert_eq!(weak.params, [true, true, false, false, true, false, false, false]);
    // 5 of 6 cameras supported: 83% is below every threshold.
    let partial = build_intrinsics_refine_mask(
        IntrinsicsRefinementPolicy::Auto, true, 1000, 6, 5, false, CameraModel::Pinhole);
    assert_eq!(partial.params, [true, true, false, false, false, false, false, false]);
    // Observation thresholds scale with the camera count: 6 cameras need 168 for the principal point.
    let pp_only = build_intrinsics_refine_mask(
        IntrinsicsRefinementPolicy::Auto, true, 168, 6, 6, false, CameraModel::Pinhole);
    assert_eq!(pp_only.params, [true, true, true, true, false, false, false, false]);
}

#[test]
fn policy_and_solver_defaults() {
    assert_eq!(IntrinsicsRefinementPolicy::default(), IntrinsicsRefinementPolicy::Auto);
    assert_eq!(ReducedCameraSolveMode::default(), ReducedCameraSolveMode::SparsePcg);
    let options = AlignmentOptions::default();
    assert_eq!(options.intrinsics_refinement, IntrinsicsRefinementPolicy::Auto);
    assert_eq!(options.reduced_camera_solve_mode, ReducedCameraSolveMode::SparsePcg);
}

#[test]
fn reduced_system_offsets_skip_the_anchor_camera() {
    assert_eq!(reduced_camera_param_offset(0), None);
    assert_eq!(reduced_camera_param_offset(1), Some(0));
    assert_eq!(reduced_camera_param_offset(3), Some(4));
    assert_eq!(reduced_camera_pose_param_offset(0), None);
    assert_eq!(reduced_camera_pose_param_offset(1), Some(0));
    assert_eq!(reduced_camera_pose_param_offset(3), Some(8));
}

#[test]
fn observations_group_by_point_in_id_order() {
    assert_eq!(
        group_observation_indices_by_point_id(&vec![2, 0, 2, 1]),
        vec![vec![1], vec![3], vec![0, 2]]
    );
    assert_eq!(group_observation_indices_by_point_id(&vec![5, 5]), vec![vec![0, 1]]);
    assert!(group_observation_indices_by_point_id(&Vec::new()).is_empty());
}

#[test]
fn sample_indices_are_seeded_and_distinct() {
    assert_eq!(deterministic_sample_indices(10, 3, 42), Some(vec![3, 4, 1]));
    assert_eq!(deterministic_sample_indices(5, 5, 7), Some(vec![3, 1, 0, 2, 4]));
    assert_eq!(deterministic_sample_indices(1, 1, 0), Some(vec![0]));
    assert_eq!(deterministic_sample_indices(3, 4, 1), None);
    assert_eq!(deterministic_sample_indices(3, 0, 1), None);
    let s = deterministic_sample_indices(1000, 50, 9).expect("sample");
    let mut sorted = s.clone();
    sorted.sort();
    sorted.dedup();
    assert_eq!(sorted.len(), 50);
    assert!(s.iter().all(|&i| i < 1000));
}

#[test]
fn supported_cameras_count_observed_ones() {
    let cams = vec![0, 2, 2, 7];
    assert_eq!(supported_cameras(&cams, 4), vec![true, false, true, false]);
    assert_eq!(count_supported_cameras(&cams, 4), 2);
    assert_eq!(count_supported_cameras(&cams, 8), 3);
    assert_eq!(count_supported_cameras(&Vec::new(), 3), 0);
}

fn support(l: usize, r: usize, n: usize) -> PairSupport {
    PairSupport { left_frame_idx: l, right_frame_idx: r, point_count: n }
}

#[test]
fn support_graph_measures_largest_component() {
    let pairs = vec![support(0, 1, 20), support(1, 2, 8), support(3, 4, 30), support(2, 3, 7)];
    assert_eq!(largest_support_component_size(6, &pairs, 100), 3);
    let chain = vec![support(0, 1, 8), support(1, 2, 8), support(2, 3, 8), support(3, 4, 8)];
    assert_eq!(largest_support_component_size(5, &chain, 1), 5);
    assert_eq!(largest_support_component_size(4, &vec![support(0, 9, 50)], 5), 2);
    assert_eq!(largest_support_component_size(4, &Vec::new(), 0), 1);
    assert_eq!(largest_support_component_size(1, &Vec::new(), 0), 1);
    assert_eq!(largest_support_component_size(0, &Vec::new(), 0), 0);
}

#[test]
fn aligned_count_uses_support_graph_or_proxy() {
    let pairs = vec![support(0, 1, 20), support(1, 2, 8)];
    assert_eq!(estimate_aligned_count(5, &pairs, 40, 4), 3);
    assert_eq!(estimate_aligned_count(5, &Vec::new(), 40, 4), 4);
    assert_eq!(estimate_aligned_count(5, &Vec::new(), 0, 4), 2);
    assert_eq!(estimate_aligned_count(5, &vec![support(0, 1, 2)], 40, 4), 2);
    assert_eq!(estimate_aligned_count(1, &Vec::new(), 0, 4), 1);
    assert_eq!(estimate_aligned_count(0, &Vec::new(), 0, 4), 0);
}

fn link(l: usize, r: usize) -> LoopLink {
    LoopLink { left_idx: l, right_idx: r }
}

#[test]
fn loop_closure_links_are_spread_and_capped() {
    let ranked = vec![
        link(0, 10),
        link(1, 11),
        link(0, 1),
        link(0, 20),
        link(0, 30),
        link(5, 25),
        link(40, 50),
    ];
    assert_eq!(select_loop_closure_links(&ranked, 30, 10), vec![0, 3, 5]);
    assert_eq!(select_loop_closure_links(&ranked, 30, 2), vec![0, 3]);
    assert_eq!(select_loop_closure_links(&ranked, 60, 10), vec![0, 3, 5, 6]);
}

#[test]
fn loop_closure_falls_back_to_ranked_order() {
    let ranked = vec![link(0, 1), link(2, 3), link(4, 5)];
    assert_eq!(select_loop_closure_links(&ranked, 10, 2), vec![0, 1]);
    assert!(select_loop_closure_links(&ranked, 2, 2).is_empty());
    assert!(select_loop_closure_links(&ranked, 10, 0).is_empty());
    assert!(select_loop_closure_links(&Vec::new(), 10, 3).is_empty());
}
