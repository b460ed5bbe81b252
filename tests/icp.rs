use mapping_algorithms::hector_mapper::{next_frame_index, MapperFrameState};
use mapping_algorithms::icp::{
    match_nearest_neighbours, ICPConfiguration, ICPError, IcpRun, IcpStep, DEFAULT_MAX_ITERATIONS,
};
use mapping_algorithms::kd_tree::KDTree;

fn start_run(source_len: usize, target_len: usize, config: &ICPConfiguration<f32>) -> Result<IcpRun, ICPError> {
    let interval_usable = config.mse_interval_threshold().map_or(true, |t| t > f32::EPSILON);
    let absolute_usable = config.mse_absolute_threshold().map_or(true, |t| t > f32::EPSILON);
    IcpRun::start(source_len, target_len, config, interval_usable, absolute_usable)
}

#[test]
fn mod_test_icp_errors() {
    let points = 10;
    let config_builder = ICPConfiguration::<f32>::builder();

    let res = start_run(0, points, &config_builder.build());
    assert_eq!(res.err(), Some(ICPError::SourceCloudEmpty));

    let res = start_run(points, 0, &config_builder.build());
    assert_eq!(res.err(), Some(ICPError::TargetCloudEmpty));

    let res = start_run(points, points, &config_builder.with_max_iterations(0).build());
    assert_eq!(res.err(), Some(ICPError::IterationBudgetIsZero));

    let res = start_run(points, points, &config_builder.with_mse_interval_threshold(0.0).build());
    assert_eq!(res.err(), Some(ICPError::IntervalThresholdTooLow));

    let res = start_run(points, points, &config_builder.with_absolute_mse_threshold(Some(0.0)).build());
    assert_eq!(res.err(), Some(ICPError::AbsoluteThresholdTooLow));
}

#[test]
fn empty_source_fails_before_any_iteration() {
    let config = ICPConfiguration::<f64>::builder().with_max_iterations(50).build();
    let res = IcpRun::start(0, 100, &config, true, true);
    assert_eq!(res.err(), Some(ICPError::SourceCloudEmpty));
    // The source check comes first, whatever else is wrong.
    let bad = ICPConfiguration::<f64>::builder().with_max_iterations(0).build();
    assert_eq!(IcpRun::start(0, 0, &bad, false, false).err(), Some(ICPError::SourceCloudEmpty));
}

#[test]
fn builder_defaults_and_setters() {
    let builder = ICPConfiguration::<f32>::builder();
    let config = builder.build();
    assert!(!config.use_kd_tree());
    assert_eq!(config.max_iterations(), DEFAULT_MAX_ITERATIONS);
    assert_eq!(config.max_iterations(), 20);
    assert_eq!(config.mse_absolute_threshold(), None);
    assert_eq!(config.mse_interval_threshold(), None);

    let config = builder
        .with_kd_tree(true)
        .with_max_iterations(50)
        .with_absolute_mse_threshold(Some(0.5))
        .with_mse_interval_threshold(0.01)
        .build();
    assert!(config.use_kd_tree());
    assert_eq!(config.max_iterations(), 50);
    assert_eq!(config.mse_absolute_threshold(), Some(0.5));
    assert_eq!(config.mse_interval_threshold(), Some(0.01));
    // The builder itself is left as it was.
    assert_eq!(builder.build().max_iterations(), 20);
}

#[test]
fn run_converges_on_either_test() {
    let config = ICPConfiguration::<f32>::builder().with_max_iterations(5).build();
    let mut run = IcpRun::start(3, 3, &config, true, true).unwrap();
    assert_eq!(run.iteration(), 0);
    assert_eq!(run.finish_iteration(false, false), IcpStep::Iterate);
    assert_eq!(run.iteration(), 1);
    assert_eq!(run.finish_iteration(true, false), IcpStep::Converged(1));

    let mut run = IcpRun::start(3, 3, &config, true, true).unwrap();
    assert_eq!(run.finish_iteration(false, true), IcpStep::Converged(0));
}

#[test]
fn run_gives_up_when_the_budget_is_spent() {
    let config = ICPConfiguration::<f32>::builder().with_max_iterations(3).build();
    let mut run = IcpRun::start(3, 3, &config, true, true).unwrap();
    assert_eq!(run.finish_iteration(false, false), IcpStep::Iterate);
    assert_eq!(run.finish_iteration(false, false), IcpStep::Iterate);
    assert_eq!(run.finish_iteration(false, false), IcpStep::Failed(ICPError::DidNotConverge));
}

#[test]
fn error_messages() {
    assert_eq!(ICPError::SourceCloudEmpty.message(), "Source point cloud is empty");
    assert_eq!(ICPError::DidNotConverge.message(), "Could not converge");
}

#[test]
fn frame_index_wraps_past_zero() {
    assert_eq!(next_frame_index(1), 2);
    assert_eq!(next_frame_index(254), 255);
    assert_eq!(next_frame_index(255), 1);
    assert_eq!(next_frame_index(0), 1);
    let mut index = 1u8;
    for _ in 0..1000 {
        index = next_frame_index(index);
        assert_ne!(index, 0);
    }
}

#[test]
fn mapper_registers_only_new_frames_after_a_cloud() {
    let mut state = MapperFrameState::new(true);
    assert_eq!(state.frame_index(), 1);
    assert!(!state.push_cloud(true, 3));
    assert_eq!(state.frame_index(), 2);
    assert!(state.push_cloud(true, 3));
    assert_eq!(state.frame_index(), 3);
    assert!(!state.push_cloud(false, 3));
    assert_eq!(state.frame_index(), 3);

    let mut state = MapperFrameState::new(false);
    assert!(!state.push_cloud(true, 3));
    assert!(!state.push_cloud(true, 3));
    assert_eq!(state.frame_index(), 3);
}

#[test]
fn empty_previous_cloud_is_not_registered_against() {
    let mut state = MapperFrameState::new(true);
    assert!(!state.push_cloud(true, 0));
    assert!(!state.push_cloud(true, 5));
    assert!(state.push_cloud(true, 5));
    assert!(state.push_cloud(true, 0));
    assert!(!state.push_cloud(true, 5));
}

#[test]
fn correspondences_through_tree_and_scan_agree() {
    let target = vec![[0, 0], [10, 0], [0, 10], [10, 10], [5, 5]];
    let points = vec![[1, 1], [9, 2], [4, 6], [12, 12], [-3, 8]];
    let tree = KDTree::from(target.as_slice());
    let with_tree = match_nearest_neighbours(&points, &target, Some(&tree)).unwrap();
    let with_scan = match_nearest_neighbours(&points, &target, None).unwrap();
    assert_eq!(with_scan, vec![[0, 0], [10, 0], [5, 5], [10, 10], [0, 10]]);
    assert_eq!(with_tree, with_scan);
    let empty: Vec<[i32; 2]> = Vec::new();
    assert_eq!(match_nearest_neighbours(&points, &empty, None), Err(ICPError::NoNearestNeighbourFound));
    assert_eq!(match_nearest_neighbours(&empty, &target, None), Ok(Vec::new()));
}
