use mapping_algorithms::hector_mapper::{HectorMapperBuilder, MapperBuildError};

#[test]
fn builder_requires_odometry_and_dimensions() {
    let builder = HectorMapperBuilder::<f32, 3>::default();
    assert_eq!(builder.build().err(), Some(MapperBuildError::MissingOdometryConfig));
    assert_eq!(
        builder.with_dimensions([1024; 3]).build().err(),
        Some(MapperBuildError::MissingOdometryConfig)
    );
    assert_eq!(
        builder.with_odometry_calculation(true).build().err(),
        Some(MapperBuildError::MissingDimensions)
    );
}

#[test]
fn builder_hands_out_what_was_set() {
    let settings = HectorMapperBuilder::<f32, 3>::default()
        .with_resolution(0.1)
        .with_odometry_calculation(true)
        .with_dimensions([1024; 3])
        .with_occupied_confidence_factor(2.0)
        .with_free_confidence_factor(1.8)
        .with_maximum_confidence(50.0)
        .build()
        .unwrap();
    assert!(settings.with_odometry);
    assert_eq!(settings.dimensions, [1024; 3]);
    assert_eq!(settings.resolution, Some(0.1));
    assert_eq!(settings.occupied_factor, Some(2.0));
    assert_eq!(settings.free_factor, Some(1.8));
    assert_eq!(settings.max_confidence, Some(50.0));

    let settings = HectorMapperBuilder::<f64, 2>::default()
        .with_odometry_calculation(false)
        .with_dimensions([10, 20])
        .build()
        .unwrap();
    assert!(!settings.with_odometry);
    assert_eq!(settings.resolution, None);
}
