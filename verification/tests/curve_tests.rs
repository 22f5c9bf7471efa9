use voxel_core::curve::Curve;
use voxel_core::errors::ConfigError;
use voxel_core::fixed::{FP_LIMIT, FP_ONE};

fn curve(points: Vec<(i64, i64)>) -> Curve {
    Curve::new(points).expect("well-formed control points")
}

#[test]
fn sample_returns_exact_values_at_control_points() {
    let c = curve(vec![(0, 0), (10, 100), (20, 50)]);
    assert_eq!(c.sample(0), 0);
    assert_eq!(c.sample(10), 100);
    assert_eq!(c.sample(20), 50);
}

#[test]
fn sample_interpolates_linearly_between_control_points() {
    let c = curve(vec![(0, 0), (10, 100)]);
    assert_eq!(c.sample(5), 50);
    assert_eq!(c.sample(3), 30);
    assert_eq!(c.sample(9), 90);
}

#[test]
fn sample_clamps_to_end_values_beyond_the_ends() {
    let c = curve(vec![(0, 7), (10, 100)]);
    assert_eq!(c.sample(-50), 7);
    assert_eq!(c.sample(200), 100);
}

#[test]
fn sample_is_monotone_on_a_non_decreasing_segment() {
    let c = curve(vec![(-FP_ONE, -FP_ONE), (FP_ONE, FP_ONE)]);
    let mut previous = c.sample(-FP_ONE);
    let mut x = -FP_ONE;
    while x <= FP_ONE {
        let y = c.sample(x);
        assert!(y >= previous);
        previous = y;
        x += FP_ONE / 8;
    }
}

#[test]
fn sample_handles_decreasing_segments() {
    let c = curve(vec![(0, 100), (10, 0)]);
    assert_eq!(c.sample(5), 50);
    assert_eq!(c.sample(0), 100);
    assert_eq!(c.sample(10), 0);
}

#[test]
fn empty_control_points_are_rejected() {
    match Curve::new(vec![]) {
        Err(e) => assert_eq!(e, ConfigError::EmptyCurve),
        Ok(_) => panic!("an empty curve must be rejected"),
    }
}

#[test]
fn out_of_range_control_points_are_rejected() {
    match Curve::new(vec![(0, 0), (FP_LIMIT + 1, 0)]) {
        Err(e) => assert_eq!(e, ConfigError::CurveValueOutOfRange),
        Ok(_) => panic!("an out-of-range point must be rejected"),
    }
}

#[test]
fn non_increasing_x_values_are_rejected() {
    match Curve::new(vec![(0, 0), (0, 5)]) {
        Err(e) => assert_eq!(e, ConfigError::CurveNotIncreasing),
        Ok(_) => panic!("non-increasing x values must be rejected"),
    }
}
