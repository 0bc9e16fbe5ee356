use ndarray_histogram::errors::QuantileError;
use ndarray_histogram::interpolate::{Higher, Interpolate, Linear, Lower, Midpoint, Nearest, Quantile};

#[test]
fn quantile_must_lie_between_zero_and_one() {
    assert!(Quantile::new(1, 2).is_ok());
    assert!(Quantile::new(0, 1).is_ok());
    assert!(matches!(
        Quantile::new(3, 2),
        Err(QuantileError::InvalidQuantile(_))
    ));
    assert!(Quantile::new(0, 0).is_err());
}

#[test]
fn lower_and_higher_pick_the_endpoints() {
    let q0 = Quantile::new(0, 1).unwrap();
    let q1 = Quantile::new(1, 1).unwrap();
    // on a two-element sample [a, b], the zero quantile is a
    assert!(Lower::needs_lower(&q0, 2));
    assert!(!Lower::needs_higher(&q0, 2));
    assert_eq!(Lower::interpolate(Some(3), None, &q0, 2), 3);
    assert!(Higher::needs_higher(&q1, 2));
    assert_eq!(Higher::interpolate(None, Some(8), &q1, 2), 8);
}

#[test]
fn linear_halfway_between_zero_and_four_is_two() {
    let q = Quantile::new(1, 2).unwrap();
    assert!(Linear::needs_lower(&q, 2) && Linear::needs_higher(&q, 2));
    assert_eq!(Linear::interpolate(Some(0), Some(4), &q, 2), 2);
}

#[test]
fn linear_truncates_toward_zero() {
    // index 0.5 over [1, 4]: 1 + trunc(0.5 * 3) = 2
    let q = Quantile::new(1, 2).unwrap();
    assert_eq!(Linear::interpolate(Some(1), Some(4), &q, 2), 2);
    // descending pair: 4 + trunc(0.5 * -3) = 3
    assert_eq!(Linear::interpolate(Some(4), Some(1), &q, 2), 3);
}

#[test]
fn midpoint_is_the_truncated_mean_of_the_pair() {
    let q = Quantile::new(1, 2).unwrap();
    assert_eq!(Midpoint::interpolate(Some(1), Some(4), &q, 2), 2);
    assert_eq!(Midpoint::interpolate(Some(-4), Some(-1), &q, 2), -3);
}

#[test]
fn nearest_picks_the_closer_side() {
    // index = 0.25 * 4 = 1.0 over five elements: fraction 0 -> lower
    let q = Quantile::new(1, 4).unwrap();
    assert!(Nearest::needs_lower(&q, 5));
    assert_eq!(Nearest::interpolate(Some(10), None, &q, 5), 10);
    // index = 0.5 * 1 = 0.5 over two elements: fraction 1/2 -> higher
    let qh = Quantile::new(1, 2).unwrap();
    assert!(Nearest::needs_higher(&qh, 2));
    assert_eq!(Nearest::interpolate(None, Some(7), &qh, 2), 7);
}
