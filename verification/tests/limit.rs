use brief_measure::admission::{check_admission, window_seconds};
use brief_measure::error::AppError;
use brief_measure::limit::apply_limit;

#[test]
fn apply_limit_takes_the_default_where_none_is_asked() {
    assert_eq!(apply_limit(None, 90, 90), Ok(90));
    assert_eq!(apply_limit(None, 10, 90), Ok(10));
}

#[test]
fn apply_limit_rejects_zero_and_less() {
    assert_eq!(apply_limit(Some(0), 90, 90), Err(AppError::InvalidLimit));
    assert_eq!(apply_limit(Some(-1), 90, 90), Err(AppError::InvalidLimit));
    assert_eq!(apply_limit(Some(i64::MIN), 90, 90), Err(AppError::InvalidLimit));
}

#[test]
fn apply_limit_rejects_more_than_the_maximum() {
    assert_eq!(apply_limit(Some(91), 90, 90), Err(AppError::InvalidLimit));
    assert_eq!(apply_limit(Some(i64::MAX), 90, 90), Err(AppError::InvalidLimit));
}

#[test]
fn apply_limit_keeps_a_count_in_range() {
    assert_eq!(apply_limit(Some(5), 90, 90), Ok(5));
    assert_eq!(apply_limit(Some(1), 90, 90), Ok(1));
    assert_eq!(apply_limit(Some(90), 90, 90), Ok(90));
}

#[test]
fn check_admission_rejects_from_the_cap_on() {
    assert_eq!(check_admission(0, 2), Ok(()));
    assert_eq!(check_admission(1, 2), Ok(()));
    assert_eq!(check_admission(2, 2), Err(AppError::TooManyObservations));
    assert_eq!(check_admission(3, 2), Err(AppError::TooManyObservations));
    assert_eq!(check_admission(0, 0), Err(AppError::TooManyObservations));
}

#[test]
fn window_seconds_stops_at_the_largest_signed_number() {
    assert_eq!(window_seconds(0), 0);
    assert_eq!(window_seconds(86_400), 86_400);
    assert_eq!(window_seconds(i64::MAX as u64), i64::MAX);
    assert_eq!(window_seconds(i64::MAX as u64 + 1), i64::MAX);
    assert_eq!(window_seconds(u64::MAX), i64::MAX);
}

#[test]
fn rollback_goes_one_version_back() {
    assert_eq!(brief_measure::migration::rollback_target(None), None);
    assert_eq!(brief_measure::migration::rollback_target(Some(20240101)), Some(20240100));
    assert_eq!(brief_measure::migration::rollback_target(Some(1)), Some(0));
    assert_eq!(brief_measure::migration::rollback_target(Some(i64::MIN + 1)), Some(i64::MIN));
}
