//! The bound on how many observations one query may ask for.

use crate::error::AppError;
use vstd::prelude::*;

verus! {

/// The count that a query is answered with: the default where none was asked
/// for, the asked count where it lies in `1..=max_limit`, and no count at all
/// otherwise.
pub open spec fn limit_for(limit: Option<i64>, default_limit: i64, max_limit: i64) -> Option<i64> {
    match limit {
        None => Some(default_limit),
        Some(value) => if 0 < value <= max_limit {
            Some(value)
        } else {
            None
        },
    }
}

/// Bounds a requested result count by the configured default and maximum.
pub fn apply_limit(limit: Option<i64>, default_limit: i64, max_limit: i64) -> (result: Result<
    i64,
    AppError,
>)
    ensures
        match limit_for(limit, default_limit, max_limit) {
            Some(value) => result == Ok::<i64, AppError>(value),
            None => result == Err::<i64, AppError>(AppError::InvalidLimit),
        },
{
    match limit {
        Some(value) => {
            if value <= 0 {
                Err(AppError::InvalidLimit)
            } else if value > max_limit {
                Err(AppError::InvalidLimit)
            } else {
                Ok(value)
            }
        },
        None => Ok(default_limit),
    }
}

} // verus!
