//! The sliding window that caps how many observations one credential may
//! submit.
//!
//! The count of recent observations is taken first and the insert follows in
//! a step of its own, so two submissions made at once may both be admitted
//! on the same count: the cap is kept on a best-effort basis only.

use crate::error::AppError;
use vstd::prelude::*;

verus! {

/// The window in whole seconds as the query of a durable store takes it, a
/// signed number: a length beyond what 64 bits hold with a sign counts as
/// the largest such number.
pub open spec fn window_bound(seconds: u64) -> i64 {
    if seconds <= i64::MAX as u64 {
        seconds as i64
    } else {
        i64::MAX
    }
}

/// Bounds the length of the window for the query of a durable store.
pub fn window_seconds(seconds: u64) -> (bound: i64)
    ensures
        bound == window_bound(seconds),
{
    if seconds <= 0x7fff_ffff_ffff_ffff {
        seconds as i64
    } else {
        i64::MAX
    }
}

/// A submission is admitted while fewer than `cap` observations of its
/// credential lie in the window.
pub open spec fn admits(recent: i64, cap: i64) -> bool {
    recent < cap
}

/// Decides on a submission from the count of recent observations.
pub fn check_admission(recent: i64, cap: i64) -> (result: Result<(), AppError>)
    ensures
        admits(recent, cap) ==> result == Ok::<(), AppError>(()),
        !admits(recent, cap) ==> result == Err::<(), AppError>(AppError::TooManyObservations),
{
    if recent >= cap {
        return Err(AppError::TooManyObservations);
    }
    Ok(())
}

} // verus!
