//! Which schema version a rollback of one migration returns to.

use vstd::prelude::*;

verus! {

/// The version to return to: the one before the last that was applied, and
/// none where no migration was applied.
pub open spec fn target_before(last_version: Option<i64>) -> Option<i64> {
    match last_version {
        Some(version) => Some((version - 1) as i64),
        None => None,
    }
}

/// Computes the version that a rollback of one migration returns to. There
/// is no version before the lowest number.
pub fn rollback_target(last_version: Option<i64>) -> (target: Option<i64>)
    requires
        last_version matches Some(version) ==> version > i64::MIN,
    ensures
        target == target_before(last_version),
{
    match last_version {
        Some(version) => Some(version - 1),
        None => None,
    }
}

} // verus!
