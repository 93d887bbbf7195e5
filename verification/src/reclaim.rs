//! The reclamation policy shared by the storage providers.
//!
//! A soft-deleted entry sits in the quarantine with the modification time it
//! had when it was last written. A sweep reclaims every entry whose age at
//! the time of the sweep exceeds a retention window, measured in seconds; a
//! zero window reclaims everything unconditionally.

use vstd::prelude::*;

verus! {

/// One day, in seconds.
pub const DAY_IN_SECONDS: u64 = 86_400;

/// The retention window of the regular sweep: fifteen days.
pub const FREE_RETENTION_SECONDS: u64 = DAY_IN_SECONDS * 15;

/// The retention window of the accelerated sweep: one day.
pub const FORCE_FREE_RETENTION_SECONDS: u64 = DAY_IN_SECONDS * 1;

/// Whether a sweep at time `now` reclaims an entry last modified at
/// `modified`, under the retention window `threshold` (in seconds): always
/// with a zero window, else exactly when the entry's age exceeds the window.
/// An entry stamped in the future counts as age zero.
pub open spec fn expired(now: u64, modified: u64, threshold: u64) -> bool {
    threshold == 0 || (modified < now && now - modified > threshold)
}

/// Decide `expired` for one entry.
pub fn is_expired(now: u64, modified: u64, threshold: u64) -> (r: bool)
    ensures
        r == expired(now, modified, threshold),
{
    if threshold == 0 {
        true
    } else {
        modified < now && now - modified > threshold
    }
}

} // verus!
