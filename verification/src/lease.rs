//! Lease requests and their expiration arithmetic.
use crate::periwinkle::now_unix_seconds;
use vstd::prelude::*;

verus! {

/// A request to lease limited authority to a mobile key.
pub struct LeaseRequest {
    pub anchor_id: String,
    pub mobile_pk: Vec<u8>,
    pub tier: u8,
    pub expiration: u64,
}

/// The saturating sum of a moment and a duration.
pub open spec fn saturated_expiration(now: u64, duration_seconds: u64) -> int {
    if now + duration_seconds <= u64::MAX {
        now + duration_seconds
    } else {
        u64::MAX as int
    }
}

/// Helpers around delegation leases.
pub struct MultipassUtils;

impl MultipassUtils {
    /// The expiration a duration after a given moment, saturating at the
    /// largest representable time.
    pub fn expiration_from(now: u64, duration_seconds: u64) -> (r: u64)
        ensures
            r == saturated_expiration(now, duration_seconds),
    {
        if now <= u64::MAX - duration_seconds {
            now + duration_seconds
        } else {
            u64::MAX
        }
    }

    /// The absolute expiration a duration from now; the clock reading is
    /// the only part this contract cannot pin.
    pub fn calculate_expiration(duration_seconds: u64) -> (r: u64)
        ensures
            exists|now: u64| r == #[trigger] saturated_expiration(now, duration_seconds),
    {
        let now = now_unix_seconds();
        MultipassUtils::expiration_from(now, duration_seconds)
    }
}

} // verus!
