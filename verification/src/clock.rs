//! Points in time, in nanoseconds since 1970, and the seconds between them.

use vstd::prelude::*;

verus! {

/// Nanoseconds of one second.
pub const SECOND: i64 = 1_000_000_000;

/// The whole seconds from `earlier` to `later`: negative where they stand the other way
/// round, and without the fraction of a second either way.
pub open spec fn seconds(later: int, earlier: int) -> int {
    if later >= earlier {
        (later - earlier) / (SECOND as int)
    } else {
        -((earlier - later) / (SECOND as int))
    }
}

/// The whole seconds from `earlier` to `later`.
pub fn seconds_between(later: i64, earlier: i64) -> (r: i64)
    ensures
        r == seconds(later as int, earlier as int),
{
    if later >= earlier {
        let d: u64 = (later as i128 - earlier as i128) as u64;
        (d / (SECOND as u64)) as i64
    } else {
        let d: u64 = (earlier as i128 - later as i128) as u64;
        -((d / (SECOND as u64)) as i64)
    }
}

} // verus!
