//! The store's wire conventions for time entries. The store sends and takes
//! a signed duration: a non-negative value is the elapsed seconds of a
//! finished entry, a negative value marks a running entry (by convention the
//! negated start timestamp).

use vstd::prelude::*;

use crate::models::Timestamp;

verus! {

/// The duration a wire value denotes: a non-negative value is a finished
/// entry's elapsed seconds, a negative one marks a running entry.
pub fn duration_from_wire(d: i64) -> (r: Option<u64>)
    ensures
        d >= 0 ==> r == Some(d as u64),
        d < 0 ==> r is None,
{
    if d >= 0 {
        Some(d as u64)
    } else {
        None
    }
}

/// The wire value for a duration: the elapsed seconds of a finished entry,
/// or the negated start timestamp for a running one.
pub fn duration_to_wire(duration: Option<u64>, start: Timestamp) -> (r: i64)
    requires
        duration matches Some(d) ==> d <= i64::MAX as u64,
        start > i64::MIN,
    ensures
        match duration {
            Some(d) => r == d as i64,
            None => r == -start,
        },
{
    match duration {
        Some(d) => d as i64,
        None => -start,
    }
}

} // verus!
