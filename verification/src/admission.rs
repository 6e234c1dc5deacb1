//! The admission rule: whether an observed queue depth leaves enough headroom
//! to take more traffic.

use vstd::prelude::*;
use crate::inspect::InspectError;

verus! {

/// Numerator of the headroom factor: traffic is admitted while the depth is
/// strictly below `HEADROOM_NUMERATOR / HEADROOM_DENOMINATOR` (four fifths)
/// of the configured maximum, reserving the rest as buffer capacity.
pub const HEADROOM_NUMERATOR: i32 = 4;

/// Denominator of the headroom factor.
pub const HEADROOM_DENOMINATOR: i32 = 5;

/// The admission rule on a successfully observed depth: the maximum must be
/// positive, and the depth strictly below four fifths of it.  A maximum of
/// zero offers no headroom, so nothing is admitted.
pub open spec fn admits(depth: int, max_queue_length: int) -> bool {
    max_queue_length > 0 && HEADROOM_DENOMINATOR * depth < HEADROOM_NUMERATOR * max_queue_length
}

/// The verdict for a whole observation: a failed observation never admits
/// traffic (fail-closed), a successful one goes by the admission rule.
pub open spec fn verdict_of(observation: Result<i32, InspectError>, max_queue_length: int) -> bool {
    match observation {
        Ok(depth) => admits(depth as int, max_queue_length),
        Err(_) => false,
    }
}

/// Decides whether the server can take more traffic, given one observation of
/// the queue depth and the configured maximum queue length.
pub fn can_take_more_traffic(
    observation: &Result<i32, InspectError>,
    max_queue_length: i32,
) -> (verdict: bool)
    ensures
        verdict == verdict_of(*observation, max_queue_length as int),
{
    match observation {
        Ok(depth) => {
            max_queue_length > 0 && (*depth as i64) * 5 < (max_queue_length as i64) * 4
        },
        Err(_) => false,
    }
}

/// For every positive maximum, the verdict on a successful observation is
/// exactly the threshold comparison: depth strictly below four fifths of the
/// maximum.
pub proof fn lemma_admission_threshold(depth: int, max_queue_length: int)
    requires
        max_queue_length > 0,
    ensures
        admits(depth, max_queue_length) <==> 5 * depth < 4 * max_queue_length,
{
}

/// With a maximum of zero, every depth is rejected.
pub proof fn lemma_zero_maximum_rejects(depth: int)
    ensures
        !admits(depth, 0),
{
}

/// Every inspection failure yields a reject verdict, whatever the maximum.
pub proof fn lemma_failure_rejects(error: InspectError, max_queue_length: int)
    ensures
        !verdict_of(Err(error), max_queue_length),
{
}

} // verus!
