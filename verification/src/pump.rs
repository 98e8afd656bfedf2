//! The input pump's timing decisions. The pump waits for a key event up to
//! the next heartbeat deadline; a key that arrives first is emitted at
//! once, and a reached deadline emits the heartbeat and starts the next
//! interval. The waiting itself is the front end's; the two decisions are
//! fixed here.

use vstd::prelude::*;

verus! {

/// How long the pump may wait for a key event: the time left until the
/// next heartbeat deadline, or nothing once the deadline has passed.
pub fn poll_timeout(elapsed_ms: u64, tick_rate_ms: u64) -> (r: u64)
    ensures
        r == if elapsed_ms < tick_rate_ms {
            tick_rate_ms - elapsed_ms
        } else {
            0
        },
{
    if elapsed_ms < tick_rate_ms {
        tick_rate_ms - elapsed_ms
    } else {
        0
    }
}

/// Whether the heartbeat is due: a full interval has passed since the last
/// one.
pub fn tick_due(elapsed_ms: u64, tick_rate_ms: u64) -> (r: bool)
    ensures
        r == (elapsed_ms >= tick_rate_ms),
{
    elapsed_ms >= tick_rate_ms
}

} // verus!
