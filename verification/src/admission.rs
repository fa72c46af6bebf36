//! The queue-timeout evaluator: has a request waited too long to be served?

use vstd::prelude::*;

verus! {

/// The queueing time, in whole seconds, from which on a request is refused.
pub const QUEUE_TIMEOUT_SECS: u64 = 4;

/// The number of milliseconds in a second.
pub const MILLIS_PER_SEC: u64 = 1000;

/// Whether a request that has waited `queue_wait_ms` has aged out of the
/// queueing window: its wait, in whole seconds, has reached the threshold.
pub open spec fn timed_out(queue_wait_ms: u64) -> bool {
    queue_wait_ms / MILLIS_PER_SEC >= QUEUE_TIMEOUT_SECS
}

/// The time that a request has spent queued: from its receipt, when the
/// connection was accepted, to the start of its processing.
pub fn queue_wait_ms(receipt_time: u64, processing_start_time: u64) -> (wait: u64)
    requires
        receipt_time <= processing_start_time,
    ensures
        wait == processing_start_time - receipt_time,
{
    processing_start_time - receipt_time
}

/// Whether a request that has waited `queue_wait_ms` is refused.
pub fn exceeds_queue_timeout(queue_wait_ms: u64) -> (late: bool)
    ensures
        late == timed_out(queue_wait_ms),
        late <==> queue_wait_ms >= 4000,
{
    queue_wait_ms / MILLIS_PER_SEC >= QUEUE_TIMEOUT_SECS
}

/// A request is refused from a wait of 4000 milliseconds on, and before that
/// it is admitted.
pub proof fn lemma_timeout_threshold(queue_wait_ms: u64)
    ensures
        timed_out(queue_wait_ms) <==> queue_wait_ms >= 4000,
{
}

/// A request that is refused after some wait is refused after any longer one.
pub proof fn lemma_timeout_is_monotonic(shorter_ms: u64, longer_ms: u64)
    requires
        shorter_ms <= longer_ms,
        timed_out(shorter_ms),
    ensures
        timed_out(longer_ms),
{
}

} // verus!
