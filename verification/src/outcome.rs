//! The outcome of a request.

use crate::request::{Command, DecodedCommand};
use vstd::prelude::*;

verus! {

/// How a request ended.
#[derive(Clone, Copy, PartialEq, Eq, Debug, Structural)]
pub enum StatusCode {
    /// The request was admitted and served. It carries the status that the
    /// client asked for.
    Success { requested_status: u32 },
    /// The request had waited too long when its processing began.
    QueueTimeout,
    /// The request was malformed.
    BadRequest,
}

/// What is reported of one request: how it ended, the time it took, and the
/// token that it named.
#[derive(Clone, PartialEq, Eq, Debug)]
pub struct Outcome {
    pub status_code: StatusCode,
    pub total_elapsed_ms: u128,
    pub resource_token: Vec<u8>,
}

/// What an outcome holds.
pub struct OutcomeView {
    pub status_code: StatusCode,
    pub total_elapsed_ms: nat,
    pub resource_token: Seq<u8>,
}

impl View for Outcome {
    type V = OutcomeView;

    open spec fn view(&self) -> OutcomeView {
        OutcomeView {
            status_code: self.status_code,
            total_elapsed_ms: self.total_elapsed_ms as nat,
            resource_token: self.resource_token@,
        }
    }
}

/// The outcome of a request that was served after `queue_wait_ms`: the time
/// it took is its wait and the latency that was simulated for it, and its
/// token is handed back.
pub open spec fn served(command: Command, queue_wait_ms: u64) -> OutcomeView {
    OutcomeView {
        status_code: StatusCode::Success { requested_status: command.requested_status },
        total_elapsed_ms: (queue_wait_ms + command.simulated_latency_ms) as nat,
        resource_token: command.resource_token,
    }
}

/// The outcome of a request that was not served, for the reason `status_code`:
/// the time it took is its wait alone, and it names no token.
pub open spec fn refused(status_code: StatusCode, queue_wait_ms: u64) -> OutcomeView {
    OutcomeView {
        status_code,
        total_elapsed_ms: queue_wait_ms as nat,
        resource_token: Seq::<u8>::empty(),
    }
}

impl Outcome {
    /// The outcome of a request that was served after `queue_wait_ms`.
    pub fn served(command: DecodedCommand, queue_wait_ms: u64) -> (outcome: Outcome)
        ensures
            outcome@ == served(command@, queue_wait_ms),
    {
        Outcome {
            status_code: StatusCode::Success { requested_status: command.requested_status },
            total_elapsed_ms: queue_wait_ms as u128 + command.simulated_latency_ms as u128,
            resource_token: command.resource_token,
        }
    }

    /// The outcome of a request that had waited `queue_wait_ms`, too long,
    /// when its processing began.
    pub fn queue_timeout(queue_wait_ms: u64) -> (outcome: Outcome)
        ensures
            outcome@ == refused(StatusCode::QueueTimeout, queue_wait_ms),
    {
        Outcome {
            status_code: StatusCode::QueueTimeout,
            total_elapsed_ms: queue_wait_ms as u128,
            resource_token: Vec::new(),
        }
    }

    /// The outcome of a malformed request that had waited `queue_wait_ms`.
    pub fn bad_request(queue_wait_ms: u64) -> (outcome: Outcome)
        ensures
            outcome@ == refused(StatusCode::BadRequest, queue_wait_ms),
    {
        Outcome {
            status_code: StatusCode::BadRequest,
            total_elapsed_ms: queue_wait_ms as u128,
            resource_token: Vec::new(),
        }
    }
}

} // verus!
