//! Decisions of the broker consumers: how a delivery is settled, and how a
//! consumer that stopped is restarted.
use vstd::prelude::*;

verus! {

/// Delay before a stopped consumer is started again, in ms.
pub const RESTART_DELAY_MS: u64 = 5000;

/// How a delivery is settled.
#[derive(Clone, Copy, Debug, PartialEq, Eq)]
pub struct Settlement {
    /// Acknowledge (true) or reject without requeue, to the dead-letter queue
    /// where the queue has one (false).
    pub ack: bool,
    /// Publish the event to the live sessions.
    pub publish: bool,
}

/// A delivery is acknowledged and published only when it decoded and every
/// write it asked for succeeded; otherwise it is rejected and not published.
pub fn settle_delivery(decoded: bool, stored: bool) -> (r: Settlement)
    ensures
        r.ack == (decoded && stored),
        r.publish == (decoded && stored),
{
    let ok = decoded && stored;
    Settlement { ack: ok, publish: ok }
}

/// What a supervisor does when its consumer returned.
#[derive(Clone, Copy, Debug, PartialEq, Eq)]
pub enum SupervisorAction {
    /// Shutting down: do not restart.
    Stop,
    /// Start the consumer again after this many ms; the attempt counter.
    Restart { delay_ms: u64, attempt: u64 },
}

/// A consumer that returned (with an error or not) is restarted after a
/// fixed delay, indefinitely, until the service is cancelled.
pub fn supervise(cancelled: bool, attempt: u64) -> (r: SupervisorAction)
    ensures
        cancelled ==> r == SupervisorAction::Stop,
        !cancelled ==> r == (SupervisorAction::Restart {
            delay_ms: RESTART_DELAY_MS,
            attempt: if attempt == u64::MAX { attempt } else { (attempt + 1) as u64 },
        }),
{
    if cancelled {
        SupervisorAction::Stop
    } else {
        let next = if attempt == u64::MAX {
            attempt
        } else {
            attempt + 1
        };
        SupervisorAction::Restart { delay_ms: RESTART_DELAY_MS, attempt: next }
    }
}

} // verus!
