//! The heartbeat policy: a pure decision over the tick counter.
//!
//! The counter starts at zero, is reset to zero whenever a Pong is observed,
//! and is incremented once per tick.  Four silent ticks are tolerated; the
//! fifth sends a Ping; from the sixth on the connection counts as dead.

use vstd::prelude::*;

verus! {

/// What the policy asks for at one tick.
#[derive(Debug, Clone, Copy, PartialEq, Eq, Structural)]
pub enum HeartbeatSignal {
    /// Stay quiet; the grace period is still running.
    Wait,
    /// Send one Ping carrying the highest sequence seen.
    SendPing,
    /// The connection is dead; tear it down.
    Timeout,
}

/// The policy: counter values 0 through 3 wait, exactly 4 pings, 5 and
/// above time out.
pub open spec fn spec_heartbeat_signal(count: u64) -> HeartbeatSignal {
    if count <= 3 {
        HeartbeatSignal::Wait
    } else if count == 4 {
        HeartbeatSignal::SendPing
    } else {
        HeartbeatSignal::Timeout
    }
}

/// Exec twin of `spec_heartbeat_signal`.
pub fn heartbeat_signal(count: u64) -> (r: HeartbeatSignal)
    ensures
        r == spec_heartbeat_signal(count),
{
    if count <= 3 {
        HeartbeatSignal::Wait
    } else if count == 4 {
        HeartbeatSignal::SendPing
    } else {
        HeartbeatSignal::Timeout
    }
}

/// With no Pong ever observed, a counter started at zero waits through the
/// first four ticks, pings on exactly the fifth, and times out from the
/// sixth on: the signal at the i-th tick (counting from zero) is a pure
/// function of i, with one Ping in the whole schedule.
pub proof fn lemma_heartbeat_schedule(i: u64)
    ensures
        i <= 3 ==> spec_heartbeat_signal(i) == HeartbeatSignal::Wait,
        i == 4 ==> spec_heartbeat_signal(i) == HeartbeatSignal::SendPing,
        i >= 5 ==> spec_heartbeat_signal(i) == HeartbeatSignal::Timeout,
        forall|j: u64|
            spec_heartbeat_signal(j) == HeartbeatSignal::SendPing <==> j == 4,
{
}

} // verus!
