//! The connection-lifecycle state machine.
//!
//! The machine owns no transport and performs no waiting itself: a driver
//! feeds it one `SessionEvent` at a time and performs the returned
//! `SessionAction`.  Every decision of the gateway session — discovery
//! retry, handshake acceptance, handshake timeout, heartbeat escalation,
//! sequence tracking, and the self-authorship filter — lives in `step`,
//! whose behaviour is pinned exactly by `spec_step`.

use vstd::prelude::*;

verus! {

use crate::codec::{Envelope, EnvelopeV, EventRecord, EventRecordV};
use crate::heartbeat::{HeartbeatSignal, spec_heartbeat_signal, heartbeat_signal};
use crate::HANDSHAKE_LIMIT_UNITS;

/// Where the machine stands in the connection lifecycle.
#[derive(Debug, Clone, PartialEq, Eq)]
pub enum GatewayState {
    /// Looking up the gateway endpoint.
    Discover,
    /// Opening the transport to the discovered endpoint.
    Connect { url: String },
    /// Waiting for the Hello frame; `elapsed` counts time units since the
    /// transport was opened.
    WaitHandshake { elapsed: u64 },
    /// Steady state; `heartbeat` is the tick counter of the policy.
    Established { heartbeat: u64 },
}

/// Ghost image of a `GatewayState`.
pub enum GatewayStateV {
    Discover,
    Connect { url: Seq<char> },
    WaitHandshake { elapsed: u64 },
    Established { heartbeat: u64 },
}

impl View for GatewayState {
    type V = GatewayStateV;

    open spec fn view(&self) -> GatewayStateV {
        match self {
            GatewayState::Discover => GatewayStateV::Discover,
            GatewayState::Connect { url } => GatewayStateV::Connect { url: url@ },
            GatewayState::WaitHandshake { elapsed } => GatewayStateV::WaitHandshake {
                elapsed: *elapsed,
            },
            GatewayState::Established { heartbeat } => GatewayStateV::Established {
                heartbeat: *heartbeat,
            },
        }
    }
}

/// One thing that happened, handed to the machine by its driver.
#[derive(Debug)]
pub enum SessionEvent {
    /// Discovery returned an endpoint.
    DiscoverOk { url: String },
    /// Discovery failed.
    DiscoverFailed,
    /// The transport to the endpoint is open.
    ConnectOk,
    /// The transport could not be opened.
    ConnectFailed,
    /// One frame arrived and decoded.
    Frame { envelope: Envelope },
    /// A frame arrived but could not be read or decoded.
    FrameError,
    /// Time passed while waiting for the handshake.
    TimePassed { units: u64 },
    /// One heartbeat tick period elapsed in steady state.
    Tick,
    /// Sending a Ping failed.
    PingSendFailed,
    /// A dispatched handler reported a failure.
    HandlerFailed,
}

/// Ghost image of a `SessionEvent`.
pub enum SessionEventV {
    DiscoverOk { url: Seq<char> },
    DiscoverFailed,
    ConnectOk,
    ConnectFailed,
    Frame { envelope: EnvelopeV },
    FrameError,
    TimePassed { units: u64 },
    Tick,
    PingSendFailed,
    HandlerFailed,
}

impl View for SessionEvent {
    type V = SessionEventV;

    open spec fn view(&self) -> SessionEventV {
        match self {
            SessionEvent::DiscoverOk { url } => SessionEventV::DiscoverOk { url: url@ },
            SessionEvent::DiscoverFailed => SessionEventV::DiscoverFailed,
            SessionEvent::ConnectOk => SessionEventV::ConnectOk,
            SessionEvent::ConnectFailed => SessionEventV::ConnectFailed,
            SessionEvent::Frame { envelope } => SessionEventV::Frame { envelope: envelope@ },
            SessionEvent::FrameError => SessionEventV::FrameError,
            SessionEvent::TimePassed { units } => SessionEventV::TimePassed { units: *units },
            SessionEvent::Tick => SessionEventV::Tick,
            SessionEvent::PingSendFailed => SessionEventV::PingSendFailed,
            SessionEvent::HandlerFailed => SessionEventV::HandlerFailed,
        }
    }
}

/// What the driver must do after a step.
#[derive(Debug, Clone, PartialEq, Eq)]
pub enum SessionAction {
    /// Nothing beyond what the new state asks for.
    Idle,
    /// Send a Ping frame carrying this sequence number.
    SendPing { sequence: u64 },
    /// Hand this event to the handler, without waiting for it.
    Dispatch { event: EventRecord },
}

/// Ghost image of a `SessionAction`.
pub enum SessionActionV {
    Idle,
    SendPing { sequence: u64 },
    Dispatch { event: EventRecordV },
}

impl View for SessionAction {
    type V = SessionActionV;

    open spec fn view(&self) -> SessionActionV {
        match self {
            SessionAction::Idle => SessionActionV::Idle,
            SessionAction::SendPing { sequence } => SessionActionV::SendPing {
                sequence: *sequence,
            },
            SessionAction::Dispatch { event } => SessionActionV::Dispatch { event: event@ },
        }
    }
}

/// The machine: lifecycle state, the high-water sequence mark, and the
/// immutable identity and policy it filters with.
#[derive(Debug)]
pub struct Session {
    pub state: GatewayState,
    pub max_seen_sequence: u64,
    pub bot_id: String,
    pub skip_self: bool,
}

/// Ghost image of a `Session`.
pub struct SessionV {
    pub state: GatewayStateV,
    pub max_seen_sequence: u64,
    pub bot_id: Seq<char>,
    pub skip_self: bool,
}

impl View for Session {
    type V = SessionV;

    open spec fn view(&self) -> SessionV {
        SessionV {
            state: self.state@,
            max_seen_sequence: self.max_seen_sequence,
            bot_id: self.bot_id@,
            skip_self: self.skip_self,
        }
    }
}

/// An event frame is dispatched exactly when the self-filter lets it pass.
pub open spec fn spec_should_dispatch(skip_self: bool, author: Seq<char>, bot: Seq<char>) -> bool {
    !(skip_self && author == bot)
}

/// The transition function.  Events that have no meaning in the current
/// state leave the machine unchanged.
pub open spec fn spec_step(s: SessionV, ev: SessionEventV) -> (SessionV, SessionActionV) {
    match s.state {
        GatewayStateV::Discover => match ev {
            SessionEventV::DiscoverOk { url } => (
                SessionV { state: GatewayStateV::Connect { url }, ..s },
                SessionActionV::Idle,
            ),
            _ => (s, SessionActionV::Idle),
        },
        GatewayStateV::Connect { .. } => match ev {
            SessionEventV::ConnectOk => (
                SessionV { state: GatewayStateV::WaitHandshake { elapsed: 0 }, ..s },
                SessionActionV::Idle,
            ),
            SessionEventV::ConnectFailed => (
                SessionV { state: GatewayStateV::Discover, ..s },
                SessionActionV::Idle,
            ),
            _ => (s, SessionActionV::Idle),
        },
        GatewayStateV::WaitHandshake { elapsed } => match ev {
            SessionEventV::Frame { envelope } => match envelope {
                EnvelopeV::Hello { code, .. } => if code == 0 {
                    (
                        SessionV { state: GatewayStateV::Established { heartbeat: 0 }, ..s },
                        SessionActionV::Idle,
                    )
                } else {
                    (SessionV { state: GatewayStateV::Discover, ..s }, SessionActionV::Idle)
                },
                EnvelopeV::Reconnect { .. } => (
                    SessionV { state: GatewayStateV::Discover, ..s },
                    SessionActionV::Idle,
                ),
                _ => if elapsed > HANDSHAKE_LIMIT_UNITS {
                    (SessionV { state: GatewayStateV::Discover, ..s }, SessionActionV::Idle)
                } else {
                    (s, SessionActionV::Idle)
                },
            },
            SessionEventV::TimePassed { units } => if elapsed + units > HANDSHAKE_LIMIT_UNITS {
                (SessionV { state: GatewayStateV::Discover, ..s }, SessionActionV::Idle)
            } else {
                (
                    SessionV {
                        state: GatewayStateV::WaitHandshake {
                            elapsed: (elapsed + units) as u64,
                        },
                        ..s
                    },
                    SessionActionV::Idle,
                )
            },
            SessionEventV::FrameError => (
                SessionV { state: GatewayStateV::Discover, ..s },
                SessionActionV::Idle,
            ),
            _ => (s, SessionActionV::Idle),
        },
        GatewayStateV::Established { heartbeat } => match ev {
            SessionEventV::Tick => match spec_heartbeat_signal(heartbeat) {
                HeartbeatSignal::Wait => (
                    SessionV {
                        state: GatewayStateV::Established {
                            heartbeat: (heartbeat + 1) as u64,
                        },
                        ..s
                    },
                    SessionActionV::Idle,
                ),
                HeartbeatSignal::SendPing => (
                    SessionV {
                        state: GatewayStateV::Established {
                            heartbeat: (heartbeat + 1) as u64,
                        },
                        ..s
                    },
                    SessionActionV::SendPing { sequence: s.max_seen_sequence },
                ),
                HeartbeatSignal::Timeout => (
                    SessionV { state: GatewayStateV::Discover, ..s },
                    SessionActionV::Idle,
                ),
            },
            SessionEventV::PingSendFailed => (
                SessionV { state: GatewayStateV::Discover, ..s },
                SessionActionV::Idle,
            ),
            SessionEventV::Frame { envelope } => match envelope {
                EnvelopeV::Reconnect { .. } => (
                    SessionV { state: GatewayStateV::Discover, ..s },
                    SessionActionV::Idle,
                ),
                EnvelopeV::Event { sequence, event } => {
                    let new_max = if sequence > s.max_seen_sequence {
                        sequence
                    } else {
                        s.max_seen_sequence
                    };
                    let s2 = SessionV { max_seen_sequence: new_max, ..s };
                    if spec_should_dispatch(s.skip_self, event.author_id, s.bot_id) {
                        (s2, SessionActionV::Dispatch { event })
                    } else {
                        (s2, SessionActionV::Idle)
                    }
                },
                EnvelopeV::Pong => (
                    SessionV { state: GatewayStateV::Established { heartbeat: 0 }, ..s },
                    SessionActionV::Idle,
                ),
                _ => (s, SessionActionV::Idle),
            },
            SessionEventV::FrameError => (s, SessionActionV::Idle),
            _ => (s, SessionActionV::Idle),
        },
    }
}

impl Session {
    /// A fresh machine about to look up the gateway.
    pub fn new(bot_id: String, skip_self: bool) -> (r: Session)
        ensures
            r@.state == GatewayStateV::Discover,
            r@.max_seen_sequence == 0,
            r@.bot_id == bot_id@,
            r@.skip_self == skip_self,
    {
        Session { state: GatewayState::Discover, max_seen_sequence: 0, bot_id, skip_self }
    }

    /// Feeds one event through the machine.
    pub fn step(&mut self, ev: SessionEvent) -> (r: SessionAction)
        ensures
            (final(self)@, r@) == spec_step(old(self)@, ev@),
    {
        match &self.state {
            GatewayState::Discover => match ev {
                SessionEvent::DiscoverOk { url } => {
                    self.state = GatewayState::Connect { url };
                    SessionAction::Idle
                },
                _ => SessionAction::Idle,
            },
            GatewayState::Connect { .. } => match ev {
                SessionEvent::ConnectOk => {
                    self.state = GatewayState::WaitHandshake { elapsed: 0 };
                    SessionAction::Idle
                },
                SessionEvent::ConnectFailed => {
                    self.state = GatewayState::Discover;
                    SessionAction::Idle
                },
                _ => SessionAction::Idle,
            },
            GatewayState::WaitHandshake { elapsed } => {
                let elapsed = *elapsed;
                match ev {
                    SessionEvent::Frame { envelope } => match envelope {
                        Envelope::Hello { code, .. } => {
                            if code == 0 {
                                self.state = GatewayState::Established { heartbeat: 0 };
                            } else {
                                self.state = GatewayState::Discover;
                            }
                            SessionAction::Idle
                        },
                        Envelope::Reconnect { .. } => {
                            self.state = GatewayState::Discover;
                            SessionAction::Idle
                        },
                        _ => {
                            if elapsed > HANDSHAKE_LIMIT_UNITS {
                                self.state = GatewayState::Discover;
                            }
                            SessionAction::Idle
                        },
                    },
                    SessionEvent::TimePassed { units } => {
                        if elapsed > HANDSHAKE_LIMIT_UNITS || units
                            > HANDSHAKE_LIMIT_UNITS - elapsed {
                            self.state = GatewayState::Discover;
                        } else {
                            self.state = GatewayState::WaitHandshake {
                                elapsed: elapsed + units,
                            };
                        }
                        SessionAction::Idle
                    },
                    SessionEvent::FrameError => {
                        self.state = GatewayState::Discover;
                        SessionAction::Idle
                    },
                    _ => SessionAction::Idle,
                }
            },
            GatewayState::Established { heartbeat } => {
                let heartbeat = *heartbeat;
                match ev {
                    SessionEvent::Tick => match heartbeat_signal(heartbeat) {
                        HeartbeatSignal::Wait => {
                            self.state = GatewayState::Established {
                                heartbeat: heartbeat + 1,
                            };
                            SessionAction::Idle
                        },
                        HeartbeatSignal::SendPing => {
                            self.state = GatewayState::Established {
                                heartbeat: heartbeat + 1,
                            };
                            SessionAction::SendPing { sequence: self.max_seen_sequence }
                        },
                        HeartbeatSignal::Timeout => {
                            self.state = GatewayState::Discover;
                            SessionAction::Idle
                        },
                    },
                    SessionEvent::PingSendFailed => {
                        self.state = GatewayState::Discover;
                        SessionAction::Idle
                    },
                    SessionEvent::Frame { envelope } => match envelope {
                        Envelope::Reconnect { .. } => {
                            self.state = GatewayState::Discover;
                            SessionAction::Idle
                        },
                        Envelope::Event { sequence, event } => {
                            if sequence > self.max_seen_sequence {
                                self.max_seen_sequence = sequence;
                            }
                            if !(self.skip_self && event.author_is(&self.bot_id)) {
                                SessionAction::Dispatch { event }
                            } else {
                                SessionAction::Idle
                            }
                        },
                        Envelope::Pong => {
                            self.state = GatewayState::Established { heartbeat: 0 };
                            SessionAction::Idle
                        },
                        _ => SessionAction::Idle,
                    },
                    SessionEvent::FrameError => SessionAction::Idle,
                    _ => SessionAction::Idle,
                }
            },
        }
    }
}


// ---------------------------------------------------------------------------
// laws of the machine
// ---------------------------------------------------------------------------

/// Handshake acceptance: while waiting for the handshake, a Hello with code
/// zero establishes the session, and a Hello with any other code sends the
/// machine back to discovery.
pub proof fn lemma_handshake_acceptance(s: SessionV, code: i64, session_id: Option<Seq<char>>)
    requires
        s.state is WaitHandshake,
    ensures
        ({
            let (s2, a) = spec_step(
                s,
                SessionEventV::Frame { envelope: EnvelopeV::Hello { code, session_id } },
            );
            &&& code == 0 ==> s2.state == (GatewayStateV::Established { heartbeat: 0 })
            &&& code != 0 ==> s2.state == GatewayStateV::Discover
            &&& a == SessionActionV::Idle
            &&& s2.max_seen_sequence == s.max_seen_sequence
        }),
{
}

/// Handshake timeout: once more than the limit of time units has passed in
/// the waiting state, the machine returns to discovery, no frame needed.
pub proof fn lemma_handshake_timeout(s: SessionV, elapsed: u64, units: u64)
    requires
        s.state == (GatewayStateV::WaitHandshake { elapsed }),
        elapsed + units > HANDSHAKE_LIMIT_UNITS,
    ensures
        spec_step(s, SessionEventV::TimePassed { units }).0.state == GatewayStateV::Discover,
{
}

/// Sequence monotonicity: no step ever lowers the high-water sequence mark,
/// and an event frame raises it exactly to the larger of the old mark and
/// the frame's sequence.
pub proof fn lemma_sequence_monotone(s: SessionV, ev: SessionEventV)
    ensures
        spec_step(s, ev).0.max_seen_sequence >= s.max_seen_sequence,
        ({
            match (s.state, ev) {
                (
                    GatewayStateV::Established { .. },
                    SessionEventV::Frame { envelope: EnvelopeV::Event { sequence, .. } },
                ) => spec_step(s, ev).0.max_seen_sequence == (if sequence > s.max_seen_sequence {
                    sequence
                } else {
                    s.max_seen_sequence
                }),
                _ => spec_step(s, ev).0.max_seen_sequence == s.max_seen_sequence,
            }
        }),
{
}

/// Self-filter: in steady state an event frame is handed on exactly when
/// the skip-self policy does not match its author, and what is handed on is
/// that event.
pub proof fn lemma_self_filter(s: SessionV, sequence: u64, event: EventRecordV)
    requires
        s.state is Established,
    ensures
        ({
            let (s2, a) = spec_step(
                s,
                SessionEventV::Frame { envelope: EnvelopeV::Event { sequence, event } },
            );
            if spec_should_dispatch(s.skip_self, event.author_id, s.bot_id) {
                a == (SessionActionV::Dispatch { event })
            } else {
                a == SessionActionV::Idle
            }
        }),
{
}

/// Isolation: a handler failure changes nothing — not the state, not the
/// sequence mark — and asks the driver for nothing.
pub proof fn lemma_handler_isolation(s: SessionV)
    ensures
        spec_step(s, SessionEventV::HandlerFailed) == (s, SessionActionV::Idle),
{
    let (s2, a) = spec_step(s, SessionEventV::HandlerFailed);
    match s.state {
        GatewayStateV::Discover => {
            assert(s2 == s);
        },
        GatewayStateV::Connect { .. } => {
            assert(s2 == s);
        },
        GatewayStateV::WaitHandshake { .. } => {
            assert(s2 == s);
        },
        GatewayStateV::Established { .. } => {
            assert(s2 == s);
        },
    }
}

/// Running `k` ticks in a row through the machine, with no other event in
/// between.
pub open spec fn spec_run_ticks(s: SessionV, k: nat) -> (SessionV, Seq<SessionActionV>)
    decreases k,
{
    if k == 0 {
        (s, Seq::empty())
    } else {
        let (s1, acts) = spec_run_ticks(s, (k - 1) as nat);
        let (s2, a) = spec_step(s1, SessionEventV::Tick);
        (s2, acts.push(a))
    }
}

/// Heartbeat determinism: starting established with a fresh counter and
/// receiving no Pong, the machine sends exactly one Ping — on the fifth
/// tick, when the counter reads four — and abandons the connection on the
/// sixth, when it reads five; the first four ticks produce no action at
/// all, and the sequence mark never moves.
pub proof fn lemma_heartbeat_determinism(s: SessionV, k: nat)
    requires
        s.state == (GatewayStateV::Established { heartbeat: 0 }),
    ensures
        ({
            let (s2, acts) = spec_run_ticks(s, k);
            &&& acts.len() == k
            &&& forall|i: int|
                0 <= i < k ==> acts[i] == (if i == 4 {
                    SessionActionV::SendPing { sequence: s.max_seen_sequence }
                } else {
                    SessionActionV::Idle
                })
            &&& s2.max_seen_sequence == s.max_seen_sequence
            &&& s2.bot_id == s.bot_id
            &&& s2.skip_self == s.skip_self
            &&& k <= 5 ==> s2.state == (GatewayStateV::Established { heartbeat: k as u64 })
            &&& k >= 6 ==> s2.state == GatewayStateV::Discover
        }),
    decreases k,
{
    if k > 0 {
        lemma_heartbeat_determinism(s, (k - 1) as nat);
        let (s1, acts) = spec_run_ticks(s, (k - 1) as nat);
        let (s2, a) = spec_step(s1, SessionEventV::Tick);
        assert(spec_run_ticks(s, k) == (s2, acts.push(a)));
    }
}

} // verus!
