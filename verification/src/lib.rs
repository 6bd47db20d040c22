//! A verified client core for a chat-platform gateway protocol.
//!
//! The crate covers the gateway session engine: the envelope codec for the
//! wire frames, the heartbeat policy, the connection-lifecycle state machine,
//! and the event-dispatch filter.  Network transport, HTTP calls and the
//! asynchronous driver around the state machine live outside the library.

use vstd::prelude::*;

pub mod codec;
pub mod error;
pub mod event;
pub mod heartbeat;
pub mod json;
pub mod kook;
pub mod objects;
pub mod request;
pub mod response;
pub mod session;
pub mod strutil;

pub use error::KookError;
pub use kook::BotInfo;
pub use kook::EmptyKookHandle;
pub use kook::Token;

verus! {

/// Number of time units in one heartbeat tick period.
pub const TICK_PERIOD_UNITS: u64 = 6;

/// Upper bound, in time units, on how long the machine waits for a
/// handshake frame after the transport is opened.
pub const HANDSHAKE_LIMIT_UNITS: u64 = 6;

} // verus!
