//! A one-to-many livestream signaling and forwarding core.
//!
//! One host publishes a video track; any number of clients subscribe to
//! a copy of it. The crate holds the decision logic of that server: the
//! host registry and its lifecycle, the WebSocket handshake judgement,
//! the JSON wire codec for session descriptions and ICE candidates, the
//! per-connection signaling loop, the RTP pump, and the request
//! dispatcher. The caller owns the sockets, the timers and the WebRTC
//! engine, and performs what these decisions prescribe.

use vstd::prelude::*;

pub mod codec;
pub mod handshake;
pub mod messages;
pub mod pump;
pub mod registry;
pub mod session;
pub mod state;

verus! {

} // verus!
