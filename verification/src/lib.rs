//! Peer-to-peer session layer for a two-player real-time game.
//!
//! The crate has two halves. The session-establishment state machine
//! (`session`) drives an external matchmaking service through lobby
//! discovery, creation or join, peer resolution and a link probe, ending
//! in a connected transport or a typed failure. The delayed-lockstep
//! synchronizer (`network`) keeps the two simulations advancing through
//! the same tick sequence with the same two inputs per tick, exchanging
//! input and acknowledgement messages over an unreliable transport.
//! `wire` gives every message a compact binary encoding that round-trips
//! exactly, and `input` holds the per-tick control sample.

pub mod input;
pub mod network;
pub mod session;
pub mod wire;
