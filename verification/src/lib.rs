//! Deterministic lockstep coordination core for a small multiplayer
//! simulation.
//!
//! The crate decides *when* each discrete simulation step (a tick) may
//! advance and *which* inputs are applied on each participant, so that
//! independent processes compute identical world states.  A single host
//! finalizes the action list of every tick and fans it out to clients over
//! reliable ordered message channels; every participant then simulates the
//! same ticks with the same inputs in the same order and checksums the
//! result to detect divergence.

pub mod actions;
pub mod codec;
pub mod channel;
pub mod client;
pub mod connection;
pub mod host;
pub mod input;
pub mod fixed_point;
pub mod tick_queue;
pub mod messages;
pub mod network_queue;
pub mod ring_queue;
pub mod session;
pub mod world;
