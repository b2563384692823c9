//! A single-machine process supervisor: a datagram command protocol, a
//! registry of managed process specifications, and the daemon's decisions.
pub mod text;
pub mod codec;
pub mod registry;
pub mod daemon;
pub mod client;
