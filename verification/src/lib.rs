//! Peer-discovery and message-exchange substrate for a group of independent
//! nodes on a shared network segment, with no central coordinator.
//!
//! The verified core covers the fixed-size binary message codec, the peer
//! registry (a set of known peer addresses that never contains the owning
//! node's own address), the textual address form carried by discovery
//! announcements, the deterministic tie-break that decides which side of a
//! discovered pair initiates the connection, and the per-connection session
//! state machine. Socket I/O and task scheduling live outside the library and
//! interact with it through plain values.

pub mod address;
pub mod codec;
pub mod discovery;
pub mod manager;
pub mod registry;
pub mod session;
