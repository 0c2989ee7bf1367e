//! A peer-to-peer gossip node: a self-describing datagram codec, a peer
//! liveness table, and the event-driven protocol engine that reacts to
//! inbound packets and read-timeouts.
//!
//! The engine here is pure: it never touches a socket or a clock. A thin
//! driver owns the bound socket, classifies each receive attempt into an
//! event, hands the event (with the current time) to the engine, and then
//! performs the datagram sends the engine asks for.

pub mod addr;
pub mod codec;
pub mod config;
pub mod connection;
pub mod message;
pub mod peer_table;
