//! Core of a point-to-point UDP tunnel: the packet rewriter and the decisions
//! of the two forwarding loops, stated and proved over byte sequences.
//!
//! - [`ipv4`]: what counts as an IPv4 header and where its addresses lie.
//! - [`rewrite`]: the rewriter, which swaps the addresses of outbound packets
//!   and passes inbound packets through.
//! - [`relay`]: one step of a forwarding loop, from an event to an action.
//! - [`session`]: whole runs of one loop and of two, and how a session ends.
//! - [`config`]: the defaults and the settings of the two endpoints.
//!
//! The library does no I/O. Its caller owns the interface, the socket and the
//! buffers, waits for packets, and does what [`relay::step`] tells it.

pub mod config;
pub mod ipv4;
pub mod relay;
pub mod rewrite;
pub mod session;
