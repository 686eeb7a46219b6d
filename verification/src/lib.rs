//! A verified model of a small network node: a TCP echo service and the
//! connectivity supervisor that keeps its network link established.
//!
//! The echo module states what a per-connection handler writes back for
//! what it reads; the supervisor module is the explicit state machine
//! behind the wait-for-down / connect / wait-for-address reconnect loop.
//! The surrounding I/O (sockets, the interface driver, the scheduler)
//! lives outside the library and drives these functions with plain values.

pub mod echo;
pub mod supervisor;
