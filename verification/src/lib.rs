//! The rules of a slates server node, verified: how a node's configuration is derived from its
//! machine, how a fleet's manifest becomes every node's plan, the DNS codec its dialers resolve
//! names with, certificate enrollment, the consensus and recovery decisions, the failure detector's
//! timing, and the record plane's placement, takeover and healing decisions.
//!
//! Sockets, clocks and threads are outside: a caller performs the work and hands plain values in.

pub mod arith;
pub mod config;
pub mod consensus;
pub mod consensus_recovery;
pub mod daemon;
pub mod deploy;
pub mod digest;
pub mod discovery;
pub mod dns;
pub mod doorbell;
pub mod error;
pub mod fleet;
pub mod head;
pub mod ids;
pub mod landing;
pub mod net;
pub mod table;
pub mod text;
pub mod wire;
