//! A peer-to-peer node core for a minimal gossip-replicated ledger.
//!
//! Nodes exchange signed account transactions, deduplicate them, apply them
//! to a balance ledger, and flood admitted transactions to their peers.
//! This crate holds the verified core: the data model, the wire codec, the
//! ledger, the dedup history, the peer directory, and the packet-dispatch
//! logic. Sockets, tasks, and channels live in the surrounding application,
//! which feeds decoded packets in and carries the returned actions out.

pub mod codec;
pub mod crypto;
pub mod history;
pub mod ledger;
pub mod peers;
pub mod state;
pub mod types;
