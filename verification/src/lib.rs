//! Core logic of a proof-of-work base-layer node.
//!
//! The crate has two halves. The first is a validating, prioritised
//! transaction memory pool: it admits transactions against a chain view,
//! tracks zero-confirmation dependency chains, migrates entries between an
//! unconfirmed and a reorg sub-pool as blocks are published and reorganised,
//! and assembles weight-bounded, dependency-closed retrieval sets for block
//! building. The second is the bookkeeping of the peer-to-peer layer: a
//! connection pool keyed by node id, deterministic tie-breaking of duplicate
//! connections, connectivity-status computation, and per-peer failure
//! tracking. All state transitions are plain functions over plain values;
//! the asynchronous plumbing around them lives outside this crate.

pub mod chain;
pub mod connection;
pub mod connection_pool;
pub mod connectivity;
pub mod db_stats_command;
pub mod exit_codes;
pub mod laws;
pub mod mempool;
pub mod negotiation;
pub mod pool;
pub mod reorg;
pub mod retrieve;
pub mod rpc_pool;
pub mod sweep;
pub mod tx;
pub mod validate;
pub mod watch_command;
