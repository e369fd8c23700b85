//! The Raft replication engine: node identity, log entries and metadata,
//! the RPC message shapes, the persistent-log codec, the in-memory log
//! store, the timing configuration, and the replication state machine.

pub mod codec;
pub mod config;
pub mod rpc;
pub mod server;
pub mod storage;
pub mod types;
