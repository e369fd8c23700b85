//! A Raft-replicated, in-memory key-value server speaking the RESP wire
//! protocol. The crate holds the replication core (election, log
//! replication, commit advancement, linearizable reads), the on-disk log
//! and metadata codecs, the RESP framing and encoding, the command table,
//! and the per-connection transaction state machine, each with a proved
//! contract. Networking, timers and the concrete command implementations
//! over the dictionary live outside the library and drive it through the
//! functions here.

pub mod numbers;
pub mod raft;
pub mod redis;
pub mod server;
