//! The server shell's error forms: what a connection can answer when
//! the command layer, the transaction layer or the replication layer
//! fails.

use vstd::prelude::*;
use crate::raft::types::RaftError;
use crate::redis::command::{RedisCommand, TransactionCommand};

verus! {

/// A transaction control used out of place.
#[derive(Debug, Clone, Copy, PartialEq, Eq, Structural)]
pub enum TransactionError {
    NestedMulti,
    CommandWithoutMulti(TransactionCommand),
    CommandInsideMulti(RedisCommand),
    ExecAborted,
}

/// Everything a command dispatch can fail with.
#[derive(Debug, Clone, PartialEq, Eq)]
pub enum Error {
    Raft(RaftError),
    UnknownCommand,
    UnknownSubcommand,
    SyntaxError,
    WrongArity,
    WrongType,
    NotInteger,
    ValueOutOfRange,
    IndexOutOfRange,
    NoKey,
    Transaction(TransactionError),
}

/// A connection-level failure: the peer broke the framing.
#[derive(Debug, Clone, Copy, PartialEq, Eq, Structural)]
pub enum ConnectionError {
    Protocol,
}

} // verus!
