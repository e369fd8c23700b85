//! Configuration defaults: the values a field takes when the
//! configuration names none.

use vstd::prelude::*;

verus! {

/// Which log store a node runs on.
#[derive(Debug, Clone, Copy, PartialEq, Eq, Structural)]
pub enum RaftStorageKind {
    Disk,
    Memory,
}

/// The port clients connect to.
pub fn port() -> (r: u16)
    ensures
        r == 6379,
{
    6379
}

/// How many client connections may live at once.
pub fn max_clients() -> (r: usize)
    ensures
        r == 10000,
{
    10000
}

/// Where the persistent state lives.
pub fn dir() -> (r: String)
    ensures
        r@ == "./data"@,
{
    let s = "./data";
    s.to_owned()
}

/// Replication is on unless switched off.
pub fn raft_enabled() -> (r: bool)
    ensures
        r,
{
    true
}

/// The default node identity.
pub fn raft_node_id() -> (r: u64)
    ensures
        r == 0,
{
    0
}

/// The durable store is the default.
pub fn raft_storage() -> (r: RaftStorageKind)
    ensures
        r == RaftStorageKind::Disk,
{
    RaftStorageKind::Disk
}

} // verus!
