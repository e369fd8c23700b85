//! The two peer-to-peer RPC message pairs of the replication engine.

use vstd::prelude::*;
use crate::raft::types::{Entry, NodeId};

verus! {

/// Log replication request, also used as the heartbeat.
/// `message_index` is a monotone tag the leader assigns to every
/// request it originates; the follower echoes it back, and the leader
/// uses it to measure quorum freshness for read barriers.
#[derive(Debug, Clone, PartialEq, Eq)]
pub struct AppendEntries {
    /// leader's term
    pub term: u64,
    pub leader_id: NodeId,
    /// index of log entry immediately preceding new ones
    pub prev_log_index: u64,
    /// term of the entry at `prev_log_index`
    pub prev_log_term: u64,
    /// log entries to store
    pub entries: Vec<Entry>,
    /// leader's commit index
    pub leader_commit: u64,
    pub message_index: u64,
}

#[derive(Debug, Clone, Copy, PartialEq, Eq, Structural)]
pub struct AppendEntriesResponse {
    /// the follower's current term, for the leader to update itself
    pub term: u64,
    /// true if the follower held an entry matching `prev_log_index` and
    /// `prev_log_term`
    pub success: bool,
    pub message_index: u64,
    pub current_index: u64,
}

/// Election request from a candidate.
#[derive(Debug, Clone, Copy, PartialEq, Eq, Structural)]
pub struct RequestVote {
    /// candidate's term
    pub term: u64,
    /// candidate requesting the vote
    pub candidate_id: NodeId,
    /// index of the candidate's last log entry
    pub last_log_index: u64,
    /// term of the candidate's last log entry
    pub last_log_term: u64,
}

#[derive(Debug, Clone, Copy, PartialEq, Eq, Structural)]
pub struct RequestVoteResponse {
    /// the voter's current term, for the candidate to update itself
    pub term: u64,
    /// true means the candidate received the vote
    pub vote_granted: bool,
}

} // verus!
