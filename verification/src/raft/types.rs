//! Core data of the replication engine: node identity, roles, log
//! entries and the persistent metadata record.

use vstd::prelude::*;

verus! {

/// Identity of a cluster member. The cluster is a fixed ordered list of
/// node identities known at start; a peer's network address is looked up
/// by its position in that list.
#[derive(Debug, Clone, Copy, PartialEq, Eq, Structural)]
pub struct NodeId(pub u64);

impl NodeId {
    pub fn to_u64(self) -> (r: u64)
        ensures
            r == self.0,
    {
        self.0
    }

    pub fn from_u64(id: u64) -> (r: NodeId)
        ensures
            r == (NodeId(id)),
    {
        NodeId(id)
    }
}

/// Role of a node in the current term.
#[derive(Debug, Clone, Copy, PartialEq, Eq, Structural)]
pub enum State {
    Follower,
    Candidate,
    Leader,
}

/// Answer to a status query: role, own identity, and the leader this
/// node currently believes in.
#[derive(Debug, Clone, Copy, PartialEq, Eq)]
pub struct Status {
    pub state: State,
    pub node_id: NodeId,
    pub leader_id: Option<NodeId>,
}

/// What a log entry carries. `Command` holds an opaque serialized
/// command payload supplied by the state machine adapter. `AddNode` and
/// `RemoveNode` are reserved; this revision never applies them.
#[derive(Debug, Clone, PartialEq, Eq)]
pub enum EntryKind {
    NoOp,
    Command(Vec<u8>),
    AddNode { node_id: NodeId, addr: Vec<u8> },
    RemoveNode(NodeId),
}

/// A log entry: its payload and the term under which the leader wrote
/// it. Entries are 1-indexed in the log.
#[derive(Debug, Clone, PartialEq, Eq)]
pub struct Entry {
    pub kind: EntryKind,
    pub term: u64,
}

/// The mathematical value of an entry payload: node identities as
/// numbers, byte vectors as sequences.
pub enum EntryKindModel {
    NoOp,
    Command(Seq<u8>),
    AddNode { node_id: u64, addr: Seq<u8> },
    RemoveNode(u64),
}

/// The mathematical value of a log entry.
pub struct EntryModel {
    pub kind: EntryKindModel,
    pub term: u64,
}

impl View for EntryKind {
    type V = EntryKindModel;

    open spec fn view(&self) -> EntryKindModel {
        match self {
            EntryKind::NoOp => EntryKindModel::NoOp,
            EntryKind::Command(p) => EntryKindModel::Command(p@),
            EntryKind::AddNode { node_id, addr } => EntryKindModel::AddNode {
                node_id: node_id.0,
                addr: addr@,
            },
            EntryKind::RemoveNode(n) => EntryKindModel::RemoveNode(n.0),
        }
    }
}

impl View for Entry {
    type V = EntryModel;

    open spec fn view(&self) -> EntryModel {
        EntryModel { kind: self.kind@, term: self.term }
    }
}

/// The mathematical value of a sequence of entries.
pub open spec fn models(s: Seq<Entry>) -> Seq<EntryModel> {
    s.map_values(|e: Entry| e@)
}

impl EntryKind {
    /// A copy whose value is the same; what `clone` does, with the
    /// contract spelled out.
    pub fn duplicate(&self) -> (r: EntryKind)
        ensures
            r@ == self@,
    {
        match self {
            EntryKind::NoOp => EntryKind::NoOp,
            EntryKind::Command(p) => {
                let q = copy_bytes(p);
                EntryKind::Command(q)
            },
            EntryKind::AddNode { node_id, addr } => {
                let a = copy_bytes(addr);
                EntryKind::AddNode { node_id: *node_id, addr: a }
            },
            EntryKind::RemoveNode(n) => EntryKind::RemoveNode(*n),
        }
    }
}

impl Entry {
    /// A copy whose value is the same.
    pub fn duplicate(&self) -> (r: Entry)
        ensures
            r@ == self@,
    {
        Entry { kind: self.kind.duplicate(), term: self.term }
    }
}

/// A fresh vector holding the same bytes.
pub fn copy_bytes(v: &Vec<u8>) -> (r: Vec<u8>)
    ensures
        r@ == v@,
{
    let mut out: Vec<u8> = Vec::new();
    let len: usize = v.len();
    let mut i: usize = 0;
    proof {
        assert(out@ =~= v@.take(0));
    }
    while i < len
        invariant
            i <= len == v@.len(),
            out@ == v@.take(i as int),
        decreases len - i,
    {
        out.push(v[i]);
        proof {
            assert(out@ =~= v@.take(i + 1));
        }
        i = i + 1;
    }
    proof {
        assert(out@ =~= v@);
    }
    out
}

/// The persistent metadata record: the highest term this node has seen,
/// and the candidate it voted for in that term, if any. The two are
/// always persisted together, before any dependent action.
#[derive(Debug, Clone, Copy, PartialEq, Eq)]
pub struct Metadata {
    pub current_term: u64,
    pub voted_for: Option<NodeId>,
}

impl Default for Metadata {
    /// A fresh node starts at term 0 with no vote cast.
    fn default() -> (r: Metadata)
        ensures
            r.current_term == 0,
            r.voted_for is None,
    {
        Metadata { current_term: 0, voted_for: None }
    }
}

/// Failure modes of the replication engine as its clients see them:
/// the engine is gone, or this node cannot serve the request because it
/// is not the leader (`leader_id` names the leader when one is known).
#[derive(Debug, Clone, PartialEq, Eq)]
pub enum RaftError {
    Shutdown,
    NotLeader { leader_id: Option<NodeId> },
}

/// Per-peer volatile bookkeeping a leader keeps.
#[derive(Debug, Clone, Copy, PartialEq, Eq, Structural)]
pub struct Node {
    /// index of the next log entry to send to that server
    pub next_index: u64,
    /// index of highest log entry known to be replicated on that server
    pub match_index: u64,
    /// highest read-barrier tag acknowledged by that server
    pub match_message_index: u64,
    /// whether that server granted its vote in the current election
    pub voted_for_me: bool,
}

impl Default for Node {
    fn default() -> (r: Node)
        ensures
            r.next_index == 1,
            r.match_index == 0,
            r.match_message_index == 0,
            !r.voted_for_me,
    {
        Node { next_index: 1, match_index: 0, match_message_index: 0, voted_for_me: false }
    }
}

impl Node {
    pub fn new() -> (r: Node)
        ensures
            r.next_index == 1,
            r.match_index == 0,
            r.match_message_index == 0,
            !r.voted_for_me,
    {
        Node { next_index: 1, match_index: 0, match_message_index: 0, voted_for_me: false }
    }
}

} // verus!
