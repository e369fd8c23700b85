//! The replication state machine. A single owner drives it with inbound
//! RPCs, client writes and reads, timer expirations and RPC responses;
//! every handler mutates the state and appends the outward effects
//! (persistence, messages to peers, replies to clients, applies) to an
//! effect list that the caller performs in order. Persistence effects
//! come before the replies and sends that depend on them.

use vstd::prelude::*;
use crate::raft::config::RaftConfig;
use crate::raft::rpc::{AppendEntries, AppendEntriesResponse, RequestVote, RequestVoteResponse};
use crate::raft::storage::MemoryStorage;
use crate::raft::types::{models, Entry, EntryKind, EntryModel, Metadata, Node, NodeId, State,
    Status};

verus! {

/// A client write waiting for its log entry to commit. The request
/// identifier names the reply slot the caller holds.
#[derive(Debug, Clone, Copy, PartialEq, Eq, Structural)]
pub struct WriteRequest {
    pub index: u64,
    pub request_id: u64,
}

/// A client read waiting for the read barrier.
#[derive(Debug, Clone, Copy, PartialEq, Eq, Structural)]
pub struct ReadRequest {
    pub index: u64,
    pub message_index: u64,
    pub request_id: u64,
}

/// What a handler asks the surrounding runtime to do, in order.
/// Persistence effects always precede the sends and replies that
/// depend on them, so that durability comes before observability.
#[derive(Debug, Clone, PartialEq, Eq)]
pub enum Effect {
    /// Write the metadata record durably before acting on it.
    PersistMetadata(Metadata),
    /// The entries just appended to the log, for the durable mirror.
    AppendLogEntries(Vec<Entry>),
    /// The log was cut: entries with 1-based index `>= index` are gone.
    TruncateLog(u64),
    /// Send an AppendEntries RPC to the peer.
    SendAppendEntries { dest: NodeId, request: AppendEntries },
    /// Send a RequestVote RPC to the peer.
    SendRequestVote { dest: NodeId, request: RequestVote },
    /// A committed command to apply to the state machine, in log
    /// order. When `write_request` names a pending write, the output of
    /// the apply answers that request.
    Apply { index: u64, payload: Vec<u8>, write_request: Option<u64> },
    /// A pending or incoming write cannot be served here.
    WriteRejected { request_id: u64, leader_id: Option<NodeId> },
    /// The read barrier passed: the read may be served.
    ReadGranted { request_id: u64 },
    /// A pending or incoming read cannot be served here.
    ReadRejected { request_id: u64, leader_id: Option<NodeId> },
    /// A fresh random election deadline should be drawn.
    ResetElectionTimer,
}

/// A rejection effect for this write stands in the list.
pub open spec fn write_rejected_in(effs: Seq<Effect>, request_id: u64, leader_id: Option<NodeId>) -> bool {
    exists|k: int|
        0 <= k < effs.len() && effs[k] == (Effect::WriteRejected { request_id, leader_id })
}

/// A rejection effect for this read stands in the list.
pub open spec fn read_rejected_in(effs: Seq<Effect>, request_id: u64, leader_id: Option<NodeId>) -> bool {
    exists|k: int|
        0 <= k < effs.len() && effs[k] == (Effect::ReadRejected { request_id, leader_id })
}

/// A grant effect for this read stands in the list.
pub open spec fn read_granted_in(effs: Seq<Effect>, request_id: u64) -> bool {
    exists|k: int| 0 <= k < effs.len() && effs[k] == (Effect::ReadGranted { request_id })
}

/// An apply effect answering this write stands in the list.
pub open spec fn write_answered_in(effs: Seq<Effect>, index: u64, request_id: u64) -> bool {
    exists|k: int|
        0 <= k < effs.len() && match #[trigger] effs[k] {
            Effect::Apply { index: i, payload, write_request } => i == index && write_request
                == Some(request_id),
            _ => false,
        }
}

/// No read is turned away anywhere in the list.
pub open spec fn no_read_rejected(effs: Seq<Effect>) -> bool {
    forall|k: int| 0 <= k < effs.len() ==> !((#[trigger] effs[k]) is ReadRejected)
}

/// No read is granted anywhere in the list.
pub open spec fn no_read_granted(effs: Seq<Effect>) -> bool {
    forall|k: int| 0 <= k < effs.len() ==> !((#[trigger] effs[k]) is ReadGranted)
}

/// No write is turned away anywhere in the list.
pub open spec fn no_write_rejected(effs: Seq<Effect>) -> bool {
    forall|k: int| 0 <= k < effs.len() ==> !((#[trigger] effs[k]) is WriteRejected)
}

/// An AppendEntries send to this peer stands in the list.
pub open spec fn sent_append_entries_in(effs: Seq<Effect>, to: NodeId) -> bool {
    exists|k: int|
        0 <= k < effs.len() && match #[trigger] effs[k] {
            Effect::SendAppendEntries { dest, request } => dest == to,
            _ => false,
        }
}

/// A RequestVote send to this peer stands in the list.
pub open spec fn sent_request_vote_in(effs: Seq<Effect>, to: NodeId) -> bool {
    exists|k: int|
        0 <= k < effs.len() && match #[trigger] effs[k] {
            Effect::SendRequestVote { dest, request } => dest == to,
            _ => false,
        }
}

/// No vote is solicited anywhere in the list.
pub open spec fn no_request_vote_sent(effs: Seq<Effect>) -> bool {
    forall|k: int| 0 <= k < effs.len() ==> !((#[trigger] effs[k]) is SendRequestVote)
}

/// The apply effects of the list, in order: the log position each
/// hands out and the write it answers.
pub open spec fn apply_effects(effs: Seq<Effect>) -> Seq<(u64, Option<u64>)>
    decreases effs.len(),
{
    if effs.len() == 0 {
        Seq::empty()
    } else {
        apply_effects(effs.drop_last()) + (match effs.last() {
            Effect::Apply { index, payload, write_request } => seq![(index, write_request)],
            _ => Seq::empty(),
        })
    }
}

/// The write waiting at log position `i`, if one does.
pub open spec fn write_id_at(ws: Seq<WriteRequest>, i: u64) -> Option<u64>
    decreases ws.len(),
{
    if ws.len() == 0 {
        None
    } else if ws[0].index == i {
        Some(ws[0].request_id)
    } else {
        write_id_at(ws.skip(1), i)
    }
}

/// What the apply pass must hand out for the positions in `(lo, hi]`:
/// one apply per command entry, in increasing index order, each
/// answering the write waiting at its position.
pub open spec fn expected_applies(
    log: Seq<EntryModel>,
    lo: u64,
    hi: u64,
    ws: Seq<WriteRequest>,
) -> Seq<(u64, Option<u64>)>
    decreases hi - lo,
{
    if hi <= lo {
        Seq::empty()
    } else {
        expected_applies(log, lo, (hi - 1) as u64, ws) + (if log[hi - 1].kind is Command {
            seq![(hi, write_id_at(ws, hi))]
        } else {
            Seq::empty()
        })
    }
}

/// How many members granted this candidacy.
pub open spec fn count_votes(peers: Seq<Node>) -> nat
    decreases peers.len(),
{
    if peers.len() == 0 {
        0
    } else {
        count_votes(peers.drop_last()) + (if peers.last().voted_for_me {
            1nat
        } else {
            0nat
        })
    }
}

/// The whole state a node owns.
pub struct Server {
    pub node_id: NodeId,
    pub config: RaftConfig,
    pub storage: MemoryStorage,
    /// latest term this node has seen; mirrors the persisted metadata
    pub current_term: u64,
    /// who received this node's vote in the current term
    pub voted_for: Option<NodeId>,
    /// highest log index known committed
    pub commit_index: u64,
    /// highest log index applied to the state machine
    pub last_applied_index: u64,
    pub last_applied_term: u64,
    /// monotone tag on every AppendEntries this leader originates
    pub last_message_index: u64,
    /// the fixed cluster, in node-id order; includes this node
    pub node_ids: Vec<NodeId>,
    /// per-peer volatile state, parallel to `node_ids`
    pub peers: Vec<Node>,
    pub state: State,
    pub leader_id: Option<NodeId>,
    pub pending_write_requests: Vec<WriteRequest>,
    pub pending_read_requests: Vec<ReadRequest>,
}

impl Server {
    /// The mathematical value of the log, 1-indexed: entry `i` is
    /// `log()[i - 1]`.
    pub open spec fn log(self) -> Seq<EntryModel> {
        models(self.storage@)
    }

    pub open spec fn member(self, id: NodeId) -> bool {
        exists|i: int| 0 <= i < self.node_ids@.len() && self.node_ids@[i] == id
    }

    /// Log terms never decrease with the index.
    pub open spec fn log_terms_sorted(log: Seq<EntryModel>) -> bool {
        forall|i: int, j: int|
            0 <= i <= j < log.len() ==> (#[trigger] log[i]).term <= (#[trigger] log[j]).term
    }

    /// The well-formedness every handler preserves: contiguity is by
    /// construction (the log is a sequence), terms are monotone in the
    /// index, applied never passes committed, committed never passes
    /// the end of the log, and the volatile bookkeeping is consistent.
    pub open spec fn wf(self) -> bool {
        &&& self.config.valid()
        &&& self.node_ids@.len() >= 1
        &&& self.peers@.len() == self.node_ids@.len()
        &&& self.member(self.node_id)
        &&& Self::log_terms_sorted(self.log())
        &&& (self.log().len() > 0 ==> self.log().last().term <= self.current_term)
        &&& self.last_applied_index <= self.commit_index <= self.log().len()
        &&& self.last_applied_term <= self.current_term
        &&& (forall|i: int| 0 <= i < self.peers@.len() ==> #[trigger] self.peers@[i].next_index >= 1)
        &&& (self.state == State::Leader ==> self.leader_id == Some(self.node_id))
        &&& (self.state == State::Leader ==> forall|i: int|
            0 <= i < self.peers@.len() ==> #[trigger] self.peers@[i].match_index
                <= self.log().len())
        &&& (self.state == State::Leader ==> forall|i: int|
            0 <= i < self.peers@.len() ==> #[trigger] self.peers@[i].next_index
                <= self.log().len() + 1)
        &&& (forall|i: int, j: int|
            0 <= i < j < self.pending_write_requests@.len()
                ==> #[trigger] self.pending_write_requests@[i].index
                < #[trigger] self.pending_write_requests@[j].index)
        &&& (forall|i: int|
            0 <= i < self.pending_write_requests@.len()
                ==> #[trigger] self.pending_write_requests@[i].index
                > self.last_applied_index)
        &&& (forall|i: int|
            0 <= i < self.pending_write_requests@.len()
                ==> #[trigger] self.pending_write_requests@[i].index <= self.log().len())
        &&& (forall|i: int|
            0 <= i < self.pending_write_requests@.len() ==> self.log()[
                #[trigger] self.pending_write_requests@[i].index - 1
            ].kind is Command)
    }

    /// What a request from a correct leader looks like: its entries
    /// carry monotone terms no newer than the leader's term, the entry
    /// before them is no newer than the first of them, and the commit
    /// index it advertises lies within what the request describes.
    pub open spec fn ae_wf(request: AppendEntries) -> bool {
        &&& Self::log_terms_sorted(models(request.entries@))
        &&& (forall|i: int|
            0 <= i < request.entries@.len() ==> (#[trigger] request.entries@[i]).term
                <= request.term)
        &&& (request.entries@.len() > 0 ==> request.prev_log_term
            <= request.entries@[0].term)
        &&& request.prev_log_index + request.entries@.len() <= u64::MAX
        &&& request.leader_commit <= request.prev_log_index + request.entries@.len()
    }

    /// The log holds the entry the request names just before the new
    /// ones: the acceptance test of the replication RPC.
    pub open spec fn log_matches_at(log: Seq<EntryModel>, prev_index: u64, prev_term: u64) -> bool {
        prev_index == 0 || (prev_index <= log.len() && log[prev_index - 1].term == prev_term)
    }

    /// How many leading request entries already stand in the log with
    /// the same term, counting from `prev` entries in.
    pub open spec fn match_len(log: Seq<EntryModel>, prev: int, entries: Seq<EntryModel>) -> nat
        decreases entries.len(),
    {
        if entries.len() == 0 {
            0
        } else if prev < log.len() && log[prev].term == entries[0].term {
            1 + Self::match_len(log, prev + 1, entries.skip(1))
        } else {
            0
        }
    }

    /// The log after a successful AppendEntries: the matching prefix is
    /// kept; at the first conflict the tail is cut and the rest of the
    /// request replaces it; a request wholly inside the log changes
    /// nothing.
    pub open spec fn ae_merged(log: Seq<EntryModel>, prev: int, entries: Seq<EntryModel>) -> Seq<
        EntryModel,
    > {
        let k = Self::match_len(log, prev, entries) as int;
        if k == entries.len() && prev + k <= log.len() {
            log
        } else {
            log.take(prev + k) + entries.skip(k)
        }
    }

    pub fn new(
        node_id: NodeId,
        node_ids: Vec<NodeId>,
        config: RaftConfig,
        storage: MemoryStorage,
        metadata: Metadata,
    ) -> (r: Server)
        requires
            config.valid(),
            node_ids@.len() >= 1,
            exists|i: int| 0 <= i < node_ids@.len() && node_ids@[i] == node_id,
            Self::log_terms_sorted(models(storage@)),
            models(storage@).len() > 0 ==> models(storage@).last().term <= metadata.current_term,
        ensures
            r.wf(),
            r.node_id == node_id,
            r.current_term == metadata.current_term,
            r.voted_for == metadata.voted_for,
            r.commit_index == 0,
            r.last_applied_index == 0,
            r.state == State::Follower,
            r.leader_id is None,
            r.log() == models(storage@),
    {
        let n: usize = node_ids.len();
        let mut peers: Vec<Node> = Vec::new();
        let mut i: usize = 0;
        while i < n
            invariant
                i <= n,
                peers@.len() == i,
                forall|j: int| 0 <= j < i ==> #[trigger] peers@[j].next_index == 1,
            decreases n - i,
        {
            peers.push(Node::new());
            i = i + 1;
        }
        Server {
            node_id,
            config,
            storage,
            current_term: metadata.current_term,
            voted_for: metadata.voted_for,
            commit_index: 0,
            last_applied_index: 0,
            last_applied_term: 0,
            last_message_index: 0,
            node_ids,
            peers,
            state: State::Follower,
            leader_id: None,
            pending_write_requests: Vec::new(),
            pending_read_requests: Vec::new(),
        }
    }

    /// Role, identity and believed leader; reads nothing else.
    pub fn status(&self) -> (r: Status)
        ensures
            r.state == self.state,
            r.node_id == self.node_id,
            r.leader_id == self.leader_id,
    {
        Status { state: self.state, node_id: self.node_id, leader_id: self.leader_id }
    }

    /// The metadata record that the last persistence effect in the
    /// list carries, if any: what a crash right after these effects
    /// would leave on disk.
    pub open spec fn latest_metadata(effs: Seq<Effect>) -> Option<Metadata>
        decreases effs.len(),
    {
        if effs.len() == 0 {
            None
        } else {
            match effs.last() {
                Effect::PersistMetadata(m) => Some(m),
                _ => Self::latest_metadata(effs.drop_last()),
            }
        }
    }

    /// A handler only appends to the effect list.
    pub open spec fn effects_extended(old_effs: Seq<Effect>, new_effs: Seq<Effect>) -> bool {
        &&& new_effs.len() >= old_effs.len()
        &&& new_effs.take(old_effs.len() as int) == old_effs
    }

    /// The durable record matches the volatile term and vote: whenever
    /// a handler changes either, the effects it appended end (as far as
    /// persistence goes) with exactly the new record.
    pub open spec fn metadata_recorded(
        pre: Server,
        post: Server,
        old_effs: Seq<Effect>,
        new_effs: Seq<Effect>,
    ) -> bool {
        (post.current_term != pre.current_term || post.voted_for != pre.voted_for)
            ==> Self::latest_metadata(new_effs.skip(old_effs.len() as int)) == Some(
            Metadata { current_term: post.current_term, voted_for: post.voted_for },
        )
    }

    /// The monotonicity every handler keeps: the term never goes back,
    /// a cast vote stays cast for its term, and the commit and apply
    /// cursors never move backward.
    pub open spec fn monotone(pre: Server, post: Server) -> bool {
        &&& post.current_term >= pre.current_term
        &&& (post.current_term == pre.current_term && pre.voted_for is Some
            ==> post.voted_for == pre.voted_for)
        &&& post.commit_index >= pre.commit_index
        &&& post.last_applied_index >= pre.last_applied_index
    }

    /// Position of a node in the cluster list.
    fn peer_index(&self, id: NodeId) -> (r: Option<usize>)
        ensures
            match r {
                Some(i) => i < self.node_ids@.len() && self.node_ids@[i as int] == id,
                None => !self.member(id),
            },
    {
        let n: usize = self.node_ids.len();
        let mut i: usize = 0;
        while i < n
            invariant
                i <= n == self.node_ids@.len(),
                forall|j: int| 0 <= j < i ==> self.node_ids@[j] != id,
            decreases n - i,
        {
            if self.node_ids[i].0 == id.0 {
                return Some(i);
            }
            i = i + 1;
        }
        None
    }

    /// Raises the term and forgets the vote; the new record is pushed
    /// for persistence before anything depends on it.
    fn update_current_term(&mut self, new_term: u64, effects: &mut Vec<Effect>)
        requires
            old(self).wf(),
            new_term > old(self).current_term,
        ensures
            final(self).wf(),
            *final(self) == (Server {
                current_term: new_term,
                voted_for: None,
                ..*old(self)
            }),
            final(effects)@ == old(effects)@ + seq![
                Effect::PersistMetadata(Metadata { current_term: new_term, voted_for: None }),
            ],
    {
        effects.push(
            Effect::PersistMetadata(Metadata { current_term: new_term, voted_for: None }),
        );
        self.current_term = new_term;
        self.voted_for = None;
        proof {
            assert(effects@ =~= old(effects)@ + seq![
                Effect::PersistMetadata(Metadata { current_term: new_term, voted_for: None }),
            ]);
        }
    }

    /// Casts this node's vote for the current term, durably.
    fn vote_for(&mut self, node_id: NodeId, effects: &mut Vec<Effect>)
        requires
            old(self).wf(),
        ensures
            final(self).wf(),
            *final(self) == (Server { voted_for: Some(node_id), ..*old(self) }),
            final(effects)@ == old(effects)@ + seq![
                Effect::PersistMetadata(
                    Metadata {
                        current_term: old(self).current_term,
                        voted_for: Some(node_id),
                    },
                ),
            ],
    {
        effects.push(
            Effect::PersistMetadata(
                Metadata { current_term: self.current_term, voted_for: Some(node_id) },
            ),
        );
        self.voted_for = Some(node_id);
        proof {
            assert(effects@ =~= old(effects)@ + seq![
                Effect::PersistMetadata(
                    Metadata {
                        current_term: old(self).current_term,
                        voted_for: Some(node_id),
                    },
                ),
            ]);
        }
    }

    /// Steps down: follower role, no known leader, a fresh election
    /// deadline.
    fn become_follower(&mut self, effects: &mut Vec<Effect>)
        requires
            old(self).wf(),
        ensures
            final(self).wf(),
            *final(self) == (Server {
                state: State::Follower,
                leader_id: None,
                ..*old(self)
            }),
            final(effects)@ == old(effects)@ + seq![Effect::ResetElectionTimer],
    {
        self.state = State::Follower;
        self.leader_id = None;
        effects.push(Effect::ResetElectionTimer);
        proof {
            assert(effects@ =~= old(effects)@ + seq![Effect::ResetElectionTimer]);
        }
    }
}

/// The pending writes that survive cutting the log at `index`: the
/// longest prefix whose indices all lie below it.
pub open spec fn writes_below(ws: Seq<WriteRequest>, index: u64) -> Seq<WriteRequest>
    decreases ws.len(),
{
    if ws.len() > 0 && ws.last().index >= index {
        writes_below(ws.drop_last(), index)
    } else {
        ws
    }
}

/// With indices sorted, what survives the cut is a prefix and every
/// survivor's index lies below the cut.
proof fn lemma_writes_below(ws: Seq<WriteRequest>, index: u64)
    requires
        forall|i: int, j: int|
            0 <= i < j < ws.len() ==> #[trigger] ws[i].index < #[trigger] ws[j].index,
    ensures
        writes_below(ws, index).len() <= ws.len(),
        writes_below(ws, index) == ws.take(writes_below(ws, index).len() as int),
        forall|i: int|
            0 <= i < writes_below(ws, index).len() ==> #[trigger] writes_below(ws, index)[i].index
                < index,
    decreases ws.len(),
{
    if ws.len() > 0 && ws.last().index >= index {
        let shorter = ws.drop_last();
        assert(forall|i: int, j: int|
            0 <= i < j < shorter.len() ==> #[trigger] shorter[i].index
                < #[trigger] shorter[j].index);
        lemma_writes_below(shorter, index);
        assert(writes_below(ws, index) == writes_below(shorter, index));
        assert(shorter.take(writes_below(ws, index).len() as int) =~= ws.take(
            writes_below(ws, index).len() as int,
        ));
    } else {
        assert(writes_below(ws, index) == ws);
        assert(ws.take(ws.len() as int) =~= ws);
        if ws.len() > 0 {
            assert(forall|i: int| 0 <= i < ws.len() - 1 ==> #[trigger] ws[i].index
                < ws[ws.len() - 1].index);
        }
    }
}

impl Server {
    /// Cuts the log at `index` (1-based) and fails every pending write
    /// whose entry was cut, pointing the client at the leader this node
    /// believes in. Committed entries are never cut.
    fn truncate_log(&mut self, index: u64, effects: &mut Vec<Effect>)
        requires
            old(self).wf(),
            old(self).state == State::Follower,
            index >= 1,
            index > old(self).commit_index,
        ensures
            final(self).wf(),
            final(self).log() == if index - 1 <= old(self).log().len() {
                old(self).log().take(index - 1)
            } else {
                old(self).log()
            },
            final(self).pending_write_requests@ == writes_below(
                old(self).pending_write_requests@,
                index,
            ),
            forall|j: int|
                writes_below(old(self).pending_write_requests@, index).len() <= j < old(
                    self,
                ).pending_write_requests@.len() ==> write_rejected_in(
                    final(effects)@.skip(old(effects)@.len() as int),
                    (#[trigger] old(self).pending_write_requests@[j]).request_id,
                    old(self).leader_id,
                ),
            final(self).current_term == old(self).current_term,
            final(self).voted_for == old(self).voted_for,
            final(self).commit_index == old(self).commit_index,
            final(self).last_applied_index == old(self).last_applied_index,
            final(self).last_applied_term == old(self).last_applied_term,
            final(self).last_message_index == old(self).last_message_index,
            final(self).state == old(self).state,
            final(self).leader_id == old(self).leader_id,
            final(self).node_id == old(self).node_id,
            final(self).node_ids == old(self).node_ids,
            final(self).peers == old(self).peers,
            final(self).config == old(self).config,
            final(self).pending_read_requests == old(self).pending_read_requests,
            Self::effects_extended(old(effects)@, final(effects)@),
            Self::latest_metadata(final(effects)@.skip(old(effects)@.len() as int)) is None,
    {
        let ghost pre = *old(self);
        let ghost base = old(effects)@.len() as int;
        effects.push(Effect::TruncateLog(index));
        let r = self.storage.truncate_entries(index);
        proof {
            if index - 1 <= pre.log().len() {
                assert(self.log() =~= pre.log().take(index - 1));
            }
            assert(effects@.take(base) =~= old(effects)@);
            assert(effects@.skip(base) =~= seq![Effect::TruncateLog(index)]);
            assert(effects@.skip(base).drop_last() =~= Seq::<Effect>::empty());
            assert(Self::latest_metadata(Seq::<Effect>::empty()) is None);
            assert(Self::latest_metadata(effects@.skip(base)) is None);
            assert(pre.pending_write_requests@.take(pre.pending_write_requests@.len() as int)
                =~= pre.pending_write_requests@);
        }
        let ghost mid = *self;
        while self.pending_write_requests.len() > 0 && self.pending_write_requests[self.pending_write_requests.len()
            - 1].index >= index
            invariant
                self.storage == mid.storage,
                self.current_term == mid.current_term,
                self.voted_for == mid.voted_for,
                self.commit_index == mid.commit_index,
                self.last_applied_index == mid.last_applied_index,
                self.last_applied_term == mid.last_applied_term,
                self.last_message_index == mid.last_message_index,
                self.state == mid.state,
                self.node_ids == mid.node_ids,
                self.peers == mid.peers,
                self.config == mid.config,
                self.pending_read_requests == mid.pending_read_requests,
                writes_below(pre.pending_write_requests@, index) == writes_below(
                    self.pending_write_requests@,
                    index,
                ),
                forall|i: int, j: int|
                    0 <= i < j < self.pending_write_requests@.len()
                        ==> #[trigger] self.pending_write_requests@[i].index
                        < #[trigger] self.pending_write_requests@[j].index,
                self.pending_write_requests@.len() <= pre.pending_write_requests@.len(),
                self.pending_write_requests@ == pre.pending_write_requests@.take(
                    self.pending_write_requests@.len() as int,
                ),
                self.node_id == pre.node_id,
                self.leader_id == pre.leader_id,
                base == old(effects)@.len(),
                Self::effects_extended(old(effects)@, effects@),
                Self::latest_metadata(effects@.skip(base)) is None,
                forall|j: int|
                    self.pending_write_requests@.len() <= j < pre.pending_write_requests@.len()
                        ==> write_rejected_in(
                        effects@.skip(base),
                        (#[trigger] pre.pending_write_requests@[j]).request_id,
                        pre.leader_id,
                    ),
            decreases self.pending_write_requests@.len(),
        {
            let ghost prev_ws = self.pending_write_requests@;
            let ghost prev_effs = effects@;
            let back = self.pending_write_requests.len() - 1;
            let request = self.pending_write_requests[back];
            self.pending_write_requests.pop();
            effects.push(
                Effect::WriteRejected { request_id: request.request_id, leader_id: self.leader_id },
            );
            proof {
                assert(prev_ws.last().index >= index);
                assert(writes_below(prev_ws, index) == writes_below(prev_ws.drop_last(), index));
                assert(self.pending_write_requests@ == prev_ws.drop_last());
                assert(self.pending_write_requests@ =~= pre.pending_write_requests@.take(
                    self.pending_write_requests@.len() as int,
                ));
                assert(effects@.take(base) =~= prev_effs.take(base));
                let appended = effects@.skip(base);
                let prev_app = prev_effs.skip(base);
                assert(appended.drop_last() =~= prev_app);
                assert(Self::latest_metadata(appended) == Self::latest_metadata(prev_app));
                // the write popped just now is answered, and every
                // earlier answer stands
                assert(appended.last() == (Effect::WriteRejected {
                    request_id: request.request_id,
                    leader_id: pre.leader_id,
                }));
                assert(appended[appended.len() - 1] == appended.last());
                assert(request == prev_ws[prev_ws.len() - 1]);
                assert(prev_ws[prev_ws.len() - 1] == pre.pending_write_requests@[prev_ws.len()
                    - 1]);
                assert forall|j: int|
                    self.pending_write_requests@.len() <= j
                        < pre.pending_write_requests@.len() implies write_rejected_in(
                    appended,
                    (#[trigger] pre.pending_write_requests@[j]).request_id,
                    pre.leader_id,
                ) by {
                    if j >= prev_ws.len() {
                        assert(write_rejected_in(prev_app, pre.pending_write_requests@[j].request_id, pre.leader_id));
                        let k = choose|k: int|
                            0 <= k < prev_app.len() && prev_app[k] == (Effect::WriteRejected {
                                request_id: pre.pending_write_requests@[j].request_id,
                                leader_id: pre.leader_id,
                            });
                        assert(appended[k] == prev_app[k]);
                    } else {
                        assert(j == prev_ws.len() - 1);
                        assert(write_rejected_in(appended, request.request_id, pre.leader_id));
                    }
                }
            }
        }
        proof {
            assert(writes_below(self.pending_write_requests@, index)
                == self.pending_write_requests@);
            lemma_writes_below(pre.pending_write_requests@, index);
            if index - 1 <= pre.log().len() {
                assert(self.log() == pre.log().take(index - 1));
                if self.log().len() > 0 {
                    assert(self.log().last() == pre.log()[index - 2]);
                    assert(pre.log()[index - 2].term <= pre.log()[pre.log().len() - 1].term);
                }
                assert(Self::log_terms_sorted(self.log()));
            } else {
                assert(self.log() == pre.log());
            }
            assert(self.config.valid());
            assert(self.member(self.node_id));
            assert(self.last_applied_index <= self.commit_index <= self.log().len());
            assert(forall|i: int|
                0 <= i < self.pending_write_requests@.len()
                    ==> #[trigger] self.pending_write_requests@[i]
                    == pre.pending_write_requests@[i]);
            assert(forall|i: int|
                0 <= i < self.pending_write_requests@.len()
                    ==> #[trigger] self.pending_write_requests@[i].index
                    > self.last_applied_index);
            assert(forall|i: int|
                0 <= i < self.pending_write_requests@.len()
                    ==> #[trigger] self.pending_write_requests@[i].index < index);
            assert(forall|i: int|
                0 <= i < self.pending_write_requests@.len()
                    ==> #[trigger] self.pending_write_requests@[i].index <= self.log().len());
        }
    }
}

impl Server {
    /// The candidate's last log entry is at least as up to date as this
    /// log, comparing (term, index) lexicographically.
    pub open spec fn candidate_up_to_date(
        log: Seq<EntryModel>,
        last_log_term: u64,
        last_log_index: u64,
    ) -> bool {
        let lt = if log.len() == 0 {
            0
        } else {
            log.last().term
        };
        ||| last_log_term > lt
        ||| (last_log_term == lt && last_log_index >= log.len())
    }

    /// A node never asks itself for a vote, and never learns of a
    /// grantable request while it already acts as candidate or leader
    /// in that same term without having voted: that would mean two
    /// overlapping candidacies inside one node.
    pub open spec fn rv_no_conflict(s: Server, req: RequestVote) -> bool {
        !(req.term == s.current_term && s.state != State::Follower && (s.voted_for is None
            || s.voted_for == Some(req.candidate_id)) && Self::candidate_up_to_date(
            s.log(),
            req.last_log_term,
            req.last_log_index,
        ))
    }

    /// Whether this vote request is granted, from the state before the
    /// call: the term must be current, the vote must be free or already
    /// his, and the candidate's log must be at least as up to date.
    pub open spec fn vote_granted_now(pre: Server, req: RequestVote) -> bool {
        &&& req.term >= pre.current_term
        &&& (req.term > pre.current_term || pre.voted_for is None || pre.voted_for == Some(
            req.candidate_id,
        ))
        &&& Self::candidate_up_to_date(pre.log(), req.last_log_term, req.last_log_index)
    }

    /// Grants or rejects a vote. A vote is granted exactly when the
    /// candidate's term is current, this node's vote for that term is
    /// free or already the candidate's, and the candidate's log is at
    /// least as up to date; the vote is persisted before the reply.
    pub fn handle_request_vote(&mut self, request: RequestVote, effects: &mut Vec<Effect>) -> (r:
        RequestVoteResponse)
        requires
            old(self).wf(),
            Self::rv_no_conflict(*old(self), request),
        ensures
            final(self).wf(),
            Self::monotone(*old(self), *final(self)),
            Self::effects_extended(old(effects)@, final(effects)@),
            Self::metadata_recorded(*old(self), *final(self), old(effects)@, final(effects)@),
            final(self).current_term == if request.term > old(self).current_term {
                request.term
            } else {
                old(self).current_term
            },
            r.term == final(self).current_term,
            r.vote_granted == Self::vote_granted_now(*old(self), request),
            // a granted vote is persisted before the reply, even when
            // it only confirms the vote already cast, and the election
            // deadline is drawn afresh
            r.vote_granted ==> Self::latest_metadata(
                final(effects)@.skip(old(effects)@.len() as int),
            ) == Some(
                Metadata {
                    current_term: final(self).current_term,
                    voted_for: Some(request.candidate_id),
                },
            ) && final(effects)@.len() > old(effects)@.len() && final(effects)@.last()
                == Effect::ResetElectionTimer,
            final(self).voted_for == if r.vote_granted {
                Some(request.candidate_id)
            } else if request.term > old(self).current_term {
                None
            } else {
                old(self).voted_for
            },
            final(self).state == if request.term > old(self).current_term {
                State::Follower
            } else {
                old(self).state
            },
            final(self).log() == old(self).log(),
            final(self).commit_index == old(self).commit_index,
            final(self).last_applied_index == old(self).last_applied_index,
            final(self).pending_write_requests == old(self).pending_write_requests,
            final(self).pending_read_requests == old(self).pending_read_requests,
            final(self).peers == old(self).peers,
            final(self).storage == old(self).storage,
    {
        let ghost pre = *old(self);
        let ghost base = old(effects)@.len() as int;
        if request.term > self.current_term {
            self.update_current_term(request.term, effects);
            self.become_follower(effects);
        }
        proof {
            if request.term > pre.current_term {
                let m = Metadata { current_term: request.term, voted_for: None };
                assert(effects@.skip(base) =~= seq![
                    Effect::PersistMetadata(m),
                    Effect::ResetElectionTimer,
                ]);
                assert(effects@.skip(base).drop_last() =~= seq![Effect::PersistMetadata(m)]);
                reveal_with_fuel(Server::latest_metadata, 4);
                assert(Self::latest_metadata(effects@.skip(base)) == Some(m));
                assert(effects@.take(base) =~= old(effects)@);
            } else {
                assert(effects@.skip(base) =~= Seq::<Effect>::empty());
                assert(effects@.take(base) =~= old(effects)@);
            }
        }
        let ghost stepped = *self;
        let ghost mid_effs = effects@;
        if request.term < self.current_term {
            return RequestVoteResponse { term: self.current_term, vote_granted: false };
        }
        match self.voted_for {
            None => {},
            Some(node_id) => {
                if node_id.0 != request.candidate_id.0 {
                    return RequestVoteResponse { term: self.current_term, vote_granted: false };
                }
            },
        }
        let current_index = self.storage.current_index();
        let last_term = match self.storage.last_term() {
            Ok(t) => t,
            Err(_) => 0,
        };
        if request.last_log_term < last_term || (request.last_log_term == last_term
            && request.last_log_index < current_index) {
            proof {
                assert(!Self::candidate_up_to_date(
                    pre.log(),
                    request.last_log_term,
                    request.last_log_index,
                ));
            }
            return RequestVoteResponse { term: self.current_term, vote_granted: false };
        }
        proof {
            assert(self.state == State::Follower);
        }
        self.vote_for(request.candidate_id, effects);
        effects.push(Effect::ResetElectionTimer);
        proof {
            let vm = Metadata {
                current_term: self.current_term,
                voted_for: Some(request.candidate_id),
            };
            assert(effects@.skip(mid_effs.len() as int) =~= seq![
                Effect::PersistMetadata(vm),
                Effect::ResetElectionTimer,
            ]);
            let appended = effects@.skip(base);
            assert(appended.drop_last().drop_last() =~= mid_effs.skip(base));
            assert(appended.drop_last() == appended.drop_last());
            assert(appended.last() == Effect::ResetElectionTimer);
            assert(appended.drop_last().last() == Effect::PersistMetadata(vm));
            reveal_with_fuel(Server::latest_metadata, 4);
            assert(Self::latest_metadata(appended) == Some(vm));
            assert(effects@.take(base) =~= old(effects)@);
        }
        RequestVoteResponse { term: self.current_term, vote_granted: true }
    }
}

/// How many values lie at or above `v`.
pub open spec fn count_ge(s: Seq<u64>, v: u64) -> nat
    decreases s.len(),
{
    if s.len() == 0 {
        0
    } else {
        (if s.last() >= v {
            1nat
        } else {
            0nat
        }) + count_ge(s.drop_last(), v)
    }
}

/// The quorum median: the largest value in `s` that at least
/// `len - len / 2` of the values reach. It is what picking the middle
/// element of the sorted values yields.
pub open spec fn is_quorum_median(s: Seq<u64>, m: u64) -> bool {
    &&& s.contains(m)
    &&& count_ge(s, m) >= s.len() - s.len() / 2
    &&& (forall|v: u64|
        s.contains(v) && count_ge(s, v) >= s.len() - s.len() / 2 ==> v <= m)
}

proof fn lemma_count_ge_all(s: Seq<u64>, v: u64)
    requires
        forall|i: int| 0 <= i < s.len() ==> #[trigger] s[i] >= v,
    ensures
        count_ge(s, v) == s.len(),
    decreases s.len(),
{
    if s.len() > 0 {
        assert(forall|i: int| 0 <= i < s.drop_last().len() ==> #[trigger] s.drop_last()[i] >= v);
        lemma_count_ge_all(s.drop_last(), v);
    }
}

/// Counts the values at or above `v`.
fn count_at_least(values: &Vec<u64>, v: u64) -> (r: usize)
    ensures
        r == count_ge(values@, v),
{
    let len: usize = values.len();
    let mut count: usize = 0;
    let mut i: usize = 0;
    proof {
        assert(values@.take(0) =~= Seq::<u64>::empty());
    }
    while i < len
        invariant
            i <= len == values@.len(),
            count == count_ge(values@.take(i as int), v),
            count <= i,
        decreases len - i,
    {
        proof {
            assert(values@.take(i + 1).drop_last() =~= values@.take(i as int));
            assert(values@.take(i + 1).last() == values@[i as int]);
        }
        if values[i] >= v {
            count = count + 1;
        }
        i = i + 1;
    }
    proof {
        assert(values@.take(len as int) =~= values@);
    }
    count
}

/// The quorum median of a non-empty list of values.
fn quorum_median(values: &Vec<u64>) -> (r: u64)
    requires
        values@.len() >= 1,
    ensures
        is_quorum_median(values@, r),
{
    let len: usize = values.len();
    // start from the minimum, which every value reaches
    let mut best: u64 = values[0];
    let mut i: usize = 1;
    while i < len
        invariant
            1 <= i <= len == values@.len(),
            exists|j: int| 0 <= j < i && values@[j] == best,
            forall|j: int| 0 <= j < i ==> #[trigger] values@[j] >= best,
        decreases len - i,
    {
        if values[i] < best {
            best = values[i];
        }
        i = i + 1;
    }
    proof {
        lemma_count_ge_all(values@, best);
    }
    let need: usize = len - len / 2;
    let mut candidate: u64 = best;
    let mut k: usize = 0;
    while k < len
        invariant
            k <= len == values@.len(),
            need == values@.len() - values@.len() / 2,
            values@.contains(candidate),
            count_ge(values@, candidate) >= need,
            forall|j: int|
                0 <= j < k && count_ge(values@, #[trigger] values@[j]) >= need ==> values@[j]
                    <= candidate,
        decreases len - k,
    {
        let v = values[k];
        if v > candidate {
            let c = count_at_least(values, v);
            if c >= need {
                candidate = v;
                proof {
                    assert(values@[k as int] == v);
                    assert(values@.contains(v));
                }
            }
        }
        k = k + 1;
    }
    proof {
        assert(forall|v: u64|
            values@.contains(v) ==> exists|j: int| 0 <= j < values@.len() && values@[j] == v);
    }
    candidate
}

impl Server {
    /// The replication levels the leader knows, cluster-wide, in node
    /// order: its own entry included.
    pub open spec fn match_indices(self) -> Seq<u64> {
        self.peers@.map_values(|p: Node| p.match_index)
    }

    /// Advances the commit index to the quorum median of the match
    /// indices, but only onto an entry of the leader's own term: an
    /// entry from a prior term is never committed directly. The commit
    /// index never moves backward.
    fn update_commit_index(&mut self)
        requires
            old(self).wf(),
            old(self).state == State::Leader,
        ensures
            final(self).wf(),
            *final(self) == (Server { commit_index: final(self).commit_index, ..*old(self) }),
            final(self).commit_index >= old(self).commit_index,
            forall|m: u64|
                is_quorum_median(old(self).match_indices(), m) ==> final(self).commit_index == (
                if m > old(self).commit_index && old(self).log()[m - 1].term == old(self).current_term {
                    m
                } else {
                    old(self).commit_index
                }),
    {
        let ghost pre = *old(self);
        let len: usize = self.peers.len();
        let mut match_values: Vec<u64> = Vec::new();
        let mut i: usize = 0;
        proof {
            assert(match_values@ =~= self.match_indices().take(0));
        }
        while i < len
            invariant
                i <= len == self.peers@.len(),
                match_values@.len() == i,
                match_values@ == self.match_indices().take(i as int),
            decreases len - i,
        {
            match_values.push(self.peers[i].match_index);
            proof {
                assert(match_values@ =~= self.match_indices().take(i + 1));
            }
            i = i + 1;
        }
        proof {
            assert(match_values@ =~= self.match_indices());
        }
        let n = quorum_median(&match_values);
        proof {
            assert(self.match_indices().contains(n));
            let j = choose|j: int|
                0 <= j < self.match_indices().len() && self.match_indices()[j] == n;
            assert(self.peers@[j].match_index == n);
            assert(n <= self.log().len());
        }
        if n > self.commit_index {
            let entry = match self.storage.entry(n) {
                Ok(Some(e)) => e,
                _ => {
                    proof {
                        assert(false);
                    }
                    return;
                },
            };
            if entry.term == self.current_term {
                self.commit_index = n;
            }
        }
    }
}

impl Server {
    /// The freshness tags the leader counts for the read barrier: for
    /// itself the tag of the newest message it sent, for every other
    /// node the newest tag that node has echoed.
    pub open spec fn message_indices(self) -> Seq<u64> {
        Seq::new(
            self.peers@.len(),
            |i: int|
                if self.node_ids@[i] == self.node_id {
                    self.last_message_index
                } else {
                    self.peers@[i].match_message_index
                },
        )
    }

    /// A committed entry was handed out for application with its log
    /// position and payload.
    pub open spec fn applied_in(effs: Seq<Effect>, i: u64, log: Seq<EntryModel>) -> bool {
        exists|j: int|
            0 <= j < effs.len() && match #[trigger] effs[j] {
                Effect::Apply { index, payload, write_request } => index == i && payload@ == log[i
                    - 1].kind->Command_0,
                _ => false,
            }
    }

    /// Everything in the log up to the commit index is applied, in
    /// index order; each applied command answers the pending write that
    /// waits at that index, if one does. Then pending reads are
    /// answered: all of them with failure when this node is not the
    /// leader; in order, while the read barrier passes, when it is.
    /// The read barrier demands that the leader has applied an entry of
    /// its own term, that a quorum has echoed a message at least as
    /// fresh as the read's tag, and that the read's snapshot index is
    /// applied.
    #[verifier::rlimit(100)]
    #[verifier::spinoff_prover]
    fn exec_operations(&mut self, effects: &mut Vec<Effect>)
        requires
            old(self).wf(),
        ensures
            final(self).wf(),
            Self::monotone(*old(self), *final(self)),
            Self::effects_extended(old(effects)@, final(effects)@),
            Self::latest_metadata(final(effects)@.skip(old(effects)@.len() as int)) is None,
            final(self).storage == old(self).storage,
            final(self).current_term == old(self).current_term,
            final(self).voted_for == old(self).voted_for,
            final(self).commit_index == old(self).commit_index,
            final(self).state == old(self).state,
            final(self).leader_id == old(self).leader_id,
            final(self).node_id == old(self).node_id,
            final(self).node_ids == old(self).node_ids,
            final(self).peers == old(self).peers,
            final(self).config == old(self).config,
            final(self).last_message_index == old(self).last_message_index,
            final(self).last_applied_index == old(self).commit_index,
            final(self).last_applied_term == if old(self).commit_index > old(self).last_applied_index {
                old(self).log()[old(self).commit_index - 1].term
            } else {
                old(self).last_applied_term
            },
            // writes at or below the commit index are answered by their
            // applies and leave the queue, in order
            exists|k: int|
                0 <= k <= old(self).pending_write_requests@.len() && final(self).pending_write_requests@ == old(self).pending_write_requests@.skip(k) && (forall|
                    j: int,
                |
                    0 <= j < k ==> (#[trigger] old(self).pending_write_requests@[j]).index <= old(self).commit_index && write_answered_in(
                        final(effects)@.skip(old(effects)@.len() as int),
                        old(self).pending_write_requests@[j].index,
                        old(self).pending_write_requests@[j].request_id,
                    )) && (k < old(self).pending_write_requests@.len() ==> old(self).pending_write_requests@[k].index > old(self).commit_index),
            // each newly committed command is handed out for
            // application at its log position
            forall|i: u64|
                old(self).last_applied_index < i <= old(self).commit_index && old(self).log()[i
                    - 1].kind is Command ==> #[trigger] Self::applied_in(
                    final(effects)@.skip(old(effects)@.len() as int),
                    i,
                    old(self).log(),
                ),
            // the apply effects are exactly the committed commands, in
            // increasing index order, each answering the write waiting
            // at its position: none doubled, none past the commit index
            apply_effects(final(effects)@.skip(old(effects)@.len() as int)) == expected_applies(
                old(self).log(),
                old(self).last_applied_index,
                old(self).commit_index,
                old(self).pending_write_requests@,
            ),
            // reads leave the queue only from the front
            exists|k: int|
                0 <= k <= old(self).pending_read_requests@.len() && final(self).pending_read_requests@ == old(self).pending_read_requests@.skip(k),
            // nothing here ever turns a write away or solicits a vote
            no_write_rejected(final(effects)@.skip(old(effects)@.len() as int)),
            no_request_vote_sent(final(effects)@.skip(old(effects)@.len() as int)),
            // when this node is not the leader, no read stays pending:
            // every one of them is turned away
            old(self).state != State::Leader ==> final(self).pending_read_requests@.len() == 0
                && no_read_granted(final(effects)@.skip(old(effects)@.len() as int)) && (forall|
                j: int,
            |
                0 <= j < old(self).pending_read_requests@.len() ==> read_rejected_in(
                    final(effects)@.skip(old(effects)@.len() as int),
                    (#[trigger] old(self).pending_read_requests@[j]).request_id,
                    old(self).leader_id,
                )),
            // on a leader no read is ever turned away here
            old(self).state == State::Leader ==> no_read_rejected(
                final(effects)@.skip(old(effects)@.len() as int),
            ),
            // while the leader has not applied an entry of its own
            // term, reads stay held: none granted, none rejected
            old(self).state == State::Leader && final(self).last_applied_term != final(self).current_term ==> final(self).pending_read_requests@ == old(self).pending_read_requests@
                && no_read_granted(final(effects)@.skip(old(effects)@.len() as int)),
            // once it has, the reads whose barrier passed are granted,
            // in order, and exactly those: a read is granted only when
            // a quorum echoed a tag at least as fresh as its own and
            // its snapshot index is applied
            old(self).state == State::Leader && final(self).last_applied_term == final(self).current_term ==> exists|q: u64|
                #[trigger] is_quorum_median(old(self).message_indices(), q) && exists|k: int|
                    0 <= k <= old(self).pending_read_requests@.len() && final(self).pending_read_requests@ == old(self).pending_read_requests@.skip(k) && (forall|
                        j: int,
                    |
                        0 <= j < k ==> read_granted_in(
                            final(effects)@.skip(old(effects)@.len() as int),
                            (#[trigger] old(self).pending_read_requests@[j]).request_id,
                        ) && old(self).pending_read_requests@[j].message_index <= q && old(self).pending_read_requests@[j].index <= final(self).last_applied_index) && (k
                        < old(self).pending_read_requests@.len() ==> !(old(self).pending_read_requests@[k].message_index <= q && old(self).pending_read_requests@[k].index
                        <= final(self).last_applied_index)) && (forall|k2: int|
                        0 <= k2 < final(effects)@.skip(old(effects)@.len() as int).len() && (
                    #[trigger] final(effects)@.skip(old(effects)@.len() as int)[k2]) is ReadGranted
                        ==> exists|j: int|
                        0 <= j < k && old(self).pending_read_requests@[j].request_id == final(effects)@.skip(old(effects)@.len() as int)[k2]->ReadGranted_request_id),
    {
        let ghost pre = *old(self);
        let ghost base = old(effects)@.len() as int;
        self.exec_apply(effects);
        let ghost mid = *self;
        let ghost effs1 = effects@;
        self.exec_reads(effects);
        proof {
            let total = effects@.skip(base);
            let app1 = effs1.skip(base);
            let app2 = effects@.skip(effs1.len() as int);
            assert(effects@.take(effs1.len() as int) == effs1);
            assert(effects@.take(base) =~= old(effects)@);
            assert(total =~= app1 + app2);
            lemma_latest_metadata_split(effects@, base, effs1.len() as int);
            lemma_apply_effects_concat(app1, app2);
            assert(apply_effects(total) =~= expected_applies(
                pre.log(),
                pre.last_applied_index,
                pre.commit_index,
                pre.pending_write_requests@,
            ));
            lemma_applied_in_extended(effs1, effects@, base, pre, self.last_applied_index);
            // the write-queue outcome of the apply phase stands after
            // the read phase, which touches no writes
            let k = choose|k: int|
                0 <= k <= pre.pending_write_requests@.len() && mid.pending_write_requests@
                    == pre.pending_write_requests@.skip(k) && (forall|j: int|
                    0 <= j < k ==> (#[trigger] pre.pending_write_requests@[j]).index
                        <= pre.commit_index && write_answered_in(
                        app1,
                        pre.pending_write_requests@[j].index,
                        pre.pending_write_requests@[j].request_id,
                    )) && (k < pre.pending_write_requests@.len()
                    ==> pre.pending_write_requests@[k].index > pre.commit_index);
            assert forall|j: int| 0 <= j < k implies write_answered_in(
                total,
                (#[trigger] pre.pending_write_requests@[j]).index,
                pre.pending_write_requests@[j].request_id,
            ) by {
                lemma_write_answered_extended(
                    app1,
                    total,
                    pre.pending_write_requests@[j].index,
                    pre.pending_write_requests@[j].request_id,
                );
            }
            // the read outcomes of the read phase stand over the whole
            // appended list, whose apply-phase part holds no read
            // effects
            if pre.state != State::Leader {
                assert forall|j: int|
                    0 <= j < pre.pending_read_requests@.len() implies read_rejected_in(
                    total,
                    (#[trigger] pre.pending_read_requests@[j]).request_id,
                    pre.leader_id,
                ) by {
                    assert(read_rejected_in(
                        app2,
                        pre.pending_read_requests@[j].request_id,
                        pre.leader_id,
                    ));
                    lemma_read_rejected_shifted(
                        app1,
                        app2,
                        total,
                        pre.pending_read_requests@[j].request_id,
                        pre.leader_id,
                    );
                }
            } else {
                assert(no_read_rejected(total));
                if self.last_applied_term == self.current_term {
                    let q = choose|q: u64|
                        #[trigger] is_quorum_median(mid.message_indices(), q) && exists|k2: int|
                            0 <= k2 <= mid.pending_read_requests@.len()
                                && self.pending_read_requests@
                                == mid.pending_read_requests@.skip(k2) && (forall|j: int|
                                0 <= j < k2 ==> read_granted_in(
                                    app2,
                                    (#[trigger] mid.pending_read_requests@[j]).request_id,
                                ) && mid.pending_read_requests@[j].message_index <= q
                                    && mid.pending_read_requests@[j].index
                                    <= self.last_applied_index) && (k2
                                < mid.pending_read_requests@.len() ==> !(
                            mid.pending_read_requests@[k2].message_index <= q
                                && mid.pending_read_requests@[k2].index
                                <= self.last_applied_index));
                    assert(mid.message_indices() =~= pre.message_indices());
                    let k2 = choose|k2: int|
                        0 <= k2 <= mid.pending_read_requests@.len() && self.pending_read_requests@
                            == mid.pending_read_requests@.skip(k2) && (forall|j: int|
                            0 <= j < k2 ==> read_granted_in(
                                app2,
                                (#[trigger] mid.pending_read_requests@[j]).request_id,
                            ) && mid.pending_read_requests@[j].message_index <= q
                                && mid.pending_read_requests@[j].index
                                <= self.last_applied_index) && (k2
                            < mid.pending_read_requests@.len() ==> !(
                        mid.pending_read_requests@[k2].message_index <= q
                            && mid.pending_read_requests@[k2].index <= self.last_applied_index));
                    assert forall|j: int| 0 <= j < k2 implies read_granted_in(
                        total,
                        (#[trigger] pre.pending_read_requests@[j]).request_id,
                    ) by {
                        lemma_read_granted_shifted(
                            app1,
                            app2,
                            total,
                            mid.pending_read_requests@[j].request_id,
                        );
                    }
                    assert(is_quorum_median(pre.message_indices(), q));
                }
            }
            // grants arise only in the read phase, answering its queue
            assert forall|k2: int|
                0 <= k2 < total.len() && (#[trigger] total[k2]) is ReadGranted implies exists|
                j: int,
            |
                0 <= j < pre.pending_read_requests@.len() && pre.pending_read_requests@[j].request_id
                    == total[k2]->ReadGranted_request_id by {
                if k2 < app1.len() {
                    assert(total[k2] == app1[k2]);
                    assert(!(app1[k2] is ReadGranted));
                } else {
                    assert(total[k2] == app2[k2 - app1.len()]);
                }
            }
        }
    }

    /// The apply pass: everything committed and not yet applied is
    /// handed out in index order, each command answering the write
    /// waiting at its position.
    #[verifier::rlimit(100)]
    #[verifier::spinoff_prover]
    fn exec_apply(&mut self, effects: &mut Vec<Effect>)
        requires
            old(self).wf(),
        ensures
            final(self).wf(),
            Self::effects_extended(old(effects)@, final(effects)@),
            Self::latest_metadata(final(effects)@.skip(old(effects)@.len() as int)) is None,
            *final(self) == (Server {
                last_applied_index: final(self).last_applied_index,
                last_applied_term: final(self).last_applied_term,
                pending_write_requests: final(self).pending_write_requests,
                storage: old(self).storage,
                ..*old(self)
            }),
            final(self).last_applied_index == old(self).commit_index,
            final(self).last_applied_term == if old(self).commit_index > old(self).last_applied_index {
                old(self).log()[old(self).commit_index - 1].term
            } else {
                old(self).last_applied_term
            },
            exists|k: int|
                0 <= k <= old(self).pending_write_requests@.len() && final(self).pending_write_requests@ == old(self).pending_write_requests@.skip(k) && (forall|
                    j: int,
                |
                    0 <= j < k ==> (#[trigger] old(self).pending_write_requests@[j]).index <= old(self).commit_index && write_answered_in(
                        final(effects)@.skip(old(effects)@.len() as int),
                        old(self).pending_write_requests@[j].index,
                        old(self).pending_write_requests@[j].request_id,
                    )) && (k < old(self).pending_write_requests@.len() ==> old(self).pending_write_requests@[k].index > old(self).commit_index),
            forall|i: u64|
                old(self).last_applied_index < i <= old(self).commit_index && old(self).log()[i
                    - 1].kind is Command ==> #[trigger] Self::applied_in(
                    final(effects)@.skip(old(effects)@.len() as int),
                    i,
                    old(self).log(),
                ),
            apply_effects(final(effects)@.skip(old(effects)@.len() as int)) == expected_applies(
                old(self).log(),
                old(self).last_applied_index,
                old(self).commit_index,
                old(self).pending_write_requests@,
            ),
            no_read_rejected(final(effects)@.skip(old(effects)@.len() as int)),
            no_read_granted(final(effects)@.skip(old(effects)@.len() as int)),
            no_write_rejected(final(effects)@.skip(old(effects)@.len() as int)),
            no_request_vote_sent(final(effects)@.skip(old(effects)@.len() as int)),
    {
        let ghost pre = *old(self);
        let ghost base = old(effects)@.len() as int;
        let ghost ws0 = pre.pending_write_requests@;
        proof {
            assert(effects@.skip(base) =~= Seq::<Effect>::empty());
            assert(effects@.take(base) =~= old(effects)@);
            assert(ws0.skip(0) =~= ws0);
        }
        while self.commit_index > self.last_applied_index
            invariant
                self.storage == pre.storage,
                self.current_term == pre.current_term,
                self.voted_for == pre.voted_for,
                self.commit_index == pre.commit_index,
                self.state == pre.state,
                self.leader_id == pre.leader_id,
                self.node_id == pre.node_id,
                self.node_ids == pre.node_ids,
                self.peers == pre.peers,
                self.config == pre.config,
                self.last_message_index == pre.last_message_index,
                self.pending_read_requests == pre.pending_read_requests,
                pre.wf(),
                self.wf(),
                ws0 == pre.pending_write_requests@,
                pre.last_applied_index <= self.last_applied_index <= self.commit_index,
                self.last_applied_term == if self.last_applied_index > pre.last_applied_index {
                    pre.log()[self.last_applied_index - 1].term
                } else {
                    pre.last_applied_term
                },
                base == old(effects)@.len(),
                Self::effects_extended(old(effects)@, effects@),
                Self::latest_metadata(effects@.skip(base)) is None,
                exists|k: int|
                    0 <= k <= ws0.len() && self.pending_write_requests@ == ws0.skip(k) && (forall|
                        j: int,
                    |
                        0 <= j < k ==> (#[trigger] ws0[j]).index <= self.last_applied_index
                            && write_answered_in(
                            effects@.skip(base),
                            ws0[j].index,
                            ws0[j].request_id,
                        )) && (k < ws0.len() ==> ws0[k].index > self.last_applied_index),
                forall|i: u64|
                    pre.last_applied_index < i <= self.last_applied_index && pre.log()[i
                        - 1].kind is Command ==> #[trigger] Self::applied_in(
                        effects@.skip(base),
                        i,
                        pre.log(),
                    ),
                apply_effects(effects@.skip(base)) == expected_applies(
                    pre.log(),
                    pre.last_applied_index,
                    self.last_applied_index,
                    ws0,
                ),
                no_read_rejected(effects@.skip(base)),
                no_read_granted(effects@.skip(base)),
                no_write_rejected(effects@.skip(base)),
                no_request_vote_sent(effects@.skip(base)),
            decreases self.commit_index - self.last_applied_index,
        {
            let ghost prev = *self;
            let ghost prev_effs = effects@;
            let next = self.last_applied_index + 1;
            let entry = match self.storage.entry(next) {
                Ok(Some(e)) => e,
                _ => {
                    proof {
                        assert(false);
                    }
                    return ;
                },
            };
            let ghost em = entry@;
            let term: u64 = entry.term;
            proof {
                assert(em == pre.log()[next - 1]);
            }
            proof {
                assert(exists|k: int|
                    0 <= k <= ws0.len() && prev.pending_write_requests@ == ws0.skip(k) && (forall|
                        j: int,
                    |
                        0 <= j < k ==> (#[trigger] ws0[j]).index <= prev.last_applied_index
                            && write_answered_in(
                            prev_effs.skip(base),
                            ws0[j].index,
                            ws0[j].request_id,
                        )) && (k < ws0.len() ==> ws0[k].index > prev.last_applied_index));
            }
            let ghost k0 = choose|k: int|
                0 <= k <= ws0.len() && prev.pending_write_requests@ == ws0.skip(k) && (forall|
                    j: int,
                |
                    0 <= j < k ==> (#[trigger] ws0[j]).index <= prev.last_applied_index
                        && write_answered_in(
                        prev_effs.skip(base),
                        ws0[j].index,
                        ws0[j].request_id,
                    )) && (k < ws0.len() ==> ws0[k].index > prev.last_applied_index);
            proof {
                assert(0 <= k0 <= ws0.len());
                assert(prev.pending_write_requests@ == ws0.skip(k0));
            }
            match entry.kind {
                EntryKind::Command(payload) => {
                    let ghost pv = payload@;
                    let mut write_request: Option<u64> = None;
                    if self.pending_write_requests.len() > 0 {
                        let front = self.pending_write_requests[0];
                        if front.index == next {
                            self.pending_write_requests.remove(0);
                            write_request = Some(front.request_id);
                            proof {
                                assert(prev.pending_write_requests@[0] == ws0[k0]);
                                assert(self.pending_write_requests@ =~= ws0.skip(k0 + 1));
                            }
                        }
                    }
                    effects.push(Effect::Apply { index: next, payload, write_request });
                    proof {
                        assert(effects@.take(base) =~= prev_effs.take(base));
                        assert(effects@.skip(base).drop_last() =~= prev_effs.skip(base));
                        assert(effects@.skip(base)[effects@.skip(base).len() - 1]
                            == effects@.last());
                        assert(pv == pre.log()[next - 1].kind->Command_0);
                        assert(Self::applied_in(effects@.skip(base), next, pre.log()));
                        assert(apply_effects(effects@.skip(base)) == apply_effects(prev_effs.skip(
                            base,
                        )) + seq![(next, write_request)]);
                        assert forall|k2: int|
                            0 <= k2 < effects@.skip(base).len() implies !((
                        #[trigger] effects@.skip(base)[k2]) is ReadGranted) && !(effects@.skip(
                            base,
                        )[k2] is ReadRejected) && !(effects@.skip(base)[k2] is WriteRejected) && !(
                        effects@.skip(base)[k2] is SendRequestVote) by {
                            if k2 < prev_effs.skip(base).len() {
                                assert(effects@.skip(base)[k2] == prev_effs.skip(base)[k2]);
                            }
                        }
                    }
                },
                _ => {},
            }
            self.last_applied_index = next;
            self.last_applied_term = term;
            proof {
                // the write queue: what was dropped lies at or below the
                // cursor and was answered; the head of what remains
                // lies above it
                if self.pending_write_requests@ =~= ws0.skip(k0) {
                    // nothing was popped this round
                    assert(self.pending_write_requests@ == ws0.skip(k0));
                    if k0 < ws0.len() && ws0[k0].index == next {
                        // a write waits here, so the entry is a command
                        // and the write was answered above
                        assert(prev.pending_write_requests@[0] == ws0[k0]);
                        assert(pre.log()[next - 1].kind is Command);
                        assert(false);
                    }
                    assert forall|j: int| 0 <= j < k0 implies (#[trigger] ws0[j]).index
                        <= self.last_applied_index && write_answered_in(
                        effects@.skip(base),
                        ws0[j].index,
                        ws0[j].request_id,
                    ) by {
                        lemma_write_answered_extended(
                            prev_effs.skip(base),
                            effects@.skip(base),
                            ws0[j].index,
                            ws0[j].request_id,
                        );
                    }
                    assert(0 <= k0 <= ws0.len() && self.pending_write_requests@ == ws0.skip(k0)
                        && (forall|j: int|
                        0 <= j < k0 ==> (#[trigger] ws0[j]).index <= self.last_applied_index
                            && write_answered_in(
                            effects@.skip(base),
                            ws0[j].index,
                            ws0[j].request_id,
                        )) && (k0 < ws0.len() ==> ws0[k0].index > self.last_applied_index));
                    // no write waits at this position
                    assert forall|j: int| 0 <= j < ws0.len() implies (#[trigger] ws0[j]).index
                        != next by {
                        if j < k0 {
                        } else if j == k0 {
                        } else {
                            assert(pre.pending_write_requests@[k0].index
                                < pre.pending_write_requests@[j].index);
                        }
                    }
                    lemma_write_id_at_none(ws0, next);
                } else {
                    assert(self.pending_write_requests@ == ws0.skip(k0 + 1));
                    assert(ws0[k0].index == next);
                    assert(write_answered_in(effects@.skip(base), next, ws0[k0].request_id));
                    assert forall|j: int| 0 <= j < k0 + 1 implies (#[trigger] ws0[j]).index
                        <= self.last_applied_index && write_answered_in(
                        effects@.skip(base),
                        ws0[j].index,
                        ws0[j].request_id,
                    ) by {
                        if j < k0 {
                            lemma_write_answered_extended(
                                prev_effs.skip(base),
                                effects@.skip(base),
                                ws0[j].index,
                                ws0[j].request_id,
                            );
                        }
                    }
                    if k0 + 1 < ws0.len() {
                        assert(pre.pending_write_requests@[k0].index
                            < pre.pending_write_requests@[k0 + 1].index);
                    }
                    assert(0 <= k0 + 1 <= ws0.len() && self.pending_write_requests@ == ws0.skip(
                        k0 + 1,
                    ) && (forall|j: int|
                        0 <= j < k0 + 1 ==> (#[trigger] ws0[j]).index <= self.last_applied_index
                            && write_answered_in(
                            effects@.skip(base),
                            ws0[j].index,
                            ws0[j].request_id,
                        )) && (k0 + 1 < ws0.len() ==> ws0[k0 + 1].index
                        > self.last_applied_index));
                    // the write waiting here is the first with this
                    // position
                    assert forall|j: int| 0 <= j < k0 implies (#[trigger] ws0[j]).index != next by {
                        assert(ws0[j].index <= prev.last_applied_index);
                    }
                    lemma_write_id_at_found(ws0, k0, next);
                }
                // the queue that remains is well formed against the
                // moved cursor
                let ghost cur = self.pending_write_requests@;
                let ghost kk = choose|k: int|
                    0 <= k <= ws0.len() && cur == ws0.skip(k) && (forall|j: int|
                        0 <= j < k ==> (#[trigger] ws0[j]).index <= self.last_applied_index
                            && write_answered_in(
                            effects@.skip(base),
                            ws0[j].index,
                            ws0[j].request_id,
                        )) && (k < ws0.len() ==> ws0[k].index > self.last_applied_index);
                assert forall|a: int, b: int| 0 <= a < b < cur.len() implies #[trigger] cur[a].index
                    < #[trigger] cur[b].index by {
                    assert(cur[a] == pre.pending_write_requests@[kk + a]);
                    assert(cur[b] == pre.pending_write_requests@[kk + b]);
                    assert(pre.pending_write_requests@[kk + a].index
                        < pre.pending_write_requests@[kk + b].index);
                }
                assert forall|a: int| 0 <= a < cur.len() implies #[trigger] cur[a].index
                    > self.last_applied_index by {
                    if a == 0 {
                        assert(cur[0] == ws0[kk]);
                    } else {
                        assert(cur[0] == pre.pending_write_requests@[kk]);
                        assert(cur[a] == pre.pending_write_requests@[kk + a]);
                        assert(pre.pending_write_requests@[kk].index
                            < pre.pending_write_requests@[kk + a].index);
                    }
                }
                assert forall|a: int| 0 <= a < cur.len() implies #[trigger] cur[a].index
                    <= self.log().len() && self.log()[cur[a].index - 1].kind is Command by {
                    assert(cur[a] == pre.pending_write_requests@[kk + a]);
                    assert(pre.pending_write_requests@[kk + a].index <= pre.log().len());
                    assert(pre.log()[pre.pending_write_requests@[kk + a].index
                        - 1].kind is Command);
                    assert(self.log() == pre.log());
                }
                // the applied term is still bounded by the current one
                assert(pre.log()[next - 1].term <= pre.log()[pre.log().len() - 1].term);
                assert(self.last_applied_term <= self.current_term);
                // the apply list grew by exactly this round's due
                assert(expected_applies(pre.log(), pre.last_applied_index, next, ws0)
                    == expected_applies(
                    pre.log(),
                    pre.last_applied_index,
                    (next - 1) as u64,
                    ws0,
                ) + (if pre.log()[next - 1].kind is Command {
                    seq![((next, write_id_at(ws0, next)))]
                } else {
                    Seq::<(u64, Option<u64>)>::empty()
                }));
                if pre.log()[next - 1].kind is Command {
                } else {
                    assert(apply_effects(effects@.skip(base)) =~= expected_applies(
                        pre.log(),
                        pre.last_applied_index,
                        next,
                        ws0,
                    ));
                }
                assert(apply_effects(effects@.skip(base)) =~= expected_applies(
                    pre.log(),
                    pre.last_applied_index,
                    next,
                    ws0,
                ));
                // commands handed out earlier stay handed out
                assert forall|i: u64|
                    pre.last_applied_index < i <= self.last_applied_index && pre.log()[i
                        - 1].kind is Command implies #[trigger] Self::applied_in(
                    effects@.skip(base),
                    i,
                    pre.log(),
                ) by {
                    if i <= prev.last_applied_index {
                        assert(Self::applied_in(prev_effs.skip(base), i, pre.log()));
                        let j = choose|j: int|
                            0 <= j < prev_effs.skip(base).len() && match #[trigger] prev_effs.skip(
                                base,
                            )[j] {
                                Effect::Apply { index, payload, write_request } => index == i
                                    && payload@ == pre.log()[i - 1].kind->Command_0,
                                _ => false,
                            };
                        assert(effects@.skip(base)[j] == prev_effs.skip(base)[j]);
                    } else {
                        assert(i == next);
                    }
                }
            }
        }
        proof {
            assert(self.last_applied_index == pre.commit_index);
        }
    }

    /// The read pass, after everything committed is applied: a
    /// non-leader turns every pending read away; a leader that has not
    /// yet applied an entry of its own term holds them all; otherwise
    /// the front of the queue is granted while the quorum tag and the
    /// snapshot index allow.
    #[verifier::rlimit(100)]
    #[verifier::spinoff_prover]
    fn exec_reads(&mut self, effects: &mut Vec<Effect>)
        requires
            old(self).wf(),
            old(self).last_applied_index == old(self).commit_index,
        ensures
            final(self).wf(),
            Self::effects_extended(old(effects)@, final(effects)@),
            Self::latest_metadata(final(effects)@.skip(old(effects)@.len() as int)) is None,
            *final(self) == (Server {
                pending_read_requests: final(self).pending_read_requests,
                ..*old(self)
            }),
            exists|k: int|
                0 <= k <= old(self).pending_read_requests@.len() && final(self).pending_read_requests@ == old(self).pending_read_requests@.skip(k),
            apply_effects(final(effects)@.skip(old(effects)@.len() as int)) == Seq::<(
                u64,
                Option<u64>,
            )>::empty(),
            no_write_rejected(final(effects)@.skip(old(effects)@.len() as int)),
            no_request_vote_sent(final(effects)@.skip(old(effects)@.len() as int)),
            old(self).state != State::Leader ==> final(self).pending_read_requests@.len() == 0
                && no_read_granted(final(effects)@.skip(old(effects)@.len() as int)) && (forall|
                j: int,
            |
                0 <= j < old(self).pending_read_requests@.len() ==> read_rejected_in(
                    final(effects)@.skip(old(effects)@.len() as int),
                    (#[trigger] old(self).pending_read_requests@[j]).request_id,
                    old(self).leader_id,
                )),
            old(self).state == State::Leader ==> no_read_rejected(
                final(effects)@.skip(old(effects)@.len() as int),
            ),
            old(self).state == State::Leader && old(self).last_applied_term != old(self).current_term ==> final(self).pending_read_requests@ == old(self).pending_read_requests@
                && no_read_granted(final(effects)@.skip(old(effects)@.len() as int)),
            old(self).state == State::Leader && old(self).last_applied_term == old(self).current_term ==> exists|q: u64|
                #[trigger] is_quorum_median(old(self).message_indices(), q) && exists|k: int|
                    0 <= k <= old(self).pending_read_requests@.len() && final(self).pending_read_requests@ == old(self).pending_read_requests@.skip(k) && (forall|
                        j: int,
                    |
                        0 <= j < k ==> read_granted_in(
                            final(effects)@.skip(old(effects)@.len() as int),
                            (#[trigger] old(self).pending_read_requests@[j]).request_id,
                        ) && old(self).pending_read_requests@[j].message_index <= q && old(self).pending_read_requests@[j].index <= old(self).last_applied_index) && (k
                        < old(self).pending_read_requests@.len() ==> !(old(self).pending_read_requests@[k].message_index <= q && old(self).pending_read_requests@[k].index
                        <= old(self).last_applied_index)) && (forall|k2: int|
                        0 <= k2 < final(effects)@.skip(old(effects)@.len() as int).len() && (
                    #[trigger] final(effects)@.skip(old(effects)@.len() as int)[k2]) is ReadGranted
                        ==> exists|j: int|
                        0 <= j < k && old(self).pending_read_requests@[j].request_id == final(effects)@.skip(old(effects)@.len() as int)[k2]->ReadGranted_request_id),
    {
        let ghost pre = *old(self);
        let ghost base = old(effects)@.len() as int;
        let ghost reads0 = pre.pending_read_requests@;
        proof {
            assert(effects@.skip(base) =~= Seq::<Effect>::empty());
            assert(effects@.take(base) =~= old(effects)@);
            assert(reads0.skip(0) =~= reads0);
        }
        if self.state != State::Leader {
            while self.pending_read_requests.len() > 0
                invariant
                    pre.wf(),
                    self.wf(),
                    self.state != State::Leader,
                    *self == (Server {
                        pending_read_requests: self.pending_read_requests,
                        ..pre
                    }),
                    reads0 == pre.pending_read_requests@,
                    exists|k: int|
                        0 <= k <= reads0.len() && self.pending_read_requests@ == reads0.skip(k),
                    base == old(effects)@.len(),
                    Self::effects_extended(old(effects)@, effects@),
                    Self::latest_metadata(effects@.skip(base)) is None,
                    apply_effects(effects@.skip(base)) == Seq::<(u64, Option<u64>)>::empty(),
                    no_read_granted(effects@.skip(base)),
                    no_write_rejected(effects@.skip(base)),
                    no_request_vote_sent(effects@.skip(base)),
                    forall|j: int|
                        0 <= j < reads0.len() - self.pending_read_requests@.len()
                            ==> read_rejected_in(
                            effects@.skip(base),
                            (#[trigger] reads0[j]).request_id,
                            pre.leader_id,
                        ),
                decreases self.pending_read_requests@.len(),
            {
                let ghost prev_reads = self.pending_read_requests@;
                let ghost prev_effs = effects@;
                let front = self.pending_read_requests[0];
                self.pending_read_requests.remove(0);
                effects.push(
                    Effect::ReadRejected {
                        request_id: front.request_id,
                        leader_id: self.leader_id,
                    },
                );
                proof {
                    let k = choose|k: int|
                        0 <= k <= reads0.len() && prev_reads == reads0.skip(k);
                    assert(self.pending_read_requests@ =~= reads0.skip(k + 1));
                    assert(effects@.take(base) =~= prev_effs.take(base));
                    assert(effects@.skip(base).drop_last() =~= prev_effs.skip(base));
                    assert(effects@.skip(base).last() == effects@.last());
                    assert(apply_effects(effects@.skip(base)) =~= Seq::<(
                        u64,
                        Option<u64>,
                    )>::empty());
                    assert(front == reads0[k]);
                    assert forall|j: int|
                        0 <= j < reads0.len() - self.pending_read_requests@.len() implies read_rejected_in(
                        effects@.skip(base),
                        (#[trigger] reads0[j]).request_id,
                        pre.leader_id,
                    ) by {
                        if j < k {
                            lemma_read_rejected_extended(
                                prev_effs.skip(base),
                                effects@.skip(base),
                                reads0[j].request_id,
                                pre.leader_id,
                            );
                        } else {
                            assert(j == k);
                            assert(effects@.skip(base).last() == (Effect::ReadRejected {
                                request_id: reads0[k].request_id,
                                leader_id: pre.leader_id,
                            }));
                        }
                    }
                    assert forall|k2: int|
                        0 <= k2 < effects@.skip(base).len() implies !((#[trigger] effects@.skip(
                        base,
                    )[k2]) is ReadGranted) && !(effects@.skip(base)[k2] is WriteRejected) && !(
                    effects@.skip(base)[k2] is SendRequestVote) by {
                        if k2 < prev_effs.skip(base).len() {
                            assert(effects@.skip(base)[k2] == prev_effs.skip(base)[k2]);
                        }
                    }
                }
            }
            return ;
        }
        if self.last_applied_term < self.current_term {
            proof {
                assert(self.pending_read_requests@ =~= self.pending_read_requests@.skip(0));
            }
            return ;
        }
        let len: usize = self.peers.len();
        let mut message_values: Vec<u64> = Vec::new();
        let mut i: usize = 0;
        proof {
            assert(message_values@ =~= self.message_indices().take(0));
        }
        while i < len
            invariant
                i <= len == self.peers@.len(),
                self.peers@.len() == self.node_ids@.len(),
                message_values@.len() == i,
                message_values@ == self.message_indices().take(i as int),
            decreases len - i,
        {
            let tag: u64 = if self.node_ids[i].0 == self.node_id.0 {
                self.last_message_index
            } else {
                self.peers[i].match_message_index
            };
            message_values.push(tag);
            proof {
                assert(self.node_ids@[i as int].0 == self.node_id.0 <==> self.node_ids@[i as int]
                    == self.node_id);
                assert(message_values@ =~= self.message_indices().take(i + 1));
            }
            i = i + 1;
        }
        proof {
            assert(message_values@ =~= self.message_indices());
        }
        let quorum_message_index: u64 = quorum_median(&message_values);
        while self.pending_read_requests.len() > 0 && self.pending_read_requests[0].message_index
            <= quorum_message_index && self.pending_read_requests[0].index
            <= self.last_applied_index
            invariant
                pre.wf(),
                self.wf(),
                self.state == State::Leader,
                *self == (Server {
                    pending_read_requests: self.pending_read_requests,
                    ..pre
                }),
                reads0 == pre.pending_read_requests@,
                is_quorum_median(pre.message_indices(), quorum_message_index),
                exists|k: int|
                    0 <= k <= reads0.len() && self.pending_read_requests@ == reads0.skip(k),
                base == old(effects)@.len(),
                Self::effects_extended(old(effects)@, effects@),
                Self::latest_metadata(effects@.skip(base)) is None,
                apply_effects(effects@.skip(base)) == Seq::<(u64, Option<u64>)>::empty(),
                no_read_rejected(effects@.skip(base)),
                no_write_rejected(effects@.skip(base)),
                no_request_vote_sent(effects@.skip(base)),
                forall|j: int|
                    0 <= j < reads0.len() - self.pending_read_requests@.len()
                        ==> read_granted_in(
                        effects@.skip(base),
                        (#[trigger] reads0[j]).request_id,
                    ) && reads0[j].message_index <= quorum_message_index && reads0[j].index
                        <= pre.last_applied_index,
                forall|k2: int|
                    0 <= k2 < effects@.skip(base).len() && (#[trigger] effects@.skip(
                        base,
                    )[k2]) is ReadGranted ==> exists|j: int|
                        0 <= j < reads0.len() - self.pending_read_requests@.len() && reads0[j].request_id
                            == effects@.skip(base)[k2]->ReadGranted_request_id,
            decreases self.pending_read_requests@.len(),
        {
            let ghost prev_reads = self.pending_read_requests@;
            let ghost prev_effs = effects@;
            let front = self.pending_read_requests[0];
            self.pending_read_requests.remove(0);
            effects.push(Effect::ReadGranted { request_id: front.request_id });
            proof {
                let k = choose|k: int| 0 <= k <= reads0.len() && prev_reads == reads0.skip(k);
                assert(self.pending_read_requests@ =~= reads0.skip(k + 1));
                assert(effects@.take(base) =~= prev_effs.take(base));
                assert(effects@.skip(base).drop_last() =~= prev_effs.skip(base));
                assert(effects@.skip(base).last() == effects@.last());
                assert(apply_effects(effects@.skip(base)) =~= Seq::<(u64, Option<u64>)>::empty());
                assert(front == reads0[k]);
                assert(effects@.skip(base).last() == (Effect::ReadGranted {
                    request_id: reads0[k].request_id,
                }));
                assert forall|j: int|
                    0 <= j < reads0.len() - self.pending_read_requests@.len() implies read_granted_in(
                    effects@.skip(base),
                    (#[trigger] reads0[j]).request_id,
                ) && reads0[j].message_index <= quorum_message_index && reads0[j].index
                    <= pre.last_applied_index by {
                    if j < k {
                        lemma_read_granted_extended(
                            prev_effs.skip(base),
                            effects@.skip(base),
                            reads0[j].request_id,
                        );
                    } else {
                        assert(j == k);
                    }
                }
                assert forall|k2: int|
                    0 <= k2 < effects@.skip(base).len() && (#[trigger] effects@.skip(
                        base,
                    )[k2]) is ReadGranted implies exists|j: int|
                    0 <= j < reads0.len() - self.pending_read_requests@.len() && reads0[j].request_id
                        == effects@.skip(base)[k2]->ReadGranted_request_id by {
                    if k2 < prev_effs.skip(base).len() {
                        assert(effects@.skip(base)[k2] == prev_effs.skip(base)[k2]);
                    } else {
                        assert(reads0[k].request_id == effects@.skip(
                            base,
                        )[k2]->ReadGranted_request_id);
                    }
                }
                assert forall|k2: int|
                    0 <= k2 < effects@.skip(base).len() implies !((#[trigger] effects@.skip(
                    base,
                )[k2]) is ReadRejected) && !(effects@.skip(base)[k2] is WriteRejected) && !(
                effects@.skip(base)[k2] is SendRequestVote) by {
                    if k2 < prev_effs.skip(base).len() {
                        assert(effects@.skip(base)[k2] == prev_effs.skip(base)[k2]);
                    }
                }
            }
        }
        proof {
            let ghost k = choose|k: int|
                0 <= k <= reads0.len() && self.pending_read_requests@ == reads0.skip(k);
            if k < reads0.len() {
                assert(reads0[k] == self.pending_read_requests@[0]);
            }
        }
    }
}

/// Appended apply effects concatenate.
proof fn lemma_apply_effects_concat(a: Seq<Effect>, b: Seq<Effect>)
    ensures
        apply_effects(a + b) == apply_effects(a) + apply_effects(b),
    decreases b.len(),
{
    if b.len() == 0 {
        assert(a + b =~= a);
        assert(apply_effects(a) + apply_effects(b) =~= apply_effects(a));
    } else {
        assert((a + b).drop_last() =~= a + b.drop_last());
        lemma_apply_effects_concat(a, b.drop_last());
        assert((a + b).last() == b.last());
        assert(apply_effects(a + b) =~= apply_effects(a) + apply_effects(b));
    }
}

/// The write waiting at a position is the first one queued there.
proof fn lemma_write_id_at_found(ws: Seq<WriteRequest>, k: int, i: u64)
    requires
        0 <= k < ws.len(),
        ws[k].index == i,
        forall|j: int| 0 <= j < k ==> (#[trigger] ws[j]).index != i,
    ensures
        write_id_at(ws, i) == Some(ws[k].request_id),
    decreases k,
{
    if k == 0 {
    } else {
        assert(ws[0].index != i);
        assert(ws.skip(1)[k - 1] == ws[k]);
        assert(forall|j: int| 0 <= j < k - 1 ==> (#[trigger] ws.skip(1)[j]) == ws[j + 1]);
        lemma_write_id_at_found(ws.skip(1), k - 1, i);
    }
}

/// No write waits at a position none of them names.
proof fn lemma_write_id_at_none(ws: Seq<WriteRequest>, i: u64)
    requires
        forall|j: int| 0 <= j < ws.len() ==> (#[trigger] ws[j]).index != i,
    ensures
        write_id_at(ws, i) is None,
    decreases ws.len(),
{
    if ws.len() > 0 {
        assert(forall|j: int| 0 <= j < ws.skip(1).len() ==> (#[trigger] ws.skip(1)[j]) == ws[j
            + 1]);
        lemma_write_id_at_none(ws.skip(1), i);
    }
}

/// An answer already in the list stays there as the list grows.
proof fn lemma_write_answered_extended(effs1: Seq<Effect>, effs2: Seq<Effect>, index: u64, id: u64)
    requires
        effs1.len() <= effs2.len(),
        forall|k: int| 0 <= k < effs1.len() ==> #[trigger] effs2[k] == effs1[k],
        write_answered_in(effs1, index, id),
    ensures
        write_answered_in(effs2, index, id),
{
    let k = choose|k: int|
        0 <= k < effs1.len() && match #[trigger] effs1[k] {
            Effect::Apply { index: i, payload, write_request } => i == index && write_request
                == Some(id),
            _ => false,
        };
    assert(effs2[k] == effs1[k]);
}

/// A rejection already in the list stays there as the list grows.
proof fn lemma_read_rejected_extended(
    effs1: Seq<Effect>,
    effs2: Seq<Effect>,
    id: u64,
    leader: Option<NodeId>,
)
    requires
        effs1.len() <= effs2.len(),
        forall|k: int| 0 <= k < effs1.len() ==> #[trigger] effs2[k] == effs1[k],
        read_rejected_in(effs1, id, leader),
    ensures
        read_rejected_in(effs2, id, leader),
{
    let k = choose|k: int|
        0 <= k < effs1.len() && effs1[k] == (Effect::ReadRejected {
            request_id: id,
            leader_id: leader,
        });
    assert(effs2[k] == effs1[k]);
}

/// A grant already in the list stays there as the list grows.
proof fn lemma_read_granted_extended(effs1: Seq<Effect>, effs2: Seq<Effect>, id: u64)
    requires
        effs1.len() <= effs2.len(),
        forall|k: int| 0 <= k < effs1.len() ==> #[trigger] effs2[k] == effs1[k],
        read_granted_in(effs1, id),
    ensures
        read_granted_in(effs2, id),
{
    let k = choose|k: int|
        0 <= k < effs1.len() && effs1[k] == (Effect::ReadGranted { request_id: id });
    assert(effs2[k] == effs1[k]);
}

/// A rejection in the later segment stands in the whole list.
proof fn lemma_read_rejected_shifted(
    app1: Seq<Effect>,
    app2: Seq<Effect>,
    total: Seq<Effect>,
    id: u64,
    leader: Option<NodeId>,
)
    requires
        total == app1 + app2,
        read_rejected_in(app2, id, leader),
    ensures
        read_rejected_in(total, id, leader),
{
    let k = choose|k: int|
        0 <= k < app2.len() && app2[k] == (Effect::ReadRejected {
            request_id: id,
            leader_id: leader,
        });
    assert(total[app1.len() + k] == app2[k]);
}

/// The tally reads only the vote flags.
proof fn lemma_count_votes_flags(a: Seq<Node>, b: Seq<Node>)
    requires
        a.len() == b.len(),
        forall|i: int| 0 <= i < a.len() ==> (#[trigger] b[i]).voted_for_me == a[i].voted_for_me,
    ensures
        count_votes(a) == count_votes(b),
    decreases a.len(),
{
    if a.len() > 0 {
        assert(forall|i: int|
            0 <= i < a.drop_last().len() ==> (#[trigger] b.drop_last()[i]).voted_for_me
                == a.drop_last()[i].voted_for_me);
        lemma_count_votes_flags(a.drop_last(), b.drop_last());
        assert(b.last().voted_for_me == a.last().voted_for_me);
    }
}

/// A send in an embedded segment stands in the whole list.
proof fn lemma_sent_ae_embedded(seg: Seq<Effect>, total: Seq<Effect>, off: int, to: NodeId)
    requires
        0 <= off,
        off + seg.len() <= total.len(),
        forall|k: int| 0 <= k < seg.len() ==> #[trigger] total[off + k] == seg[k],
        sent_append_entries_in(seg, to),
    ensures
        sent_append_entries_in(total, to),
{
    let k = choose|k: int|
        0 <= k < seg.len() && match #[trigger] seg[k] {
            Effect::SendAppendEntries { dest, request } => dest == to,
            _ => false,
        };
    assert(total[off + k] == seg[k]);
}

/// A vote solicitation in an embedded segment stands in the whole
/// list.
proof fn lemma_sent_rv_embedded(seg: Seq<Effect>, total: Seq<Effect>, off: int, to: NodeId)
    requires
        0 <= off,
        off + seg.len() <= total.len(),
        forall|k: int| 0 <= k < seg.len() ==> #[trigger] total[off + k] == seg[k],
        sent_request_vote_in(seg, to),
    ensures
        sent_request_vote_in(total, to),
{
    let k = choose|k: int|
        0 <= k < seg.len() && match #[trigger] seg[k] {
            Effect::SendRequestVote { dest, request } => dest == to,
            _ => false,
        };
    assert(total[off + k] == seg[k]);
}

/// A grant in the later segment stands in the whole list.
proof fn lemma_read_granted_shifted(
    app1: Seq<Effect>,
    app2: Seq<Effect>,
    total: Seq<Effect>,
    id: u64,
)
    requires
        total == app1 + app2,
        read_granted_in(app2, id),
    ensures
        read_granted_in(total, id),
{
    let k = choose|k: int|
        0 <= k < app2.len() && app2[k] == (Effect::ReadGranted { request_id: id });
    assert(total[app1.len() + k] == app2[k]);
}

/// Once a committed command was handed out, appending further effects
/// keeps it handed out.
proof fn lemma_applied_in_extended(
    effs1: Seq<Effect>,
    effs2: Seq<Effect>,
    base: int,
    pre: Server,
    upper: u64,
)
    requires
        0 <= base <= effs1.len() <= effs2.len(),
        effs2.take(effs1.len() as int) == effs1,
        forall|i: u64|
            pre.last_applied_index < i <= upper && pre.log()[i - 1].kind is Command
                ==> #[trigger] Server::applied_in(effs1.skip(base), i, pre.log()),
    ensures
        forall|i: u64|
            pre.last_applied_index < i <= upper && pre.log()[i - 1].kind is Command
                ==> #[trigger] Server::applied_in(effs2.skip(base), i, pre.log()),
{
    assert forall|i: u64|
        pre.last_applied_index < i <= upper && pre.log()[i - 1].kind is Command implies Server::applied_in(
        effs2.skip(base),
        i,
        pre.log(),
    ) by {
        assert(Server::applied_in(effs1.skip(base), i, pre.log()));
        let j = choose|j: int|
            0 <= j < effs1.skip(base).len() && match #[trigger] effs1.skip(base)[j] {
                Effect::Apply { index, payload, write_request } => index == i && payload@
                    == pre.log()[i - 1].kind->Command_0,
                _ => false,
            };
        assert(effs1.skip(base)[j] == effs1[base + j]);
        assert(effs2[base + j] == effs2.take(effs1.len() as int)[base + j]);
        assert(effs2.skip(base)[j] == effs1.skip(base)[j]);
    }
}

impl Server {
    /// The next barrier tags and send tags stay within range.
    pub open spec fn counters_have_room(self, extra: u64) -> bool {
        &&& self.last_message_index + extra <= u64::MAX
        &&& self.log().len() + 2 <= u64::MAX
        &&& self.current_term < u64::MAX
    }

    /// Commit advancement and the apply/answer pass, together: what the
    /// leader runs after anything that may have moved a match index or
    /// grown the log.
    fn flush(&mut self, effects: &mut Vec<Effect>)
        requires
            old(self).wf(),
            old(self).state == State::Leader,
        ensures
            final(self).wf(),
            Self::monotone(*old(self), *final(self)),
            Self::effects_extended(old(effects)@, final(effects)@),
            Self::latest_metadata(final(effects)@.skip(old(effects)@.len() as int)) is None,
            final(self).storage == old(self).storage,
            final(self).current_term == old(self).current_term,
            final(self).voted_for == old(self).voted_for,
            final(self).state == old(self).state,
            final(self).leader_id == old(self).leader_id,
            final(self).node_ids == old(self).node_ids,
            final(self).node_id == old(self).node_id,
            final(self).peers == old(self).peers,
            final(self).config == old(self).config,
            final(self).last_message_index == old(self).last_message_index,
            final(self).last_applied_index == final(self).commit_index,
            final(self).commit_index >= old(self).commit_index,
            forall|m: u64|
                is_quorum_median(old(self).match_indices(), m) ==> final(self).commit_index == (
                if m > old(self).commit_index && old(self).log()[m - 1].term == old(self).current_term {
                    m
                } else {
                    old(self).commit_index
                }),
            exists|k: int|
                0 <= k <= old(self).pending_write_requests@.len() && final(self).pending_write_requests@ == old(self).pending_write_requests@.skip(k) && (forall|
                    j: int,
                |
                    0 <= j < k ==> (#[trigger] old(self).pending_write_requests@[j]).index
                        <= final(self).commit_index && write_answered_in(
                        final(effects)@.skip(old(effects)@.len() as int),
                        old(self).pending_write_requests@[j].index,
                        old(self).pending_write_requests@[j].request_id,
                    )) && (k < old(self).pending_write_requests@.len() ==> old(self).pending_write_requests@[k].index > final(self).commit_index),
            exists|k: int|
                0 <= k <= old(self).pending_read_requests@.len() && final(self).pending_read_requests@ == old(self).pending_read_requests@.skip(k),
            forall|i: u64|
                old(self).last_applied_index < i <= final(self).commit_index && old(self).log()[i
                    - 1].kind is Command ==> #[trigger] Self::applied_in(
                    final(effects)@.skip(old(effects)@.len() as int),
                    i,
                    old(self).log(),
                ),
            apply_effects(final(effects)@.skip(old(effects)@.len() as int)) == expected_applies(
                old(self).log(),
                old(self).last_applied_index,
                final(self).commit_index,
                old(self).pending_write_requests@,
            ),
            no_write_rejected(final(effects)@.skip(old(effects)@.len() as int)),
            no_read_rejected(final(effects)@.skip(old(effects)@.len() as int)),
            no_request_vote_sent(final(effects)@.skip(old(effects)@.len() as int)),
            final(self).last_applied_term != final(self).current_term ==> final(self).pending_read_requests@ == old(self).pending_read_requests@ && no_read_granted(
                final(effects)@.skip(old(effects)@.len() as int),
            ),
            final(self).last_applied_term == final(self).current_term ==> exists|q: u64|
                #[trigger] is_quorum_median(old(self).message_indices(), q) && exists|k: int|
                    0 <= k <= old(self).pending_read_requests@.len() && final(self).pending_read_requests@ == old(self).pending_read_requests@.skip(k) && (forall|
                        j: int,
                    |
                        0 <= j < k ==> read_granted_in(
                            final(effects)@.skip(old(effects)@.len() as int),
                            (#[trigger] old(self).pending_read_requests@[j]).request_id,
                        ) && old(self).pending_read_requests@[j].message_index <= q && old(self).pending_read_requests@[j].index <= final(self).last_applied_index) && (k
                        < old(self).pending_read_requests@.len() ==> !(old(self).pending_read_requests@[k].message_index <= q && old(self).pending_read_requests@[k].index
                        <= final(self).last_applied_index)) && (forall|k2: int|
                        0 <= k2 < final(effects)@.skip(old(effects)@.len() as int).len() && (
                    #[trigger] final(effects)@.skip(old(effects)@.len() as int)[k2]) is ReadGranted
                        ==> exists|j: int|
                        0 <= j < k && old(self).pending_read_requests@[j].request_id == final(effects)@.skip(old(effects)@.len() as int)[k2]->ReadGranted_request_id),
    {
        let ghost pre = *old(self);
        self.update_commit_index();
        let ghost mid = *self;
        self.exec_operations(effects);
        proof {
            assert(mid.message_indices() =~= pre.message_indices());
            assert(mid.log() == pre.log());
        }
    }

    /// Appends a client command to the local log under the current
    /// term, records it as waiting at its index, and runs the commit
    /// and apply pass; a node that is not the leader rejects it at
    /// once, naming the leader it believes in.
    #[verifier::rlimit(100)]
    #[verifier::spinoff_prover]
    pub fn handle_write(&mut self, command: Vec<u8>, request_id: u64, effects: &mut Vec<Effect>)
        requires
            old(self).wf(),
            old(self).log().len() + 1 <= u64::MAX,
            forall|i: int|
                0 <= i < old(self).pending_write_requests@.len() ==> #[trigger] old(self).pending_write_requests@[i].request_id != request_id,
        ensures
            final(self).wf(),
            Self::monotone(*old(self), *final(self)),
            Self::effects_extended(old(effects)@, final(effects)@),
            Self::metadata_recorded(*old(self), *final(self), old(effects)@, final(effects)@),
            old(self).state != State::Leader ==> *final(self) == *old(self) && final(effects)@
                == old(effects)@ + seq![
                Effect::WriteRejected { request_id, leader_id: old(self).leader_id },
            ],
            old(self).state == State::Leader ==> {
                &&& final(self).log() == old(self).log().push(
                    EntryModel {
                        kind: crate::raft::types::EntryKindModel::Command(command@),
                        term: old(self).current_term,
                    },
                )
                &&& final(self).current_term == old(self).current_term
                &&& final(self).state == State::Leader
                &&& final(self).last_applied_index == final(self).commit_index
                // the leader's own replication level covers the entry
                &&& exists|si: int|
                    0 <= si < old(self).node_ids@.len() && old(self).node_ids@[si] == old(self).node_id && final(self).peers@ == old(self).peers@.update(
                        si,
                        Node {
                            match_index: (old(self).log().len() + 1) as u64,
                            ..old(self).peers@[si]
                        },
                    )
                // the client is never turned away here
                &&& no_write_rejected(final(effects)@.skip(old(effects)@.len() as int))
                // the write either waits in the queue at its index or
                // was already applied and answered
                &&& ((exists|j: int|
                    0 <= j < final(self).pending_write_requests@.len() && final(self).pending_write_requests@[j] == (WriteRequest {
                        index: (old(self).log().len() + 1) as u64,
                        request_id,
                    })) || write_answered_in(
                    final(effects)@.skip(old(effects)@.len() as int),
                    (old(self).log().len() + 1) as u64,
                    request_id,
                ))
            },
    {
        let ghost pre = *old(self);
        let ghost base = old(effects)@.len() as int;
        if self.state != State::Leader {
            effects.push(Effect::WriteRejected { request_id, leader_id: self.leader_id });
            proof {
                assert(effects@ =~= old(effects)@ + seq![
                    Effect::WriteRejected { request_id, leader_id: pre.leader_id },
                ]);
                assert(effects@.take(base) =~= old(effects)@);
                assert(effects@.skip(base) =~= seq![
                    Effect::WriteRejected { request_id, leader_id: pre.leader_id },
                ]);
                assert(Self::latest_metadata(Seq::<Effect>::empty()) is None);
                assert(effects@.skip(base).drop_last() =~= Seq::<Effect>::empty());
                assert(Self::latest_metadata(effects@.skip(base)) is None);
            }
            return ;
        }
        let entry = Entry { kind: EntryKind::Command(command), term: self.current_term };
        let ghost em = entry@;
        let mut batch: Vec<Entry> = Vec::new();
        batch.push(entry);
        let r = self.storage.append_entries(&batch);
        proof {
            assert(models(batch@) =~= seq![em]);
            assert(self.log() =~= pre.log().push(em));
        }
        effects.push(Effect::AppendLogEntries(batch));
        let index = self.storage.current_index();
        let self_peer = match self.peer_index(self.node_id) {
            Some(i) => i,
            None => {
                proof {
                    assert(false);
                }
                return ;
            },
        };
        let mut node = self.peers[self_peer];
        node.match_index = index;
        self.peers.set(self_peer, node);
        self.pending_write_requests.push(WriteRequest { index, request_id });
        proof {
            assert forall|i: int, j: int| 0 <= i <= j < self.log().len() implies #[trigger] self.log()[i].term
                <= #[trigger] self.log()[j].term by {
                if j < pre.log().len() {
                } else {
                    assert(self.log()[j].term == pre.current_term);
                    if i < pre.log().len() {
                        assert(pre.log()[i].term <= pre.log()[pre.log().len() - 1].term);
                    }
                }
            }
            assert(forall|i: int|
                0 <= i < self.peers@.len() ==> #[trigger] self.peers@[i].match_index
                    <= self.log().len());
            assert(forall|i: int|
                0 <= i < self.peers@.len() ==> #[trigger] self.peers@[i].next_index
                    <= self.log().len() + 1);
            assert(forall|i: int, j: int|
                0 <= i < j < self.pending_write_requests@.len()
                    ==> #[trigger] self.pending_write_requests@[i].index
                    < #[trigger] self.pending_write_requests@[j].index);
            assert(forall|i: int|
                0 <= i < self.pending_write_requests@.len() ==> self.log()[
                    #[trigger] self.pending_write_requests@[i].index - 1
                ].kind is Command);
            assert(self.log().last().term <= self.current_term);
            assert(self.config.valid());
            assert(self.node_ids@.len() >= 1);
            assert(self.peers@.len() == self.node_ids@.len());
            assert(self.member(self.node_id));
            assert(self.last_applied_index <= self.commit_index <= self.log().len());
            assert(self.last_applied_term <= self.current_term);
            assert(self.state == State::Leader ==> self.leader_id == Some(self.node_id));
            assert(forall|i: int|
                0 <= i < self.peers@.len() ==> #[trigger] self.peers@[i].next_index >= 1);
            assert(forall|i: int|
                0 <= i < self.pending_write_requests@.len()
                    ==> #[trigger] self.pending_write_requests@[i].index
                    > self.last_applied_index);
            assert(forall|i: int|
                0 <= i < self.pending_write_requests@.len()
                    ==> #[trigger] self.pending_write_requests@[i].index <= self.log().len());
            assert(self.wf());
            let ghost appended = effects@.skip(base);
            assert(appended.len() == 1);
            assert(appended.last() == effects@[base as int]);
            assert(!(appended.last() is PersistMetadata));
            assert(Self::latest_metadata(Seq::<Effect>::empty()) is None);
            assert(appended.drop_last() =~= Seq::<Effect>::empty());
            assert(Self::latest_metadata(appended) is None);
        }
        proof {
            assert(exists|si: int|
                0 <= si < pre.node_ids@.len() && pre.node_ids@[si] == pre.node_id
                    && self.peers@ == pre.peers@.update(
                    si,
                    Node { match_index: (pre.log().len() + 1) as u64, ..pre.peers@[si as int] },
                ));
        }
        let ghost mid = *self;
        let ghost mid_effs = effects@;
        self.flush(effects);
        proof {
            assert(effects@.take(base) =~= old(effects)@);
            let total = effects@.skip(base);
            let app_flush = effects@.skip(mid_effs.len() as int);
            lemma_latest_metadata_split(effects@, base, mid_effs.len() as int);
            assert(effects@.take(mid_effs.len() as int) == mid_effs);
            // nothing in the appended effects turns the write away
            assert(mid_effs.len() == base + 1);
            assert(!(mid_effs[base as int] is WriteRejected));
            assert forall|k2: int| 0 <= k2 < total.len() implies !((
            #[trigger] total[k2]) is WriteRejected) by {
                if k2 == 0 {
                    assert(total[0] == effects@[base as int]);
                    assert(effects@[base as int] == mid_effs[base as int]);
                } else {
                    assert(total[k2] == app_flush[k2 - 1]);
                }
            }
            // the write waits in the queue or was already answered
            let newlen = (pre.log().len() + 1) as u64;
            let new_req = WriteRequest { index: newlen, request_id };
            assert(mid.pending_write_requests@ == pre.pending_write_requests@.push(new_req));
            assert(exists|k: int|
                0 <= k <= mid.pending_write_requests@.len() && self.pending_write_requests@
                    == mid.pending_write_requests@.skip(k) && (forall|j: int|
                    0 <= j < k ==> (#[trigger] mid.pending_write_requests@[j]).index
                        <= self.commit_index && write_answered_in(
                        app_flush,
                        mid.pending_write_requests@[j].index,
                        mid.pending_write_requests@[j].request_id,
                    )) && (k < mid.pending_write_requests@.len()
                    ==> mid.pending_write_requests@[k].index > self.commit_index));
            let k = choose|k: int|
                0 <= k <= mid.pending_write_requests@.len() && self.pending_write_requests@
                    == mid.pending_write_requests@.skip(k) && (forall|j: int|
                    0 <= j < k ==> (#[trigger] mid.pending_write_requests@[j]).index
                        <= self.commit_index && write_answered_in(
                        app_flush,
                        mid.pending_write_requests@[j].index,
                        mid.pending_write_requests@[j].request_id,
                    )) && (k < mid.pending_write_requests@.len()
                    ==> mid.pending_write_requests@[k].index > self.commit_index);
            if k < mid.pending_write_requests@.len() {
                // the pushed request survives at the queue's tail
                assert(self.pending_write_requests@[mid.pending_write_requests@.len() - 1 - k]
                    == mid.pending_write_requests@[mid.pending_write_requests@.len() - 1]);
                assert(mid.pending_write_requests@[mid.pending_write_requests@.len() - 1]
                    == new_req);
            } else {
                // it was applied and answered during the flush
                assert(mid.pending_write_requests@[mid.pending_write_requests@.len() - 1]
                    == new_req);
                assert(write_answered_in(app_flush, newlen, request_id));
                let kw = choose|kw: int|
                    0 <= kw < app_flush.len() && match #[trigger] app_flush[kw] {
                        Effect::Apply { index: i, payload, write_request } => i == newlen
                            && write_request == Some(request_id),
                        _ => false,
                    };
                assert(total[(mid_effs.len() - base) + kw] == app_flush[kw]);
                assert(write_answered_in(total, newlen, request_id));
            }
        }
    }

    /// Queues a linearizable read behind a fresh barrier tag and runs
    /// the commit and apply pass, which may answer it at once; a node
    /// that is not the leader rejects it, naming the leader it believes
    /// in.
    #[verifier::rlimit(100)]
    #[verifier::spinoff_prover]
    pub fn handle_read(&mut self, request_id: u64, effects: &mut Vec<Effect>)
        requires
            old(self).wf(),
            old(self).last_message_index < u64::MAX,
            forall|i: int|
                0 <= i < old(self).pending_read_requests@.len() ==> (#[trigger] old(self).pending_read_requests@[i]).request_id != request_id,
        ensures
            final(self).wf(),
            Self::monotone(*old(self), *final(self)),
            Self::effects_extended(old(effects)@, final(effects)@),
            Self::metadata_recorded(*old(self), *final(self), old(effects)@, final(effects)@),
            old(self).state != State::Leader ==> *final(self) == *old(self) && final(effects)@
                == old(effects)@ + seq![
                Effect::ReadRejected { request_id, leader_id: old(self).leader_id },
            ],
            old(self).state == State::Leader ==> {
                &&& final(self).log() == old(self).log()
                &&& final(self).last_message_index == old(self).last_message_index + 1
                &&& final(self).current_term == old(self).current_term
                &&& final(self).state == State::Leader
                &&& exists|k: int|
                    0 <= k <= old(self).pending_read_requests@.len() + 1 && final(self).pending_read_requests@ == #[trigger] old(self).pending_read_requests@.push(
                        ReadRequest {
                            index: old(self).log().len() as u64,
                            message_index: (old(self).last_message_index + 1) as u64,
                            request_id,
                        },
                    ).skip(k)
                // a leader never turns the read away here: it stays
                // queued behind the barrier or is granted
                &&& no_read_rejected(final(effects)@.skip(old(effects)@.len() as int))
                &&& ((exists|j: int|
                    0 <= j < final(self).pending_read_requests@.len() && final(self).pending_read_requests@[j] == (ReadRequest {
                        index: old(self).log().len() as u64,
                        message_index: (old(self).last_message_index + 1) as u64,
                        request_id,
                    })) || read_granted_in(
                    final(effects)@.skip(old(effects)@.len() as int),
                    request_id,
                ))
                // and it is granted only once the barrier holds: an
                // entry of the leader's own term applied, the snapshot
                // index applied, and a quorum echo at least as fresh
                // as the read's tag
                &&& (read_granted_in(
                    final(effects)@.skip(old(effects)@.len() as int),
                    request_id,
                ) ==> final(self).last_applied_term == final(self).current_term && old(self).log().len() <= final(self).last_applied_index && exists|q: u64|
                    #[trigger] is_quorum_median(final(self).message_indices(), q) && old(self).last_message_index + 1 <= q)
            },
    {
        let ghost pre = *old(self);
        let ghost base = old(effects)@.len() as int;
        if self.state != State::Leader {
            effects.push(Effect::ReadRejected { request_id, leader_id: self.leader_id });
            proof {
                assert(effects@ =~= old(effects)@ + seq![
                    Effect::ReadRejected { request_id, leader_id: pre.leader_id },
                ]);
                assert(effects@.take(base) =~= old(effects)@);
                assert(effects@.skip(base) =~= seq![
                    Effect::ReadRejected { request_id, leader_id: pre.leader_id },
                ]);
                assert(Self::latest_metadata(Seq::<Effect>::empty()) is None);
                assert(effects@.skip(base).drop_last() =~= Seq::<Effect>::empty());
                assert(Self::latest_metadata(effects@.skip(base)) is None);
            }
            return ;
        }
        let index = self.storage.current_index();
        self.last_message_index = self.last_message_index + 1;
        self.pending_read_requests.push(
            ReadRequest { index, message_index: self.last_message_index, request_id },
        );
        let ghost mid = *self;
        let ghost mid_effs = effects@;
        self.flush(effects);
        proof {
            assert(effects@.take(base) =~= old(effects)@);
            lemma_latest_metadata_split(effects@, base, mid_effs.len() as int);
            // nothing stood in the effect list between entry and the
            // flush, so its appended effects are the whole appended list
            assert(mid_effs == old(effects)@);
            let total = effects@.skip(base);
            let new_req = ReadRequest {
                index: pre.log().len() as u64,
                message_index: (pre.last_message_index + 1) as u64,
                request_id,
            };
            assert(mid.pending_read_requests@ == pre.pending_read_requests@.push(new_req));
            assert(mid.message_indices() =~= self.message_indices());
            if self.last_applied_term != self.current_term {
                // the barrier still holds every read: the queue keeps
                // its shape and nothing is granted
                assert(self.pending_read_requests@ == mid.pending_read_requests@);
                assert(self.pending_read_requests@[mid.pending_read_requests@.len() - 1]
                    == new_req);
                assert(no_read_granted(total));
            } else {
                let q = choose|q: u64|
                    #[trigger] is_quorum_median(mid.message_indices(), q) && exists|k: int|
                        0 <= k <= mid.pending_read_requests@.len() && self.pending_read_requests@
                            == mid.pending_read_requests@.skip(k) && (forall|j: int|
                            0 <= j < k ==> read_granted_in(
                                total,
                                (#[trigger] mid.pending_read_requests@[j]).request_id,
                            ) && mid.pending_read_requests@[j].message_index <= q
                                && mid.pending_read_requests@[j].index
                                <= self.last_applied_index) && (k
                            < mid.pending_read_requests@.len() ==> !(
                        mid.pending_read_requests@[k].message_index <= q
                            && mid.pending_read_requests@[k].index <= self.last_applied_index))
                            && (forall|k2: int|
                            0 <= k2 < total.len() && (#[trigger] total[k2]) is ReadGranted
                                ==> exists|j: int|
                                0 <= j < k && mid.pending_read_requests@[j].request_id
                                    == total[k2]->ReadGranted_request_id);
                let k = choose|k: int|
                    0 <= k <= mid.pending_read_requests@.len() && self.pending_read_requests@
                        == mid.pending_read_requests@.skip(k) && (forall|j: int|
                        0 <= j < k ==> read_granted_in(
                            total,
                            (#[trigger] mid.pending_read_requests@[j]).request_id,
                        ) && mid.pending_read_requests@[j].message_index <= q
                            && mid.pending_read_requests@[j].index <= self.last_applied_index)
                        && (k < mid.pending_read_requests@.len() ==> !(
                    mid.pending_read_requests@[k].message_index <= q
                        && mid.pending_read_requests@[k].index <= self.last_applied_index)) && (
                    forall|k2: int|
                        0 <= k2 < total.len() && (#[trigger] total[k2]) is ReadGranted
                            ==> exists|j: int|
                            0 <= j < k && mid.pending_read_requests@[j].request_id
                                == total[k2]->ReadGranted_request_id);
                if k < mid.pending_read_requests@.len() {
                    // the pushed read survives at the queue's tail
                    assert(self.pending_read_requests@[mid.pending_read_requests@.len() - 1 - k]
                        == mid.pending_read_requests@[mid.pending_read_requests@.len() - 1]);
                } else {
                    // it was granted: the barrier held for it
                    assert(read_granted_in(total, new_req.request_id));
                }
                if read_granted_in(total, request_id) {
                    // the grant can only answer the read pushed here,
                    // whose barrier conditions therefore held
                    let k2 = choose|k2: int|
                        0 <= k2 < total.len() && total[k2] == (Effect::ReadGranted {
                            request_id,
                        });
                    assert(total[k2] is ReadGranted);
                    let j = choose|j: int|
                        0 <= j < k && mid.pending_read_requests@[j].request_id
                            == total[k2]->ReadGranted_request_id;
                    assert(mid.pending_read_requests@[j].request_id == request_id);
                    if j < pre.pending_read_requests@.len() {
                        assert(pre.pending_read_requests@[j].request_id != request_id);
                        assert(false);
                    }
                    assert(j == mid.pending_read_requests@.len() - 1);
                    assert(mid.pending_read_requests@[j] == new_req);
                    assert(new_req.message_index <= q);
                    assert(new_req.index <= self.last_applied_index);
                    assert(is_quorum_median(self.message_indices(), q));
                }
            }
        }
    }
}

/// When nothing after `cut` persists metadata and nothing between
/// `base` and `cut` does either, nothing in the whole appended range
/// does.
proof fn lemma_latest_metadata_split(effs: Seq<Effect>, base: int, cut: int)
    requires
        0 <= base <= cut <= effs.len(),
        Server::latest_metadata(effs.take(cut).skip(base)) is None,
        Server::latest_metadata(effs.skip(cut)) is None,
    ensures
        Server::latest_metadata(effs.skip(base)) is None,
    decreases effs.len() - cut,
{
    if effs.len() == cut {
        assert(effs.take(cut).skip(base) =~= effs.skip(base));
    } else {
        let shorter = effs.drop_last();
        assert(effs.skip(cut).len() > 0);
        assert(effs.skip(cut).last() == effs.last());
        assert(effs.skip(cut).drop_last() =~= shorter.skip(cut));
        assert(Server::latest_metadata(shorter.skip(cut)) is None);
        assert(shorter.take(cut) =~= effs.take(cut));
        lemma_latest_metadata_split(shorter, base, cut);
        assert(effs.skip(base).len() > 0);
        assert(effs.skip(base).last() == effs.last());
        assert(effs.skip(base).drop_last() =~= shorter.skip(base));
        match effs.last() {
            Effect::PersistMetadata(m) => {
                assert(false);
            },
            _ => {},
        }
    }
}

impl Server {
    /// Copies the tail of the request entries from `from` on.
    fn copy_entries_from(entries: &Vec<Entry>, from: usize) -> (r: Vec<Entry>)
        requires
            from <= entries@.len(),
        ensures
            models(r@) == models(entries@).skip(from as int),
    {
        let len: usize = entries.len();
        let mut out: Vec<Entry> = Vec::new();
        let mut i: usize = from;
        proof {
            assert(models(out@) =~= models(entries@).subrange(from as int, from as int));
        }
        while i < len
            invariant
                from <= i <= len == entries@.len(),
                out@.len() == i - from,
                models(out@) == models(entries@).subrange(from as int, i as int),
            decreases len - i,
        {
            out.push(entries[i].duplicate());
            proof {
                assert(models(out@) =~= models(entries@).subrange(from as int, i + 1));
            }
            i = i + 1;
        }
        proof {
            assert(models(out@) =~= models(entries@).skip(from as int));
        }
        out
    }

    /// Builds the AppendEntries request for one peer: everything from
    /// that peer's next index on, under a fresh message tag. Only a
    /// leader sends these, and what it sends is a well-formed request.
    fn build_append_entries(&mut self, peer: usize) -> (r: AppendEntries)
        requires
            old(self).wf(),
            old(self).state == State::Leader,
            peer < old(self).peers@.len(),
            old(self).last_message_index < u64::MAX,
            old(self).log().len() + 1 <= u64::MAX,
        ensures
            final(self).wf(),
            *final(self) == (Server {
                last_message_index: (old(self).last_message_index + 1) as u64,
                ..*old(self)
            }),
            Self::ae_wf(r),
            r.term == old(self).current_term,
            r.leader_id == old(self).node_id,
            r.prev_log_index == old(self).peers@[peer as int].next_index - 1,
            r.prev_log_index == 0 ==> r.prev_log_term == 0,
            r.leader_commit == old(self).commit_index,
            r.message_index == old(self).last_message_index + 1,
            models(r.entries@) == old(self).log().skip(r.prev_log_index as int),
            r.prev_log_index + r.entries@.len() == old(self).log().len(),
            Self::log_matches_at(old(self).log(), r.prev_log_index, r.prev_log_term),
            forall|j: int|
                0 <= j < r.entries@.len() ==> #[trigger] models(r.entries@)[j] == old(self).log()[
                    r.prev_log_index + j
                ],
    {
        let node = self.peers[peer];
        let prev_log_index = node.next_index - 1;
        let prev_log_term = match self.storage.entry(prev_log_index) {
            Ok(Some(e)) => e.term,
            Ok(None) => 0,
            Err(_) => 0,
        };
        let entries = match self.storage.entries(node.next_index) {
            Ok(es) => es,
            Err(_) => {
                proof {
                    assert(false);
                }
                Vec::new()
            },
        };
        self.last_message_index = self.last_message_index + 1;
        let r = AppendEntries {
            term: self.current_term,
            leader_id: self.node_id,
            prev_log_index,
            prev_log_term,
            entries,
            leader_commit: self.commit_index,
            message_index: self.last_message_index,
        };
        proof {
            let log = self.log();
            let p = prev_log_index as int;
            assert(models(r.entries@) == log.skip(p));
            assert(forall|j: int|
                0 <= j < models(r.entries@).len() ==> #[trigger] models(r.entries@)[j] == log[p
                    + j]);
            if log.len() > 0 {
                assert(forall|i: int|
                    0 <= i < log.len() ==> #[trigger] log[i].term <= log[log.len() - 1].term);
            }
            assert(Self::log_terms_sorted(models(r.entries@)));
            assert(r.prev_log_index + r.entries@.len() == log.len());
            assert(forall|j: int|
                0 <= j < r.entries@.len() ==> #[trigger] r.entries@[j].term == models(
                    r.entries@,
                )[j].term);
            assert forall|j: int| 0 <= j < r.entries@.len() implies #[trigger] r.entries@[j].term
                <= r.term by {
                assert(models(r.entries@)[j] == log[p + j]);
                assert(log[p + j].term <= log[log.len() - 1].term);
            }
            if r.entries@.len() > 0 {
                assert(models(r.entries@)[0] == log[p]);
                if p > 0 {
                    assert(log[p - 1].term <= log[p].term);
                }
            }
            assert(Self::ae_wf(r));
        }
        r
    }

    /// Sends an AppendEntries to every other member: the heartbeat, and
    /// the path by which new entries and the commit index propagate.
    pub fn send_append_entries_to_all(&mut self, effects: &mut Vec<Effect>)
        requires
            old(self).wf(),
            old(self).state == State::Leader,
            old(self).last_message_index + old(self).node_ids@.len() <= u64::MAX,
            old(self).log().len() + 1 <= u64::MAX,
        ensures
            final(self).wf(),
            Self::monotone(*old(self), *final(self)),
            Self::effects_extended(old(effects)@, final(effects)@),
            Self::latest_metadata(final(effects)@.skip(old(effects)@.len() as int)) is None,
            *final(self) == (Server {
                last_message_index: final(self).last_message_index,
                ..*old(self)
            }),
            final(self).last_message_index >= old(self).last_message_index,
            forall|j: int|
                old(effects)@.len() <= j < final(effects)@.len() ==> match #[trigger] final(effects)@[j] {
                    Effect::SendAppendEntries { dest, request } => Self::ae_wf(request)
                        && request.term == old(self).current_term && dest != old(self).node_id,
                    _ => false,
                },
            forall|i: int|
                0 <= i < old(self).node_ids@.len() && old(self).node_ids@[i] != old(self).node_id
                    ==> sent_append_entries_in(
                    #[trigger] final(effects)@.skip(old(effects)@.len() as int),
                    old(self).node_ids@[i],
                ),
    {
        let ghost pre = *old(self);
        let ghost base = old(effects)@.len() as int;
        let n: usize = self.node_ids.len();
        let mut i: usize = 0;
        proof {
            assert(effects@.take(base) =~= old(effects)@);
        }
        while i < n
            invariant
                i <= n == self.node_ids@.len(),
                self.wf(),
                self.state == State::Leader,
                self.storage == pre.storage,
                self.current_term == pre.current_term,
                self.voted_for == pre.voted_for,
                self.commit_index == pre.commit_index,
                self.last_applied_index == pre.last_applied_index,
                self.last_applied_term == pre.last_applied_term,
                self.state == pre.state,
                self.leader_id == pre.leader_id,
                self.node_id == pre.node_id,
                self.node_ids == pre.node_ids,
                self.peers == pre.peers,
                self.config == pre.config,
                self.pending_write_requests == pre.pending_write_requests,
                self.pending_read_requests == pre.pending_read_requests,
                pre.last_message_index <= self.last_message_index,
                self.last_message_index + (n - i) <= u64::MAX,
                self.log().len() + 1 <= u64::MAX,
                base == old(effects)@.len(),
                Self::effects_extended(old(effects)@, effects@),
                Self::latest_metadata(effects@.skip(base)) is None,
                forall|j: int|
                    base <= j < effects@.len() ==> match #[trigger] effects@[j] {
                        Effect::SendAppendEntries { dest, request } => Self::ae_wf(request)
                            && request.term == pre.current_term && dest != pre.node_id,
                        _ => false,
                    },
                forall|i2: int|
                    0 <= i2 < i && pre.node_ids@[i2] != pre.node_id ==> sent_append_entries_in(
                        #[trigger] effects@.skip(base),
                        pre.node_ids@[i2],
                    ),
            decreases n - i,
        {
            let dest = self.node_ids[i];
            let ghost prev_effs = effects@;
            if dest.0 != self.node_id.0 {
                let request = self.build_append_entries(i);
                effects.push(Effect::SendAppendEntries { dest, request });
                proof {
                    assert(effects@.take(base) =~= prev_effs.take(base));
                    assert(effects@.skip(base).drop_last() =~= prev_effs.skip(base));
                    assert(effects@.skip(base).last() == effects@.last());
                    assert(sent_append_entries_in(effects@.skip(base), dest));
                }
            }
            proof {
                assert forall|i2: int|
                    0 <= i2 < i + 1 && pre.node_ids@[i2] != pre.node_id implies sent_append_entries_in(
                    #[trigger] effects@.skip(base),
                    pre.node_ids@[i2],
                ) by {
                    if i2 < i {
                        assert(sent_append_entries_in(prev_effs.skip(base), pre.node_ids@[i2]));
                        let k = choose|k: int|
                            0 <= k < prev_effs.skip(base).len() && match #[trigger] prev_effs.skip(
                                base,
                            )[k] {
                                Effect::SendAppendEntries { dest, request } => dest
                                    == pre.node_ids@[i2],
                                _ => false,
                            };
                        assert(effects@.skip(base)[k] == prev_effs.skip(base)[k]);
                    } else {
                        assert(pre.node_ids@[i2] == dest);
                    }
                }
            }
            i = i + 1;
        }
    }

    /// Becomes the leader for the current term: writes the no-op entry
    /// that will carry this term to commitment, resets the per-peer
    /// bookkeeping, and sends the first round of heartbeats.
    fn become_leader(&mut self, effects: &mut Vec<Effect>)
        requires
            old(self).wf(),
            old(self).log().len() + 2 <= u64::MAX,
            old(self).last_message_index + old(self).node_ids@.len() <= u64::MAX,
        ensures
            final(self).wf(),
            Self::monotone(*old(self), *final(self)),
            Self::effects_extended(old(effects)@, final(effects)@),
            Self::latest_metadata(final(effects)@.skip(old(effects)@.len() as int)) is None,
            final(self).state == State::Leader,
            final(self).leader_id == Some(old(self).node_id),
            final(self).current_term == old(self).current_term,
            final(self).voted_for == old(self).voted_for,
            final(self).log() == old(self).log().push(
                EntryModel {
                    kind: crate::raft::types::EntryKindModel::NoOp,
                    term: old(self).current_term,
                },
            ),
            final(self).last_applied_index == final(self).commit_index,
            // the per-peer bookkeeping is reset: the vote tallies and
            // echoed tags stay, the replication levels start over
            final(self).peers@.len() == old(self).peers@.len(),
            forall|i: int|
                0 <= i < old(self).peers@.len() ==> #[trigger] final(self).peers@[i] == (Node {
                    next_index: (old(self).log().len() + 1) as u64,
                    match_index: if old(self).node_ids@[i] == old(self).node_id {
                        (old(self).log().len() + 1) as u64
                    } else {
                        0
                    },
                    ..old(self).peers@[i]
                }),
            // the first round of heartbeats goes out at once
            forall|i: int|
                0 <= i < old(self).node_ids@.len() && old(self).node_ids@[i] != old(self).node_id
                    ==> sent_append_entries_in(
                    #[trigger] final(effects)@.skip(old(effects)@.len() as int),
                    old(self).node_ids@[i],
                ),
            no_request_vote_sent(final(effects)@.skip(old(effects)@.len() as int)),
            // a cluster of one is its own quorum: the no-op commits
            // and applies at once
            old(self).node_ids@.len() == 1 ==> final(self).commit_index == old(self).log().len()
                + 1,
    {
        let ghost pre = *old(self);
        let ghost base = old(effects)@.len() as int;
        self.state = State::Leader;
        self.leader_id = Some(self.node_id);
        let entry = Entry { kind: EntryKind::NoOp, term: self.current_term };
        let ghost em = entry@;
        let mut batch: Vec<Entry> = Vec::new();
        batch.push(entry);
        let r = self.storage.append_entries(&batch);
        proof {
            assert(models(batch@) =~= seq![em]);
            assert(self.log() =~= pre.log().push(em));
        }
        effects.push(Effect::AppendLogEntries(batch));
        let current_index = self.storage.current_index();
        let ghost mid = *self;
        let n: usize = self.node_ids.len();
        let mut i: usize = 0;
        while i < n
            invariant
                i <= n == self.node_ids@.len(),
                pre.wf(),
                self.peers@.len() == n,
                pre.peers@.len() == n,
                forall|j: int|
                    0 <= j < i ==> #[trigger] self.peers@[j] == (Node {
                        next_index: current_index,
                        match_index: if pre.node_ids@[j] == pre.node_id {
                            current_index
                        } else {
                            0
                        },
                        ..pre.peers@[j]
                    }),
                forall|j: int| i <= j < n ==> #[trigger] self.peers@[j] == pre.peers@[j],
                current_index == self.log().len(),
                current_index == pre.log().len() + 1,
                current_index >= 1,
                self.storage == mid.storage,
                self.current_term == pre.current_term,
                self.voted_for == pre.voted_for,
                self.commit_index == pre.commit_index,
                self.last_applied_index == pre.last_applied_index,
                self.last_applied_term == pre.last_applied_term,
                self.last_message_index == pre.last_message_index,
                self.node_ids == pre.node_ids,
                self.node_id == pre.node_id,
                self.config == pre.config,
                self.state == State::Leader,
                self.leader_id == Some(pre.node_id),
                self.pending_write_requests == pre.pending_write_requests,
                self.pending_read_requests == pre.pending_read_requests,
                self.log() == pre.log().push(em),
                em == (EntryModel {
                    kind: crate::raft::types::EntryKindModel::NoOp,
                    term: pre.current_term,
                }),
            decreases n - i,
        {
            let mut node = self.peers[i];
            if self.node_ids[i].0 == self.node_id.0 {
                node.next_index = if current_index > 1 {
                    current_index
                } else {
                    1
                };
                node.match_index = current_index;
            } else {
                node.next_index = if current_index > 1 {
                    current_index
                } else {
                    1
                };
                node.match_index = 0;
            }
            self.peers.set(i, node);
            proof {
                assert(self.node_ids@[i as int].0 == self.node_id.0 <==> pre.node_ids@[i as int]
                    == pre.node_id);
                assert(self.peers@[i as int] == (Node {
                    next_index: current_index,
                    match_index: if pre.node_ids@[i as int] == pre.node_id {
                        current_index
                    } else {
                        0
                    },
                    ..pre.peers@[i as int]
                }));
            }
            i = i + 1;
        }
        proof {
            assert forall|i2: int, j2: int| 0 <= i2 <= j2 < self.log().len() implies #[trigger] self.log()[
                i2
            ].term <= #[trigger] self.log()[j2].term by {
                if j2 < pre.log().len() {
                } else {
                    assert(self.log()[j2].term == pre.current_term);
                    if i2 < pre.log().len() {
                        assert(pre.log()[i2].term <= pre.log()[pre.log().len() - 1].term);
                    }
                }
            }
            assert(forall|i2: int|
                0 <= i2 < pre.pending_write_requests@.len()
                    ==> #[trigger] pre.pending_write_requests@[i2].index <= pre.log().len()
                    && pre.log()[pre.pending_write_requests@[i2].index - 1].kind is Command);
            assert(forall|i2: int|
                0 <= i2 < self.pending_write_requests@.len() ==> self.log()[
                    #[trigger] self.pending_write_requests@[i2].index - 1
                ].kind is Command);
            assert(self.config.valid());
            assert(self.node_ids@.len() >= 1);
            assert(self.peers@.len() == self.node_ids@.len());
            assert(self.member(self.node_id));
            assert(self.log().last().term <= self.current_term);
            assert(self.last_applied_index <= self.commit_index <= self.log().len());
            assert(self.last_applied_term <= self.current_term);
            assert(forall|i2: int|
                0 <= i2 < self.peers@.len() ==> #[trigger] self.peers@[i2].next_index >= 1);
            assert forall|i2: int| 0 <= i2 < self.peers@.len() implies #[trigger] self.peers@[
                i2
            ].match_index <= self.log().len() by {
                assert(self.peers@[i2].next_index >= 1);
            }
            assert forall|i2: int| 0 <= i2 < self.peers@.len() implies #[trigger] self.peers@[
                i2
            ].next_index <= self.log().len() + 1 by {
                assert(self.peers@[i2].next_index >= 1);
            }
            assert(forall|i2: int, j2: int|
                0 <= i2 < j2 < self.pending_write_requests@.len()
                    ==> #[trigger] self.pending_write_requests@[i2].index
                    < #[trigger] self.pending_write_requests@[j2].index);
            assert(forall|i2: int|
                0 <= i2 < self.pending_write_requests@.len()
                    ==> #[trigger] self.pending_write_requests@[i2].index
                    > self.last_applied_index);
            assert(forall|i2: int|
                0 <= i2 < self.pending_write_requests@.len()
                    ==> #[trigger] self.pending_write_requests@[i2].index <= self.log().len());
            assert(self.wf());
            assert(effects@.skip(base).drop_last() =~= Seq::<Effect>::empty());
            assert(Self::latest_metadata(Seq::<Effect>::empty()) is None);
            assert(Self::latest_metadata(effects@.skip(base)) is None);
        }
        let ghost mid2 = *self;
        let ghost mid_effs = effects@;
        self.send_append_entries_to_all(effects);
        let ghost mid_effs2 = effects@;
        let ghost mid3 = *self;
        self.flush(effects);
        proof {
            assert(effects@.take(mid_effs2.len() as int) == mid_effs2);
            assert(mid_effs2.take(mid_effs.len() as int) == mid_effs);
            assert(effects@.take(mid_effs.len() as int) =~= mid_effs);
            assert(effects@.take(base) =~= mid_effs.take(base));
            assert(mid_effs.take(base) =~= old(effects)@);
            assert(effects@.take(base) =~= old(effects)@);
            lemma_latest_metadata_split(effects@, mid_effs.len() as int, mid_effs2.len() as int);
            lemma_latest_metadata_split(effects@, base, mid_effs.len() as int);
            let total = effects@.skip(base);
            // the heartbeat to each peer stands in the whole appended
            // list
            let seg = mid_effs2.skip(mid_effs.len() as int);
            assert forall|k: int| 0 <= k < seg.len() implies #[trigger] total[(mid_effs.len()
                - base) + k] == seg[k] by {
                assert(total[(mid_effs.len() - base) + k] == effects@[mid_effs.len() + k]);
                assert(effects@[mid_effs.len() + k] == mid_effs2[mid_effs.len() + k]);
            }
            assert forall|i2: int|
                0 <= i2 < pre.node_ids@.len() && pre.node_ids@[i2] != pre.node_id implies sent_append_entries_in(
                #[trigger] effects@.skip(base),
                pre.node_ids@[i2],
            ) by {
                assert(sent_append_entries_in(seg, pre.node_ids@[i2]));
                lemma_sent_ae_embedded(seg, total, mid_effs.len() - base, pre.node_ids@[i2]);
            }
            // no vote is solicited anywhere in it
            let seg_flush = effects@.skip(mid_effs2.len() as int);
            assert forall|k2: int| 0 <= k2 < total.len() implies !((
            #[trigger] total[k2]) is SendRequestVote) by {
                if k2 == 0 {
                    assert(total[0] == effects@[base as int]);
                    assert(effects@[base as int] == mid_effs[base as int]);
                } else if k2 < mid_effs2.len() - base {
                    assert(total[k2] == effects@[base + k2]);
                    assert(effects@[base + k2] == mid_effs2[base + k2]);
                    assert(mid_effs2[base + k2] == seg[base + k2 - mid_effs.len()]);
                } else {
                    assert(total[k2] == seg_flush[k2 - (mid_effs2.len() - base)]);
                }
            }
            // the peer table the flush saw keeps its values
            assert(self.peers == mid2.peers);
            assert forall|i2: int| 0 <= i2 < pre.peers@.len() implies #[trigger] self.peers@[i2]
                == (Node {
                next_index: (pre.log().len() + 1) as u64,
                match_index: if pre.node_ids@[i2] == pre.node_id {
                    (pre.log().len() + 1) as u64
                } else {
                    0
                },
                ..pre.peers@[i2]
            }) by {
                assert(self.peers@[i2] == mid2.peers@[i2]);
            }
            // one node is its own quorum
            if pre.node_ids@.len() == 1 {
                let ci = (pre.log().len() + 1) as u64;
                let wi = choose|wi: int|
                    0 <= wi < pre.node_ids@.len() && pre.node_ids@[wi] == pre.node_id;
                assert(wi == 0);
                assert(mid3.peers@[0].match_index == ci);
                assert(mid3.match_indices() =~= seq![ci]);
                assert(count_ge(seq![ci], ci) == 1) by {
                    assert(seq![ci].drop_last() =~= Seq::<u64>::empty());
                    assert(count_ge(Seq::<u64>::empty(), ci) == 0);
                    assert(seq![ci].last() == ci);
                    assert(count_ge(seq![ci], ci) == count_ge(seq![ci].drop_last(), ci) + 1);
                }
                assert(seq![ci][0] == ci);
                assert(seq![ci].contains(ci));
                assert forall|v: u64|
                    seq![ci].contains(v) && count_ge(seq![ci], v) >= seq![ci].len() - seq![
                    ci
                ].len() / 2 implies v <= ci by {
                    let vi = choose|vi: int| 0 <= vi < seq![ci].len() && seq![ci][vi] == v;
                    assert(vi == 0);
                }
                assert(is_quorum_median(mid3.match_indices(), ci));
                assert(mid3.log()[ci - 1].term == mid3.current_term);
                assert(self.commit_index == ci);
            }
        }
    }

    /// Starts an election: in a cluster of one, the node promotes
    /// itself directly under a fresh term; otherwise it becomes a
    /// candidate and solicits votes.
    pub fn start_election(&mut self, effects: &mut Vec<Effect>)
        requires
            old(self).wf(),
            old(self).state == State::Follower || old(self).state == State::Candidate,
            old(self).counters_have_room(old(self).node_ids@.len() as u64),
        ensures
            final(self).wf(),
            Self::monotone(*old(self), *final(self)),
            Self::effects_extended(old(effects)@, final(effects)@),
            Self::metadata_recorded(*old(self), *final(self), old(effects)@, final(effects)@),
            final(self).current_term == old(self).current_term + 1,
            // a cluster of one promotes itself at once: the no-op is
            // written, committed and applied, and nobody is asked for
            // a vote; it serves reads and writes from here on
            old(self).node_ids@.len() == 1 ==> final(self).state == State::Leader && final(self).log() == old(self).log().push(
                EntryModel {
                    kind: crate::raft::types::EntryKindModel::NoOp,
                    term: (old(self).current_term + 1) as u64,
                },
            ) && final(self).commit_index == final(self).log().len() && final(self).last_applied_index == final(self).commit_index && no_request_vote_sent(
                final(effects)@.skip(old(effects)@.len() as int),
            ),
            // otherwise it becomes a candidate and asks every other
            // member for its vote
            old(self).node_ids@.len() > 1 ==> final(self).state == State::Candidate && final(self).voted_for == Some(old(self).node_id) && final(self).log() == old(self).log()
                && (forall|i: int|
                0 <= i < old(self).node_ids@.len() && old(self).node_ids@[i] != old(self).node_id
                    ==> sent_request_vote_in(
                    #[trigger] final(effects)@.skip(old(effects)@.len() as int),
                    old(self).node_ids@[i],
                )),
    {
        let ghost pre = *old(self);
        let ghost base = old(effects)@.len() as int;
        if self.node_ids.len() == 1 {
            self.update_current_term(self.current_term + 1, effects);
            let ghost mid_effs = effects@;
            self.become_leader(effects);
            proof {
                assert(effects@.take(base) =~= old(effects)@);
                let m = Metadata { current_term: (pre.current_term + 1) as u64, voted_for: None };
                assert(mid_effs.skip(base) =~= seq![Effect::PersistMetadata(m)]);
                lemma_latest_metadata_keeps(effects@, base, mid_effs.len() as int, m);
                // no vote solicitation stands anywhere in the appended
                // effects
                let total = effects@.skip(base);
                let seg = effects@.skip(mid_effs.len() as int);
                assert(effects@.take(mid_effs.len() as int) == mid_effs);
                assert forall|k2: int| 0 <= k2 < total.len() implies !((
                #[trigger] total[k2]) is SendRequestVote) by {
                    if k2 == 0 {
                        assert(total[0] == effects@[base as int]);
                        assert(effects@[base as int] == mid_effs[base as int]);
                    } else {
                        assert(total[k2] == seg[k2 - 1]);
                    }
                }
            }
        } else {
            self.become_candidate(effects);
        }
    }

    /// Becomes a candidate: a fresh term, a vote for itself (both
    /// persisted), a fresh election deadline, and a vote request to
    /// every other member.
    fn become_candidate(&mut self, effects: &mut Vec<Effect>)
        requires
            old(self).wf(),
            old(self).current_term < u64::MAX,
        ensures
            final(self).wf(),
            Self::monotone(*old(self), *final(self)),
            Self::effects_extended(old(effects)@, final(effects)@),
            Self::metadata_recorded(*old(self), *final(self), old(effects)@, final(effects)@),
            final(self).state == State::Candidate,
            final(self).current_term == old(self).current_term + 1,
            final(self).voted_for == Some(old(self).node_id),
            final(self).leader_id is None,
            final(self).log() == old(self).log(),
            final(self).commit_index == old(self).commit_index,
            final(self).last_applied_index == old(self).last_applied_index,
            // the vote tallies start over: only this node's own
            final(self).peers@.len() == old(self).peers@.len(),
            forall|i: int|
                0 <= i < old(self).peers@.len() ==> #[trigger] final(self).peers@[i] == (Node {
                    voted_for_me: old(self).node_ids@[i] == old(self).node_id,
                    ..old(self).peers@[i]
                }),
            // every other member is asked for its vote
            forall|i: int|
                0 <= i < old(self).node_ids@.len() && old(self).node_ids@[i] != old(self).node_id
                    ==> sent_request_vote_in(
                    #[trigger] final(effects)@.skip(old(effects)@.len() as int),
                    old(self).node_ids@[i],
                ),
    {
        let ghost pre = *old(self);
        let ghost base = old(effects)@.len() as int;
        self.state = State::Candidate;
        self.update_current_term(self.current_term + 1, effects);
        self.vote_for(self.node_id, effects);
        effects.push(Effect::ResetElectionTimer);
        self.leader_id = None;
        proof {
            let vm = Metadata {
                current_term: (pre.current_term + 1) as u64,
                voted_for: Some(pre.node_id),
            };
            assert(effects@.skip(base) =~= seq![
                Effect::PersistMetadata(
                    Metadata { current_term: (pre.current_term + 1) as u64, voted_for: None },
                ),
                Effect::PersistMetadata(vm),
                Effect::ResetElectionTimer,
            ]);
            reveal_with_fuel(Server::latest_metadata, 5);
            assert(effects@.skip(base).drop_last().drop_last() =~= seq![
                Effect::PersistMetadata(
                    Metadata { current_term: (pre.current_term + 1) as u64, voted_for: None },
                ),
            ]);
            assert(effects@.skip(base).drop_last() =~= seq![
                Effect::PersistMetadata(
                    Metadata { current_term: (pre.current_term + 1) as u64, voted_for: None },
                ),
                Effect::PersistMetadata(vm),
            ]);
            assert(Self::latest_metadata(effects@.skip(base)) == Some(vm));
            assert(effects@.take(base) =~= old(effects)@);
        }
        let ghost mid = *self;
        let ghost mid_base_effs = effects@;
        let n: usize = self.node_ids.len();
        let mut i: usize = 0;
        while i < n
            invariant
                i <= n == self.node_ids@.len(),
                pre.wf(),
                self.peers@.len() == n,
                pre.peers@.len() == n,
                forall|j: int|
                    0 <= j < i ==> #[trigger] self.peers@[j] == (Node {
                        voted_for_me: pre.node_ids@[j] == pre.node_id,
                        ..pre.peers@[j]
                    }),
                forall|j: int| i <= j < n ==> #[trigger] self.peers@[j] == pre.peers@[j],
                self.storage == pre.storage,
                self.current_term == mid.current_term,
                self.voted_for == mid.voted_for,
                self.commit_index == pre.commit_index,
                self.last_applied_index == pre.last_applied_index,
                self.last_applied_term == pre.last_applied_term,
                self.last_message_index == pre.last_message_index,
                self.node_ids == pre.node_ids,
                self.node_id == pre.node_id,
                self.config == pre.config,
                self.state == State::Candidate,
                self.leader_id is None,
                self.pending_write_requests == pre.pending_write_requests,
                self.pending_read_requests == pre.pending_read_requests,
                mid.current_term == pre.current_term + 1,
                mid.voted_for == Some(pre.node_id),
                effects@ == mid_base_effs,
            decreases n - i,
        {
            let mut node = self.peers[i];
            node.voted_for_me = self.node_ids[i].0 == self.node_id.0;
            self.peers.set(i, node);
            proof {
                assert(self.node_ids@[i as int].0 == self.node_id.0 <==> pre.node_ids@[i as int]
                    == pre.node_id);
                assert(self.peers@[i as int] == (Node {
                    voted_for_me: pre.node_ids@[i as int] == pre.node_id,
                    ..pre.peers@[i as int]
                }));
            }
            i = i + 1;
        }
        let last_log_term = match self.storage.last_term() {
            Ok(t) => t,
            Err(_) => 0,
        };
        let last_log_index = self.storage.current_index();
        let request = RequestVote {
            term: self.current_term,
            candidate_id: self.node_id,
            last_log_index,
            last_log_term,
        };
        let ghost mid_effs = effects@;
        let mut k: usize = 0;
        proof {
            assert(effects@.take(mid_effs.len() as int) =~= mid_effs);
            assert(effects@.skip(mid_effs.len() as int) =~= Seq::<Effect>::empty());
            assert(Self::latest_metadata(Seq::<Effect>::empty()) is None);
        }
        while k < n
            invariant
                k <= n == self.node_ids@.len(),
                self.node_ids == pre.node_ids,
                self.node_id == pre.node_id,
                Self::effects_extended(mid_effs, effects@),
                Self::effects_extended(old(effects)@, effects@),
                base == old(effects)@.len(),
                Self::latest_metadata(effects@.skip(mid_effs.len() as int)) is None,
                forall|i2: int|
                    0 <= i2 < k && pre.node_ids@[i2] != pre.node_id ==> sent_request_vote_in(
                        #[trigger] effects@.skip(base),
                        pre.node_ids@[i2],
                    ),
            decreases n - k,
        {
            let dest = self.node_ids[k];
            let ghost prev_effs = effects@;
            if dest.0 != self.node_id.0 {
                effects.push(Effect::SendRequestVote { dest, request });
                proof {
                    assert(effects@.take(mid_effs.len() as int) =~= prev_effs.take(
                        mid_effs.len() as int,
                    ));
                    assert(effects@.take(base) =~= prev_effs.take(base));
                    assert(effects@.skip(mid_effs.len() as int).drop_last() =~= prev_effs.skip(
                        mid_effs.len() as int,
                    ));
                    assert(effects@.skip(base).last() == effects@.last());
                    assert(sent_request_vote_in(effects@.skip(base), dest));
                }
            }
            proof {
                assert forall|i2: int|
                    0 <= i2 < k + 1 && pre.node_ids@[i2] != pre.node_id implies sent_request_vote_in(
                    #[trigger] effects@.skip(base),
                    pre.node_ids@[i2],
                ) by {
                    if i2 < k {
                        assert(sent_request_vote_in(prev_effs.skip(base), pre.node_ids@[i2]));
                        let kx = choose|kx: int|
                            0 <= kx < prev_effs.skip(base).len() && match #[trigger] prev_effs.skip(
                                base,
                            )[kx] {
                                Effect::SendRequestVote { dest, request } => dest
                                    == pre.node_ids@[i2],
                                _ => false,
                            };
                        assert(effects@.skip(base)[kx] == prev_effs.skip(base)[kx]);
                    } else {
                        assert(pre.node_ids@[i2] == dest);
                    }
                }
            }
            k = k + 1;
        }
        proof {
            assert(effects@.take(base) =~= old(effects)@);
            let vm = Metadata {
                current_term: (pre.current_term + 1) as u64,
                voted_for: Some(pre.node_id),
            };
            lemma_latest_metadata_keeps(effects@, base, mid_effs.len() as int, vm);
        }
    }
}

/// A persistence record stays the newest one when everything appended
/// after it persists nothing.
proof fn lemma_latest_metadata_keeps(effs: Seq<Effect>, base: int, cut: int, m: Metadata)
    requires
        0 <= base <= cut <= effs.len(),
        Server::latest_metadata(effs.take(cut).skip(base)) == Some(m),
        Server::latest_metadata(effs.skip(cut)) is None,
    ensures
        Server::latest_metadata(effs.skip(base)) == Some(m),
    decreases effs.len() - cut,
{
    if effs.len() == cut {
        assert(effs.take(cut).skip(base) =~= effs.skip(base));
    } else {
        let shorter = effs.drop_last();
        assert(effs.skip(cut).len() > 0);
        assert(effs.skip(cut).last() == effs.last());
        assert(effs.skip(cut).drop_last() =~= shorter.skip(cut));
        assert(shorter.take(cut) =~= effs.take(cut));
        lemma_latest_metadata_keeps(shorter, base, cut, m);
        assert(effs.skip(base).len() > 0);
        assert(effs.skip(base).last() == effs.last());
        assert(effs.skip(base).drop_last() =~= shorter.skip(base));
        match effs.last() {
            Effect::PersistMetadata(mm) => {
                assert(false);
            },
            _ => {},
        }
    }
}

impl Server {
    /// No AppendEntries request may name a conflict inside the
    /// committed prefix: committed entries are never truncated. A
    /// request from any correct leader satisfies this, because
    /// committed entries are leader-complete.
    pub open spec fn ae_commit_safe(s: Server, req: AppendEntries) -> bool {
        &&& (1 <= req.prev_log_index <= s.commit_index ==> req.prev_log_index <= s.log().len()
            && s.log()[req.prev_log_index - 1].term == req.prev_log_term)
        &&& (forall|j: int|
            0 <= j < req.entries@.len() && req.prev_log_index + j + 1 <= s.commit_index
                ==> req.prev_log_index + j < s.log().len() && s.log()[req.prev_log_index
                + j].term == (#[trigger] req.entries@[j]).term)
    }

    /// Answers a replication request, following the message rules: an
    /// old term is refused; otherwise this node follows the sender,
    /// checks the entry before the new ones, cuts its log at the first
    /// conflict, appends what it lacks, advances its commit index to
    /// the leader's bound, and applies what became committed.
    #[verifier::rlimit(100)]
    #[verifier::spinoff_prover]
    pub fn handle_append_entries(&mut self, request: AppendEntries, effects: &mut Vec<Effect>) -> (r:
        AppendEntriesResponse)
        requires
            old(self).wf(),
            Self::ae_wf(request),
            Self::ae_commit_safe(*old(self), request),
        ensures
            final(self).wf(),
            Self::monotone(*old(self), *final(self)),
            Self::effects_extended(old(effects)@, final(effects)@),
            Self::metadata_recorded(*old(self), *final(self), old(effects)@, final(effects)@),
            r.message_index == request.message_index,
            r.term == final(self).current_term,
            request.term < old(self).current_term ==> *final(self) == *old(self) && !r.success
                && r.current_index == old(self).log().len() && final(effects)@ == old(effects)@,
            request.term >= old(self).current_term ==> {
                &&& final(self).current_term == if request.term > old(self).current_term {
                    request.term
                } else {
                    old(self).current_term
                }
                &&& final(self).state == State::Follower
                &&& final(self).leader_id == Some(request.leader_id)
                &&& r.success == Self::log_matches_at(
                    old(self).log(),
                    request.prev_log_index,
                    request.prev_log_term,
                )
                &&& (r.success ==> {
                    &&& final(self).log() == Self::ae_merged(
                        old(self).log(),
                        request.prev_log_index as int,
                        models(request.entries@),
                    )
                    &&& r.current_index == request.prev_log_index + request.entries@.len()
                    &&& final(self).log().len() >= request.prev_log_index
                        + request.entries@.len()
                    &&& (forall|j: int|
                        0 <= j < request.entries@.len() ==> final(self).log()[
                            request.prev_log_index + j
                        ].term == (#[trigger] request.entries@[j]).term)
                    &&& final(self).commit_index == if request.leader_commit > old(self).commit_index {
                        request.leader_commit
                    } else {
                        old(self).commit_index
                    }
                    &&& final(self).last_applied_index == final(self).commit_index
                })
                &&& (!r.success ==> {
                    &&& r.current_index == old(self).log().len()
                    &&& final(self).commit_index == old(self).commit_index
                    &&& (request.prev_log_index > old(self).log().len() ==> final(self).log()
                        == old(self).log() && final(self).pending_write_requests == old(self).pending_write_requests)
                    &&& (request.prev_log_index <= old(self).log().len() ==> final(self).log()
                        == old(self).log().take(request.prev_log_index - 1)
                        // the truncation fails every pending write
                        // whose entry it cut, naming the new leader
                        && final(self).pending_write_requests@ == writes_below(
                        old(self).pending_write_requests@,
                        request.prev_log_index,
                    ) && (forall|j: int|
                        writes_below(
                            old(self).pending_write_requests@,
                            request.prev_log_index,
                        ).len() <= j < old(self).pending_write_requests@.len()
                            ==> write_rejected_in(
                            final(effects)@.skip(old(effects)@.len() as int),
                            (#[trigger] old(self).pending_write_requests@[j]).request_id,
                            Some(request.leader_id),
                        )))
                })
            },
    {
        let ghost pre = *old(self);
        let ghost base = old(effects)@.len() as int;
        let current_index = self.storage.current_index();
        if request.term < self.current_term {
            proof {
                assert(effects@.take(base) =~= old(effects)@);
            }
            return AppendEntriesResponse {
                term: self.current_term,
                current_index,
                success: false,
                message_index: request.message_index,
            };
        }
        if request.term > self.current_term {
            self.update_current_term(request.term, effects);
        }
        self.become_follower(effects);
        self.leader_id = Some(request.leader_id);
        let ghost stepped = *self;
        let ghost mid_effs = effects@;
        proof {
            if request.term > pre.current_term {
                let m = Metadata { current_term: request.term, voted_for: None };
                assert(effects@.skip(base) =~= seq![
                    Effect::PersistMetadata(m),
                    Effect::ResetElectionTimer,
                ]);
                assert(effects@.skip(base).drop_last() =~= seq![Effect::PersistMetadata(m)]);
                reveal_with_fuel(Server::latest_metadata, 4);
                assert(Self::latest_metadata(effects@.skip(base)) == Some(m));
            } else {
                assert(effects@.skip(base) =~= seq![Effect::ResetElectionTimer]);
                assert(effects@.skip(base).drop_last() =~= Seq::<Effect>::empty());
                assert(Self::latest_metadata(Seq::<Effect>::empty()) is None);
                assert(Self::latest_metadata(effects@.skip(base)) is None);
            }
            assert(effects@.take(base) =~= old(effects)@);
            assert(Self::metadata_recorded(pre, stepped, old(effects)@, effects@));
        }
        let prev = request.prev_log_index;
        if prev > 0 {
            let existing = match self.storage.entry(prev) {
                Ok(e) => e,
                Err(_) => {
                    proof {
                        assert(false);
                    }
                    None
                },
            };
            match existing {
                Some(entry) => {
                    if entry.term != request.prev_log_term {
                        proof {
                            assert(prev > pre.commit_index);
                        }
                        let ghost cut_base = effects@;
                        self.truncate_log(prev, effects);
                        proof {
                            assert(effects@.take(base) =~= old(effects)@);
                            if stepped.current_term != pre.current_term {
                                let m = Metadata {
                                    current_term: request.term,
                                    voted_for: None,
                                };
                                lemma_latest_metadata_keeps(
                                    effects@,
                                    base,
                                    mid_effs.len() as int,
                                    m,
                                );
                            }
                            // the rejection of each cut write stands in
                            // the whole appended list
                            assert(effects@.take(cut_base.len() as int) == cut_base);
                            let seg = effects@.skip(cut_base.len() as int);
                            let total = effects@.skip(base);
                            assert forall|j: int|
                                writes_below(pre.pending_write_requests@, prev).len() <= j
                                    < pre.pending_write_requests@.len() implies write_rejected_in(
                                total,
                                (#[trigger] pre.pending_write_requests@[j]).request_id,
                                Some(request.leader_id),
                            ) by {
                                assert(write_rejected_in(
                                    seg,
                                    pre.pending_write_requests@[j].request_id,
                                    Some(request.leader_id),
                                ));
                                let kx = choose|kx: int|
                                    0 <= kx < seg.len() && seg[kx] == (Effect::WriteRejected {
                                        request_id: pre.pending_write_requests@[j].request_id,
                                        leader_id: Some(request.leader_id),
                                    });
                                assert(total[(cut_base.len() - base) + kx] == effects@[
                                    cut_base.len() + kx
                                ]);
                                assert(seg[kx] == effects@[cut_base.len() + kx]);
                            }
                        }
                        return AppendEntriesResponse {
                            term: self.current_term,
                            current_index,
                            success: false,
                            message_index: request.message_index,
                        };
                    }
                },
                None => {
                    proof {
                        assert(effects@.take(base) =~= old(effects)@);
                    }
                    return AppendEntriesResponse {
                        term: self.current_term,
                        current_index,
                        success: false,
                        message_index: request.message_index,
                    };
                },
            }
        }
        proof {
            if prev > 0 {
                assert(pre.log()[prev - 1].term == request.prev_log_term);
            }
            assert(Self::log_matches_at(pre.log(), request.prev_log_index, request.prev_log_term));
        }
        // walk the incoming entries; cut at the first conflicting term
        let num_entries: usize = request.entries.len();
        let mut num_matching: usize = 0;
        let mut conflicted = false;
        let mut ran_out = false;
        while num_matching < num_entries && !conflicted && !ran_out
            invariant
                pre.wf(),
                stepped.wf(),
                Self::ae_wf(request),
                Self::ae_commit_safe(pre, request),
                num_entries == request.entries@.len(),
                num_matching <= num_entries,
                prev == request.prev_log_index,
                prev + num_entries <= u64::MAX,
                base == old(effects)@.len(),
                mid_effs.len() >= base,
                !conflicted ==> effects@ == mid_effs,
                !conflicted ==> *self == stepped,
                forall|j: int|
                    0 <= j < num_matching ==> prev + j < stepped.log().len() && stepped.log()[prev
                        + j].term == (#[trigger] request.entries@[j]).term,
                stepped.log() == pre.log(),
                stepped.commit_index == pre.commit_index,
                stepped.state == State::Follower,
                stepped.pending_write_requests == pre.pending_write_requests,
                Self::log_matches_at(pre.log(), request.prev_log_index, request.prev_log_term),
                ran_out ==> !conflicted && prev + num_matching == stepped.log().len(),
                conflicted ==> {
                    &&& num_matching < num_entries
                    &&& prev + num_matching < stepped.log().len()
                    &&& stepped.log()[prev + num_matching].term != request.entries@[
                        num_matching as int
                    ].term
                    &&& self.log() == stepped.log().take(prev + num_matching)
                    &&& *self == (Server {
                        storage: self.storage,
                        pending_write_requests: self.pending_write_requests,
                        ..stepped
                    })
                    &&& self.pending_write_requests@ == writes_below(
                        stepped.pending_write_requests@,
                        (prev + num_matching + 1) as u64,
                    )
                    &&& self.wf()
                    &&& Self::effects_extended(mid_effs, effects@)
                    &&& Self::latest_metadata(effects@.skip(mid_effs.len() as int)) is None
                },
            decreases num_entries - num_matching, (if conflicted || ran_out {
                0int
            } else {
                1int
            }),
        {
            let index_in_log = prev + (num_matching as u64) + 1;
            let existing = match self.storage.entry(index_in_log) {
                Ok(e) => e,
                Err(_) => {
                    proof {
                        assert(false);
                    }
                    None
                },
            };
            match existing {
                Some(existing_entry) => {
                    let ghost xm = existing_entry@;
                    if existing_entry.term != request.entries[num_matching].term {
                        proof {
                            assert(index_in_log > stepped.commit_index);
                            assert(effects@.take(mid_effs.len() as int) =~= mid_effs);
                        }
                        self.truncate_log(index_in_log, effects);
                        conflicted = true;
                        proof {
                            assert(self.log() == stepped.log().take(index_in_log - 1));
                        }
                    } else {
                        proof {
                            assert(xm == stepped.log()[prev + num_matching]);
                            assert(stepped.log()[prev + num_matching].term == request.entries@[
                                num_matching as int
                            ].term);
                        }
                        num_matching = num_matching + 1;
                    }
                },
                None => {
                    proof {
                        assert(!(1 <= index_in_log <= stepped.log().len()));
                        if num_matching > 0 {
                            assert(stepped.log()[prev + (num_matching - 1)].term
                                == request.entries@[num_matching - 1].term);
                            assert(prev + (num_matching - 1) < stepped.log().len());
                        } else {
                            if prev > 0 {
                                assert(Self::log_matches_at(
                                    pre.log(),
                                    request.prev_log_index,
                                    request.prev_log_term,
                                ));
                                assert(prev <= pre.log().len());
                                assert(stepped.log() == pre.log());
                            }
                        }
                        assert(prev + num_matching == stepped.log().len());
                    }
                    ran_out = true;
                },
            }
        }
        let ghost call_effs = effects@;
        let r = self.ae_finish(request, num_matching, conflicted, Ghost(stepped), effects);
        proof {
            let cut = mid_effs.len() as int;
            assert(effects@.take(call_effs.len() as int) == call_effs);
            assert(effects@.take(cut) =~= mid_effs);
            assert(effects@.take(base) =~= old(effects)@);
            if !conflicted {
                assert(call_effs == mid_effs);
                assert(call_effs.skip(cut) =~= Seq::<Effect>::empty());
                assert(Self::latest_metadata(Seq::<Effect>::empty()) is None);
            } else {
                assert(Self::latest_metadata(call_effs.skip(cut)) is None);
            }
            assert(call_effs.take(cut) =~= mid_effs);
            lemma_latest_metadata_split(effects@, cut, call_effs.len() as int);
            if stepped.current_term != pre.current_term {
                let m = Metadata { current_term: request.term, voted_for: None };
                lemma_latest_metadata_keeps(effects@, base, cut, m);
            } else {
                lemma_latest_metadata_split(effects@, base, cut);
            }
        }
        r
    }

    /// The tail of the replication handler, after the walk has found
    /// the first conflict (or none): cut already done, append the rest,
    /// advance the commit index, apply.
    #[verifier::rlimit(100)]
    #[verifier::spinoff_prover]
    fn ae_finish(
        &mut self,
        request: AppendEntries,
        num_matching: usize,
        conflicted: bool,
        Ghost(stepped): Ghost<Server>,
        effects: &mut Vec<Effect>,
    ) -> (r: AppendEntriesResponse)
        requires
            old(self).wf(),
            stepped.wf(),
            Self::ae_wf(request),
            stepped.state == State::Follower,
            request.term <= stepped.current_term,
            num_matching <= request.entries@.len(),
            request.prev_log_index + request.entries@.len() <= u64::MAX,
            forall|j: int|
                0 <= j < num_matching ==> request.prev_log_index + j < stepped.log().len()
                    && stepped.log()[request.prev_log_index + j].term == (
                #[trigger] request.entries@[j]).term,
            Self::log_matches_at(stepped.log(), request.prev_log_index, request.prev_log_term),
            !conflicted ==> *old(self) == stepped,
            !conflicted && num_matching < request.entries@.len() ==> request.prev_log_index
                + num_matching == stepped.log().len(),
            conflicted ==> {
                &&& num_matching < request.entries@.len()
                &&& request.prev_log_index + num_matching < stepped.log().len()
                &&& stepped.log()[request.prev_log_index + num_matching].term != request.entries@[
                    num_matching as int
                ].term
                &&& old(self).log() == stepped.log().take(
                    request.prev_log_index + num_matching,
                )
                &&& *old(self) == (Server {
                    storage: old(self).storage,
                    pending_write_requests: old(self).pending_write_requests,
                    ..stepped
                })
            },
        ensures
            final(self).wf(),
            Self::effects_extended(old(effects)@, final(effects)@),
            Self::latest_metadata(final(effects)@.skip(old(effects)@.len() as int)) is None,
            final(self).log() == Self::ae_merged(
                stepped.log(),
                request.prev_log_index as int,
                models(request.entries@),
            ),
            final(self).state == State::Follower,
            final(self).leader_id == stepped.leader_id,
            final(self).current_term == stepped.current_term,
            final(self).voted_for == stepped.voted_for,
            final(self).commit_index == if request.leader_commit > stepped.commit_index {
                request.leader_commit
            } else {
                stepped.commit_index
            },
            final(self).last_applied_index == final(self).commit_index,
            final(self).commit_index >= stepped.commit_index,
            final(self).last_applied_index >= stepped.last_applied_index,
            final(self).log().len() >= request.prev_log_index + request.entries@.len(),
            forall|j: int|
                0 <= j < request.entries@.len() ==> final(self).log()[request.prev_log_index
                    + j].term == (#[trigger] request.entries@[j]).term,
            r.term == stepped.current_term,
            r.success,
            r.current_index == request.prev_log_index + request.entries@.len(),
            r.message_index == request.message_index,
    {
        let ghost pre = stepped;
        let ghost base = old(effects)@.len() as int;
        let ghost finish_effs = effects@;
        let prev = request.prev_log_index;
        let num_entries: usize = request.entries.len();
        proof {
            assert(effects@.take(base) =~= old(effects)@);
            assert(effects@.skip(base) =~= Seq::<Effect>::empty());
            assert(Self::latest_metadata(Seq::<Effect>::empty()) is None);
        }
        // append what the log lacks
        if num_matching < num_entries {
            let suffix = Self::copy_entries_from(&request.entries, num_matching);
            let r = self.storage.append_entries(&suffix);
            let suffix_copy = Self::copy_entries_from(&request.entries, num_matching);
            let ghost before_push = effects@;
            effects.push(Effect::AppendLogEntries(suffix_copy));
            proof {
                assert(effects@.take(finish_effs.len() as int) =~= before_push.take(
                    finish_effs.len() as int,
                ));
                assert(effects@.skip(finish_effs.len() as int).drop_last() =~= Seq::<
                    Effect,
                >::empty());
                assert(Self::latest_metadata(Seq::<Effect>::empty()) is None);
                assert(Self::latest_metadata(effects@.skip(finish_effs.len() as int)) is None);
                assert(self.log() =~= (*old(self)).log() + models(request.entries@).skip(
                    num_matching as int,
                ));
            }
        } else {
            proof {
                assert(effects@.take(finish_effs.len() as int) =~= finish_effs);
                assert(effects@.skip(finish_effs.len() as int) =~= Seq::<Effect>::empty());
                assert(Self::latest_metadata(Seq::<Effect>::empty()) is None);
            }
        }
        proof {
            let ms = models(request.entries@);
            let log0 = stepped.log();
            let cutlen = prev + num_matching;
            assert forall|j: int| 0 <= j < num_matching implies prev + j < log0.len() && log0[prev
                + j].term == #[trigger] ms[j].term by {
                assert(ms[j] == request.entries@[j]@);
                assert(log0[prev + j].term == request.entries@[j].term);
            }
            if num_matching < num_entries {
                assert(ms[num_matching as int] == request.entries@[num_matching as int]@);
                if conflicted {
                    assert(!(prev + num_matching < log0.len() && log0[prev
                        + (num_matching as int)].term == ms[num_matching as int].term));
                } else {
                    assert(prev + num_matching == log0.len());
                    assert(!(prev + num_matching < log0.len() && log0[prev
                        + (num_matching as int)].term == ms[num_matching as int].term));
                }
            }
            lemma_match_len_from_walk(log0, prev as int, ms, num_matching as int, conflicted);
            assert(Self::match_len(log0, prev as int, ms) == num_matching);
            // the final log is exactly the merge the specification names
            if num_matching < num_entries {
                if conflicted {
                    assert((*old(self)).log() == log0.take(cutlen as int));
                } else {
                    assert((*old(self)).log() == log0);
                    assert(log0.take(cutlen as int) =~= log0);
                }
                assert(self.log() =~= log0.take(cutlen as int) + ms.skip(num_matching as int));
                assert(self.log() == Self::ae_merged(log0, prev as int, ms));
            } else {
                assert(self.log() == log0);
                assert(self.log() == Self::ae_merged(log0, prev as int, ms));
            }
            // its terms stay sorted
            assert forall|a: int, b: int| 0 <= a <= b < self.log().len() implies #[trigger] self.log()[
                a
            ].term <= #[trigger] self.log()[b].term by {
                if num_matching == num_entries {
                    assert(self.log()[a] == log0[a]);
                    assert(self.log()[b] == log0[b]);
                } else if b < cutlen {
                    assert(self.log()[a] == log0[a]);
                    assert(self.log()[b] == log0[b]);
                } else if a >= cutlen {
                    assert(self.log()[a] == ms[a - prev]);
                    assert(self.log()[b] == ms[b - prev]);
                    assert(ms[a - prev] == request.entries@[a - prev]@);
                    assert(ms[b - prev] == request.entries@[b - prev]@);
                    assert(request.entries@[a - prev].term <= request.entries@[b - prev].term);
                } else {
                    assert(self.log()[a] == log0[a]);
                    assert(self.log()[b] == ms[b - prev]);
                    if num_matching > 0 {
                        assert(log0[a].term <= log0[cutlen - 1].term);
                        assert(log0[cutlen - 1].term == ms[num_matching - 1].term);
                        assert(ms[num_matching - 1] == request.entries@[num_matching - 1]@);
                        assert(ms[b - prev] == request.entries@[b - prev]@);
                        assert(request.entries@[num_matching - 1].term <= request.entries@[b
                            - prev].term);
                    } else {
                        assert(b >= prev);
                        assert(a < prev);
                        assert(prev >= 1);
                        assert(log0[a].term <= log0[prev - 1].term);
                        assert(log0[prev - 1].term == request.prev_log_term);
                        assert(request.prev_log_term <= request.entries@[0].term);
                        assert(ms[b - prev] == request.entries@[b - prev]@);
                        assert(request.entries@[0].term <= request.entries@[b - prev].term);
                    }
                }
            }
            // the newest entry is no newer than the current term
            if self.log().len() > 0 {
                if num_matching < num_entries && self.log().len() > cutlen {
                    assert(self.log().last() == ms[self.log().len() - 1 - prev]);
                    assert(ms[self.log().len() - 1 - prev] == request.entries@[self.log().len() - 1
                        - prev]@);
                    assert(request.entries@[self.log().len() - 1 - prev].term <= request.term);
                } else {
                    assert(self.log().last() == log0[self.log().len() - 1]);
                    assert(log0[self.log().len() - 1].term <= log0[log0.len() - 1].term);
                }
                assert(self.log().last().term <= self.current_term);
            }
            // commitments and pending writes stay within the kept prefix
            assert(self.commit_index <= cutlen || self.commit_index <= self.log().len());
            assert(self.log().len() >= cutlen);
            assert(self.commit_index == stepped.commit_index);
            assert(forall|j: int|
                0 <= j < (*old(self)).pending_write_requests@.len() ==> #[trigger] (*old(self)).pending_write_requests@[
                    j
                ].index <= cutlen || #[trigger] (*old(self)).pending_write_requests@[j].index
                    <= (*old(self)).log().len());
            assert(self.pending_write_requests == (*old(self)).pending_write_requests);
            assert forall|j: int| 0 <= j < self.pending_write_requests@.len() implies #[trigger] self.pending_write_requests@[
                j
            ].index <= self.log().len() && self.log()[self.pending_write_requests@[j].index
                - 1].kind is Command by {
                assert((*old(self)).pending_write_requests@[j].index <= (*old(self)).log().len());
                assert((*old(self)).log()[(*old(self)).pending_write_requests@[j].index
                    - 1].kind is Command);
                assert(self.log()[self.pending_write_requests@[j].index - 1] == (*old(self)).log()[
                    (*old(self)).pending_write_requests@[j].index - 1
                ]);
            }
            assert(self.wf());
            assert(self.log().len() >= prev + num_entries);
            assert forall|j: int| 0 <= j < num_entries implies self.log()[prev + j].term
                == #[trigger] request.entries@[j].term by {
                if j < num_matching {
                    assert(self.log()[prev + j] == log0[prev + j]);
                    assert(log0[prev + j].term == request.entries@[j].term);
                } else {
                    assert(self.log()[prev + j] == ms[j]);
                    assert(ms[j] == request.entries@[j]@);
                }
            }
        }
        let new_index = self.storage.current_index();
        if request.leader_commit > self.commit_index {
            let bounded = if new_index < 1 {
                1
            } else {
                new_index
            };
            self.commit_index = if bounded > request.leader_commit {
                request.leader_commit
            } else {
                bounded
            };
            proof {
                assert(new_index >= request.leader_commit);
                assert(self.commit_index == request.leader_commit);
            }
        }
        proof {
            assert(self.last_applied_index <= self.commit_index <= self.log().len());
            assert(Self::log_terms_sorted(self.log()));
            assert(self.log().len() > 0 ==> self.log().last().term <= self.current_term);
            assert(self.last_applied_term <= self.current_term);
            assert(forall|i2: int|
                0 <= i2 < self.peers@.len() ==> #[trigger] self.peers@[i2].next_index >= 1);
            assert(forall|i2: int, j2: int|
                0 <= i2 < j2 < self.pending_write_requests@.len()
                    ==> #[trigger] self.pending_write_requests@[i2].index
                    < #[trigger] self.pending_write_requests@[j2].index);
            assert(forall|i2: int|
                0 <= i2 < self.pending_write_requests@.len()
                    ==> #[trigger] self.pending_write_requests@[i2].index
                    > self.last_applied_index);
            assert(forall|i2: int|
                0 <= i2 < self.pending_write_requests@.len()
                    ==> #[trigger] self.pending_write_requests@[i2].index <= self.log().len());
            assert(forall|i2: int|
                0 <= i2 < self.pending_write_requests@.len() ==> self.log()[
                    #[trigger] self.pending_write_requests@[i2].index - 1
                ].kind is Command);
            assert(self.state == State::Follower);
            assert(self.config.valid());
            assert(self.node_ids@.len() >= 1);
            assert(self.peers@.len() == self.node_ids@.len());
            let w = choose|i2: int|
                0 <= i2 < pre.node_ids@.len() && pre.node_ids@[i2] == pre.node_id;
            assert(self.node_ids@[w] == self.node_id);
            assert(self.member(self.node_id));
            assert(self.wf());
        }
        let ghost pre_exec_effs = effects@;
        self.exec_operations(effects);
        proof {
            assert(effects@.take(pre_exec_effs.len() as int) == pre_exec_effs);
            assert(effects@.take(base) =~= old(effects)@);
            lemma_latest_metadata_split(effects@, base, pre_exec_effs.len() as int);
        }
        AppendEntriesResponse {
            term: self.current_term,
            current_index: prev + (num_entries as u64),
            success: true,
            message_index: request.message_index,
        }
    }
}

/// After the walk, the number of already-matching request entries is
/// exactly what the merge specification counts.
proof fn lemma_match_len_from_walk(
    log: Seq<EntryModel>,
    prev: int,
    entries: Seq<EntryModel>,
    i: int,
    conflicted: bool,
)
    requires
        0 <= prev,
        0 <= i <= entries.len(),
        forall|j: int|
            0 <= j < i ==> prev + j < log.len() && log[prev + j].term == (#[trigger] entries[
                j
            ]).term,
        i < entries.len() ==> !(prev + i < log.len() && log[prev + i].term == entries[i].term),
    ensures
        Server::match_len(log, prev, entries) == i,
    decreases i + 1,
{
    if entries.len() == 0 {
    } else if i == 0 {
        assert(Server::match_len(log, prev, entries) == 0);
    } else {
        assert(i >= 1);
        assert(entries[0] == entries[0int]);
        assert(prev + 0 < log.len() && log[prev + 0].term == entries[0].term);
        let tail = entries.skip(1);
        assert forall|j: int| 0 <= j < i - 1 implies prev + 1 + j < log.len() && log[prev + 1
            + j].term == #[trigger] tail[j].term by {
            assert(tail[j] == entries[j + 1]);
            assert(prev + (j + 1) < log.len() && log[prev + (j + 1)].term == entries[j + 1].term);
        }
        if i - 1 < tail.len() {
            assert(tail[i - 1] == entries[i as int]);
        }
        lemma_match_len_from_walk(log, prev + 1, tail, i - 1, conflicted);
        assert(Server::match_len(log, prev, entries) == 1 + Server::match_len(
            log,
            prev + 1,
            tail,
        ));
    }
}


impl Server {
    /// Takes in a peer's answer to a replication request. A newer term
    /// steps this node down. On success the peer's replication level
    /// and barrier tag rise to what the answer reports and the commit
    /// index is recomputed; on failure the peer's next index is
    /// rewound so the next send carries more history.
    #[verifier::rlimit(100)]
    #[verifier::spinoff_prover]
    pub fn handle_append_entries_response(
        &mut self,
        node_id: NodeId,
        response: AppendEntriesResponse,
        effects: &mut Vec<Effect>,
    )
        requires
            old(self).wf(),
            old(self).member(node_id),
            response.current_index < u64::MAX,
            old(self).last_message_index < u64::MAX,
            old(self).log().len() + 1 <= u64::MAX,
            response.success && old(self).state == State::Leader && response.term <= old(self).current_term ==> response.current_index <= old(self).log().len(),
        ensures
            final(self).wf(),
            Self::monotone(*old(self), *final(self)),
            Self::effects_extended(old(effects)@, final(effects)@),
            Self::metadata_recorded(*old(self), *final(self), old(effects)@, final(effects)@),
            old(self).state != State::Leader ==> *final(self) == *old(self) && final(effects)@
                == old(effects)@,
            final(self).log() == old(self).log(),
            response.term > old(self).current_term && old(self).state == State::Leader ==> final(self).state == State::Follower && final(self).current_term == response.term,
    {
        let ghost pre = *old(self);
        let ghost base = old(effects)@.len() as int;
        if self.state != State::Leader {
            proof {
                assert(effects@.take(base) =~= old(effects)@);
            }
            return ;
        }
        if response.term > self.current_term {
            self.update_current_term(response.term, effects);
            self.become_follower(effects);
            proof {
                let m = Metadata { current_term: response.term, voted_for: None };
                assert(effects@.skip(base) =~= seq![
                    Effect::PersistMetadata(m),
                    Effect::ResetElectionTimer,
                ]);
                assert(effects@.skip(base).drop_last() =~= seq![Effect::PersistMetadata(m)]);
                reveal_with_fuel(Server::latest_metadata, 4);
                assert(Self::latest_metadata(effects@.skip(base)) == Some(m));
                assert(effects@.take(base) =~= old(effects)@);
            }
            return ;
        }
        let peer = match self.peer_index(node_id) {
            Some(i) => i,
            None => {
                proof {
                    assert(false);
                }
                return ;
            },
        };
        if !response.success {
            let node = self.peers[peer];
            if response.current_index < node.match_index {
                proof {
                    assert(effects@.take(base) =~= old(effects)@);
                }
                return ;
            }
            let current_index = self.storage.current_index();
            let bounded = if current_index < 1 {
                1
            } else {
                current_index
            };
            let rewound = if bounded > response.current_index + 1 {
                response.current_index + 1
            } else {
                bounded
            };
            let mut updated = node;
            updated.next_index = rewound;
            self.peers.set(peer, updated);
            proof {
                assert(forall|i: int|
                    0 <= i < self.peers@.len() ==> #[trigger] self.peers@[i].next_index >= 1);
                assert(forall|i: int|
                    0 <= i < self.peers@.len() ==> #[trigger] self.peers@[i].next_index
                        <= self.log().len() + 1);
                assert(forall|i: int|
                    0 <= i < self.peers@.len() ==> #[trigger] self.peers@[i].match_index
                        <= self.log().len());
                assert(self.wf());
            }
            let request = self.build_append_entries(peer);
            effects.push(Effect::SendAppendEntries { dest: node_id, request });
            proof {
                assert(effects@.take(base) =~= old(effects)@);
                assert(effects@.skip(base).drop_last() =~= Seq::<Effect>::empty());
                assert(Self::latest_metadata(Seq::<Effect>::empty()) is None);
                assert(Self::latest_metadata(effects@.skip(base)) is None);
            }
            return ;
        }
        // success: raise what we know of the peer
        let current_index = self.storage.current_index();
        let mut updated = self.peers[peer];
        updated.next_index = if current_index > 1 {
            current_index
        } else {
            1
        };
        updated.match_index = if updated.match_index > response.current_index {
            updated.match_index
        } else {
            response.current_index
        };
        updated.match_message_index = if updated.match_message_index > response.message_index {
            updated.match_message_index
        } else {
            response.message_index
        };
        self.peers.set(peer, updated);
        proof {
            assert(forall|i: int|
                0 <= i < self.peers@.len() ==> #[trigger] self.peers@[i].next_index >= 1);
            assert(forall|i: int|
                0 <= i < self.peers@.len() ==> #[trigger] self.peers@[i].next_index
                    <= self.log().len() + 1);
            assert(forall|i: int|
                0 <= i < self.peers@.len() ==> #[trigger] self.peers@[i].match_index
                    <= self.log().len());
            assert(self.wf());
        }
        let ghost mid_effs = effects@;
        self.flush(effects);
        proof {
            assert(effects@.take(base) =~= old(effects)@);
            assert(mid_effs == old(effects)@);
            lemma_latest_metadata_split(effects@, base, mid_effs.len() as int);
        }
    }

    /// Takes in a peer's answer to a vote request. A newer term steps
    /// this node down; a grant is tallied, and on a strict majority
    /// this candidate becomes the leader.
    pub fn handle_request_vote_response(
        &mut self,
        node_id: NodeId,
        response: RequestVoteResponse,
        effects: &mut Vec<Effect>,
    )
        requires
            old(self).wf(),
            old(self).member(node_id),
            old(self).counters_have_room(old(self).node_ids@.len() as u64),
        ensures
            final(self).wf(),
            Self::monotone(*old(self), *final(self)),
            Self::effects_extended(old(effects)@, final(effects)@),
            Self::metadata_recorded(*old(self), *final(self), old(effects)@, final(effects)@),
            response.term > old(self).current_term ==> final(self).state == State::Follower
                && final(self).current_term == response.term,
            old(self).state != State::Candidate && response.term <= old(self).current_term
                ==> *final(self) == *old(self) && final(effects)@ == old(effects)@,
            final(self).state == State::Leader && old(self).state != State::Leader ==> old(self).state == State::Candidate && final(self).current_term == old(self).current_term,
            // a grant in the current candidacy is tallied
            old(self).state == State::Candidate && response.term == old(self).current_term
                && response.vote_granted ==> exists|pi: int|
                0 <= pi < old(self).node_ids@.len() && old(self).node_ids@[pi] == node_id && final(self).peers@.len() == old(self).peers@.len() && (forall|i: int|
                    0 <= i < old(self).peers@.len() ==> (#[trigger] final(self).peers@[i]).voted_for_me
                        == (i == pi || old(self).peers@[i].voted_for_me)),
            // and a strict majority of tallies promotes: the no-op of
            // the new term goes into the log and heartbeats go out to
            // every peer at once
            old(self).state == State::Candidate && response.term == old(self).current_term
                && response.vote_granted && count_votes(final(self).peers@) > old(self).node_ids@.len() / 2 ==> final(self).state == State::Leader && final(self).log() == old(self).log().push(
                EntryModel {
                    kind: crate::raft::types::EntryKindModel::NoOp,
                    term: old(self).current_term,
                },
            ) && final(self).last_applied_index == final(self).commit_index && (forall|i: int|
                0 <= i < old(self).node_ids@.len() && old(self).node_ids@[i] != old(self).node_id
                    ==> sent_append_entries_in(
                    #[trigger] final(effects)@.skip(old(effects)@.len() as int),
                    old(self).node_ids@[i],
                )),
    {
        let ghost pre = *old(self);
        let ghost base = old(effects)@.len() as int;
        if response.term > self.current_term {
            self.update_current_term(response.term, effects);
            self.become_follower(effects);
            proof {
                let m = Metadata { current_term: response.term, voted_for: None };
                assert(effects@.skip(base) =~= seq![
                    Effect::PersistMetadata(m),
                    Effect::ResetElectionTimer,
                ]);
                assert(effects@.skip(base).drop_last() =~= seq![Effect::PersistMetadata(m)]);
                reveal_with_fuel(Server::latest_metadata, 4);
                assert(Self::latest_metadata(effects@.skip(base)) == Some(m));
                assert(effects@.take(base) =~= old(effects)@);
            }
            return ;
        }
        if self.state != State::Candidate || response.term != self.current_term {
            proof {
                assert(effects@.take(base) =~= old(effects)@);
            }
            return ;
        }
        if !response.vote_granted {
            proof {
                assert(effects@.take(base) =~= old(effects)@);
            }
            return ;
        }
        let peer = match self.peer_index(node_id) {
            Some(i) => i,
            None => {
                proof {
                    assert(false);
                }
                return ;
            },
        };
        let mut updated = self.peers[peer];
        updated.voted_for_me = true;
        self.peers.set(peer, updated);
        let ghost tallied = *self;
        proof {
            assert(forall|i: int|
                0 <= i < self.peers@.len() ==> #[trigger] self.peers@[i].next_index >= 1);
            assert(self.wf());
            assert(forall|i: int|
                0 <= i < pre.peers@.len() ==> (#[trigger] tallied.peers@[i]).voted_for_me == (i
                    == peer || pre.peers@[i].voted_for_me));
        }
        let n: usize = self.peers.len();
        let mut count: usize = 0;
        let mut i: usize = 0;
        proof {
            assert(self.peers@.take(0) =~= Seq::<Node>::empty());
        }
        while i < n
            invariant
                i <= n,
                count <= i,
                n == self.peers@.len(),
                *self == tallied,
                count == count_votes(self.peers@.take(i as int)),
            decreases n - i,
        {
            proof {
                assert(self.peers@.take(i + 1).drop_last() =~= self.peers@.take(i as int));
                assert(self.peers@.take(i + 1).last() == self.peers@[i as int]);
            }
            if self.peers[i].voted_for_me {
                count = count + 1;
            }
            i = i + 1;
        }
        proof {
            assert(self.peers@.take(n as int) =~= self.peers@);
            assert(count == count_votes(tallied.peers@));
        }
        if count > n / 2 {
            let ghost mid_effs = effects@;
            self.become_leader(effects);
            proof {
                assert(effects@.take(base) =~= old(effects)@);
                assert(mid_effs == old(effects)@);
                lemma_latest_metadata_split(effects@, base, mid_effs.len() as int);
                // the promotion keeps every tally, so the majority is
                // visible in the final state
                assert(forall|i2: int|
                    0 <= i2 < tallied.peers@.len() ==> (#[trigger] self.peers@[i2]).voted_for_me
                        == tallied.peers@[i2].voted_for_me);
                lemma_count_votes_flags(tallied.peers@, self.peers@);
                assert(count_votes(self.peers@) == count);
            }
        } else {
            proof {
                assert(effects@.take(base) =~= old(effects)@);
                assert(count_votes(self.peers@) == count);
            }
        }
    }
}

} // verus!