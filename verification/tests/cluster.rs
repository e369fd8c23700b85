//! The replication engine driven end to end: elections, replication,
//! the read barrier, client redirection, and the safety of what gets
//! applied, under message loss, duplication and reordering.

use std::collections::HashMap;

use zakros::raft::config::RaftConfig;
use zakros::raft::rpc::AppendEntries;
use zakros::raft::server::{Effect, Server};
use zakros::raft::storage::MemoryStorage;
use zakros::raft::types::{Metadata, NodeId, State};
use zakros::redis::command::RedisCommand;
use zakros::redis::error::RedisError;
use zakros::redis::resp::{encode, Value};
use zakros::redis::session::{RedisSession, SessionOutput};
use zakros::server::store::{decode_payload, encode_batch, encode_single, CommandPayload};

fn bytes(s: &str) -> Vec<u8> {
    s.as_bytes().to_vec()
}

fn default_config() -> RaftConfig {
    RaftConfig {
        heartbeat_interval_millis: 200,
        election_timeout_min_millis: 1000,
        election_timeout_max_millis: 2000,
    }
}

fn new_node(id: u64, n: u64) -> Server {
    Server::new(
        NodeId(id),
        (0..n).map(NodeId).collect(),
        default_config(),
        MemoryStorage::new(),
        Metadata { current_term: 0, voted_for: None },
    )
}

/// Builds the replicated payload for one named command.
fn single_payload(name: &str, args: &[Vec<u8>]) -> Vec<u8> {
    let command = RedisCommand::try_from(&bytes(name)).expect("a known command");
    encode_single(command, &args.to_vec())
}

/// The minimal dictionary the scenarios run against: strings and
/// lists, a stand-in for the command modules outside the core.
#[derive(Default, Clone)]
struct Dict {
    strings: HashMap<Vec<u8>, Vec<u8>>,
    lists: HashMap<Vec<u8>, Vec<Vec<u8>>>,
}

impl Dict {
    fn run(&mut self, argv: &[Vec<u8>]) -> Result<Value, RedisError> {
        let name = String::from_utf8(argv[0].clone()).unwrap();
        match name.as_str() {
            "SET" => {
                self.strings.insert(argv[1].clone(), argv[2].clone());
                Ok(Value::ok())
            },
            "GET" => match self.strings.get(&argv[1]) {
                Some(v) => Ok(Value::BulkString(v.clone())),
                None => Ok(Value::Null),
            },
            "DEL" => {
                let mut n = 0;
                if self.strings.remove(&argv[1]).is_some() {
                    n += 1;
                }
                if self.lists.remove(&argv[1]).is_some() {
                    n += 1;
                }
                Ok(Value::Integer(n))
            },
            "INCR" => {
                let cur = self
                    .strings
                    .get(&argv[1])
                    .map(|v| String::from_utf8(v.clone()).unwrap().parse::<i64>().unwrap())
                    .unwrap_or(0);
                let next = cur + 1;
                self.strings.insert(argv[1].clone(), bytes(&next.to_string()));
                Ok(Value::Integer(next))
            },
            "RPUSH" => {
                let list = self.lists.entry(argv[1].clone()).or_default();
                for v in &argv[2..] {
                    list.push(v.clone());
                }
                Ok(Value::Integer(list.len() as i64))
            },
            "LRANGE" => {
                let list = self.lists.get(&argv[1]).cloned().unwrap_or_default();
                Ok(Value::Array(
                    list.into_iter().map(|v| Ok(Value::BulkString(v))).collect(),
                ))
            },
            other => panic!("the scenarios do not use {other}"),
        }
    }

    fn apply(&mut self, payload: &[u8]) -> Result<Value, RedisError> {
        match decode_payload(&payload.to_vec()).expect("a well-formed payload") {
            CommandPayload::Single(argv) => self.run(&argv),
            CommandPayload::Batch(argvs) => {
                let replies = argvs.iter().map(|argv| self.run(argv)).collect();
                zakros::server::store::collect_batch(replies)
            },
        }
    }
}

/// A whole cluster under test: nodes, their dictionaries, the applied
/// payload journal, and the answers that reached clients.
struct Sim {
    nodes: Vec<Server>,
    dicts: Vec<Dict>,
    applied: Vec<Vec<(u64, Vec<u8>)>>,
    write_replies: HashMap<u64, Result<Value, RedisError>>,
    rejected_writes: HashMap<u64, Option<NodeId>>,
    granted_reads: Vec<u64>,
    rejected_reads: HashMap<u64, Option<NodeId>>,
    // a simple linear congruential generator drives the fault choices
    rng: u64,
    drop_percent: u64,
    duplicate_percent: u64,
}

impl Sim {
    fn new(n: u64) -> Sim {
        Sim {
            nodes: (0..n).map(|i| new_node(i, n)).collect(),
            dicts: (0..n).map(|_| Dict::default()).collect(),
            applied: (0..n).map(|_| Vec::new()).collect(),
            write_replies: HashMap::new(),
            rejected_writes: HashMap::new(),
            granted_reads: Vec::new(),
            rejected_reads: HashMap::new(),
            rng: 0x243f6a8885a308d3,
            drop_percent: 0,
            duplicate_percent: 0,
        }
    }

    fn next_rand(&mut self) -> u64 {
        self.rng = self.rng.wrapping_mul(6364136223846793005).wrapping_add(1442695040888963407);
        self.rng >> 33
    }

    fn chance(&mut self, percent: u64) -> bool {
        self.next_rand() % 100 < percent
    }

    /// Performs one node's pending effects, delivering messages to the
    /// peers that are up; `down` nodes swallow everything.
    fn pump(&mut self, from: usize, effects: Vec<Effect>, down: &[usize]) {
        let mut deliveries: Vec<(usize, Vec<Effect>)> = Vec::new();
        for effect in effects {
            match effect {
                Effect::Apply { index, payload, write_request } => {
                    self.applied[from].push((index, payload.clone()));
                    let output = self.dicts[from].apply(&payload);
                    if let Some(id) = write_request {
                        self.write_replies.insert(id, output);
                    }
                },
                Effect::WriteRejected { request_id, leader_id } => {
                    self.rejected_writes.insert(request_id, leader_id);
                },
                Effect::ReadGranted { request_id } => {
                    self.granted_reads.push(request_id);
                },
                Effect::ReadRejected { request_id, leader_id } => {
                    self.rejected_reads.insert(request_id, leader_id);
                },
                Effect::SendAppendEntries { dest, request } => {
                    let copies = self.fault_copies();
                    for _ in 0..copies {
                        let d = dest.0 as usize;
                        if down.contains(&d) {
                            continue;
                        }
                        let mut effs = Vec::new();
                        let resp = self.nodes[d].handle_append_entries(request.clone(), &mut effs);
                        deliveries.push((d, effs));
                        if !down.contains(&from) {
                            let mut effs2 = Vec::new();
                            self.nodes[from].handle_append_entries_response(
                                dest,
                                resp,
                                &mut effs2,
                            );
                            deliveries.push((from, effs2));
                        }
                    }
                },
                Effect::SendRequestVote { dest, request } => {
                    let copies = self.fault_copies();
                    for _ in 0..copies {
                        let d = dest.0 as usize;
                        if down.contains(&d) {
                            continue;
                        }
                        let mut effs = Vec::new();
                        let resp = self.nodes[d].handle_request_vote(request, &mut effs);
                        deliveries.push((d, effs));
                        if !down.contains(&from) {
                            let mut effs2 = Vec::new();
                            self.nodes[from].handle_request_vote_response(dest, resp, &mut effs2);
                            deliveries.push((from, effs2));
                        }
                    }
                },
                Effect::PersistMetadata(_)
                | Effect::AppendLogEntries(_)
                | Effect::TruncateLog(_)
                | Effect::ResetElectionTimer => {},
            }
        }
        for (node, effs) in deliveries {
            self.pump(node, effs, down);
        }
    }

    fn fault_copies(&mut self) -> usize {
        if self.drop_percent > 0 && self.chance(self.drop_percent) {
            0
        } else if self.duplicate_percent > 0 && self.chance(self.duplicate_percent) {
            2
        } else {
            1
        }
    }

    fn elect(&mut self, node: usize, down: &[usize]) {
        let mut effs = Vec::new();
        self.nodes[node].start_election(&mut effs);
        self.pump(node, effs, down);
    }

    fn heartbeat(&mut self, node: usize, down: &[usize]) {
        if self.nodes[node].status().state == State::Leader {
            let mut effs = Vec::new();
            self.nodes[node].send_append_entries_to_all(&mut effs);
            self.pump(node, effs, down);
        }
    }

    fn leader(&self) -> Option<usize> {
        self.nodes.iter().position(|n| n.status().state == State::Leader)
    }

    fn write(&mut self, node: usize, id: u64, payload: Vec<u8>, down: &[usize]) {
        let mut effs = Vec::new();
        self.nodes[node].handle_write(payload, id, &mut effs);
        self.pump(node, effs, down);
    }

    fn read(&mut self, node: usize, id: u64, down: &[usize]) {
        let mut effs = Vec::new();
        self.nodes[node].handle_read(id, &mut effs);
        self.pump(node, effs, down);
    }
}

#[test]
fn single_node_cluster_elects_itself_and_serves() {
    let mut sim = Sim::new(1);
    sim.elect(0, &[]);
    assert_eq!(sim.nodes[0].status().state, State::Leader);

    sim.write(0, 1, single_payload("SET", &[bytes("foo"), bytes("bar")]), &[]);
    assert_eq!(sim.write_replies.get(&1), Some(&Ok(Value::ok())));

    sim.read(0, 2, &[]);
    assert_eq!(sim.granted_reads, vec![2]);
    let reply = sim.dicts[0].run(&[bytes("GET"), bytes("foo")]).unwrap();
    assert_eq!(reply, Value::BulkString(bytes("bar")));
}

#[test]
fn three_node_election_tolerates_one_unreachable_peer() {
    let mut sim = Sim::new(3);
    sim.elect(0, &[2]);
    assert_eq!(sim.nodes[0].status().state, State::Leader);
    assert_eq!(sim.nodes[1].status().leader_id, Some(NodeId(0)));
}

#[test]
fn replication_reaches_every_node() {
    let mut sim = Sim::new(3);
    sim.elect(0, &[]);
    sim.write(0, 1, single_payload("SET", &[bytes("a"), bytes("1")]), &[]);
    sim.heartbeat(0, &[]);
    sim.heartbeat(0, &[]);
    for i in 0..3 {
        assert_eq!(
            sim.dicts[i].run(&[bytes("GET"), bytes("a")]).unwrap(),
            Value::BulkString(bytes("1")),
            "node {i} should hold the write",
        );
    }
}

#[test]
fn follower_rejects_an_append_beyond_its_log() {
    let mut follower = new_node(1, 3);
    let mut effs = Vec::new();
    let resp = follower.handle_append_entries(
        AppendEntries {
            term: 1,
            leader_id: NodeId(0),
            prev_log_index: 5,
            prev_log_term: 1,
            entries: Vec::new(),
            leader_commit: 0,
            message_index: 9,
        },
        &mut effs,
    );
    assert!(!resp.success);
    assert_eq!(resp.current_index, 0);
    assert_eq!(resp.message_index, 9);
}

#[test]
fn follower_truncates_on_a_conflicting_term() {
    // the follower holds the new leader's uncommitted no-op
    let mut sim = Sim::new(3);
    sim.elect(0, &[]);
    assert_eq!(sim.nodes[1].storage.current_index(), 1);
    assert_eq!(sim.nodes[1].commit_index, 0);

    // a newer leader without that entry names a conflicting term
    let mut effs = Vec::new();
    let resp = sim.nodes[1].handle_append_entries(
        AppendEntries {
            term: 5,
            leader_id: NodeId(2),
            prev_log_index: 1,
            prev_log_term: 4,
            entries: Vec::new(),
            leader_commit: 0,
            message_index: 1,
        },
        &mut effs,
    );
    assert!(!resp.success);
    assert_eq!(sim.nodes[1].storage.current_index(), 0);
}

#[test]
fn read_waits_for_the_leaders_own_term() {
    // a fresh leader of three with one silent peer: the read barrier
    // needs a quorum acknowledgement newer than the read's tag
    let mut sim = Sim::new(3);
    sim.elect(0, &[2]);
    assert_eq!(sim.nodes[0].status().state, State::Leader);

    sim.read(0, 7, &[2]);
    assert!(sim.granted_reads.is_empty(), "the read is held, not granted");
    assert!(!sim.rejected_reads.contains_key(&7), "the read is held, not rejected");

    // the next heartbeat round carries a fresher tag; its echo
    // satisfies the read
    sim.heartbeat(0, &[2]);
    assert_eq!(sim.granted_reads, vec![7]);
}

/// Runs one client command line through the session and the cluster,
/// returning the exact RESP reply bytes, as the connection layer
/// would.
fn client_command(
    sim: &mut Sim,
    sessions: &mut Vec<RedisSession>,
    node: usize,
    line: &[&str],
    next_id: &mut u64,
) -> Vec<u8> {
    let cluster_hosts: Vec<(Vec<u8>, u16)> =
        (0..sim.nodes.len()).map(|i| (bytes("127.0.0.1"), 6379 + i as u16)).collect();
    let name = bytes(line[0]);
    let args: Vec<Vec<u8>> = line[1..].iter().map(|s| bytes(s)).collect();
    let result = match sessions[node].call(&name, &args) {
        SessionOutput::Reply(r) => r,
        SessionOutput::Dispatch(c, args) => match c {
            RedisCommand::Write(_) => {
                *next_id += 1;
                let id = *next_id;
                sim.write(node, id, single_payload(line[0], &args), &[]);
                finish_write(sim, id, &cluster_hosts)
            },
            RedisCommand::Read(_) => {
                *next_id += 1;
                let id = *next_id;
                sim.read(node, id, &[]);
                if sim.granted_reads.contains(&id) {
                    let mut argv = vec![name.clone()];
                    argv.extend(args);
                    sim.dicts[node].run(&argv)
                } else {
                    redirect(sim.rejected_reads.get(&id).cloned().flatten(), &cluster_hosts)
                }
            },
            _ => panic!("the scenarios use writes and reads"),
        },
        SessionOutput::Exec(batch) => {
            *next_id += 1;
            let id = *next_id;
            sim.write(node, id, encode_batch(&batch), &[]);
            finish_write(sim, id, &cluster_hosts)
        },
    };
    let mut wire = Vec::new();
    encode(&result, &mut wire);
    wire
}

fn finish_write(
    sim: &mut Sim,
    id: u64,
    hosts: &[(Vec<u8>, u16)],
) -> Result<Value, RedisError> {
    if let Some(r) = sim.write_replies.remove(&id) {
        r
    } else {
        redirect(sim.rejected_writes.get(&id).cloned().flatten(), hosts)
    }
}

/// The session-layer rewriting of a not-the-leader answer.
fn redirect(leader: Option<NodeId>, hosts: &[(Vec<u8>, u16)]) -> Result<Value, RedisError> {
    match leader {
        Some(id) => {
            let (host, port) = hosts[id.0 as usize].clone();
            Err(RedisError::Moved { slot: 0, host, port })
        },
        None => Err(RedisError::ClusterDown(bytes("No leader"))),
    }
}

#[test]
fn set_then_get_round_trip() {
    let mut sim = Sim::new(1);
    sim.elect(0, &[]);
    let mut sessions = vec![RedisSession::new()];
    let mut id = 0;
    assert_eq!(
        client_command(&mut sim, &mut sessions, 0, &["SET", "foo", "bar"], &mut id),
        b"+OK\r\n".to_vec()
    );
    assert_eq!(
        client_command(&mut sim, &mut sessions, 0, &["GET", "foo"], &mut id),
        b"$3\r\nbar\r\n".to_vec()
    );
}

#[test]
fn rpush_then_lrange() {
    let mut sim = Sim::new(1);
    sim.elect(0, &[]);
    let mut sessions = vec![RedisSession::new()];
    let mut id = 0;
    assert_eq!(
        client_command(&mut sim, &mut sessions, 0, &["RPUSH", "l", "a", "b", "c"], &mut id),
        b":3\r\n".to_vec()
    );
    assert_eq!(
        client_command(&mut sim, &mut sessions, 0, &["LRANGE", "l", "0", "-1"], &mut id),
        b"*3\r\n$1\r\na\r\n$1\r\nb\r\n$1\r\nc\r\n".to_vec()
    );
}

#[test]
fn transaction_applies_atomically() {
    let mut sim = Sim::new(1);
    sim.elect(0, &[]);
    let mut sessions = vec![RedisSession::new()];
    let mut id = 0;
    assert_eq!(
        client_command(&mut sim, &mut sessions, 0, &["MULTI"], &mut id),
        b"+OK\r\n".to_vec()
    );
    assert_eq!(
        client_command(&mut sim, &mut sessions, 0, &["INCR", "x"], &mut id),
        b"+QUEUED\r\n".to_vec()
    );
    assert_eq!(
        client_command(&mut sim, &mut sessions, 0, &["INCR", "x"], &mut id),
        b"+QUEUED\r\n".to_vec()
    );
    assert_eq!(
        client_command(&mut sim, &mut sessions, 0, &["EXEC"], &mut id),
        b"*2\r\n:1\r\n:2\r\n".to_vec()
    );
}

#[test]
fn aborted_transaction_reports_execabort() {
    let mut sim = Sim::new(1);
    sim.elect(0, &[]);
    let mut sessions = vec![RedisSession::new()];
    let mut id = 0;
    assert_eq!(
        client_command(&mut sim, &mut sessions, 0, &["MULTI"], &mut id),
        b"+OK\r\n".to_vec()
    );
    let reply = client_command(&mut sim, &mut sessions, 0, &["NOSUCHCMD"], &mut id);
    assert!(reply.starts_with(b"-ERR unknown command"), "{reply:?}");
    let reply = client_command(&mut sim, &mut sessions, 0, &["EXEC"], &mut id);
    assert!(reply.starts_with(b"-EXECABORT Transaction discarded"), "{reply:?}");
}

#[test]
fn writes_on_a_follower_are_redirected() {
    let mut sim = Sim::new(3);
    sim.elect(0, &[]);
    let mut sessions = vec![RedisSession::new(), RedisSession::new(), RedisSession::new()];
    let mut id = 0;
    assert_eq!(
        client_command(&mut sim, &mut sessions, 1, &["SET", "a", "b"], &mut id),
        b"-MOVED 0 127.0.0.1:6379\r\n".to_vec()
    );
}

#[test]
fn reads_without_a_leader_report_clusterdown() {
    let mut sim = Sim::new(3);
    let mut sessions = vec![RedisSession::new(), RedisSession::new(), RedisSession::new()];
    let mut id = 0;
    assert_eq!(
        client_command(&mut sim, &mut sessions, 1, &["GET", "a"], &mut id),
        b"-CLUSTERDOWN No leader\r\n".to_vec()
    );
}

#[test]
fn committed_entries_agree_and_applications_are_prefixes() {
    // churn a three-node cluster with drops, duplicates and competing
    // elections, then check the two safety properties
    let mut sim = Sim::new(3);
    sim.drop_percent = 20;
    sim.duplicate_percent = 10;
    let mut id = 100;
    for round in 0..40 {
        let candidate = (sim.next_rand() % 3) as usize;
        if sim.leader().is_none() || sim.chance(30) {
            if sim.nodes[candidate].status().state != State::Leader {
                sim.elect(candidate, &[]);
            }
        }
        if let Some(leader) = sim.leader() {
            id += 1;
            let key = format!("k{}", round % 5);
            let val = format!("v{round}");
            sim.write(
                leader,
                id,
                single_payload("SET", &[bytes(&key), bytes(&val)]),
                &[],
            );
            sim.heartbeat(leader, &[]);
        }
    }
    // quiesce: no more faults, a few heartbeats from the leader
    sim.drop_percent = 0;
    sim.duplicate_percent = 0;
    if sim.leader().is_none() {
        sim.elect(0, &[]);
    }
    let leader = sim.leader().expect("a quiet majority elects a leader");
    for _ in 0..4 {
        sim.heartbeat(leader, &[]);
    }

    // exactly one leader in the final quiescent state
    let leaders: Vec<_> =
        sim.nodes.iter().filter(|n| n.status().state == State::Leader).collect();
    assert_eq!(leaders.len(), 1);

    // State Machine Safety: entries committed on two nodes agree
    for a in 0..3 {
        for b in 0..3 {
            let limit = sim.nodes[a].commit_index.min(sim.nodes[b].commit_index);
            for i in 1..=limit {
                let ea = sim.nodes[a].storage.entry(i).unwrap().unwrap();
                let eb = sim.nodes[b].storage.entry(i).unwrap().unwrap();
                assert_eq!(ea, eb, "entry {i} differs between {a} and {b}");
            }
        }
    }

    // the applied command sequences are prefixes of one another
    for a in 0..3 {
        for b in 0..3 {
            let (short, long) = if sim.applied[a].len() <= sim.applied[b].len() {
                (&sim.applied[a], &sim.applied[b])
            } else {
                (&sim.applied[b], &sim.applied[a])
            };
            assert_eq!(short.as_slice(), &long[..short.len()]);
        }
    }
}
